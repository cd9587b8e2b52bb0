//! A small field-mapping language: scripts of `.target = expression` lines are
//! parsed into a `Mapping`, which is then applied to an `Event`.
pub mod event;
pub mod query;
pub mod mapping;
pub mod parser;

pub use event::{Event, Value, ValueView};
pub use query::{Function, Literal, Path, Query, QueryView};
pub use mapping::{Assignment, Mapping};
pub use parser::parse;
