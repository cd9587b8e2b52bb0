//! Expressions ("query functions"): a constant literal, or a path looked up in a snapshot.
use vstd::prelude::*;
use crate::event::{Event, Value, ValueView};

verus! {

/// The model of an expression.
pub enum QueryView {
    Literal(ValueView),
    Path(Seq<char>),
}

/// The message of a lookup that found nothing at `path`.
pub open spec fn not_found_text(path: Seq<char>) -> Seq<char> {
    "path "@ + path + " not found in event"@
}

/// What evaluating `q` against a snapshot `ctx` yields: a value, or an error message.
pub open spec fn eval(q: QueryView, ctx: Map<Seq<char>, ValueView>) -> Result<ValueView, Seq<char>> {
    match q {
        QueryView::Literal(v) => Ok(v),
        QueryView::Path(p) => if ctx.contains_key(p) {
            Ok(ctx[p])
        } else {
            Err(not_found_text(p))
        },
    }
}

/// The model of an evaluation result.
pub open spec fn result_view(r: Result<Value, String>) -> Result<ValueView, Seq<char>> {
    match r {
        Ok(v) => Ok(v@),
        Err(e) => Err(e@),
    }
}

/// An expression that produces a value from a read-only snapshot of an event.
pub trait Function {
    spec fn eval_spec(&self, ctx: Map<Seq<char>, ValueView>) -> Result<ValueView, Seq<char>>;

    fn execute(&self, context: &Event) -> (r: Result<Value, String>)
        requires
            context.wf(),
        ensures
            result_view(r) == self.eval_spec(context@),
    ;
}

/// A constant value; evaluating it ignores the snapshot.
#[derive(Debug)]
pub struct Literal {
    value: Value,
}

impl View for Literal {
    type V = ValueView;

    closed spec fn view(&self) -> ValueView {
        self.value@
    }
}

impl From<Value> for Literal {
    fn from(value: Value) -> (r: Literal)
        ensures
            r@ == value@,
    {
        Literal { value }
    }
}

impl vstd::std_specs::convert::FromSpecImpl<Value> for Literal {
    open spec fn obeys_from_spec() -> bool {
        true
    }

    closed spec fn from_spec(v: Value) -> Literal {
        Literal { value: v }
    }
}

impl Function for Literal {
    open spec fn eval_spec(&self, ctx: Map<Seq<char>, ValueView>) -> Result<ValueView, Seq<char>> {
        eval(QueryView::Literal(self@), ctx)
    }

    fn execute(&self, context: &Event) -> (r: Result<Value, String>) {
        Ok(self.value.duplicate())
    }
}

/// A reference to the field at a dot-separated path (stored without its leading dot).
#[derive(Debug)]
pub struct Path {
    path: String,
}

impl View for Path {
    type V = Seq<char>;

    closed spec fn view(&self) -> Seq<char> {
        self.path@
    }
}

impl Path {
    pub fn new(target: &str) -> (r: Path)
        ensures
            r@ == target@,
    {
        Path { path: String::from_str(target) }
    }
}

impl Function for Path {
    open spec fn eval_spec(&self, ctx: Map<Seq<char>, ValueView>) -> Result<ValueView, Seq<char>> {
        eval(QueryView::Path(self@), ctx)
    }

    fn execute(&self, context: &Event) -> (r: Result<Value, String>) {
        match context.get(self.path.as_str()) {
            Some(v) => Ok(v),
            None => {
                let msg = String::from_str("path ").concat(self.path.as_str()).concat(
                    " not found in event",
                );
                Err(msg)
            },
        }
    }
}

/// The closed set of expression kinds.
#[derive(Debug)]
pub enum Query {
    Literal(Literal),
    Path(Path),
}

impl View for Query {
    type V = QueryView;

    open spec fn view(&self) -> QueryView {
        match self {
            Query::Literal(l) => QueryView::Literal(l@),
            Query::Path(p) => QueryView::Path(p@),
        }
    }
}

impl Function for Query {
    open spec fn eval_spec(&self, ctx: Map<Seq<char>, ValueView>) -> Result<ValueView, Seq<char>> {
        eval(self@, ctx)
    }

    fn execute(&self, context: &Event) -> (r: Result<Value, String>) {
        match self {
            Query::Literal(l) => l.execute(context),
            Query::Path(p) => p.execute(context),
        }
    }
}

/// Evaluating a literal gives its value, whatever the snapshot.
pub proof fn lemma_literal_ignores_snapshot(
    v: ValueView,
    ctx1: Map<Seq<char>, ValueView>,
    ctx2: Map<Seq<char>, ValueView>,
)
    ensures
        eval(QueryView::Literal(v), ctx1) == eval(QueryView::Literal(v), ctx2),
        eval(QueryView::Literal(v), ctx1) == Ok::<ValueView, Seq<char>>(v),
{
}

} // verus!
