//! The mapping language's grammar, and the parser from source text to a `Mapping`.
//!
//! ```text
//! mapping    = assignment (NEWLINE assignment)* EOI
//! assignment = dot_path "=" (dot_path | boolean | null | string | number)
//! dot_path   = "." segment ("." segment)*        segment = [A-Za-z0-9_]+
//! boolean    = "true" | "false"                   null = "null"
//! string     = '"' (any but '"')* '"'             number = "-"? digit+ ("." digit+)?
//! ```
//! Spaces and tabs may stand between tokens; NEWLINE is "\n", "\r\n" or "\r".
use vstd::prelude::*;
use crate::event::{Value, ValueView};
use crate::mapping::{Assignment, Mapping};
use crate::query::{Literal, Path, Query, QueryView};

verus! {

/// The sets of characters that the scanner skips over.
#[derive(Clone, Copy)]
pub enum CharClass {
    Space,
    Segment,
    Digit,
    Unquoted,
}

pub open spec fn in_class(cls: CharClass, c: char) -> bool {
    match cls {
        CharClass::Space => c == ' ' || c == '\t',
        CharClass::Segment => ('a' <= c && c <= 'z') || ('A' <= c && c <= 'Z') || ('0' <= c
            && c <= '9') || c == '_',
        CharClass::Digit => '0' <= c && c <= '9',
        CharClass::Unquoted => c != '"',
    }
}

/// The first position at or after `i` whose character is not in `cls` (or the end).
pub open spec fn scan_end(s: Seq<char>, i: int, cls: CharClass) -> int
    decreases s.len() - i,
{
    if 0 <= i < s.len() && in_class(cls, s[i]) {
        scan_end(s, i + 1, cls)
    } else {
        i
    }
}

pub open spec fn skip_ws(s: Seq<char>, i: int) -> int {
    scan_end(s, i, CharClass::Space)
}

/// Whether the characters of `lit` stand in `s` from `i`.
pub open spec fn has_lit(s: Seq<char>, i: int, lit: Seq<char>) -> bool {
    0 <= i && i + lit.len() <= s.len() && s.subrange(i, i + lit.len()) == lit
}

/// Where the further `"." segment` parts of a dot path starting at `i` end.
pub open spec fn path_tail(s: Seq<char>, i: int) -> int
    decreases s.len() - i,
{
    if 0 <= i < s.len() && s[i] == '.' && i + 1 < scan_end(s, i + 1, CharClass::Segment)
        <= s.len() {
        path_tail(s, scan_end(s, i + 1, CharClass::Segment))
    } else {
        i
    }
}

/// The end of the dot path at `i`, if one stands there.
pub open spec fn dot_path_end(s: Seq<char>, i: int) -> Option<int> {
    if 0 <= i < s.len() && s[i] == '.' && i + 1 < scan_end(s, i + 1, CharClass::Segment) {
        Some(path_tail(s, scan_end(s, i + 1, CharClass::Segment)))
    } else {
        None
    }
}

/// The end of the number at `i`, if one stands there.
pub open spec fn number_end(s: Seq<char>, i: int) -> Option<int> {
    let j = if 0 <= i < s.len() && s[i] == '-' { i + 1 } else { i };
    let d = scan_end(s, j, CharClass::Digit);
    if !(0 <= i) || d == j {
        None
    } else if d < s.len() && s[d] == '.' && d + 1 < scan_end(s, d + 1, CharClass::Digit) {
        Some(scan_end(s, d + 1, CharClass::Digit))
    } else {
        Some(d)
    }
}

/// The end of the quoted string at `i` (after its closing quote), if one stands there.
pub open spec fn string_end(s: Seq<char>, i: int) -> Option<int> {
    if 0 <= i < s.len() && s[i] == '"' && scan_end(s, i + 1, CharClass::Unquoted) < s.len() {
        Some(scan_end(s, i + 1, CharClass::Unquoted) + 1)
    } else {
        None
    }
}

/// The expression at `i` and where it ends; the alternatives are tried in grammar order.
pub open spec fn query_at(s: Seq<char>, i: int) -> Option<(QueryView, int)> {
    if dot_path_end(s, i) is Some {
        let e = dot_path_end(s, i)->Some_0;
        Some((QueryView::Path(s.subrange(i + 1, e)), e))
    } else if has_lit(s, i, "true"@) {
        Some((QueryView::Literal(ValueView::Boolean(true)), i + 4))
    } else if has_lit(s, i, "false"@) {
        Some((QueryView::Literal(ValueView::Boolean(false)), i + 5))
    } else if has_lit(s, i, "null"@) {
        Some((QueryView::Literal(ValueView::Null), i + 4))
    } else if string_end(s, i) is Some {
        let e = string_end(s, i)->Some_0;
        Some((QueryView::Literal(ValueView::Str(s.subrange(i + 1, e - 1))), e))
    } else if number_end(s, i) is Some {
        let e = number_end(s, i)->Some_0;
        Some((QueryView::Literal(ValueView::Number(s.subrange(i, e))), e))
    } else {
        None
    }
}

/// What the parser expected where it failed.
#[derive(Clone, Copy, Debug, PartialEq, Eq, Structural)]
pub enum Expected {
    DotPath,
    Assignment,
    Expression,
    EndOfInput,
}

/// The assignment at `p`, and where it ends; or where and what the failure is.
pub open spec fn assignment_at(s: Seq<char>, p: int) -> Result<
    ((Seq<char>, QueryView), int),
    (int, Expected),
> {
    match dot_path_end(s, p) {
        None => Err((p, Expected::DotPath)),
        Some(e) => {
            let q = skip_ws(s, e);
            if 0 <= q < s.len() && s[q] == '=' {
                let v = skip_ws(s, q + 1);
                match query_at(s, v) {
                    None => Err((v, Expected::Expression)),
                    Some(r) => Ok(((s.subrange(p + 1, e), r.0), r.1)),
                }
            } else {
                Err((p, Expected::Assignment))
            }
        },
    }
}

/// The end of the line break at `k`, if one stands there.
pub open spec fn newline_end(s: Seq<char>, k: int) -> Option<int> {
    if has_lit(s, k, "\r\n"@) {
        Some(k + 2)
    } else if 0 <= k < s.len() && (s[k] == '\n' || s[k] == '\r') {
        Some(k + 1)
    } else {
        None
    }
}

/// The assignments that follow the one ending at `e`, appended to `acc`.
pub open spec fn lines_from(
    s: Seq<char>,
    e: int,
    acc: Seq<(Seq<char>, QueryView)>,
) -> Result<Seq<(Seq<char>, QueryView)>, (int, Expected)>
    decreases s.len() - e,
{
    let k = skip_ws(s, e);
    if newline_end(s, k) is Some {
        let p = skip_ws(s, newline_end(s, k)->Some_0);
        match assignment_at(s, p) {
            Err(x) => Err(x),
            // An assignment always ends after `e` and within `s`: the test only makes the
            // recursion's progress evident.
            Ok(r) => if e < r.1 <= s.len() {
                lines_from(s, r.1, acc.push(r.0))
            } else {
                Err((r.1, Expected::EndOfInput))
            },
        }
    } else if k == s.len() {
        Ok(acc)
    } else {
        Err((k, Expected::EndOfInput))
    }
}

/// The assignments of a whole script in source order; or the position and the expected
/// symbols of its syntax error.
pub open spec fn parse_spec(s: Seq<char>) -> Result<Seq<(Seq<char>, QueryView)>, (int, Expected)> {
    match assignment_at(s, skip_ws(s, 0)) {
        Err(x) => Err(x),
        Ok(r) => lines_from(s, r.1, seq![r.0]),
    }
}

/// The message that lists what was expected.
pub open spec fn expected_text(x: Expected) -> Seq<char> {
    match x {
        Expected::DotPath => "expected dot_path"@,
        Expected::Assignment => "expected assignment"@,
        Expected::Expression => "expected dot_path, boolean, null, string, or number"@,
        Expected::EndOfInput => "expected EOI"@,
    }
}

/// The diagnostic that pest renders for `message` at char position `pos` of `input`.
pub uninterp spec fn error_frame(input: Seq<char>, pos: nat, message: Seq<char>) -> Seq<char>;

/// Relies on pest's `Error::new_from_pos` with a `CustomError` variant and its `Display`:
/// " --> line:col", the offending line, a caret under the position, then the message.
/// The char position is converted to the byte offset that `Position::new` takes.
#[verifier::external_body]
fn render_error(input: &str, pos: usize, message: String) -> (r: String)
    requires
        pos <= input@.len(),
    ensures
        r@ == error_frame(input@, pos as nat, message@),
{
    let byte = input.char_indices().nth(pos).map_or(input.len(), |(b, _)| b);
    let variant = pest::error::ErrorVariant::<()>::CustomError { message };
    pest::error::Error::new_from_pos(variant, pest::Position::new(input, byte).unwrap()).to_string()
}

/// Source order is kept: the assignments already recognised stand, in their order, at
/// the front of what the rest of the script yields.
pub proof fn lemma_lines_keep_order(s: Seq<char>, e: int, acc: Seq<(Seq<char>, QueryView)>)
    requires
        lines_from(s, e, acc) is Ok,
    ensures
        acc.len() <= lines_from(s, e, acc)->Ok_0.len(),
        lines_from(s, e, acc)->Ok_0.subrange(0, acc.len() as int) == acc,
    decreases s.len() - e,
{
    let k = skip_ws(s, e);
    if newline_end(s, k) is Some {
        let p = skip_ws(s, newline_end(s, k)->Some_0);
        let r = assignment_at(s, p)->Ok_0;
        lemma_lines_keep_order(s, r.1, acc.push(r.0));
        let out = lines_from(s, e, acc)->Ok_0;
        assert(out.subrange(0, acc.len() as int) =~= out.subrange(0, acc.len() + 1 as int).subrange(0, acc.len() as int));
        assert(acc.push(r.0).subrange(0, acc.len() as int) =~= acc);
    } else {
        assert(acc.subrange(0, acc.len() as int) =~= acc);
    }
}

/// Source order is kept: the first assignment of a script that parses is the one its
/// first line holds, and it stands first in the result.
pub proof fn lemma_first_line_first(s: Seq<char>)
    requires
        parse_spec(s) is Ok,
    ensures
        assignment_at(s, skip_ws(s, 0)) is Ok,
        parse_spec(s)->Ok_0.len() >= 1,
        parse_spec(s)->Ok_0[0] == assignment_at(s, skip_ws(s, 0))->Ok_0.0,
{
    let r = assignment_at(s, skip_ws(s, 0))->Ok_0;
    lemma_lines_keep_order(s, r.1, seq![r.0]);
    assert(parse_spec(s)->Ok_0.subrange(0, 1)[0] == parse_spec(s)->Ok_0[0]);
}

proof fn lemma_scan_bounds(s: Seq<char>, i: int, cls: CharClass)
    requires
        0 <= i <= s.len(),
    ensures
        i <= scan_end(s, i, cls) <= s.len(),
    decreases s.len() - i,
{
    if i < s.len() && in_class(cls, s[i]) {
        lemma_scan_bounds(s, i + 1, cls);
    }
}

fn class_has(cls: CharClass, c: char) -> (r: bool)
    ensures
        r == in_class(cls, c),
{
    match cls {
        CharClass::Space => c == ' ' || c == '\t',
        CharClass::Segment => ('a' <= c && c <= 'z') || ('A' <= c && c <= 'Z') || ('0' <= c
            && c <= '9') || c == '_',
        CharClass::Digit => '0' <= c && c <= '9',
        CharClass::Unquoted => c != '"',
    }
}

/// The first position at or after `i` whose character is not in `cls`.
fn scan(input: &str, n: usize, i: usize, cls: CharClass) -> (r: usize)
    requires
        n == input@.len(),
        i <= n,
    ensures
        r == scan_end(input@, i as int, cls),
        i <= r <= n,
{
    let mut j: usize = i;
    while j < n && class_has(cls, input.get_char(j))
        invariant
            n == input@.len(),
            i <= j <= n,
            scan_end(input@, j as int, cls) == scan_end(input@, i as int, cls),
        decreases n - j,
    {
        j = j + 1;
    }
    j
}

/// Whether the characters of `lit` stand in `input` from `i`.
fn lit_at(input: &str, n: usize, i: usize, lit: &str) -> (r: bool)
    requires
        n == input@.len(),
        i <= n,
    ensures
        r == has_lit(input@, i as int, lit@),
{
    let m = lit.unicode_len();
    if m > n - i {
        return false;
    }
    let mut k: usize = 0;
    while k < m
        invariant
            n == input@.len(),
            m == lit@.len(),
            i + m <= n,
            k <= m,
            forall|j: int| 0 <= j < k ==> input@[i + j] == lit@[j],
        decreases m - k,
    {
        if input.get_char(i + k) != lit.get_char(k) {
            assert(input@.subrange(i as int, i + m)[k as int] != lit@[k as int]);
            return false;
        }
        k = k + 1;
    }
    assert(input@.subrange(i as int, i + m) =~= lit@);
    true
}

fn path_tail_exec(input: &str, n: usize, i: usize) -> (r: usize)
    requires
        n == input@.len(),
        i <= n,
    ensures
        r == path_tail(input@, i as int),
        i <= r <= n,
    decreases n - i,
{
    if i < n && input.get_char(i) == '.' {
        let k = scan(input, n, i + 1, CharClass::Segment);
        if k > i + 1 {
            return path_tail_exec(input, n, k);
        }
    }
    i
}

/// The end of the dot path at `i`, if one stands there.
fn dot_path_at(input: &str, n: usize, i: usize) -> (r: Option<usize>)
    requires
        n == input@.len(),
        i <= n,
    ensures
        match dot_path_end(input@, i as int) {
            Some(e) => r == Some(e as usize) && i < e <= n,
            None => r is None,
        },
{
    if i < n && input.get_char(i) == '.' {
        let k = scan(input, n, i + 1, CharClass::Segment);
        if k > i + 1 {
            return Some(path_tail_exec(input, n, k));
        }
    }
    None
}

fn number_at(input: &str, n: usize, i: usize) -> (r: Option<usize>)
    requires
        n == input@.len(),
        i <= n,
    ensures
        match number_end(input@, i as int) {
            Some(e) => r == Some(e as usize) && i < e <= n,
            None => r is None,
        },
{
    let j: usize = if i < n && input.get_char(i) == '-' { i + 1 } else { i };
    let d = scan(input, n, j, CharClass::Digit);
    if d == j {
        return None;
    }
    if d < n && input.get_char(d) == '.' {
        let f = scan(input, n, d + 1, CharClass::Digit);
        if f > d + 1 {
            return Some(f);
        }
    }
    Some(d)
}

fn string_at(input: &str, n: usize, i: usize) -> (r: Option<usize>)
    requires
        n == input@.len(),
        i <= n,
    ensures
        match string_end(input@, i as int) {
            Some(e) => r == Some(e as usize) && i + 2 <= e <= n,
            None => r is None,
        },
{
    if i < n && input.get_char(i) == '"' {
        let q = scan(input, n, i + 1, CharClass::Unquoted);
        if q < n {
            return Some(q + 1);
        }
    }
    None
}

fn text(input: &str, from: usize, to: usize) -> (r: String)
    requires
        from <= to <= input@.len(),
    ensures
        r@ == input@.subrange(from as int, to as int),
{
    String::from_str(input.substring_char(from, to))
}

/// The expression at `i`, and where it ends.
fn query_from(input: &str, n: usize, i: usize) -> (r: Option<(Query, usize)>)
    requires
        n == input@.len(),
        i <= n,
    ensures
        match query_at(input@, i as int) {
            Some(q) => r is Some && r->Some_0.0@ == q.0 && r->Some_0.1 == q.1 && i < q.1 <= n,
            None => r is None,
        },
{
    if let Some(e) = dot_path_at(input, n, i) {
        let p = Path::new(input.substring_char(i + 1, e));
        return Some((Query::Path(p), e));
    }
    proof {
        reveal_strlit("true");
        reveal_strlit("false");
        reveal_strlit("null");
    }
    if lit_at(input, n, i, "true") {
        return Some((Query::Literal(Literal::from(Value::Boolean(true))), i + 4));
    }
    if lit_at(input, n, i, "false") {
        return Some((Query::Literal(Literal::from(Value::Boolean(false))), i + 5));
    }
    if lit_at(input, n, i, "null") {
        return Some((Query::Literal(Literal::from(Value::Null)), i + 4));
    }
    if let Some(e) = string_at(input, n, i) {
        let v = Value::Str(text(input, i + 1, e - 1));
        return Some((Query::Literal(Literal::from(v)), e));
    }
    if let Some(e) = number_at(input, n, i) {
        let v = Value::Number(text(input, i, e));
        return Some((Query::Literal(Literal::from(v)), e));
    }
    None
}

/// The assignment at `p`, and where it ends; or where and what the failure is.
fn assignment_from(input: &str, n: usize, p: usize) -> (r: Result<(Assignment, usize), (usize, Expected)>)
    requires
        n == input@.len(),
        p <= n,
    ensures
        match assignment_at(input@, p as int) {
            Ok(a) => r is Ok && r->Ok_0.0@ == a.0 && r->Ok_0.1 == a.1 && p < a.1 <= n,
            Err(x) => r is Err && r->Err_0.0 == x.0 && r->Err_0.1 == x.1 && x.0 <= n,
        },
{
    let e = match dot_path_at(input, n, p) {
        None => return Err((p, Expected::DotPath)),
        Some(e) => e,
    };
    let q = scan(input, n, e, CharClass::Space);
    if q < n && input.get_char(q) == '=' {
        let v = scan(input, n, q + 1, CharClass::Space);
        match query_from(input, n, v) {
            None => Err((v, Expected::Expression)),
            Some((query, end)) => Ok((Assignment::new(text(input, p + 1, e), query), end)),
        }
    } else {
        Err((p, Expected::Assignment))
    }
}

fn newline_at(input: &str, n: usize, k: usize) -> (r: Option<usize>)
    requires
        n == input@.len(),
        k <= n,
    ensures
        match newline_end(input@, k as int) {
            Some(e) => r == Some(e as usize) && k < e <= n,
            None => r is None,
        },
{
    proof {
        reveal_strlit("\r\n");
    }
    if lit_at(input, n, k, "\r\n") {
        Some(k + 2)
    } else if k < n && (input.get_char(k) == '\n' || input.get_char(k) == '\r') {
        Some(k + 1)
    } else {
        None
    }
}

/// The assignments of a whole script, or the position and kind of its syntax error.
fn mapping_from(input: &str, n: usize) -> (r: Result<Vec<Assignment>, (usize, Expected)>)
    requires
        n == input@.len(),
    ensures
        match parse_spec(input@) {
            Ok(a) => r is Ok && r->Ok_0@.map_values(|x: Assignment| x@) == a,
            Err(x) => r is Err && r->Err_0.0 == x.0 && r->Err_0.1 == x.1 && x.0 <= n,
        },
{
    let p0 = scan(input, n, 0, CharClass::Space);
    let (first, mut e) = match assignment_from(input, n, p0) {
        Err(x) => return Err(x),
        Ok(r) => r,
    };
    let mut acc: Vec<Assignment> = Vec::new();
    acc.push(first);
    assert(acc@.map_values(|x: Assignment| x@) =~= seq![first@]);
    loop
        invariant
            n == input@.len(),
            e <= n,
            lines_from(input@, e as int, acc@.map_values(|x: Assignment| x@)) == parse_spec(input@),
        decreases n - e,
    {
        let k = scan(input, n, e, CharClass::Space);
        match newline_at(input, n, k) {
            None => {
                if k == n {
                    return Ok(acc);
                } else {
                    return Err((k, Expected::EndOfInput));
                }
            },
            Some(after) => {
                let p = scan(input, n, after, CharClass::Space);
                match assignment_from(input, n, p) {
                    Err(x) => return Err(x),
                    Ok((a, end)) => {
                        let ghost before = acc@.map_values(|x: Assignment| x@);
                        let ghost av = a@;
                        acc.push(a);
                        assert(acc@.map_values(|x: Assignment| x@) =~= before.push(av));
                        e = end;
                    },
                }
            },
        }
    }
}

fn expected_message(x: Expected) -> (r: String)
    ensures
        r@ == expected_text(x),
{
    match x {
        Expected::DotPath => String::from_str("expected dot_path"),
        Expected::Assignment => String::from_str("expected assignment"),
        Expected::Expression => String::from_str("expected dot_path, boolean, null, string, or number"),
        Expected::EndOfInput => String::from_str("expected EOI"),
    }
}

/// Parses a mapping script. On a syntax error the message is "parse error" followed by
/// the rendered diagnostic: line and column, the offending line with a caret under the
/// failure, and the grammar symbols that were expected there.
pub fn parse(input: &str) -> (r: Result<Mapping, String>)
    ensures
        match parse_spec(input@) {
            Ok(a) => r is Ok && r->Ok_0@ == a,
            Err(x) => r is Err && r->Err_0@ == "parse error"@ + error_frame(
                input@,
                x.0 as nat,
                expected_text(x.1),
            ),
        },
{
    let n = input.unicode_len();
    match mapping_from(input, n) {
        Ok(assignments) => Ok(Mapping::new(assignments)),
        Err((pos, x)) => {
            let frame = render_error(input, pos, expected_message(x));
            Err(String::from_str("parse error").concat(frame.as_str()))
        },
    }
}

} // verus!
