//! Assignments and the mapping engine that applies them to an event.
use vstd::prelude::*;
use crate::event::{Event, ValueView};
use crate::query::{eval, result_view, Function, Query, QueryView};

verus! {

/// The character of a decimal digit.
pub open spec fn digit(d: nat) -> char {
    if d == 0 { '0' } else if d == 1 { '1' } else if d == 2 { '2' } else if d == 3 { '3' }
    else if d == 4 { '4' } else if d == 5 { '5' } else if d == 6 { '6' } else if d == 7 { '7' }
    else if d == 8 { '8' } else { '9' }
}

/// The decimal text of `n`, without leading zeros.
pub open spec fn decimal(n: nat) -> Seq<char>
    decreases n,
{
    if n < 10 {
        seq![digit(n)]
    } else {
        decimal(n / 10).push(digit(n % 10))
    }
}

/// The message of a mapping whose assignment number `index` (from 0) failed with `cause`.
pub open spec fn failure_text(index: nat, cause: Seq<char>) -> Seq<char> {
    "failed to apply mapping "@ + decimal(index) + ": "@ + cause
}

/// The index of the first assignment at or after `k` whose expression fails against `ctx`,
/// or the number of assignments if none does.
pub open spec fn first_failure(
    a: Seq<(Seq<char>, QueryView)>,
    ctx: Map<Seq<char>, ValueView>,
    k: int,
) -> int
    decreases a.len() - k,
{
    if k >= a.len() {
        a.len() as int
    } else if eval(a[k].1, ctx) is Err {
        k
    } else {
        first_failure(a, ctx, k + 1)
    }
}

/// `target` after the first `n` assignments have written what they evaluate to against `ctx`.
pub open spec fn run(
    a: Seq<(Seq<char>, QueryView)>,
    ctx: Map<Seq<char>, ValueView>,
    target: Map<Seq<char>, ValueView>,
    n: int,
) -> Map<Seq<char>, ValueView>
    decreases n,
{
    if n <= 0 {
        target
    } else {
        run(a, ctx, target, n - 1).insert(a[n - 1].0, eval(a[n - 1].1, ctx)->Ok_0)
    }
}

fn digit_str(d: usize) -> (r: &'static str)
    requires
        d < 10,
    ensures
        r@ == seq![digit(d as nat)],
{
    if d == 0 {
        proof { reveal_strlit("0"); }
        "0"
    } else if d == 1 {
        proof { reveal_strlit("1"); }
        "1"
    } else if d == 2 {
        proof { reveal_strlit("2"); }
        "2"
    } else if d == 3 {
        proof { reveal_strlit("3"); }
        "3"
    } else if d == 4 {
        proof { reveal_strlit("4"); }
        "4"
    } else if d == 5 {
        proof { reveal_strlit("5"); }
        "5"
    } else if d == 6 {
        proof { reveal_strlit("6"); }
        "6"
    } else if d == 7 {
        proof { reveal_strlit("7"); }
        "7"
    } else if d == 8 {
        proof { reveal_strlit("8"); }
        "8"
    } else {
        proof { reveal_strlit("9"); }
        "9"
    }
}

/// The decimal text of `n`.
pub fn decimal_text(n: usize) -> (r: String)
    ensures
        r@ == decimal(n as nat),
    decreases n,
{
    if n < 10 {
        let r = String::from_str(digit_str(n));
        assert(r@ =~= decimal(n as nat));
        r
    } else {
        let mut r = decimal_text(n / 10);
        r.append(digit_str(n % 10));
        assert(r@ =~= decimal(n as nat));
        r
    }
}

/// One `target = expression` rule.
#[derive(Debug)]
pub struct Assignment {
    path: String,
    function: Query,
}

impl View for Assignment {
    type V = (Seq<char>, QueryView);

    closed spec fn view(&self) -> (Seq<char>, QueryView) {
        (self.path@, self.function@)
    }
}

impl Assignment {
    pub fn new(path: String, func: Query) -> (r: Assignment)
        ensures
            r@ == (path@, func@),
    {
        Assignment { path: path, function: func }
    }

    fn apply(&self, target: &mut Event, context: &Event) -> (r: Result<(), String>)
        requires
            old(target).wf(),
            context.wf(),
        ensures
            final(target).wf(),
            match eval(self@.1, context@) {
                Ok(v) => r is Ok && final(target)@ == old(target)@.insert(self@.0, v),
                Err(e) => r is Err && r->Err_0@ == e && final(target)@ == old(target)@,
            },
    {
        let v = self.function.execute(context);
        match v {
            Ok(v) => {
                target.insert(self.path.as_str(), v);
                Ok(())
            },
            Err(e) => Err(e),
        }
    }
}

/// An ordered sequence of assignments, in source order.
#[derive(Debug)]
pub struct Mapping {
    assignments: Vec<Assignment>,
}

impl View for Mapping {
    type V = Seq<(Seq<char>, QueryView)>;

    closed spec fn view(&self) -> Seq<(Seq<char>, QueryView)> {
        self.assignments@.map_values(|a: Assignment| a@)
    }
}

impl Mapping {
    pub fn new(assignments: Vec<Assignment>) -> (r: Mapping)
        ensures
            r@ == assignments@.map_values(|a: Assignment| a@),
    {
        Mapping { assignments }
    }

    /// The number of assignments.
    pub fn len(&self) -> (r: usize)
        ensures
            r == self@.len(),
    {
        self.assignments.len()
    }

    /// Applies the assignments in order to `event`. Every expression reads a snapshot of
    /// `event` taken before the first write. On the first failing expression the writes
    /// made so far stay and the error names that assignment's index (from 0).
    pub fn execute(self, event: &mut Event) -> (r: Result<(), String>)
        requires
            old(event).wf(),
        ensures
            final(event).wf(),
            ({
                let f = first_failure(self@, old(event)@, 0);
                &&& final(event)@ == run(self@, old(event)@, old(event)@, f)
                &&& (r is Ok <==> f == self@.len())
                &&& r is Err ==> r->Err_0@ == failure_text(f as nat, eval(self@[f].1, old(event)@)->Err_0)
            }),
    {
        let context = event.snapshot();
        let ghost a = self@;
        let ghost ctx = context@;
        let mut i: usize = 0;
        while i < self.assignments.len()
            invariant
                a == self@,
                a.len() == self.assignments.len(),
                context.wf(),
                event.wf(),
                ctx == context@,
                ctx == old(event)@,
                i <= a.len(),
                first_failure(a, ctx, 0) == first_failure(a, ctx, i as int),
                event@ == run(a, ctx, ctx, i as int),
            decreases a.len() - i,
        {
            let res = self.assignments[i].apply(event, &context);
            assert(self.assignments[i as int]@ == a[i as int]);
            match res {
                Err(err) => {
                    let msg = String::from_str("failed to apply mapping ").concat(
                        decimal_text(i).as_str(),
                    ).concat(": ").concat(err.as_str());
                    assert(first_failure(a, ctx, i as int) == i);
                    assert(msg@ =~= failure_text(i as nat, eval(a[i as int].1, ctx)->Err_0));
                    return Err(msg);
                },
                Ok(()) => {
                    assert(event@ == run(a, ctx, ctx, i + 1));
                },
            }
            i = i + 1;
        }
        Ok(())
    }
}

/// Snapshot isolation: after the first `n` assignments of a run, the field written by
/// assignment `i` (when no later one of them writes the same path) holds what its
/// expression gives against the snapshot `ctx`; what earlier assignments wrote into the
/// target is never read.
pub proof fn lemma_written_from_snapshot(
    a: Seq<(Seq<char>, QueryView)>,
    ctx: Map<Seq<char>, ValueView>,
    target: Map<Seq<char>, ValueView>,
    n: int,
    i: int,
)
    requires
        0 <= i < n <= a.len(),
        forall|j: int| i < j < n ==> a[j].0 != a[i].0,
    ensures
        run(a, ctx, target, n).contains_key(a[i].0),
        run(a, ctx, target, n)[a[i].0] == eval(a[i].1, ctx)->Ok_0,
    decreases n,
{
    if n - 1 != i {
        lemma_written_from_snapshot(a, ctx, target, n - 1, i);
    }
}

/// A field that none of the first `n` assignments writes keeps its value in the target.
pub proof fn lemma_unwritten_kept(
    a: Seq<(Seq<char>, QueryView)>,
    ctx: Map<Seq<char>, ValueView>,
    target: Map<Seq<char>, ValueView>,
    n: int,
    k: Seq<char>,
)
    requires
        0 <= n <= a.len(),
        forall|j: int| 0 <= j < n ==> a[j].0 != k,
    ensures
        run(a, ctx, target, n).contains_key(k) == target.contains_key(k),
        target.contains_key(k) ==> run(a, ctx, target, n)[k] == target[k],
    decreases n,
{
    if n > 0 {
        lemma_unwritten_kept(a, ctx, target, n - 1, k);
    }
}

/// The first failure found from `k` lies between `k` and the number of assignments.
pub proof fn lemma_first_failure_bounds(
    a: Seq<(Seq<char>, QueryView)>,
    ctx: Map<Seq<char>, ValueView>,
    k: int,
)
    requires
        0 <= k,
    ensures
        k <= a.len() ==> k <= first_failure(a, ctx, k),
        first_failure(a, ctx, k) <= a.len(),
    decreases a.len() - k,
{
    if k < a.len() && eval(a[k].1, ctx) is Ok {
        lemma_first_failure_bounds(a, ctx, k + 1);
    }
}

/// A failed execution keeps the writes of the assignments before the failing one: each
/// field written by assignment `i < first_failure` (and not overwritten before it) holds
/// what that assignment's expression gave against the event as it was before.
pub proof fn lemma_failure_keeps_earlier_writes(
    a: Seq<(Seq<char>, QueryView)>,
    before: Map<Seq<char>, ValueView>,
    i: int,
)
    requires
        0 <= i < first_failure(a, before, 0),
        forall|j: int| i < j < first_failure(a, before, 0) ==> a[j].0 != a[i].0,
    ensures
        run(a, before, before, first_failure(a, before, 0))[a[i].0] == eval(a[i].1, before)->Ok_0,
{
    lemma_first_failure_bounds(a, before, 0);
    lemma_written_from_snapshot(a, before, before, first_failure(a, before, 0), i);
}

} // verus!
