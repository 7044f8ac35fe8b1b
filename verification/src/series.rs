//! Series of steps, of which each may have more than one outcome.

use vstd::prelude::*;

verus! {

/// Whether a list of states is one that a series of steps can pass through: it
/// begins with `start`, and each item leads from one state to the next.
pub open spec fn traced<S, T>(
    start: S,
    items: Seq<T>,
    next: spec_fn(S, T, S) -> bool,
    trace: Seq<S>,
) -> bool {
    &&& trace.len() == items.len() + 1
    &&& trace[0] == start
    &&& forall|i: int|
        #![trigger items[i]]
        0 <= i < items.len() ==> next(trace[i], items[i], trace[i + 1])
}

/// Whether a series of steps can lead from one state to another.
pub open spec fn leads<S, T>(
    start: S,
    items: Seq<T>,
    next: spec_fn(S, T, S) -> bool,
    end: S,
) -> bool {
    exists|trace: Seq<S>| #[trigger] traced(start, items, next, trace) && end == trace.last()
}

/// A series without steps stays where it is.
pub proof fn lemma_no_steps<S, T>(start: S, items: Seq<T>, next: spec_fn(S, T, S) -> bool, end: S)
    requires
        items.len() == 0,
    ensures
        leads(start, items, next, end) <==> end == start,
{
    assert(traced(start, items, next, seq![start]));
}

/// A series goes on with a further step.
pub proof fn lemma_step<S, T>(
    start: S,
    items: Seq<T>,
    next: spec_fn(S, T, S) -> bool,
    n: int,
    mid: S,
    end: S,
)
    requires
        0 <= n < items.len(),
        leads(start, items.take(n), next, mid),
        next(mid, items[n], end),
    ensures
        leads(start, items.take(n + 1), next, end),
{
    let trace = choose|trace: Seq<S>| #[trigger]
        traced(start, items.take(n), next, trace) && mid == trace.last();
    let longer = trace.push(end);
    let taken = items.take(n + 1);
    assert forall|i: int| #![trigger taken[i]] 0 <= i < taken.len() implies next(
        longer[i],
        taken[i],
        longer[i + 1],
    ) by {
        if i < n {
            assert(items.take(n)[i] == taken[i]);
        }
    }
    assert(traced(start, taken, next, longer));
}

/// A series stays in a state that no step leaves.
pub proof fn lemma_stay<S, T>(
    start: S,
    items: Seq<T>,
    next: spec_fn(S, T, S) -> bool,
    n: int,
    end: S,
)
    requires
        0 <= n <= items.len(),
        leads(start, items.take(n), next, end),
        forall|x: T| #[trigger] next(end, x, end),
    ensures
        leads(start, items, next, end),
    decreases items.len() - n,
{
    if n < items.len() {
        lemma_step(start, items, next, n, end, end);
        lemma_stay(start, items, next, n + 1, end);
    } else {
        assert(items.take(n) =~= items);
    }
}

/// The last step of a series.
pub proof fn lemma_last_step<S, T>(
    start: S,
    items: Seq<T>,
    next: spec_fn(S, T, S) -> bool,
    end: S,
) -> (mid: S)
    requires
        items.len() > 0,
        leads(start, items, next, end),
    ensures
        leads(start, items.drop_last(), next, mid),
        next(mid, items.last(), end),
{
    let trace = choose|trace: Seq<S>| #[trigger]
        traced(start, items, next, trace) && end == trace.last();
    let before = trace.drop_last();
    let rest = items.drop_last();
    assert forall|i: int| #![trigger rest[i]] 0 <= i < rest.len() implies next(
        before[i],
        rest[i],
        before[i + 1],
    ) by {
        assert(items[i] == rest[i]);
    }
    assert(traced(start, rest, next, before));
    assert(items[items.len() - 1] == items.last());
    before.last()
}

} // verus!
