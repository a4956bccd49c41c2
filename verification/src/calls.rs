//! Whole runs: the calls of a run as a tree, and what the storage holds when
//! the run is over.

use crate::frames::{
    bump_all, close_frame, frame_count, frame_index, has_key, open_frame, Frame,
};
use crate::storage::StorageView;
use crate::table::{count_of, lemma_add_count, lemma_first_where};
use vstd::prelude::*;

verus! {

/// A call of a parser, with the calls that its body made, in their order.
pub struct Call {
    pub name: Seq<char>,
    pub depth: nat,
    pub calls: Seq<Call>,
}

/// The number of calls in the tree of `c`: `c` itself and all below it.
pub open spec fn size(c: Call) -> nat
    decreases c,
{
    1 + sizes(c.calls)
}

/// The number of calls in the trees of `cs`.
pub open spec fn sizes(cs: Seq<Call>) -> nat
    decreases cs,
{
    if cs.len() == 0 {
        0
    } else {
        sizes(cs.drop_last()) + size(cs.last())
    }
}

/// The number of calls of `name` in the tree of `c`.
pub open spec fn calls_of(c: Call, name: Seq<char>) -> nat
    decreases c,
{
    calls_of_all(c.calls, name) + if c.name == name {
        1nat
    } else {
        0nat
    }
}

/// The number of calls of `name` in the trees of `cs`.
pub open spec fn calls_of_all(cs: Seq<Call>, name: Seq<char>) -> nat
    decreases cs,
{
    if cs.len() == 0 {
        0
    } else {
        calls_of_all(cs.drop_last(), name) + calls_of(cs.last(), name)
    }
}

/// The sum, over the calls of `name` in the tree of `c`, of the number of
/// calls in the tree of each.
pub open spec fn weight_of(c: Call, name: Seq<char>) -> nat
    decreases c,
{
    weight_of_all(c.calls, name) + if c.name == name {
        size(c)
    } else {
        0nat
    }
}

/// The sum, over the calls of `name` in the trees of `cs`, of the number of
/// calls in the tree of each.
pub open spec fn weight_of_all(cs: Seq<Call>, name: Seq<char>) -> nat
    decreases cs,
{
    if cs.len() == 0 {
        0
    } else {
        weight_of_all(cs.drop_last(), name) + weight_of(cs.last(), name)
    }
}

/// Whether no call of `name` in the tree of `c` makes a call.
pub open spec fn calls_nothing(c: Call, name: Seq<char>) -> bool
    decreases c,
{
    (c.name == name ==> c.calls.len() == 0) && all_call_nothing(c.calls, name)
}

/// Whether no call of `name` in the trees of `cs` makes a call.
pub open spec fn all_call_nothing(cs: Seq<Call>, name: Seq<char>) -> bool
    decreases cs,
{
    cs.len() == 0 || (all_call_nothing(cs.drop_last(), name) && calls_nothing(cs.last(), name))
}

/// Whether every call in the tree of `c` lies deeper than the call that made
/// it.
pub open spec fn nested(c: Call) -> bool
    decreases c,
{
    all_nested(c.calls, c.depth)
}

/// Whether the calls `cs` lie deeper than `depth`, and every call in their
/// trees deeper than the call that made it.
pub open spec fn all_nested(cs: Seq<Call>, depth: nat) -> bool
    decreases cs,
{
    cs.len() == 0 || (all_nested(cs.drop_last(), depth) && cs.last().depth > depth && nested(
        cs.last(),
    ))
}

/// The storage after the call `c` was entered, its body's calls were made,
/// and it was left.
pub open spec fn run(s: StorageView, c: Call) -> StorageView
    decreases c,
{
    run_all(s.record_forward(c.name, c.depth), c.calls).record_backward(c.name, c.depth)
}

/// The storage after the calls `cs` were made one after the other.
pub open spec fn run_all(s: StorageView, cs: Seq<Call>) -> StorageView
    decreases cs,
{
    if cs.len() == 0 {
        s
    } else {
        run(run_all(s, cs.drop_last()), cs.last())
    }
}

/// Whether `a` and `b` are calls of one name whose bodies made the same
/// calls in the same order, at whatever depths.
pub open spec fn same_calls(a: Call, b: Call) -> bool
    decreases a,
{
    a.name == b.name && all_same_calls(a.calls, b.calls)
}

/// Whether `a` and `b` are the same calls in the same order, at whatever
/// depths.
pub open spec fn all_same_calls(a: Seq<Call>, b: Seq<Call>) -> bool
    decreases a,
{
    a.len() == b.len() && (a.len() == 0 || (all_same_calls(a.drop_last(), b.drop_last())
        && same_calls(a.last(), b.last())))
}

/// `frames` with every count raised by `k`.
pub open spec fn bumped(frames: Seq<Frame>, k: nat) -> Seq<Frame> {
    Seq::new(
        frames.len(),
        |i: int| Frame { name: frames[i].name, depth: frames[i].depth, count: frames[i].count + k },
    )
}

/// Whether every frame lies less deep than `depth`.
pub open spec fn above(frames: Seq<Frame>, depth: nat) -> bool {
    forall|i: int| 0 <= i < frames.len() ==> (#[trigger] frames[i]).depth < depth
}

/// A tree holds at least its root; trees hold no call only where there is no
/// tree.
pub proof fn lemma_sizes(cs: Seq<Call>)
    ensures
        sizes(cs) >= cs.len(),
    decreases cs,
{
    if cs.len() > 0 {
        lemma_sizes(cs.drop_last());
        assert(size(cs.last()) == 1 + sizes(cs.last().calls));
    }
}

/// The cumulative weight of a name is at least the number of its calls, and
/// equal to it exactly where no call of the name makes a call.
pub proof fn lemma_weight(c: Call, name: Seq<char>)
    ensures
        weight_of(c, name) >= calls_of(c, name),
        weight_of(c, name) == calls_of(c, name) <==> calls_nothing(c, name),
    decreases c,
{
    lemma_weights(c.calls, name);
    lemma_sizes(c.calls);
}

/// The same of several trees.
pub proof fn lemma_weights(cs: Seq<Call>, name: Seq<char>)
    ensures
        weight_of_all(cs, name) >= calls_of_all(cs, name),
        weight_of_all(cs, name) == calls_of_all(cs, name) <==> all_call_nothing(cs, name),
    decreases cs,
{
    if cs.len() > 0 {
        lemma_weights(cs.drop_last(), name);
        lemma_weight(cs.last(), name);
    }
}

/// Calls that differ in their depths only have the same sizes, numbers of
/// calls and weights.
pub proof fn lemma_same_calls(a: Call, b: Call, name: Seq<char>)
    requires
        same_calls(a, b),
    ensures
        size(a) == size(b),
        calls_of(a, name) == calls_of(b, name),
        weight_of(a, name) == weight_of(b, name),
    decreases a,
{
    lemma_all_same_calls(a.calls, b.calls, name);
}

/// The same of several calls.
pub proof fn lemma_all_same_calls(a: Seq<Call>, b: Seq<Call>, name: Seq<char>)
    requires
        all_same_calls(a, b),
    ensures
        sizes(a) == sizes(b),
        calls_of_all(a, name) == calls_of_all(b, name),
        weight_of_all(a, name) == weight_of_all(b, name),
    decreases a,
{
    if a.len() > 0 {
        lemma_all_same_calls(a.drop_last(), b.drop_last(), name);
        lemma_same_calls(a.last(), b.last(), name);
    }
}

/// What a call does to the storage. Where the call's tree is nested and the
/// calls under way lie less deep than the call, the run of the call adds, for
/// each name, the calls of that name to its count and their weight to its
/// cumulative count; each call under way has counted the calls of the tree;
/// and as many calls were left as were entered.
pub proof fn lemma_run(s: StorageView, c: Call, name: Seq<char>)
    requires
        nested(c),
        above(s.cumulative_working, c.depth),
    ensures
        run(s, c).cumulative_working == bumped(s.cumulative_working, size(c)),
        run(s, c).forward_count == s.forward_count + size(c),
        run(s, c).backward_count == s.backward_count + size(c),
        run(s, c).parsers == s.parsers,
        count_of(run(s, c).histogram, name) == count_of(s.histogram, name) + calls_of(c, name),
        count_of(run(s, c).cumulative_histogram, name) == count_of(s.cumulative_histogram, name)
            + weight_of(c, name),
    decreases c,
{
    let key = has_key(c.name, c.depth);
    let w = s.cumulative_working;
    let n = w.len() as int;
    // entering: no frame has the call's depth, so a new one is opened
    assert forall|k: int| 0 <= k < n implies !key(#[trigger] w[k]) by {}
    lemma_first_where(w, key, n);
    let fresh = Frame { name: c.name, depth: c.depth, count: 0 };
    assert(open_frame(w, c.name, c.depth) == w.push(fresh));
    let s1 = s.record_forward(c.name, c.depth);
    let w1 = s1.cumulative_working;
    assert(w1 == bump_all(w.push(fresh)));
    assert forall|i: int| 0 <= i < w1.len() implies (#[trigger] w1[i]).depth < c.depth + 1 by {
        if i < n {
            assert(w[i].depth < c.depth);
        }
    }
    lemma_add_count(s.histogram, c.name, 1, name);
    // the body
    lemma_run_all(s1, c.calls, c.depth, name);
    let s2 = run_all(s1, c.calls);
    let w2 = s2.cumulative_working;
    assert(w2 == bumped(w1, sizes(c.calls)));
    // leaving: the call's frame is the last
    assert forall|k: int| 0 <= k < n implies !key(#[trigger] w2[k]) by {
        assert(w2[k].depth == w[k].depth);
    }
    assert(key(w2[n]));
    lemma_first_where(w2, key, n);
    assert(frame_index(w2, c.name, c.depth) == n);
    assert(frame_count(w2, c.name, c.depth) == size(c));
    assert(close_frame(w2, c.name, c.depth) =~= bumped(w, size(c)));
    lemma_add_count(s2.cumulative_histogram, c.name, size(c), name);
}

/// What several calls, one after the other, do to the storage.
pub proof fn lemma_run_all(s: StorageView, cs: Seq<Call>, depth: nat, name: Seq<char>)
    requires
        all_nested(cs, depth),
        above(s.cumulative_working, depth + 1),
    ensures
        run_all(s, cs).cumulative_working == bumped(s.cumulative_working, sizes(cs)),
        run_all(s, cs).forward_count == s.forward_count + sizes(cs),
        run_all(s, cs).backward_count == s.backward_count + sizes(cs),
        run_all(s, cs).parsers == s.parsers,
        count_of(run_all(s, cs).histogram, name) == count_of(s.histogram, name) + calls_of_all(
            cs,
            name,
        ),
        count_of(run_all(s, cs).cumulative_histogram, name) == count_of(
            s.cumulative_histogram,
            name,
        ) + weight_of_all(cs, name),
    decreases cs,
{
    if cs.len() == 0 {
        assert(bumped(s.cumulative_working, 0) =~= s.cumulative_working);
    } else {
        let first = cs.drop_last();
        let last = cs.last();
        lemma_run_all(s, first, depth, name);
        let s1 = run_all(s, first);
        let w = s.cumulative_working;
        assert forall|i: int| 0 <= i < s1.cumulative_working.len() implies (
        #[trigger] s1.cumulative_working[i]).depth < last.depth by {
            assert(w[i].depth < depth + 1);
        }
        lemma_run(s1, last, name);
        assert(bumped(bumped(w, sizes(first)), size(last)) =~= bumped(w, sizes(cs)));
    }
}

} // verus!
