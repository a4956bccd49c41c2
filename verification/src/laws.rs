//! What holds of the protocol as a whole, stated over the models of the
//! storage and of the configuration.

use crate::calls::{
    calls_nothing, calls_of, lemma_run, lemma_same_calls, lemma_sizes, lemma_weight, nested, run,
    same_calls, size, weight_of, Call,
};
use crate::frames::{bump_all, frame_count, frame_index, has_key, is_open, open_frame, Frame};
use crate::info::{lemma_mask_with, TracableInfo, FOLD_LIMIT};
use crate::storage::{
    is_name, lemma_backward_consistent, lemma_forward_consistent, lemma_register_consistent,
    StorageView,
};
use crate::table::{
    count_of, lemma_add_count, lemma_first_where, lemma_first_where_is_first, Row,
};
use crate::trace::{
    backward_result, backward_state, backward_text, custom_text, entered_info, forward_start,
    forward_state, forward_text, left_info, quiet, Tracable,
};
use vstd::prelude::*;

verus! {

/// The configuration that the body of a call gets when the call is entered
/// under `info`.
pub open spec fn after_forward(info: TracableInfo, folded: bool) -> TracableInfo {
    if info.enabled {
        entered_info(info, folded)
    } else {
        info
    }
}

/// The configuration that a call entered under `saved` hands back when its
/// body has handed back `carried`.
pub open spec fn after_backward(carried: TracableInfo, saved: TracableInfo, folded: bool) -> TracableInfo {
    if saved.enabled && saved.backward {
        left_info(carried, saved, folded)
    } else {
        carried
    }
}

/// Depth symmetry. A call whose body hands back the configuration that it
/// got hands back the configuration under which it was entered, and so the
/// depth at which it was entered, folded or not. This holds where the leaving
/// of calls is shown, and without tracing; where tracing is on and the leaving
/// of calls is not shown, the depth is not brought back.
pub proof fn law_depth_symmetry(info: TracableInfo, folded: bool)
    requires
        info.enabled ==> info.backward && info.depth < usize::MAX,
    ensures
        after_backward(after_forward(info, folded), info, folded) == info,
        after_forward(info, folded).depth == if info.enabled {
            info.depth + 1
        } else {
            info.depth as int
        },
{
}

/// Depth symmetry, the other half: a call is recorded as left under the
/// depth under which it was recorded as entered, which opens the frame that
/// the leaving closes.
pub proof fn law_frame_opened(s: StorageView, info: TracableInfo, name: Seq<char>)
    requires
        info.enabled,
    ensures
        is_open(forward_state(s, info, name).cumulative_working, name, info.depth as nat),
{
    let start = forward_start(s, info).register(name);
    let p = has_key(name, info.depth as nat);
    let opened = open_frame(start.cumulative_working, name, info.depth as nat);
    let after = bump_all(opened);
    lemma_first_where_is_first(start.cumulative_working, p);
    let i = frame_index(start.cumulative_working, name, info.depth as nat);
    assert(p(opened[i]));
    assert(p(after[i]));
    lemma_first_where_is_first(after, p);
}

/// Depth symmetry, of one leaving: where the leaving of calls is shown, the
/// configuration that a call hands back lies one level less deep than the
/// one that its body handed back; so a body that hands back the depth that
/// it got hands back the depth at which the call was entered.
pub proof fn law_depth_after_leaving(carried: TracableInfo, saved: TracableInfo, folded: bool)
    requires
        saved.enabled,
        saved.backward,
        carried.depth > 0,
    ensures
        after_backward(carried, saved, folded).depth == carried.depth - 1,
        carried.depth == saved.depth + 1 ==> after_backward(carried, saved, folded).depth
            == saved.depth,
{
}

/// Count monotonicity, of the traced call. Below depth 0, entering a call
/// raises the count of the calls entered by one, shown or not, and leaves the
/// count of the calls left; leaving a call raises the count of the calls left
/// by one and leaves the count of the calls entered; and in a consistent
/// storage in which the call's frame is open, no more calls were left after
/// it than were entered.
pub proof fn law_trace_counts(s: StorageView, info: TracableInfo, name: Seq<char>)
    requires
        info.enabled,
    ensures
        info.depth > 0 ==> forward_state(s, info, name).forward_count == s.forward_count + 1,
        info.depth > 0 ==> forward_state(s, info, name).backward_count == s.backward_count,
        backward_state(s, info, name).backward_count == s.backward_count + 1,
        backward_state(s, info, name).forward_count == s.forward_count,
        s.consistent() && is_open(s.cumulative_working, name, info.depth as nat)
            ==> backward_state(s, info, name).backward_count <= backward_state(
            s,
            info,
            name,
        ).forward_count,
{
}

/// Every frame counts every call once. Below depth 0, entering a call of a
/// name that has no frame at that depth raises the count of each frame that
/// was open by one and leaves them in their order, and opens behind them a
/// frame for the call that has counted the call itself.
pub proof fn law_frames_count_each_call(s: StorageView, info: TracableInfo, name: Seq<char>)
    requires
        info.enabled,
        info.depth > 0,
        !is_open(s.cumulative_working, name, info.depth as nat),
    ensures
        forward_state(s, info, name).cumulative_working == bump_all(s.cumulative_working).push(
            Frame { name: name, depth: info.depth as nat, count: 1 },
        ),
{
    lemma_first_where_is_first(s.cumulative_working, has_key(name, info.depth as nat));
    assert(forward_state(s, info, name).cumulative_working =~= bump_all(
        s.cumulative_working,
    ).push(Frame { name: name, depth: info.depth as nat, count: 1 }));
}

/// A frame is dropped when its call is left. In a consistent storage,
/// leaving the call of a name that has a frame at that depth leaves no frame
/// of that name and depth, removes that frame only, and keeps the storage
/// consistent.
pub proof fn law_frame_dropped(s: StorageView, info: TracableInfo, name: Seq<char>)
    requires
        info.enabled,
        s.consistent(),
        is_open(s.cumulative_working, name, info.depth as nat),
    ensures
        !is_open(backward_state(s, info, name).cumulative_working, name, info.depth as nat),
        backward_state(s, info, name).cumulative_working == s.cumulative_working.remove(
            frame_index(s.cumulative_working, name, info.depth as nat),
        ),
        backward_state(s, info, name).consistent(),
{
    lemma_backward_consistent(s, name, info.depth as nat);
    lemma_register_consistent(s.record_backward(name, info.depth as nat), name);
}

/// Leaving adds the frame's count. Leaving the call of a name adds the count
/// of its frame to the cumulative count of that name, whatever is shown and
/// whether the call succeeded, and leaves the cumulative count of every
/// other name and the counts of the calls entered.
pub proof fn law_leaving_adds_the_frame_count(
    s: StorageView,
    info: TracableInfo,
    name: Seq<char>,
    other: Seq<char>,
)
    requires
        info.enabled,
    ensures
        count_of(backward_state(s, info, name).cumulative_histogram, name) == count_of(
            s.cumulative_histogram,
            name,
        ) + frame_count(s.cumulative_working, name, info.depth as nat),
        other != name ==> count_of(backward_state(s, info, name).cumulative_histogram, other)
            == count_of(s.cumulative_histogram, other),
        backward_state(s, info, name).histogram == s.histogram,
        s.consistent() && is_open(s.cumulative_working, name, info.depth as nat) ==> frame_count(
            s.cumulative_working,
            name,
            info.depth as nat,
        ) >= 1,
{
    let count = frame_count(s.cumulative_working, name, info.depth as nat);
    lemma_add_count(s.cumulative_histogram, name, count, name);
    lemma_add_count(s.cumulative_histogram, name, count, other);
    lemma_first_where_is_first(s.cumulative_working, has_key(name, info.depth as nat));
}

/// Leaving a folded parser shows again what was shown. Where the leaving of
/// calls is shown and the parser is folded, the configuration that the call
/// hands back shows what the saved configuration shows; colour, widths and
/// the fold mask are those that the body handed back. Where the parser is
/// not folded, nothing but the depth changes.
pub proof fn law_flags_restored(carried: TracableInfo, saved: TracableInfo)
    requires
        saved.enabled,
        saved.backward,
        carried.enabled,
        carried.depth > 0,
    ensures
        after_backward(carried, saved, true) == (TracableInfo {
            forward: saved.forward,
            backward: saved.backward,
            custom: saved.custom,
            depth: (carried.depth - 1) as usize,
            ..carried
        }),
        after_backward(carried, saved, false) == (TracableInfo {
            depth: (carried.depth - 1) as usize,
            ..carried
        }),
        after_forward(saved, true) == (TracableInfo {
            forward: false,
            backward: false,
            custom: false,
            depth: (saved.depth + 1) as usize,
            ..saved
        }),
{
}

/// Count monotonicity. Entering a call raises the count of the calls entered
/// by one and leaves the count of the calls left; leaving a call does the
/// reverse. In a consistent storage no more calls were left than entered,
/// and entering and leaving keep the storage consistent.
pub proof fn law_counts_monotone(s: StorageView, name: Seq<char>, depth: nat)
    requires
        s.consistent(),
    ensures
        s.backward_count <= s.forward_count,
        s.record_forward(name, depth).forward_count == s.forward_count + 1,
        s.record_forward(name, depth).backward_count == s.backward_count,
        s.record_forward(name, depth).consistent(),
        s.record_backward(name, depth).forward_count == s.forward_count,
        s.record_backward(name, depth).backward_count == s.backward_count + 1,
        is_open(s.cumulative_working, name, depth) ==> s.record_backward(name, depth).consistent(),
        s.init().consistent(),
{
    lemma_forward_consistent(s, name, depth);
    if is_open(s.cumulative_working, name, depth) {
        lemma_backward_consistent(s, name, depth);
    }
}

/// The calls of `name` that are under way.
pub open spec fn open_calls(frames: Seq<Frame>, name: Seq<char>) -> nat
    decreases frames.len(),
{
    if frames.len() == 0 {
        0
    } else {
        open_calls(frames.drop_last(), name) + if frames.last().name == name {
            1nat
        } else {
            0nat
        }
    }
}

/// Whether the cumulative count of `name`, with one for each call of `name`
/// that is under way, is at least the count of the calls of `name`.
pub open spec fn dominated(s: StorageView, name: Seq<char>) -> bool {
    count_of(s.histogram, name) <= count_of(s.cumulative_histogram, name) + open_calls(
        s.cumulative_working,
        name,
    )
}

proof fn lemma_open_calls_bump(frames: Seq<Frame>, name: Seq<char>)
    ensures
        open_calls(bump_all(frames), name) == open_calls(frames, name),
    decreases frames.len(),
{
    if frames.len() > 0 {
        assert(bump_all(frames).drop_last() =~= bump_all(frames.drop_last()));
        lemma_open_calls_bump(frames.drop_last(), name);
    }
}

proof fn lemma_open_calls_remove(frames: Seq<Frame>, i: int, name: Seq<char>)
    requires
        0 <= i < frames.len(),
    ensures
        open_calls(frames.remove(i), name) + (if frames[i].name == name {
            1nat
        } else {
            0nat
        }) == open_calls(frames, name),
    decreases frames.len(),
{
    if i == frames.len() - 1 {
        assert(frames.remove(i) =~= frames.drop_last());
    } else {
        assert(frames.remove(i).drop_last() =~= frames.drop_last().remove(i));
        assert(frames.remove(i).last() == frames.last());
        lemma_open_calls_remove(frames.drop_last(), i, name);
    }
}

/// Cumulative counts dominate, at the start of a run: nothing is counted.
pub proof fn law_cumulative_dominates_init(s: StorageView, name: Seq<char>)
    ensures
        dominated(s.init(), name),
{
}

/// Cumulative counts dominate, when a call is entered: where the count of
/// `other` was dominated before a call of `name` was entered at a depth at
/// which no call of `name` was under way, it is dominated after.
pub proof fn law_cumulative_dominates_forward(
    s: StorageView,
    name: Seq<char>,
    depth: nat,
    other: Seq<char>,
)
    requires
        dominated(s, other),
        !is_open(s.cumulative_working, name, depth),
    ensures
        dominated(s.record_forward(name, depth), other),
{
    let opened = open_frame(s.cumulative_working, name, depth);
    lemma_first_where_is_first(s.cumulative_working, has_key(name, depth));
    assert(opened.drop_last() =~= s.cumulative_working);
    lemma_open_calls_bump(opened, other);
    lemma_add_count(s.histogram, name, 1, other);
}

/// Cumulative counts dominate, when a call is left: where the count of
/// `other` was dominated before the call of `name` entered at `depth` was
/// left, it is dominated after.
pub proof fn law_cumulative_dominates_backward(
    s: StorageView,
    name: Seq<char>,
    depth: nat,
    other: Seq<char>,
)
    requires
        s.consistent(),
        dominated(s, other),
        is_open(s.cumulative_working, name, depth),
    ensures
        dominated(s.record_backward(name, depth), other),
{
    let p = has_key(name, depth);
    lemma_first_where_is_first(s.cumulative_working, p);
    let i = frame_index(s.cumulative_working, name, depth);
    assert(p(s.cumulative_working[i]));
    assert(s.cumulative_working[i].count >= 1);
    lemma_open_calls_remove(s.cumulative_working, i, other);
    lemma_add_count(
        s.cumulative_histogram,
        name,
        frame_count(s.cumulative_working, name, depth),
        other,
    );
}

/// Cumulative counts dominate, at the end of a run: with no call under way,
/// a dominated count is at most the cumulative count.
pub proof fn law_cumulative_dominates_end(s: StorageView, name: Seq<char>)
    requires
        dominated(s, name),
        s.cumulative_working.len() == 0,
    ensures
        count_of(s.histogram, name) <= count_of(s.cumulative_histogram, name),
{
}

/// Cumulative counts dominate, of a whole run. Where the calls of a run form
/// a tree in which every call lies deeper than the call that made it, the
/// storage holds at the end of the run: for each name the number of its
/// calls; as its cumulative count the sum, over its calls, of the calls in
/// the tree of each, which is at least the number of its calls, and equal to
/// it exactly where no call of that name made a call; and no call under way,
/// as many calls left as entered.
pub proof fn law_cumulative_dominates(s: StorageView, c: Call, name: Seq<char>)
    requires
        nested(c),
    ensures
        ({
            let t = run(s.init(), c);
            &&& count_of(t.histogram, name) == calls_of(c, name)
            &&& count_of(t.cumulative_histogram, name) == weight_of(c, name)
            &&& count_of(t.cumulative_histogram, name) >= count_of(t.histogram, name)
            &&& count_of(t.cumulative_histogram, name) == count_of(t.histogram, name)
                <==> calls_nothing(c, name)
            &&& t.cumulative_working.len() == 0
            &&& t.forward_count == size(c)
            &&& t.backward_count == size(c)
        }),
{
    lemma_run(s.init(), c, name);
    lemma_weight(c, name);
    lemma_sizes(c.calls);
}

/// A call that enters no call adds one to the count of its name and one to
/// the cumulative count of its name: the two stay as far apart as they were.
pub proof fn law_leaf_call_counts_once(s: StorageView, name: Seq<char>, depth: nat)
    ensures
        ({
            let t = s.record_forward(name, depth).record_backward(name, depth);
            &&& count_of(t.histogram, name) == count_of(s.histogram, name) + 1
            &&& count_of(t.cumulative_histogram, name) == count_of(s.cumulative_histogram, name)
                + 1
        }),
{
    let p = has_key(name, depth);
    let entered = s.record_forward(name, depth);
    let opened = open_frame(s.cumulative_working, name, depth);
    lemma_first_where_is_first(s.cumulative_working, p);
    let i = frame_index(s.cumulative_working, name, depth);
    assert(p(opened[i]));
    assert forall|k: int| 0 <= k < i implies !p(#[trigger] entered.cumulative_working[k]) by {
        assert(!p(s.cumulative_working[k]));
    }
    assert(p(entered.cumulative_working[i]));
    lemma_first_where(entered.cumulative_working, p, i);
    assert(frame_count(entered.cumulative_working, name, depth) == 1);
    lemma_add_count(s.histogram, name, 1, name);
    lemma_add_count(s.cumulative_histogram, name, 1, name);
}

/// A call that enters another call before it is left adds one to the count
/// of its name and at least two to the cumulative count of its name.
pub proof fn law_inner_call_counts_twice(
    s: StorageView,
    name: Seq<char>,
    depth: nat,
    inner: Seq<char>,
    inner_depth: nat,
)
    requires
        inner != name || inner_depth != depth,
    ensures
        frame_count(
            s.record_forward(name, depth).record_forward(inner, inner_depth).cumulative_working,
            name,
            depth,
        ) == 2,
{
    let p = has_key(name, depth);
    let q = has_key(inner, inner_depth);
    let first = s.record_forward(name, depth).cumulative_working;
    let opened = open_frame(s.cumulative_working, name, depth);
    lemma_first_where_is_first(s.cumulative_working, p);
    let i = frame_index(s.cumulative_working, name, depth);
    assert(p(opened[i]));
    assert forall|k: int| 0 <= k < i implies !p(#[trigger] first[k]) by {
        assert(!p(s.cumulative_working[k]));
    }
    assert(p(first[i]));
    lemma_first_where(first, p, i);
    assert(first[i].count == 1);
    let again = open_frame(first, inner, inner_depth);
    lemma_first_where_is_first(first, q);
    let j = frame_index(first, inner, inner_depth);
    assert(j != i);
    assert(again[i] == first[i]);
    let second = bump_all(again);
    assert forall|k: int| 0 <= k < i implies !p(#[trigger] second[k]) by {
        if k == j {
            assert(q(again[k]));
        } else {
            assert(again[k] == first[k]);
            assert(!p(first[k]));
        }
    }
    assert(p(second[i]));
    lemma_first_where(second, p, i);
}

/// Folding marks one parser. With tracing, folding the parser of an index
/// below `FOLD_LIMIT` makes that parser folded and leaves every other parser
/// as it was; an index from `FOLD_LIMIT` on is never folded; and the
/// configuration with which tracing starts folds no parser.
pub proof fn law_fold_marks_one_parser(info: TracableInfo, index: nat, other: nat)
    requires
        info.enabled,
    ensures
        index < FOLD_LIMIT ==> info.with_fold_at(index).is_folded_at(other) == (other == index
            || info.is_folded_at(other)),
        index >= FOLD_LIMIT ==> info.with_fold_at(index) == info && !info.is_folded_at(index),
        !TracableInfo::initial().is_folded_at(other),
{
    if index < FOLD_LIMIT {
        lemma_mask_with(info.fold, index, other);
    } else {
        lemma_mask_with(info.fold, 0, other);
    }
}

/// The registry keeps its indices. A name that is looked up for the first
/// time gets the number of the names before it as its index, so indices count
/// from 0 without a gap; a name that was looked up keeps its index whatever
/// is looked up after it; and neither the start of a run nor the entering or
/// leaving of a call touches the registry.
pub proof fn law_registry_keeps_indices(
    s: StorageView,
    name: Seq<char>,
    other: Seq<char>,
    depth: nat,
)
    ensures
        s.parser_index(name) <= s.parsers.len(),
        s.register(name).parser_index(name) == s.parser_index(name),
        s.register(name).parser_index(name) < s.register(name).parsers.len(),
        s.parser_index(other) < s.parsers.len() ==> s.register(name).parser_index(other)
            == s.parser_index(other),
        s.init().parsers == s.parsers,
        s.record_forward(name, depth).parsers == s.parsers,
        s.record_backward(name, depth).parsers == s.parsers,
{
    let p = is_name(name);
    let o = is_name(other);
    lemma_first_where_is_first(s.parsers, p);
    lemma_first_where_is_first(s.parsers, o);
    let after = s.register(name).parsers;
    let i = s.parser_index(name) as int;
    let j = s.parser_index(other) as int;
    if i == s.parsers.len() {
        assert forall|k: int| 0 <= k < i implies !p(#[trigger] after[k]) by {
            assert(!p(s.parsers[k]));
        }
        assert(p(after[i]));
        lemma_first_where(after, p, i);
        if j < s.parsers.len() {
            assert forall|k: int| 0 <= k < j implies !o(#[trigger] after[k]) by {
                assert(!o(s.parsers[k]));
            }
            assert(o(after[j]));
            lemma_first_where(after, o, j);
        }
    }
}

/// The statistics of a storage: what it holds besides the registry.
pub open spec fn statistics(s: StorageView) -> StorageView {
    StorageView { parsers: Seq::empty(), ..s }
}

/// Folding touches what is shown only. What is recorded when a call is
/// entered or left does not depend on which parsers are folded, on what is
/// shown, on colour or on widths: two configurations of one depth, both with
/// tracing, record the same. And inside a folded parser, where nothing is
/// shown, entering and leaving a call and a custom message give no text.
pub proof fn law_fold_touches_display_only(
    s: StorageView,
    a: TracableInfo,
    b: TracableInfo,
    name: Seq<char>,
    header: Seq<char>,
    position: Option<Seq<char>>,
    message: Seq<char>,
    tint: Seq<char>,
)
    requires
        a.enabled == b.enabled,
        a.depth == b.depth,
    ensures
        forward_state(s, a, name) == forward_state(s, b, name),
        statistics(backward_state(s, a, name)) == statistics(backward_state(s, b, name)),
        a.depth > 0 ==> forward_text(s, quiet(a), name, header, message) == Seq::<char>::empty(),
        backward_text(s, quiet(a), name, position) == Seq::<char>::empty(),
        custom_text(quiet(a), name, message, tint) == Seq::<char>::empty(),
{
    assert(forward_text(s, quiet(a), name, header, message) =~= Seq::<char>::empty()
        || a.depth == 0);
}

/// Folding touches what is shown only, of a whole run. Folding a parser
/// changes what is shown inside its calls, and with it the depths at which
/// the calls inside are recorded. Two runs of the same calls, at whatever
/// depths, count the same: for each name the same number of calls and the
/// same cumulative count.
pub proof fn law_fold_counts_the_same(
    s1: StorageView,
    s2: StorageView,
    a: Call,
    b: Call,
    name: Seq<char>,
)
    requires
        nested(a),
        nested(b),
        same_calls(a, b),
    ensures
        count_of(run(s1.init(), a).histogram, name) == count_of(run(s2.init(), b).histogram, name),
        count_of(run(s1.init(), a).cumulative_histogram, name) == count_of(
            run(s2.init(), b).cumulative_histogram,
            name,
        ),
        run(s1.init(), a).forward_count == run(s2.init(), b).forward_count,
        run(s1.init(), a).backward_count == run(s2.init(), b).backward_count,
{
    lemma_run(s1.init(), a, name);
    lemma_run(s2.init(), b, name);
    lemma_same_calls(a, b, name);
}

/// Tracing changes no result. What a traced call hands back has the value or
/// the failure that its body handed back, whatever the configuration; and
/// without tracing nothing is recorded, nothing is shown and the result is
/// handed back as it is.
pub proof fn law_result_unchanged<T: Tracable, U, V>(
    s: StorageView,
    input: nom::IResult<T, U, V>,
    info: TracableInfo,
    folded: bool,
    name: Seq<char>,
    header: Seq<char>,
    position: Seq<char>,
)
    ensures
        match (input, backward_result(input, info, folded)) {
            (Ok((_, x)), Ok((_, y))) => x == y,
            (Err(e), Err(f)) => e == f,
            _ => false,
        },
        !info.enabled ==> {
            &&& backward_result(input, info, folded) == input
            &&& forward_state(s, info, name) == s
            &&& backward_state(s, info, name) == s
            &&& forward_text(s, info, name, header, position) == Seq::<char>::empty()
            &&& backward_text(s, info, name, Some(position)) == Seq::<char>::empty()
            &&& after_forward(info, folded) == info
        },
{
}

/// Runs are isolated. A call at depth 0 starts a run: what the storage then
/// holds, the registry aside, does not depend on what it held before, and it
/// counts the one call that was entered.
pub proof fn law_reset_isolation(s1: StorageView, s2: StorageView, info: TracableInfo, name: Seq<char>)
    requires
        info.enabled,
        info.depth == 0,
    ensures
        statistics(forward_state(s1, info, name)) == statistics(forward_state(s2, info, name)),
        forward_state(s1, info, name).forward_count == 1,
        forward_state(s1, info, name).backward_count == 0,
        forward_state(s1, info, name).histogram == seq![Row { name: name, count: 1 }],
        forward_state(s1, info, name).cumulative_histogram == Seq::<Row>::empty(),
{
    let t = forward_state(s1, info, name);
    assert(t.histogram =~= seq![Row { name: name, count: 1 }]);
}

} // verus!
