//! The statistics of one run and the registry of parser names.

use crate::frames::{
    bump_all, close_frame, distinct_frames, frame_count, frame_index, has_key, is_open,
    lemma_close_frame_distinct, lemma_open_frame_distinct, open_frame, Frame, FrameTable,
};
use crate::table::{
    add_count, count_of, distinct_rows, first_where, has_name, lemma_add_count_distinct,
    lemma_first_where, lemma_first_where_is_first, CountTable, Row,
};
use vstd::prelude::*;

verus! {

/// What a `TracableStorage` holds.
pub struct StorageView {
    /// Calls entered in this run.
    pub forward_count: nat,
    /// Calls left in this run.
    pub backward_count: nat,
    /// The registry: the parser names in the order in which they were first
    /// looked up. A name's place is its index.
    pub parsers: Seq<Seq<char>>,
    /// For each name, the calls of it that were entered.
    pub histogram: Seq<Row>,
    /// For each name, the sum over the calls of it that were left of the calls
    /// entered while each was under way, itself included.
    pub cumulative_histogram: Seq<Row>,
    /// The calls that are under way.
    pub cumulative_working: Seq<Frame>,
}

/// The test that a name of the registry is `name`.
pub open spec fn is_name(name: Seq<char>) -> spec_fn(Seq<char>) -> bool {
    |p: Seq<char>| p == name
}

impl StorageView {
    /// The index of `name` in the registry: its place there, or the place it
    /// would get, which is the number of names.
    pub open spec fn parser_index(self, name: Seq<char>) -> nat {
        first_where(self.parsers, is_name(name)) as nat
    }

    /// The storage after `name` was looked up: a name that the registry lacks
    /// stands at its end.
    pub open spec fn register(self, name: Seq<char>) -> Self {
        if self.parser_index(name) < self.parsers.len() {
            self
        } else {
            StorageView { parsers: self.parsers.push(name), ..self }
        }
    }

    /// The storage at the start of a run: no counts, no rows, no frames. The
    /// registry stays.
    pub open spec fn init(self) -> Self {
        StorageView {
            forward_count: 0,
            backward_count: 0,
            parsers: self.parsers,
            histogram: Seq::empty(),
            cumulative_histogram: Seq::empty(),
            cumulative_working: Seq::empty(),
        }
    }

    /// The storage after a call of `name` was entered at `depth`: one more
    /// call entered, one more for `name`, a frame opened for the call, and
    /// every open frame, the new one too, counting one more.
    pub open spec fn record_forward(self, name: Seq<char>, depth: nat) -> Self {
        StorageView {
            forward_count: self.forward_count + 1,
            histogram: add_count(self.histogram, name, 1),
            cumulative_working: bump_all(open_frame(self.cumulative_working, name, depth)),
            ..self
        }
    }

    /// The storage after the call of `name` entered at `depth` was left: one
    /// more call left, the frame's count added to the cumulative count of
    /// `name`, and the frame closed.
    pub open spec fn record_backward(self, name: Seq<char>, depth: nat) -> Self {
        StorageView {
            backward_count: self.backward_count + 1,
            cumulative_histogram: add_count(
                self.cumulative_histogram,
                name,
                frame_count(self.cumulative_working, name, depth),
            ),
            cumulative_working: close_frame(self.cumulative_working, name, depth),
            ..self
        }
    }

    /// What holds in every storage. The calls left and the calls under way
    /// are together no more than the calls entered; no name was entered more
    /// often than all names together; a frame has counted its own call, and no
    /// more calls than were entered. A name has one index, one row in each
    /// histogram, and at each depth one frame.
    pub open spec fn consistent(self) -> bool {
        &&& self.parsers.no_duplicates()
        &&& distinct_rows(self.histogram)
        &&& distinct_rows(self.cumulative_histogram)
        &&& distinct_frames(self.cumulative_working)
        &&& self.backward_count + self.cumulative_working.len() <= self.forward_count
        &&& forall|i: int|
            0 <= i < self.histogram.len() ==> (#[trigger] self.histogram[i]).count
                <= self.forward_count
        &&& forall|i: int|
            0 <= i < self.cumulative_working.len() ==> 1 <= (
            #[trigger] self.cumulative_working[i]).count <= self.forward_count
    }

    /// Whether a call of `name` entered at `depth` can be left: its frame is
    /// open, and the cumulative count of `name` can take the frame's count.
    pub open spec fn can_record_backward(self, name: Seq<char>, depth: nat) -> bool {
        &&& is_open(self.cumulative_working, name, depth)
        &&& count_of(self.cumulative_histogram, name) + frame_count(
            self.cumulative_working,
            name,
            depth,
        ) <= usize::MAX
    }
}

/// Looking up a name keeps the storage consistent, and a storage that is
/// consistent after it was so before.
pub proof fn lemma_register_consistent(s: StorageView, name: Seq<char>)
    ensures
        s.register(name).consistent() == s.consistent(),
{
    let p = is_name(name);
    lemma_first_where_is_first(s.parsers, p);
    let after = s.register(name).parsers;
    if s.parser_index(name) >= s.parsers.len() {
        if s.parsers.no_duplicates() {
            assert forall|i: int, j: int|
                0 <= i < after.len() && 0 <= j < after.len() && i != j implies after[i]
                != after[j] by {
                if i < s.parsers.len() && j < s.parsers.len() {
                    assert(s.parsers[i] != s.parsers[j]);
                } else if i < s.parsers.len() {
                    assert(!p(s.parsers[i]));
                } else {
                    assert(!p(s.parsers[j]));
                }
            }
        }
        if after.no_duplicates() {
            assert forall|i: int, j: int|
                0 <= i < s.parsers.len() && 0 <= j < s.parsers.len() && i != j implies s.parsers[i]
                != s.parsers[j] by {
                assert(after[i] != after[j]);
            }
        }
    }
}

/// Entering a call keeps the storage consistent.
pub proof fn lemma_forward_consistent(s: StorageView, name: Seq<char>, depth: nat)
    requires
        s.consistent(),
    ensures
        s.record_forward(name, depth).consistent(),
{
    let t = s.record_forward(name, depth);
    lemma_add_count_distinct(s.histogram, name, 1);
    lemma_open_frame_distinct(s.cumulative_working, name, depth);
    lemma_first_where_is_first(s.histogram, has_name(name));
    lemma_first_where_is_first(s.cumulative_working, has_key(name, depth));
    assert forall|i: int| 0 <= i < t.histogram.len() implies (#[trigger] t.histogram[i]).count
        <= t.forward_count by {
        if i < s.histogram.len() {
            assert(s.histogram[i].count <= s.forward_count);
        }
    }
    let opened = open_frame(s.cumulative_working, name, depth);
    assert forall|i: int| 0 <= i < t.cumulative_working.len() implies 1 <= (
    #[trigger] t.cumulative_working[i]).count <= t.forward_count by {
        if i < s.cumulative_working.len() {
            assert(1 <= s.cumulative_working[i].count <= s.forward_count);
        }
        assert(t.cumulative_working[i].count == opened[i].count + 1);
    }
}

/// Leaving a call whose frame is open keeps the storage consistent, and
/// leaves no frame of that name and depth.
pub proof fn lemma_backward_consistent(s: StorageView, name: Seq<char>, depth: nat)
    requires
        s.consistent(),
        is_open(s.cumulative_working, name, depth),
    ensures
        s.record_backward(name, depth).consistent(),
        !is_open(s.record_backward(name, depth).cumulative_working, name, depth),
{
    let t = s.record_backward(name, depth);
    lemma_add_count_distinct(
        s.cumulative_histogram,
        name,
        frame_count(s.cumulative_working, name, depth),
    );
    lemma_close_frame_distinct(s.cumulative_working, name, depth);
    let k = frame_index(s.cumulative_working, name, depth);
    lemma_first_where_is_first(s.cumulative_working, has_key(name, depth));
    assert forall|i: int| 0 <= i < t.cumulative_working.len() implies 1 <= (
    #[trigger] t.cumulative_working[i]).count <= t.forward_count by {
        if i < k {
            assert(t.cumulative_working[i] == s.cumulative_working[i]);
            assert(1 <= s.cumulative_working[i].count <= s.forward_count);
        } else {
            assert(t.cumulative_working[i] == s.cumulative_working[i + 1]);
            assert(1 <= s.cumulative_working[i + 1].count <= s.forward_count);
        }
    }
    assert forall|i: int| 0 <= i < t.histogram.len() implies (#[trigger] t.histogram[i]).count
        <= t.forward_count by {
        assert(s.histogram[i].count <= s.forward_count);
    }
}

/// The statistics of the run that is under way, and the registry of parser
/// names, which outlives the runs.
pub struct TracableStorage {
    forward_count: usize,
    backward_count: usize,
    parser_indexes: Vec<String>,
    histogram: CountTable,
    cumulative_histogram: CountTable,
    cumulative_working: FrameTable,
}

impl View for TracableStorage {
    type V = StorageView;

    closed spec fn view(&self) -> StorageView {
        StorageView {
            forward_count: self.forward_count as nat,
            backward_count: self.backward_count as nat,
            parsers: Seq::new(self.parser_indexes@.len(), |i: int| self.parser_indexes@[i]@),
            histogram: self.histogram@,
            cumulative_histogram: self.cumulative_histogram@,
            cumulative_working: self.cumulative_working@,
        }
    }
}

impl TracableStorage {
    /// The storage's validity: its counts are consistent.
    pub open spec fn wf(&self) -> bool {
        self@.consistent()
    }

    /// A storage with an empty registry and no statistics.
    pub fn new() -> (r: Self)
        ensures
            r.wf(),
            r@.parsers == Seq::<Seq<char>>::empty(),
            r@ == r@.init(),
    {
        let r = TracableStorage {
            forward_count: 0,
            backward_count: 0,
            parser_indexes: Vec::new(),
            histogram: CountTable::new(),
            cumulative_histogram: CountTable::new(),
            cumulative_working: FrameTable::new(),
        };
        assert(r@.parsers =~= Seq::<Seq<char>>::empty());
        r
    }

    /// Starts a run: the statistics are cleared, the registry stays.
    pub fn init(&mut self)
        requires
            old(self).wf(),
        ensures
            final(self)@ == old(self)@.init(),
            final(self).wf(),
    {
        self.forward_count = 0;
        self.backward_count = 0;
        self.histogram.clear();
        self.cumulative_histogram.clear();
        self.cumulative_working.clear();
    }

    /// The calls entered in this run.
    pub fn get_forward_count(&self) -> (r: usize)
        ensures
            r == self@.forward_count,
    {
        self.forward_count
    }

    /// The calls left in this run.
    pub fn get_backward_count(&self) -> (r: usize)
        ensures
            r == self@.backward_count,
    {
        self.backward_count
    }

    /// The table of the calls entered, by name.
    pub fn histogram_table(&self) -> (r: &CountTable)
        ensures
            r@ == self@.histogram,
    {
        &self.histogram
    }

    /// The table of the cumulative counts, by name.
    pub fn cumulative_histogram_table(&self) -> (r: &CountTable)
        ensures
            r@ == self@.cumulative_histogram,
    {
        &self.cumulative_histogram
    }

    fn inc_forward_count(&mut self)
        requires
            old(self)@.forward_count < usize::MAX,
        ensures
            final(self)@ == (StorageView {
                forward_count: old(self)@.forward_count + 1,
                ..old(self)@
            }),
    {
        self.forward_count += 1
    }

    fn inc_backward_count(&mut self)
        requires
            old(self)@.backward_count < usize::MAX,
        ensures
            final(self)@ == (StorageView {
                backward_count: old(self)@.backward_count + 1,
                ..old(self)@
            }),
    {
        self.backward_count += 1
    }

    fn inc_histogram(&mut self, key: &str)
        requires
            count_of(old(self)@.histogram, key@) < usize::MAX,
        ensures
            final(self)@ == (StorageView {
                histogram: add_count(old(self)@.histogram, key@, 1),
                ..old(self)@
            }),
    {
        self.histogram.add(key, 1);
    }

    fn inc_cumulative_histogram(&mut self, key: &str, cnt: usize)
        requires
            count_of(old(self)@.cumulative_histogram, key@) + cnt <= usize::MAX,
        ensures
            final(self)@ == (StorageView {
                cumulative_histogram: add_count(old(self)@.cumulative_histogram, key@, cnt as nat),
                ..old(self)@
            }),
    {
        self.cumulative_histogram.add(key, cnt);
    }

    fn add_cumulative(&mut self, key: &str, depth: usize)
        ensures
            final(self)@ == (StorageView {
                cumulative_working: open_frame(old(self)@.cumulative_working, key@, depth as nat),
                ..old(self)@
            }),
    {
        self.cumulative_working.open(key, depth);
    }

    fn inc_cumulative(&mut self)
        requires
            forall|i: int|
                0 <= i < old(self)@.cumulative_working.len() ==> (
                #[trigger] old(self)@.cumulative_working[i]).count < usize::MAX,
        ensures
            final(self)@ == (StorageView {
                cumulative_working: bump_all(old(self)@.cumulative_working),
                ..old(self)@
            }),
    {
        assert forall|i: int| 0 <= i < self.cumulative_working@.len() implies (
        #[trigger] self.cumulative_working@[i]).count < usize::MAX by {
            assert(self@.cumulative_working[i].count < usize::MAX);
        }
        self.cumulative_working.bump();
    }

    fn del_cumulative(&mut self, key: &str, depth: usize)
        ensures
            final(self)@ == (StorageView {
                cumulative_working: close_frame(old(self)@.cumulative_working, key@, depth as nat),
                ..old(self)@
            }),
    {
        let _ = self.cumulative_working.close(key, depth);
    }

    /// The count of the frame of `key` at `depth`, if it is open.
    pub fn get_cumulative(&self, key: &str, depth: usize) -> (r: Option<usize>)
        ensures
            r is Some <==> is_open(self@.cumulative_working, key@, depth as nat),
            r is Some ==> r->0 == frame_count(self@.cumulative_working, key@, depth as nat),
    {
        self.cumulative_working.get(key, depth)
    }

    /// The index of `key` in the registry. A name that is looked up for the
    /// first time gets the next index, counting from 0, and keeps it.
    pub fn get_parser_index(&mut self, key: &str) -> (r: usize)
        ensures
            r == old(self)@.parser_index(key@),
            final(self)@ == old(self)@.register(key@),
            final(self).wf() == old(self).wf(),
    {
        let name = key.to_owned();
        let ghost p = is_name(key@);
        let mut i: usize = 0;
        while i < self.parser_indexes.len()
            invariant
                i <= self.parser_indexes@.len(),
                name@ == key@,
                p == is_name(key@),
                forall|k: int| 0 <= k < i ==> !p(#[trigger] self@.parsers[k]),
            decreases self.parser_indexes@.len() - i,
        {
            if self.parser_indexes[i] == name {
                proof {
                    assert(p(self@.parsers[i as int]));
                    lemma_first_where(self@.parsers, p, i as int);
                }
                return i;
            }
            i = i + 1;
        }
        proof {
            lemma_first_where(self@.parsers, p, i as int);
        }
        self.parser_indexes.push(name);
        assert(self@.parsers =~= old(self)@.parsers.push(key@));
        proof {
            lemma_register_consistent(old(self)@, key@);
        }
        i
    }

    /// Whether a call can be entered: the count of the calls entered can
    /// still grow.
    pub fn can_record_forward(&self) -> (r: bool)
        ensures
            r == (self@.forward_count < usize::MAX),
    {
        self.forward_count < usize::MAX
    }

    /// Whether the call of `name` entered at `depth` can be left.
    pub fn can_record_backward(&self, name: &str, depth: usize) -> (r: bool)
        ensures
            r == self@.can_record_backward(name@, depth as nat),
    {
        match self.cumulative_working.get(name, depth) {
            Some(cnt) => cnt <= usize::MAX - self.cumulative_histogram.get(name),
            None => false,
        }
    }

    /// Records that a call of `name` was entered at `depth`, and returns the
    /// number of calls entered so far in this run.
    pub fn record_forward(&mut self, name: &str, depth: usize) -> (r: usize)
        requires
            old(self).wf(),
            old(self)@.forward_count < usize::MAX,
        ensures
            final(self)@ == old(self)@.record_forward(name@, depth as nat),
            final(self).wf(),
            r == old(self)@.forward_count + 1,
    {
        proof {
            lemma_forward_consistent(self@, name@, depth as nat);
            lemma_first_where_is_first(self@.histogram, has_name(name@));
        }
        self.inc_forward_count();
        self.inc_histogram(name);
        self.add_cumulative(name, depth);
        proof {
            lemma_first_where_is_first(
                old(self)@.cumulative_working,
                has_key(name@, depth as nat),
            );
            assert forall|i: int| 0 <= i < self@.cumulative_working.len() implies (
            #[trigger] self@.cumulative_working[i]).count < usize::MAX by {
                if i < old(self)@.cumulative_working.len() {
                    assert(old(self)@.cumulative_working[i].count <= old(self)@.forward_count);
                }
            }
        }
        self.inc_cumulative();
        self.forward_count
    }

    /// Records that the call of `name` entered at `depth` was left, and
    /// returns the number of calls left so far in this run.
    pub fn record_backward(&mut self, name: &str, depth: usize) -> (r: usize)
        requires
            old(self).wf(),
            old(self)@.can_record_backward(name@, depth as nat),
        ensures
            final(self)@ == old(self)@.record_backward(name@, depth as nat),
            final(self).wf(),
            !is_open(final(self)@.cumulative_working, name@, depth as nat),
            r == old(self)@.backward_count + 1,
    {
        proof {
            lemma_backward_consistent(self@, name@, depth as nat);
        }
        let cnt = match self.get_cumulative(name, depth) {
            Some(c) => c,
            None => 0,
        };
        self.inc_cumulative_histogram(name, cnt);
        self.del_cumulative(name, depth);
        self.inc_backward_count();
        self.backward_count
    }
}

} // verus!
