//! The calls that are under way: for each, the parser's name, the depth at
//! which it was entered and the number of calls seen since then.

use crate::table::{first_where, lemma_first_where, lemma_first_where_is_first};
use vstd::prelude::*;

verus! {

/// One call that is under way.
pub struct Frame {
    pub name: Seq<char>,
    pub depth: nat,
    pub count: nat,
}

/// The test that a frame is that of `name` at `depth`.
pub open spec fn has_key(name: Seq<char>, depth: nat) -> spec_fn(Frame) -> bool {
    |f: Frame| f.name == name && f.depth == depth
}

/// The place of the frame of `name` at `depth`, or the number of frames where
/// there is none.
pub open spec fn frame_index(frames: Seq<Frame>, name: Seq<char>, depth: nat) -> int {
    first_where(frames, has_key(name, depth))
}

/// Whether a frame of `name` at `depth` is open.
pub open spec fn is_open(frames: Seq<Frame>, name: Seq<char>, depth: nat) -> bool {
    frame_index(frames, name, depth) < frames.len()
}

/// The count of the frame of `name` at `depth`: 0 where none is open.
pub open spec fn frame_count(frames: Seq<Frame>, name: Seq<char>, depth: nat) -> nat {
    let i = frame_index(frames, name, depth);
    if i < frames.len() {
        frames[i].count
    } else {
        0
    }
}

/// `frames` with a frame of `name` at `depth` that counts from 0: the frame
/// that was open under that name and depth starts again, otherwise a new one
/// stands at the end.
pub open spec fn open_frame(frames: Seq<Frame>, name: Seq<char>, depth: nat) -> Seq<Frame> {
    let i = frame_index(frames, name, depth);
    let fresh = Frame { name: name, depth: depth, count: 0 };
    if i < frames.len() {
        frames.update(i, fresh)
    } else {
        frames.push(fresh)
    }
}

/// `frames` with every count raised by one.
pub open spec fn bump_all(frames: Seq<Frame>) -> Seq<Frame> {
    Seq::new(
        frames.len(),
        |i: int| Frame { name: frames[i].name, depth: frames[i].depth, count: frames[i].count + 1 },
    )
}

/// `frames` without the frame of `name` at `depth`.
pub open spec fn close_frame(frames: Seq<Frame>, name: Seq<char>, depth: nat) -> Seq<Frame> {
    let i = frame_index(frames, name, depth);
    if i < frames.len() {
        frames.remove(i)
    } else {
        frames
    }
}

/// Whether no two frames have the same name and depth.
pub open spec fn distinct_frames(frames: Seq<Frame>) -> bool {
    forall|i: int, j: int|
        0 <= i < j < frames.len() ==> !((#[trigger] frames[i]).name == (#[trigger] frames[j]).name
            && frames[i].depth == frames[j].depth)
}

/// Opening a frame and raising the counts keep the frames distinct.
pub proof fn lemma_open_frame_distinct(frames: Seq<Frame>, name: Seq<char>, depth: nat)
    requires
        distinct_frames(frames),
    ensures
        distinct_frames(open_frame(frames, name, depth)),
        distinct_frames(bump_all(frames)),
        distinct_frames(bump_all(open_frame(frames, name, depth))),
{
    let p = has_key(name, depth);
    lemma_first_where_is_first(frames, p);
    let k = frame_index(frames, name, depth);
    let opened = open_frame(frames, name, depth);
    assert forall|i: int, j: int| 0 <= i < j < opened.len() implies !((
    #[trigger] opened[i]).name == (#[trigger] opened[j]).name && opened[i].depth
        == opened[j].depth) by {
        if j < frames.len() {
            assert(!(frames[i].name == frames[j].name && frames[i].depth == frames[j].depth));
            if k < frames.len() {
                assert(p(frames[k]));
            }
        } else {
            assert(!p(frames[i]));
        }
    }
    let bumped = bump_all(frames);
    assert forall|i: int, j: int| 0 <= i < j < bumped.len() implies !((
    #[trigger] bumped[i]).name == (#[trigger] bumped[j]).name && bumped[i].depth
        == bumped[j].depth) by {
        assert(!(frames[i].name == frames[j].name && frames[i].depth == frames[j].depth));
    }
    let both = bump_all(opened);
    assert forall|i: int, j: int| 0 <= i < j < both.len() implies !((#[trigger] both[i]).name == (
    #[trigger] both[j]).name && both[i].depth == both[j].depth) by {
        assert(!(opened[i].name == opened[j].name && opened[i].depth == opened[j].depth));
    }
}

/// Closing a frame keeps the frames distinct, and among distinct frames it
/// leaves no frame of that name and depth.
pub proof fn lemma_close_frame_distinct(frames: Seq<Frame>, name: Seq<char>, depth: nat)
    requires
        distinct_frames(frames),
    ensures
        distinct_frames(close_frame(frames, name, depth)),
        !is_open(close_frame(frames, name, depth), name, depth),
{
    let p = has_key(name, depth);
    lemma_first_where_is_first(frames, p);
    let k = frame_index(frames, name, depth);
    let after = close_frame(frames, name, depth);
    if k < frames.len() {
        assert(p(frames[k]));
        assert forall|i: int, j: int| 0 <= i < j < after.len() implies !((
        #[trigger] after[i]).name == (#[trigger] after[j]).name && after[i].depth
            == after[j].depth) by {
            let a = if i < k {
                i
            } else {
                i + 1
            };
            let b = if j < k {
                j
            } else {
                j + 1
            };
            assert(after[i] == frames[a]);
            assert(after[j] == frames[b]);
            assert(!(frames[a].name == frames[b].name && frames[a].depth == frames[b].depth));
        }
        assert forall|i: int| 0 <= i < after.len() implies !p(#[trigger] after[i]) by {
            if i < k {
                assert(after[i] == frames[i]);
                assert(!p(frames[i]));
            } else {
                assert(after[i] == frames[i + 1]);
                assert(!(frames[k].name == frames[i + 1].name && frames[k].depth == frames[i
                    + 1].depth));
            }
        }
        lemma_first_where(after, p, after.len() as int);
    }
}

/// One entry of a frame table.
pub struct FrameEntry {
    pub name: String,
    pub depth: usize,
    pub count: usize,
}

impl FrameEntry {
    /// The frame that the entry stands for.
    pub open spec fn frame(self) -> Frame {
        Frame { name: self.name@, depth: self.depth as nat, count: self.count as nat }
    }
}

/// The table of the calls that are under way.
pub struct FrameTable {
    entries: Vec<FrameEntry>,
}

impl View for FrameTable {
    type V = Seq<Frame>;

    closed spec fn view(&self) -> Seq<Frame> {
        Seq::new(self.entries@.len(), |i: int| self.entries@[i].frame())
    }
}

impl FrameTable {
    /// A table without frames.
    pub fn new() -> (r: Self)
        ensures
            r@ == Seq::<Frame>::empty(),
    {
        let r = FrameTable { entries: Vec::new() };
        assert(r@ =~= Seq::<Frame>::empty());
        r
    }

    /// Removes every frame.
    pub fn clear(&mut self)
        ensures
            final(self)@ == Seq::<Frame>::empty(),
    {
        self.entries.clear();
        assert(self@ =~= Seq::<Frame>::empty());
    }

    /// The number of open frames.
    pub fn len(&self) -> (r: usize)
        ensures
            r == self@.len(),
    {
        self.entries.len()
    }

    /// The place of the frame of `name` at `depth`, or the number of frames.
    fn find(&self, name: &String, depth: usize) -> (i: usize)
        ensures
            i == frame_index(self@, name@, depth as nat),
            i <= self@.len(),
    {
        let ghost p = has_key(name@, depth as nat);
        let mut i: usize = 0;
        while i < self.entries.len()
            invariant
                i <= self.entries@.len(),
                p == has_key(name@, depth as nat),
                forall|k: int| 0 <= k < i ==> !p(#[trigger] self@[k]),
            decreases self.entries@.len() - i,
        {
            if self.entries[i].depth == depth && self.entries[i].name == *name {
                proof {
                    lemma_first_where(self@, p, i as int);
                }
                return i;
            }
            i = i + 1;
        }
        proof {
            lemma_first_where(self@, p, i as int);
        }
        i
    }

    /// The count of the frame of `name` at `depth`, if one is open.
    pub fn get(&self, name: &str, depth: usize) -> (r: Option<usize>)
        ensures
            r is Some <==> is_open(self@, name@, depth as nat),
            r is Some ==> r->0 == frame_count(self@, name@, depth as nat),
    {
        let key = name.to_owned();
        let i = self.find(&key, depth);
        if i < self.entries.len() {
            Some(self.entries[i].count)
        } else {
            None
        }
    }

    /// Opens a frame of `name` at `depth` that counts from 0.
    pub fn open(&mut self, name: &str, depth: usize)
        ensures
            final(self)@ == open_frame(old(self)@, name@, depth as nat),
    {
        let key = name.to_owned();
        let i = self.find(&key, depth);
        if i < self.entries.len() {
            let ghost before = self.entries@;
            proof {
                lemma_first_where_is_first(self@, has_key(name@, depth as nat));
                assert(self@[i as int] == before[i as int].frame());
            }
            self.entries[i].count = 0;
            assert(self.entries@ =~= before.update(
                i as int,
                FrameEntry { name: before[i as int].name, depth: before[i as int].depth, count: 0 },
            ));
        } else {
            self.entries.push(FrameEntry { name: key, depth: depth, count: 0 });
        }
        assert(self@ =~= open_frame(old(self)@, name@, depth as nat));
    }

    /// Raises the count of every open frame by one.
    pub fn bump(&mut self)
        requires
            forall|i: int| 0 <= i < old(self)@.len() ==> (#[trigger] old(self)@[i]).count < usize::MAX,
        ensures
            final(self)@ == bump_all(old(self)@),
    {
        let mut i: usize = 0;
        while i < self.entries.len()
            invariant
                i <= self.entries@.len(),
                self.entries@.len() == old(self).entries@.len(),
                forall|k: int| 0 <= k < i ==> #[trigger] self@[k] == bump_all(old(self)@)[k],
                forall|k: int| i <= k < self.entries@.len() ==> #[trigger] self@[k] == old(self)@[k],
                forall|k: int|
                    0 <= k < old(self)@.len() ==> (#[trigger] old(self)@[k]).count < usize::MAX,
            decreases self.entries@.len() - i,
        {
            assert(self@[i as int] == old(self)@[i as int]);
            let ghost before = self.entries@;
            let ghost prev = self@;
            let raised = self.entries[i].count + 1;
            self.entries[i].count = raised;
            assert(self.entries@ =~= before.update(
                i as int,
                FrameEntry {
                    name: before[i as int].name,
                    depth: before[i as int].depth,
                    count: raised,
                },
            ));
            assert forall|k: int| 0 <= k < i + 1 implies #[trigger] self@[k] == bump_all(
                old(self)@,
            )[k] by {
                if k < i {
                    assert(self.entries@[k] == before[k]);
                    assert(prev[k] == bump_all(old(self)@)[k]);
                }
            }
            assert forall|k: int| i + 1 <= k < self.entries@.len() implies #[trigger] self@[k]
                == old(self)@[k] by {
                assert(self.entries@[k] == before[k]);
                assert(prev[k] == old(self)@[k]);
            }
            i = i + 1;
        }
        assert(self@ =~= bump_all(old(self)@));
    }

    /// Closes the frame of `name` at `depth` and returns its count; `None`,
    /// with nothing changed, where none is open.
    pub fn close(&mut self, name: &str, depth: usize) -> (r: Option<usize>)
        ensures
            final(self)@ == close_frame(old(self)@, name@, depth as nat),
            r is Some <==> is_open(old(self)@, name@, depth as nat),
            r is Some ==> r->0 == frame_count(old(self)@, name@, depth as nat),
    {
        let key = name.to_owned();
        let i = self.find(&key, depth);
        if i < self.entries.len() {
            let e = self.entries.remove(i);
            assert(self@ =~= close_frame(old(self)@, name@, depth as nat));
            Some(e.count)
        } else {
            None
        }
    }
}

} // verus!
