//! The configuration of a trace: what is shown, how wide the columns are,
//! which parsers are folded, and how deep the current call is nested.

use crate::storage::TracableStorage;
use vstd::prelude::*;

verus! {

/// The number of parsers that can be folded: the bits of the fold mask.
pub const FOLD_LIMIT: usize = 64;

/// The configuration of a trace. It is handed on by value from call to call.
#[derive(Clone, Copy, Debug, PartialEq, Eq, Structural)]
pub struct TracableInfo {
    /// Whether tracing takes place at all. Without it every setter leaves the
    /// configuration as it is and no parser counts as folded.
    pub enabled: bool,
    /// How deep the current call is nested.
    pub depth: usize,
    /// Whether the entering of a call is shown.
    pub forward: bool,
    /// Whether the leaving of a call is shown.
    pub backward: bool,
    /// Whether custom messages are shown.
    pub custom: bool,
    /// Whether the lines carry ANSI colour codes.
    pub color: bool,
    /// The width of each of the two count columns.
    pub count_width: usize,
    /// The width of the parser column.
    pub parser_width: usize,
    /// The most characters shown of a fragment.
    pub fragment_width: usize,
    /// The fold mask: bit `i` says that the parser with index `i` is folded.
    pub fold: u64,
}

/// Whether bit `i` of `mask` is set.
pub open spec fn mask_has(mask: u64, i: nat) -> bool {
    i < 64 && (mask >> (i as u64)) & 1u64 == 1u64
}

/// `mask` with bit `i` set.
pub open spec fn mask_with(mask: u64, i: nat) -> u64 {
    mask | (1u64 << (i as u64))
}

proof fn lemma_mask_bits(mask: u64, i: u64, j: u64)
    by (bit_vector)
    requires
        i < 64,
        j < 64,
    ensures
        ((mask | (1u64 << i)) >> j) & 1u64 == 1u64 <==> (j == i || (mask >> j) & 1u64 == 1u64),
{
}

proof fn lemma_empty_mask_bits(j: u64)
    by (bit_vector)
    requires
        j < 64,
    ensures
        (0u64 >> j) & 1u64 != 1u64,
{
}

/// Setting bit `i` sets that bit and changes no other, and the empty mask
/// has no bit set.
pub proof fn lemma_mask_with(mask: u64, i: nat, j: nat)
    requires
        i < 64,
    ensures
        mask_has(mask_with(mask, i), j) == (j == i || mask_has(mask, j)),
        !mask_has(0, j),
{
    if j < 64 {
        lemma_mask_bits(mask, i as u64, j as u64);
        lemma_empty_mask_bits(j as u64);
    }
}

impl TracableInfo {
    /// The configuration one level deeper.
    pub open spec fn deeper(self) -> Self {
        TracableInfo { depth: (self.depth + 1) as usize, ..self }
    }

    /// The configuration one level less deep.
    pub open spec fn shallower(self) -> Self {
        TracableInfo { depth: (self.depth - 1) as usize, ..self }
    }

    /// The configuration that `new` gives: everything shown, in colour, at
    /// depth 0, with nothing folded.
    pub open spec fn initial() -> Self {
        TracableInfo {
            enabled: true,
            depth: 0,
            forward: true,
            backward: true,
            custom: true,
            color: true,
            count_width: 10,
            parser_width: 96,
            fragment_width: 96,
            fold: 0,
        }
    }

    /// Whether the parser with registry index `index` is folded. An index
    /// from `FOLD_LIMIT` on is never folded.
    pub open spec fn is_folded_at(self, index: nat) -> bool {
        self.enabled && mask_has(self.fold, index)
    }

    /// The configuration with the parser of registry index `index` folded. An
    /// index from `FOLD_LIMIT` on cannot be folded: the configuration stays as
    /// it is.
    pub open spec fn with_fold_at(self, index: nat) -> Self {
        if self.enabled && index < 64 {
            TracableInfo { fold: mask_with(self.fold, index), ..self }
        } else {
            self
        }
    }

    /// The configuration with which tracing starts.
    pub fn new() -> (r: Self)
        ensures
            r == Self::initial(),
    {
        TracableInfo {
            enabled: true,
            depth: 0,
            forward: true,
            backward: true,
            custom: true,
            color: true,
            count_width: 10,
            parser_width: 96,
            fragment_width: 96,
            fold: 0,
        }
    }

    /// The configuration without tracing: nothing is shown or counted, and no
    /// setter changes it.
    pub fn disabled() -> (r: Self)
        ensures
            r == (TracableInfo { enabled: false, ..Self::initial() }),
    {
        TracableInfo {
            enabled: false,
            depth: 0,
            forward: true,
            backward: true,
            custom: true,
            color: true,
            count_width: 10,
            parser_width: 96,
            fragment_width: 96,
            fold: 0,
        }
    }

    /// Sets the depth of nesting.
    pub fn depth(self, x: usize) -> (r: Self)
        ensures
            r == if self.enabled {
                TracableInfo { depth: x, ..self }
            } else {
                self
            },
    {
        let mut out = self;
        if out.enabled {
            out.depth = x;
        }
        out
    }

    /// Sets whether the entering of a call is shown.
    pub fn forward(self, x: bool) -> (r: Self)
        ensures
            r == if self.enabled {
                TracableInfo { forward: x, ..self }
            } else {
                self
            },
    {
        let mut out = self;
        if out.enabled {
            out.forward = x;
        }
        out
    }

    /// Sets whether the leaving of a call is shown.
    pub fn backward(self, x: bool) -> (r: Self)
        ensures
            r == if self.enabled {
                TracableInfo { backward: x, ..self }
            } else {
                self
            },
    {
        let mut out = self;
        if out.enabled {
            out.backward = x;
        }
        out
    }

    /// Sets whether custom messages are shown.
    pub fn custom(self, x: bool) -> (r: Self)
        ensures
            r == if self.enabled {
                TracableInfo { custom: x, ..self }
            } else {
                self
            },
    {
        let mut out = self;
        if out.enabled {
            out.custom = x;
        }
        out
    }

    /// Sets whether the lines carry colour codes.
    pub fn color(self, x: bool) -> (r: Self)
        ensures
            r == if self.enabled {
                TracableInfo { color: x, ..self }
            } else {
                self
            },
    {
        let mut out = self;
        if out.enabled {
            out.color = x;
        }
        out
    }

    /// Sets the width of the two count columns.
    pub fn count_width(self, x: usize) -> (r: Self)
        ensures
            r == if self.enabled {
                TracableInfo { count_width: x, ..self }
            } else {
                self
            },
    {
        let mut out = self;
        if out.enabled {
            out.count_width = x;
        }
        out
    }

    /// Sets the width of the parser column.
    pub fn parser_width(self, x: usize) -> (r: Self)
        ensures
            r == if self.enabled {
                TracableInfo { parser_width: x, ..self }
            } else {
                self
            },
    {
        let mut out = self;
        if out.enabled {
            out.parser_width = x;
        }
        out
    }

    /// Sets the most characters shown of a fragment.
    pub fn fragment_width(self, x: usize) -> (r: Self)
        ensures
            r == if self.enabled {
                TracableInfo { fragment_width: x, ..self }
            } else {
                self
            },
    {
        let mut out = self;
        if out.enabled {
            out.fragment_width = x;
        }
        out
    }

    /// Folds the parser named `x`: the name is looked up in the registry of
    /// `storage`, which gives a new name the next index, and the bit of its
    /// index is set. A name whose index is `FOLD_LIMIT` or more cannot be
    /// folded, and the configuration stays as it is. Without tracing neither
    /// the configuration nor the registry changes.
    pub fn fold(self, storage: &mut TracableStorage, x: &str) -> (r: Self)
        ensures
            self.enabled ==> final(storage)@ == old(storage)@.register(x@),
            !self.enabled ==> final(storage)@ == old(storage)@,
            final(storage).wf() == old(storage).wf(),
            r == if self.enabled {
                self.with_fold_at(old(storage)@.parser_index(x@))
            } else {
                self
            },
    {
        let mut out = self;
        if out.enabled {
            let index = storage.get_parser_index(x);
            if index < FOLD_LIMIT {
                out.fold = out.fold | (1u64 << (index as u64));
            }
        }
        out
    }

    /// Whether the parser named `x` is folded. The name is looked up in the
    /// registry of `storage` as `fold` does it. A name whose index is
    /// `FOLD_LIMIT` or more is not folded, and without tracing none is.
    pub fn folded(self, storage: &mut TracableStorage, x: &str) -> (r: bool)
        ensures
            self.enabled ==> final(storage)@ == old(storage)@.register(x@),
            !self.enabled ==> final(storage)@ == old(storage)@,
            final(storage).wf() == old(storage).wf(),
            r == self.is_folded_at(old(storage)@.parser_index(x@)),
    {
        if self.enabled {
            let index = storage.get_parser_index(x);
            if index < FOLD_LIMIT {
                ((self.fold >> (index as u64)) & 1u64) == 1u64
            } else {
                false
            }
        } else {
            false
        }
    }
}

impl Default for TracableInfo {
    fn default() -> (r: Self)
        ensures
            r == Self::initial(),
    {
        TracableInfo::new()
    }
}

/// A value that carries a `TracableInfo`.
pub trait HasTracableInfo: Sized {
    /// What the value holds besides its configuration.
    type Content;

    /// The configuration that the value carries.
    spec fn info(&self) -> TracableInfo;

    /// What the value holds besides its configuration.
    spec fn content(&self) -> Self::Content;

    /// The value with `info` in place of the configuration that it carries.
    spec fn with_info(self, info: TracableInfo) -> Self;

    /// Returns the configuration that the value carries.
    fn get_tracable_info(&self) -> (r: TracableInfo)
        ensures
            r == self.info(),
    ;

    /// Puts `info` in place of the configuration that the value carries, and
    /// leaves what else the value holds.
    fn set_tracable_info(self, info: TracableInfo) -> (r: Self)
        ensures
            r == self.with_info(info),
            r.info() == info,
            r.content() == self.content(),
    ;
}

impl HasTracableInfo for TracableInfo {
    type Content = ();

    open spec fn info(&self) -> TracableInfo {
        *self
    }

    open spec fn content(&self) -> () {
        ()
    }

    open spec fn with_info(self, info: TracableInfo) -> Self {
        info
    }

    fn get_tracable_info(&self) -> (r: TracableInfo) {
        *self
    }

    fn set_tracable_info(self, info: TracableInfo) -> (r: Self) {
        info
    }
}

} // verus!
