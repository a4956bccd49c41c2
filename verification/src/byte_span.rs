//! `nom_locate`'s spans over bytes as the state of a traced parser: a span
//! whose extra field is the trace's configuration.

use crate::info::{HasTracableInfo, TracableInfo};
use crate::span::{position_string, position_text, position_title, position_title_string};
use crate::text::hex_string;
use crate::trace::{shown_bytes, FragmentDisplay, Tracable};
use nom_locate::LocatedSpan;
use vstd::prelude::*;

verus! {

/// The extra field of a span over bytes.
pub uninterp spec fn byte_span_extra(s: LocatedSpan<&[u8], TracableInfo>) -> TracableInfo;

/// The span over bytes with `info` in its extra field and all else as it is.
pub uninterp spec fn byte_span_with_extra(
    s: LocatedSpan<&[u8], TracableInfo>,
    info: TracableInfo,
) -> LocatedSpan<&[u8], TracableInfo>;

/// The offset of the fragment of a span over bytes in the input.
pub uninterp spec fn byte_span_offset(s: LocatedSpan<&[u8], TracableInfo>) -> usize;

/// The bytes of the fragment of a span over bytes.
pub uninterp spec fn byte_span_fragment(s: LocatedSpan<&[u8], TracableInfo>) -> Seq<u8>;

/// The line of the fragment of a span over bytes in the input: the field
/// that `LocatedSpan::location_line` returns.
pub uninterp spec fn byte_span_line(s: LocatedSpan<&[u8], TracableInfo>) -> u32;

/// Reads the public field `extra` of a span over bytes.
#[verifier::external_body]
fn get_byte_extra(s: &LocatedSpan<&[u8], TracableInfo>) -> (r: TracableInfo)
    ensures
        r == byte_span_extra(*s),
{
    s.extra
}

/// Writes the public field `extra` of a span over bytes. The span that comes
/// back holds `info` there; its offset, its line and its fragment are those
/// of `s`.
#[verifier::external_body]
fn set_byte_extra<'a>(s: LocatedSpan<&'a [u8], TracableInfo>, info: TracableInfo) -> (r:
    LocatedSpan<&'a [u8], TracableInfo>)
    ensures
        r == byte_span_with_extra(s, info),
        byte_span_extra(r) == info,
        byte_span_offset(r) == byte_span_offset(s),
        byte_span_line(r) == byte_span_line(s),
        byte_span_fragment(r) == byte_span_fragment(s),
{
    let mut r = s;
    r.extra = info;
    r
}

/// `LocatedSpan::location_offset` of a span over bytes: the offset of the
/// span's fragment.
#[verifier::external_body]
fn get_byte_offset(s: &LocatedSpan<&[u8], TracableInfo>) -> (r: usize)
    ensures
        r == byte_span_offset(*s),
{
    s.location_offset()
}

/// `LocatedSpan::fragment` of a span over bytes: the span's fragment.
#[verifier::external_body]
fn get_byte_fragment<'a>(s: &LocatedSpan<&'a [u8], TracableInfo>) -> (r: &'a [u8])
    ensures
        r@ == byte_span_fragment(*s),
{
    *s.fragment()
}

/// What a span over bytes holds besides its extra field: the offset and the
/// line of its fragment in the input, and the fragment's bytes.
pub struct ByteSpanContent {
    pub offset: usize,
    pub line: u32,
    pub fragment: Seq<u8>,
}

impl<'a> HasTracableInfo for LocatedSpan<&'a [u8], TracableInfo> {
    type Content = ByteSpanContent;

    open spec fn info(&self) -> TracableInfo {
        byte_span_extra(*self)
    }

    open spec fn content(&self) -> ByteSpanContent {
        ByteSpanContent {
            offset: byte_span_offset(*self),
            line: byte_span_line(*self),
            fragment: byte_span_fragment(*self),
        }
    }

    open spec fn with_info(self, info: TracableInfo) -> Self {
        byte_span_with_extra(self, info)
    }

    fn get_tracable_info(&self) -> (r: TracableInfo) {
        get_byte_extra(self)
    }

    fn set_tracable_info(self, info: TracableInfo) -> (r: Self)
        ensures
            byte_span_offset(r) == byte_span_offset(self),
            byte_span_line(r) == byte_span_line(self),
            byte_span_fragment(r) == byte_span_fragment(self),
    {
        set_byte_extra(self, info)
    }
}

impl<'a> Tracable for LocatedSpan<&'a [u8], TracableInfo> {
    /// The offset, and the first bytes of the fragment in base sixteen.
    open spec fn format_text(&self) -> Seq<char> {
        position_text(
            byte_span_offset(*self) as nat,
            hex_string(
                shown_bytes(byte_span_fragment(*self), byte_span_extra(*self).fragment_width as nat),
            ),
        )
    }

    open spec fn header_text(&self) -> Seq<char> {
        position_title()
    }

    fn inc_depth(self) -> (r: Self)
        ensures
            byte_span_offset(r) == byte_span_offset(self),
            byte_span_line(r) == byte_span_line(self),
            byte_span_fragment(r) == byte_span_fragment(self),
    {
        let info = self.get_tracable_info();
        let info = TracableInfo { depth: info.depth + 1, ..info };
        self.set_tracable_info(info)
    }

    fn dec_depth(self) -> (r: Self)
        ensures
            byte_span_offset(r) == byte_span_offset(self),
            byte_span_line(r) == byte_span_line(self),
            byte_span_fragment(r) == byte_span_fragment(self),
    {
        let info = self.get_tracable_info();
        let info = TracableInfo { depth: info.depth - 1, ..info };
        self.set_tracable_info(info)
    }

    fn format(&self) -> (r: String) {
        let info = self.get_tracable_info();
        let fragment = get_byte_fragment(self).display(info.fragment_width);
        position_string(get_byte_offset(self), fragment.as_str())
    }

    fn header(&self) -> (r: String) {
        position_title_string()
    }
}

} // verus!
