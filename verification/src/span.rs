//! `nom_locate`'s spans as the state of a traced parser: a span over text
//! whose extra field is the trace's configuration.

use crate::info::{HasTracableInfo, TracableInfo};
use crate::text::{decimal, decimal_string, first_line, pad_right, push_padded, take_prefix};
use crate::trace::{FragmentDisplay, Tracable};
use nom_locate::LocatedSpan;
use vstd::prelude::*;

verus! {

/// `nom_locate`'s span: a fragment of the input with its offset and line,
/// and an extra field.
#[verifier::external_type_specification]
#[verifier::external_body]
#[verifier::reject_recursive_types(T)]
#[verifier::reject_recursive_types(X)]
pub struct ExLocatedSpan<T, X>(LocatedSpan<T, X>);

/// The extra field of a span.
pub uninterp spec fn span_extra(s: LocatedSpan<&str, TracableInfo>) -> TracableInfo;

/// The span with `info` in its extra field and all else as it is.
pub uninterp spec fn span_with_extra(
    s: LocatedSpan<&str, TracableInfo>,
    info: TracableInfo,
) -> LocatedSpan<&str, TracableInfo>;

/// The offset of a span's fragment in the input.
pub uninterp spec fn span_offset(s: LocatedSpan<&str, TracableInfo>) -> usize;

/// The text of a span's fragment.
pub uninterp spec fn span_fragment(s: LocatedSpan<&str, TracableInfo>) -> Seq<char>;

/// The line of a span's fragment in the input: the field that
/// `LocatedSpan::location_line` returns.
pub uninterp spec fn span_line(s: LocatedSpan<&str, TracableInfo>) -> u32;

/// Reads the public field `extra` of a span.
#[verifier::external_body]
fn get_extra(s: &LocatedSpan<&str, TracableInfo>) -> (r: TracableInfo)
    ensures
        r == span_extra(*s),
{
    s.extra
}

/// Writes the public field `extra` of a span. The span that comes back holds
/// `info` there; its offset, its line and its fragment are those of `s`.
#[verifier::external_body]
fn set_extra<'a>(s: LocatedSpan<&'a str, TracableInfo>, info: TracableInfo) -> (r: LocatedSpan<
    &'a str,
    TracableInfo,
>)
    ensures
        r == span_with_extra(s, info),
        span_extra(r) == info,
        span_offset(r) == span_offset(s),
        span_line(r) == span_line(s),
        span_fragment(r) == span_fragment(s),
{
    let mut r = s;
    r.extra = info;
    r
}

/// `LocatedSpan::location_offset`: the offset of the span's fragment.
#[verifier::external_body]
fn get_offset(s: &LocatedSpan<&str, TracableInfo>) -> (r: usize)
    ensures
        r == span_offset(*s),
{
    s.location_offset()
}

/// `LocatedSpan::fragment`: the span's fragment.
#[verifier::external_body]
fn get_fragment<'a>(s: &LocatedSpan<&'a str, TracableInfo>) -> (r: &'a str)
    ensures
        r@ == span_fragment(*s),
{
    *s.fragment()
}

/// What a span over text holds besides its extra field: the offset and the
/// line of its fragment in the input, and the fragment's text.
pub struct SpanContent {
    pub offset: usize,
    pub line: u32,
    pub fragment: Seq<char>,
}

impl<'a> HasTracableInfo for LocatedSpan<&'a str, TracableInfo> {
    type Content = SpanContent;

    open spec fn info(&self) -> TracableInfo {
        span_extra(*self)
    }

    open spec fn content(&self) -> SpanContent {
        SpanContent {
            offset: span_offset(*self),
            line: span_line(*self),
            fragment: span_fragment(*self),
        }
    }

    open spec fn with_info(self, info: TracableInfo) -> Self {
        span_with_extra(self, info)
    }

    fn get_tracable_info(&self) -> (r: TracableInfo) {
        get_extra(self)
    }

    fn set_tracable_info(self, info: TracableInfo) -> (r: Self)
        ensures
            span_offset(r) == span_offset(self),
            span_line(r) == span_line(self),
            span_fragment(r) == span_fragment(self),
    {
        set_extra(self, info)
    }
}

/// What a span shows of where it stands: its offset in a column of eight
/// characters, and what is shown of its fragment.
pub open spec fn position_text(offset: nat, shown: Seq<char>) -> Seq<char> {
    pad_right(decimal(offset), 8) + " : "@ + shown
}

/// The title of what a span shows of where it stands.
pub open spec fn position_title() -> Seq<char> {
    pad_right("offset"@, 8) + " : "@ + "fragment"@
}

impl<'a> Tracable for LocatedSpan<&'a str, TracableInfo> {
    open spec fn format_text(&self) -> Seq<char> {
        position_text(
            span_offset(*self) as nat,
            take_prefix(first_line(span_fragment(*self)), span_extra(*self).fragment_width as nat),
        )
    }

    open spec fn header_text(&self) -> Seq<char> {
        position_title()
    }

    fn inc_depth(self) -> (r: Self)
        ensures
            span_offset(r) == span_offset(self),
            span_line(r) == span_line(self),
            span_fragment(r) == span_fragment(self),
    {
        let info = self.get_tracable_info();
        let info = TracableInfo { depth: info.depth + 1, ..info };
        self.set_tracable_info(info)
    }

    fn dec_depth(self) -> (r: Self)
        ensures
            span_offset(r) == span_offset(self),
            span_line(r) == span_line(self),
            span_fragment(r) == span_fragment(self),
    {
        let info = self.get_tracable_info();
        let info = TracableInfo { depth: info.depth - 1, ..info };
        self.set_tracable_info(info)
    }

    fn format(&self) -> (r: String) {
        let info = self.get_tracable_info();
        let fragment = get_fragment(self).display(info.fragment_width);
        position_string(get_offset(self), fragment.as_str())
    }

    fn header(&self) -> (r: String) {
        position_title_string()
    }
}

/// What a span at `offset` shows of where it stands, where `shown` is what is
/// shown of its fragment.
pub fn position_string(offset: usize, shown: &str) -> (r: String)
    ensures
        r@ == position_text(offset as nat, shown@),
{
    let number = decimal_string(offset);
    let mut out = String::new();
    push_padded(&mut out, number.as_str(), 8);
    out.append(" : ");
    out.append(shown);
    assert(out@ =~= position_text(offset as nat, shown@));
    out
}

/// The title of what a span shows of where it stands.
pub fn position_title_string() -> (r: String)
    ensures
        r@ == position_title(),
{
    let mut out = String::new();
    push_padded(&mut out, "offset", 8);
    out.append(" : ");
    out.append("fragment");
    assert(out@ =~= position_title());
    out
}

} // verus!
