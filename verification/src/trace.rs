//! The protocol of a traced call: what is recorded and shown when the call is
//! entered and when it is left.

use crate::frames::is_open;
use crate::info::{HasTracableInfo, TracableInfo};
use crate::storage::{StorageView, TracableStorage};
use crate::text::{
    decimal, decimal_string, first_line, first_line_prefix, hex_string, lemma_hex_string_len,
    lemma_take_prefix_len, pad_right, push_hex_upper, push_padded, push_repeat, repeat, take_prefix,
};
use vstd::prelude::*;

verus! {

/// The colour code of a line that shows a call being entered.
pub const COLOR_FORWARD: &'static str = "\u{1b}[1;37m";

/// The colour code of a line that shows a call that succeeded.
pub const COLOR_OK: &'static str = "\u{1b}[1;32m";

/// The colour code of a line that shows a call that failed.
pub const COLOR_ERR: &'static str = "\u{1b}[1;31m";

/// The code that ends a colour.
pub const COLOR_RESET: &'static str = "\u{1b}[0m";

/// The characters that the two colour codes of a line add to its parser
/// column without taking room on the screen.
pub const CONTROL_WIDTH: usize = 11;

/// A fragment of input that can be shown in at most `width` characters.
pub trait FragmentDisplay {
    /// What `display` shows of the fragment.
    spec fn display_text(&self, width: nat) -> Seq<char>;

    /// Shows the fragment, in at most `width` characters.
    fn display(&self, width: usize) -> (r: String)
        ensures
            r@ == self.display_text(width as nat),
            r@.len() <= width,
    ;
}

/// The bytes whose digits fit into `width` characters at two a byte.
pub open spec fn shown_bytes(bytes: Seq<u8>, width: nat) -> Seq<u8> {
    if bytes.len() <= width / 2 {
        bytes
    } else {
        bytes.take((width / 2) as int)
    }
}

impl<'a> FragmentDisplay for &'a [u8] {
    /// The first `width / 2` bytes in base sixteen.
    open spec fn display_text(&self, width: nat) -> Seq<char> {
        hex_string(shown_bytes(self@, width))
    }

    fn display(&self, width: usize) -> (r: String) {
        let mut out = String::new();
        let limit = if self.len() <= width / 2 {
            self.len()
        } else {
            width / 2
        };
        let mut i: usize = 0;
        assert(self@.take(0) =~= Seq::<u8>::empty());
        while i < limit
            invariant
                i <= limit <= self@.len(),
                out@ == hex_string(self@.take(i as int)),
            decreases limit - i,
        {
            push_hex_upper(&mut out, self[i]);
            proof {
                let next = self@.take(i + 1);
                assert(next.drop_last() =~= self@.take(i as int));
                assert(next.last() == self@[i as int]);
            }
            i = i + 1;
        }
        assert(self@.take(limit as int) =~= shown_bytes(self@, width as nat));
        proof {
            lemma_hex_string_len(shown_bytes(self@, width as nat));
        }
        out
    }
}

impl<'a> FragmentDisplay for &'a str {
    /// The first line, cut to `width` characters.
    open spec fn display_text(&self, width: nat) -> Seq<char> {
        take_prefix(first_line(self@), width)
    }

    fn display(&self, width: usize) -> (r: String) {
        proof {
            lemma_take_prefix_len(first_line(self@), width as nat);
        }
        first_line_prefix(*self, width)
    }
}

/// A value that is handed from parser to parser and carries the trace's
/// configuration: the depth of nesting can be raised and lowered, and the
/// value can show where it stands.
pub trait Tracable: HasTracableInfo {
    /// What `format` shows of the value.
    spec fn format_text(&self) -> Seq<char>;

    /// What `header` gives as the title of what `format` shows.
    spec fn header_text(&self) -> Seq<char>;

    /// The value one level deeper, with nothing else changed.
    fn inc_depth(self) -> (r: Self)
        requires
            self.info().depth < usize::MAX,
        ensures
            r == self.with_info(self.info().deeper()),
            r.info() == self.info().deeper(),
            r.content() == self.content(),
    ;

    /// The value one level less deep, with nothing else changed.
    fn dec_depth(self) -> (r: Self)
        requires
            self.info().depth > 0,
        ensures
            r == self.with_info(self.info().shallower()),
            r.info() == self.info().shallower(),
            r.content() == self.content(),
    ;

    /// Shows where the value stands.
    fn format(&self) -> (r: String)
        ensures
            r@ == self.format_text(),
    ;

    /// The title of what `format` shows.
    fn header(&self) -> (r: String)
        ensures
            r@ == self.header_text(),
    ;
}

/// The two count columns of the title line.
pub open spec fn count_titles(info: TracableInfo) -> Seq<char> {
    let width = info.count_width as nat;
    if info.forward && info.backward {
        pad_right("forward"@, width) + " "@ + pad_right("backward"@, width)
    } else if info.forward {
        pad_right("forward"@, width)
    } else {
        pad_right("backward"@, width)
    }
}

/// The width on the screen of the parser column: with colour the column
/// less the colour codes, and nothing where the column is narrower than they
/// are.
pub open spec fn visible_parser_width(info: TracableInfo) -> nat {
    if !info.color {
        info.parser_width as nat
    } else if info.parser_width >= CONTROL_WIDTH {
        (info.parser_width - CONTROL_WIDTH) as nat
    } else {
        0
    }
}

/// The title line of a run, after an empty line.
pub open spec fn title_line(info: TracableInfo, header: Seq<char>) -> Seq<char> {
    "\n"@ + count_titles(info) + " : "@ + pad_right("parser"@, visible_parser_width(info)) + " : "@
        + header + "\n"@
}

/// The count columns of a line that shows a call being entered.
pub open spec fn forward_columns(info: TracableInfo, count: nat) -> Seq<char> {
    let width = info.count_width as nat;
    if info.backward {
        pad_right(decimal(count), width) + " "@ + pad_right(Seq::empty(), width)
    } else {
        pad_right(decimal(count), width)
    }
}

/// The count columns of a line that shows a call being left.
pub open spec fn backward_columns(info: TracableInfo, count: nat) -> Seq<char> {
    let width = info.count_width as nat;
    if info.forward {
        pad_right(Seq::empty(), width) + " "@ + pad_right(decimal(count), width)
    } else {
        pad_right(decimal(count), width)
    }
}

/// The count columns of a custom line: both empty.
pub open spec fn custom_columns(info: TracableInfo) -> Seq<char> {
    let width = info.count_width as nat;
    pad_right(Seq::empty(), width) + " "@ + pad_right(Seq::empty(), width)
}

/// The mark behind a parser's name: `+` where it is folded.
pub open spec fn fold_mark(folded: bool) -> Seq<char> {
    if folded {
        "+"@
    } else {
        " "@
    }
}

/// The parser column before it is padded: the colour where colour is on, one
/// blank for each level of depth, the arrow, what follows it, and the end of
/// the colour.
pub open spec fn label(info: TracableInfo, tint: Seq<char>, arrow: Seq<char>, rest: Seq<char>) -> Seq<
    char,
> {
    let body = repeat(' ', info.depth as nat) + arrow + rest;
    if info.color {
        tint + body + COLOR_RESET@
    } else {
        body
    }
}

/// The line that shows a call of `name` being entered as call number `count`.
pub open spec fn forward_line(
    info: TracableInfo,
    count: nat,
    name: Seq<char>,
    folded: bool,
    position: Seq<char>,
) -> Seq<char> {
    forward_columns(info, count) + " : "@ + pad_right(
        label(info, COLOR_FORWARD@, "-> "@, name + " "@ + fold_mark(folded)),
        info.parser_width as nat,
    ) + " : "@ + position + "\n"@
}

/// The line that shows a call of `name` being left as number `count`: with
/// the position that was reached where the call succeeded, without one where
/// it failed.
pub open spec fn backward_line(
    info: TracableInfo,
    count: nat,
    name: Seq<char>,
    folded: bool,
    position: Option<Seq<char>>,
) -> Seq<char> {
    let tint = if position is Some {
        COLOR_OK@
    } else {
        COLOR_ERR@
    };
    let start = backward_columns(info, count) + " : "@ + pad_right(
        label(info, tint, "<- "@, name + " "@ + fold_mark(folded)),
        info.parser_width as nat,
    );
    match position {
        Some(p) => start + " : "@ + p + "\n"@,
        None => start + "\n"@,
    }
}

/// The line that shows a custom message.
pub open spec fn custom_line(
    info: TracableInfo,
    name: Seq<char>,
    message: Seq<char>,
    tint: Seq<char>,
) -> Seq<char> {
    custom_columns(info) + " : "@ + pad_right(
        label(info, tint, "   "@, name),
        info.parser_width as nat,
    ) + " : "@ + message + "\n"@
}

/// The configuration with nothing shown.
pub open spec fn quiet(info: TracableInfo) -> TracableInfo {
    TracableInfo { forward: false, backward: false, custom: false, ..info }
}

/// The configuration `carried` with what `saved` says is shown. A
/// configuration without tracing stays as it is.
pub open spec fn restored(carried: TracableInfo, saved: TracableInfo) -> TracableInfo {
    if carried.enabled {
        TracableInfo {
            forward: saved.forward,
            backward: saved.backward,
            custom: saved.custom,
            ..carried
        }
    } else {
        carried
    }
}

/// The configuration that a call hands to its body: one level deeper, and
/// with nothing shown where the call's parser is folded.
pub open spec fn entered_info(info: TracableInfo, folded: bool) -> TracableInfo {
    if folded {
        quiet(info).deeper()
    } else {
        info.deeper()
    }
}

/// The value that a call hands to its body.
pub open spec fn entered<T: Tracable>(input: T, folded: bool) -> T {
    let shown = if folded {
        input.with_info(quiet(input.info()))
    } else {
        input
    };
    shown.with_info(shown.info().deeper())
}

/// The configuration that a call hands back when its body has handed back
/// `carried`: one level less deep, and where the call's parser is folded,
/// showing again what `saved` shows.
pub open spec fn left_info(carried: TracableInfo, saved: TracableInfo, folded: bool) -> TracableInfo {
    if folded {
        restored(carried, saved).shallower()
    } else {
        carried.shallower()
    }
}

/// The value that a call hands back when its body has handed back `value`.
pub open spec fn left<T: Tracable>(value: T, saved: TracableInfo, folded: bool) -> T {
    let shown = if folded {
        value.with_info(restored(value.info(), saved))
    } else {
        value
    };
    shown.with_info(shown.info().shallower())
}

/// The storage with which a call entered under `info` starts: a call at
/// depth 0 starts a run.
pub open spec fn forward_start(s: StorageView, info: TracableInfo) -> StorageView {
    if info.depth == 0 {
        s.init()
    } else {
        s
    }
}

/// The storage after a call of `name` was entered under `info`.
pub open spec fn forward_state(s: StorageView, info: TracableInfo, name: Seq<char>) -> StorageView {
    if info.enabled {
        forward_start(s, info).register(name).record_forward(name, info.depth as nat)
    } else {
        s
    }
}

/// Whether a call of `name` can be entered under `info`: the depth and the
/// count of calls can grow.
pub open spec fn can_forward(s: StorageView, info: TracableInfo) -> bool {
    info.enabled ==> {
        &&& info.depth < usize::MAX
        &&& info.depth > 0 ==> s.forward_count < usize::MAX
    }
}

/// What is shown when a call of `name` is entered under `info`: at depth 0
/// the title line, and where the entering of calls is shown, the call's line.
pub open spec fn forward_text(
    s: StorageView,
    info: TracableInfo,
    name: Seq<char>,
    header: Seq<char>,
    position: Seq<char>,
) -> Seq<char> {
    if info.enabled {
        let title = if info.depth == 0 {
            title_line(info, header)
        } else {
            Seq::empty()
        };
        let line = if info.forward {
            forward_line(
                info,
                forward_start(s, info).forward_count + 1,
                name,
                info.is_folded_at(s.parser_index(name)),
                position,
            )
        } else {
            Seq::empty()
        };
        title + line
    } else {
        Seq::empty()
    }
}

/// The storage after the call of `name` that was entered under `info` was
/// left.
pub open spec fn backward_state(s: StorageView, info: TracableInfo, name: Seq<char>) -> StorageView {
    if info.enabled {
        let t = s.record_backward(name, info.depth as nat);
        if info.backward {
            t.register(name)
        } else {
            t
        }
    } else {
        s
    }
}

/// Whether the call of `name` that was entered under `info` can be left with
/// a body that hands back the configuration `carried`, if it hands one back.
pub open spec fn can_backward(
    s: StorageView,
    info: TracableInfo,
    name: Seq<char>,
    carried: Option<TracableInfo>,
) -> bool {
    info.enabled ==> {
        &&& s.can_record_backward(name, info.depth as nat)
        &&& info.backward && carried is Some ==> carried->0.depth > 0
    }
}

/// What is shown when the call of `name` that was entered under `info` is
/// left: its line, where the leaving of calls is shown.
pub open spec fn backward_text(
    s: StorageView,
    info: TracableInfo,
    name: Seq<char>,
    position: Option<Seq<char>>,
) -> Seq<char> {
    if info.enabled && info.backward {
        backward_line(
            info,
            s.backward_count + 1,
            name,
            info.is_folded_at(s.parser_index(name)),
            position,
        )
    } else {
        Seq::empty()
    }
}

/// What a call hands back for the result `input` of its body: a failure as
/// it is; a success with the same value, and with the state brought back one
/// level where the leaving of calls is shown, as it is where it is not.
pub open spec fn backward_result<T: Tracable, U, V>(
    input: nom::IResult<T, U, V>,
    info: TracableInfo,
    folded: bool,
) -> nom::IResult<T, U, V> {
    match input {
        Ok((s, x)) => if info.enabled && info.backward {
            Ok((left(s, info, folded), x))
        } else {
            input
        },
        Err(_) => input,
    }
}

/// What is shown for a custom message under `info`.
pub open spec fn custom_text(
    info: TracableInfo,
    name: Seq<char>,
    message: Seq<char>,
    tint: Seq<char>,
) -> Seq<char> {
    if info.enabled && info.custom {
        custom_line(info, name, message, tint)
    } else {
        Seq::empty()
    }
}

/// nom's error type, which a traced call hands on as it got it.
#[verifier::external_type_specification]
#[verifier::external_body]
#[verifier::reject_recursive_types(E)]
pub struct ExNomErr<E>(nom::Err<E>);

/// Appends the parser column: the label, padded to the column's width.
fn push_label(out: &mut String, info: TracableInfo, tint: &str, arrow: &str, rest: &str)
    ensures
        final(out)@ == old(out)@ + pad_right(
            label(info, tint@, arrow@, rest@),
            info.parser_width as nat,
        ),
{
    let mut text = String::new();
    if info.color {
        text.append(tint);
    }
    push_repeat(&mut text, ' ', info.depth);
    text.append(arrow);
    text.append(rest);
    if info.color {
        text.append(COLOR_RESET);
    }
    assert(text@ =~= label(info, tint@, arrow@, rest@));
    push_padded(out, text.as_str(), info.parser_width);
}

/// A parser's name with its fold mark.
fn marked_name(name: &str, folded: bool) -> (r: String)
    ensures
        r@ == name@ + " "@ + fold_mark(folded),
{
    let mut text = String::new();
    text.append(name);
    text.append(" ");
    if folded {
        text.append("+");
    } else {
        text.append(" ");
    }
    assert(text@ =~= name@ + " "@ + fold_mark(folded));
    text
}

/// The title line of a run.
pub fn title_string(info: TracableInfo, header: &str) -> (r: String)
    ensures
        r@ == title_line(info, header@),
{
    let mut out = String::new();
    out.append("\n");
    if info.forward && info.backward {
        push_padded(&mut out, "forward", info.count_width);
        out.append(" ");
        push_padded(&mut out, "backward", info.count_width);
    } else if info.forward {
        push_padded(&mut out, "forward", info.count_width);
    } else {
        push_padded(&mut out, "backward", info.count_width);
    }
    out.append(" : ");
    let width = if !info.color {
        info.parser_width
    } else if info.parser_width >= CONTROL_WIDTH {
        info.parser_width - CONTROL_WIDTH
    } else {
        0
    };
    push_padded(&mut out, "parser", width);
    out.append(" : ");
    out.append(header);
    out.append("\n");
    assert(out@ =~= title_line(info, header@));
    out
}

/// The line that shows a call being entered.
pub fn forward_string(info: TracableInfo, count: usize, name: &str, folded: bool, position: &str) -> (r:
    String)
    ensures
        r@ == forward_line(info, count as nat, name@, folded, position@),
{
    let mut out = String::new();
    let number = decimal_string(count);
    push_padded(&mut out, number.as_str(), info.count_width);
    if info.backward {
        out.append(" ");
        push_padded(&mut out, "", info.count_width);
    }
    out.append(" : ");
    let rest = marked_name(name, folded);
    push_label(&mut out, info, COLOR_FORWARD, "-> ", rest.as_str());
    out.append(" : ");
    out.append(position);
    out.append("\n");
    proof {
        reveal_strlit("");
        assert(""@ =~= Seq::<char>::empty());
        assert(out@ =~= forward_line(info, count as nat, name@, folded, position@));
    }
    out
}

/// The line that shows a call being left: with a position where it
/// succeeded, without one where it failed.
pub fn backward_string(
    info: TracableInfo,
    count: usize,
    name: &str,
    folded: bool,
    position: Option<&str>,
) -> (r: String)
    ensures
        r@ == backward_line(
            info,
            count as nat,
            name@,
            folded,
            match position {
                Some(p) => Some(p@),
                None => None,
            },
        ),
{
    let mut out = String::new();
    let number = decimal_string(count);
    proof {
        reveal_strlit("");
        assert(""@ =~= Seq::<char>::empty());
    }
    if info.forward {
        push_padded(&mut out, "", info.count_width);
        out.append(" ");
    }
    push_padded(&mut out, number.as_str(), info.count_width);
    out.append(" : ");
    let rest = marked_name(name, folded);
    match position {
        Some(p) => {
            push_label(&mut out, info, COLOR_OK, "<- ", rest.as_str());
            out.append(" : ");
            out.append(p);
            out.append("\n");
            assert(out@ =~= backward_line(info, count as nat, name@, folded, Some(p@)));
        },
        None => {
            push_label(&mut out, info, COLOR_ERR, "<- ", rest.as_str());
            out.append("\n");
            assert(out@ =~= backward_line(info, count as nat, name@, folded, None));
        },
    }
    out
}

/// The line that shows a custom message.
pub fn custom_string(info: TracableInfo, name: &str, message: &str, color: &str) -> (r: String)
    ensures
        r@ == custom_line(info, name@, message@, color@),
{
    let mut out = String::new();
    proof {
        reveal_strlit("");
        assert(""@ =~= Seq::<char>::empty());
    }
    push_padded(&mut out, "", info.count_width);
    out.append(" ");
    push_padded(&mut out, "", info.count_width);
    out.append(" : ");
    push_label(&mut out, info, color, "   ", name);
    out.append(" : ");
    out.append(message);
    out.append("\n");
    assert(out@ =~= custom_line(info, name@, message@, color@));
    out
}

/// Whether a call can be entered with `forward_trace` under `info`.
pub fn can_forward_trace(storage: &TracableStorage, info: TracableInfo) -> (r: bool)
    ensures
        r == can_forward(storage@, info),
{
    if info.enabled {
        info.depth < usize::MAX && (info.depth == 0 || storage.can_record_forward())
    } else {
        true
    }
}

/// Enters a traced call of the parser `name` on `input`.
///
/// Returns the configuration that `input` carries, which `backward_trace`
/// takes when the call is left; the value for the call's body; and the text
/// to show. A call at depth 0 starts a run. The call is recorded whether or
/// not it is shown. Without tracing `input` comes back as it is, nothing is
/// recorded and nothing shown.
pub fn forward_trace<T: Tracable>(storage: &mut TracableStorage, input: T, name: &str) -> (r: (
    TracableInfo,
    T,
    String,
))
    requires
        old(storage).wf(),
        can_forward(old(storage)@, input.info()),
    ensures
        final(storage).wf(),
        final(storage)@ == forward_state(old(storage)@, input.info(), name@),
        r.0 == input.info(),
        r.1 == if input.info().enabled {
            entered(input, input.info().is_folded_at(old(storage)@.parser_index(name@)))
        } else {
            input
        },
        r.1.info() == if input.info().enabled {
            entered_info(input.info(), input.info().is_folded_at(old(storage)@.parser_index(name@)))
        } else {
            input.info()
        },
        r.1.content() == input.content(),
        r.2@ == forward_text(
            old(storage)@,
            input.info(),
            name@,
            input.header_text(),
            input.format_text(),
        ),
{
    let info = input.get_tracable_info();
    let mut out = String::new();
    if !info.enabled {
        return (info, input, out);
    }
    let depth = info.depth;
    if depth == 0 {
        storage.init();
        let header = input.header();
        out = title_string(info, header.as_str());
    }
    let folded = info.folded(storage, name);
    let forward_count = storage.record_forward(name, depth);
    if info.forward {
        let position = input.format();
        let line = forward_string(info, forward_count, name, folded, position.as_str());
        out.append(line.as_str());
    }
    assert(out@ =~= forward_text(
        old(storage)@,
        info,
        name@,
        input.header_text(),
        input.format_text(),
    ));
    let input = if folded {
        let info = info.forward(false).backward(false).custom(false);
        input.set_tracable_info(info)
    } else {
        input
    };
    let input = input.inc_depth();
    (info, input, out)
}

/// Leaves the traced call of the parser `name` that was entered under
/// `info`, with the result `input` of the call's body.
///
/// Returns what the call hands back, and the text to show. The leaving is
/// recorded whether or not it is shown. A failure is handed back as it is.
/// Of a success the value is handed back as it is, and the state with it is
/// brought back one level, where the leaving of calls is shown; where the
/// parser is folded, it shows again what `info` shows. Where the leaving of
/// calls is not shown, and without tracing, the result comes back as it is.
pub fn backward_trace<T: Tracable, U, V>(
    storage: &mut TracableStorage,
    input: nom::IResult<T, U, V>,
    name: &str,
    info: TracableInfo,
) -> (r: (nom::IResult<T, U, V>, String))
    requires
        old(storage).wf(),
        can_backward(
            old(storage)@,
            info,
            name@,
            match input {
                Ok((s, _)) => Some(s.info()),
                Err(_) => None,
            },
        ),
    ensures
        final(storage).wf(),
        final(storage)@ == backward_state(old(storage)@, info, name@),
        r.0 == backward_result(input, info, info.is_folded_at(old(storage)@.parser_index(name@))),
        info.enabled && info.backward ==> (input matches Ok((s, _)) ==> r.0 matches Ok((t, _))
            && t.info() == left_info(
            s.info(),
            info,
            info.is_folded_at(old(storage)@.parser_index(name@)),
        )),
        input matches Ok((s, x)) ==> r.0 matches Ok((t, y)) && t.content() == s.content() && y == x,
        input is Err ==> r.0 == input,
        info.enabled ==> !is_open(final(storage)@.cumulative_working, name@, info.depth as nat),
        r.1@ == backward_text(
            old(storage)@,
            info,
            name@,
            match input {
                Ok((s, _)) => Some(s.format_text()),
                Err(_) => None,
            },
        ),
{
    if !info.enabled {
        return (input, String::new());
    }
    let depth = info.depth;
    let backward_count = storage.record_backward(name, depth);
    if !info.backward {
        return (input, String::new());
    }
    let folded = info.folded(storage, name);
    match input {
        Ok((s, x)) => {
            let position = s.format();
            let out = backward_string(info, backward_count, name, folded, Some(position.as_str()));
            let s = if folded {
                let carried = s.get_tracable_info().forward(info.forward).backward(
                    info.backward,
                ).custom(info.custom);
                s.set_tracable_info(carried)
            } else {
                s
            };
            (Ok((s.dec_depth(), x)), out)
        },
        Err(x) => {
            let out = backward_string(info, backward_count, name, folded, None);
            (Err(x), out)
        },
    }
}

/// Whether a call can be left with `backward_trace`.
pub fn can_backward_trace<T: Tracable, U, V>(
    storage: &TracableStorage,
    input: &nom::IResult<T, U, V>,
    name: &str,
    info: TracableInfo,
) -> (r: bool)
    ensures
        r == can_backward(
            storage@,
            info,
            name@,
            match *input {
                Ok((s, _)) => Some(s.info()),
                Err(_) => None,
            },
        ),
{
    if info.enabled {
        let deep = match input {
            Ok((s, _)) => !info.backward || s.get_tracable_info().depth > 0,
            Err(_) => true,
        };
        deep && storage.can_record_backward(name, info.depth)
    } else {
        true
    }
}

/// The text to show for the message `message` of the parser `name` in the
/// colour `color`, at the depth of `input`: one line where custom messages
/// are shown, nothing where they are not. Nothing is recorded.
pub fn custom_trace<T: Tracable>(input: &T, name: &str, message: &str, color: &str) -> (r: String)
    ensures
        r@ == custom_text(input.info(), name@, message@, color@),
{
    let info = input.get_tracable_info();
    if info.enabled && info.custom {
        custom_string(info, name, message, color)
    } else {
        String::new()
    }
}

} // verus!
