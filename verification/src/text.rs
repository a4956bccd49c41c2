//! Building lines of text: repeated characters, left- and right-aligned
//! columns measured in characters, and decimal and hexadecimal digits.

use vstd::prelude::*;

verus! {

/// `n` copies of `c`.
pub open spec fn repeat(c: char, n: nat) -> Seq<char> {
    Seq::new(n, |i: int| c)
}

/// `s` followed by as many blanks as bring it to `width` characters; `s`
/// itself where it is at least that long.
pub open spec fn pad_right(s: Seq<char>, width: nat) -> Seq<char> {
    if s.len() >= width {
        s
    } else {
        s + repeat(' ', (width - s.len()) as nat)
    }
}

/// `s` preceded by as many blanks as bring it to `width` characters; `s`
/// itself where it is at least that long.
pub open spec fn pad_left(s: Seq<char>, width: nat) -> Seq<char> {
    if s.len() >= width {
        s
    } else {
        repeat(' ', (width - s.len()) as nat) + s
    }
}

/// The first `n` characters of `s`, or all of `s` where it has fewer.
pub open spec fn take_prefix(s: Seq<char>, n: nat) -> Seq<char> {
    if n <= s.len() {
        s.take(n as int)
    } else {
        s
    }
}

/// The character that writes the digit `d` in bases up to sixteen, with
/// capital letters above nine.
pub open spec fn digit_char(d: nat) -> char {
    if d == 0 {
        '0'
    } else if d == 1 {
        '1'
    } else if d == 2 {
        '2'
    } else if d == 3 {
        '3'
    } else if d == 4 {
        '4'
    } else if d == 5 {
        '5'
    } else if d == 6 {
        '6'
    } else if d == 7 {
        '7'
    } else if d == 8 {
        '8'
    } else if d == 9 {
        '9'
    } else if d == 10 {
        'A'
    } else if d == 11 {
        'B'
    } else if d == 12 {
        'C'
    } else if d == 13 {
        'D'
    } else if d == 14 {
        'E'
    } else {
        'F'
    }
}

/// `n` written in base ten, without leading zeros.
pub open spec fn decimal(n: nat) -> Seq<char>
    decreases n,
{
    if n < 10 {
        seq![digit_char(n)]
    } else {
        decimal(n / 10).push(digit_char(n % 10))
    }
}

/// A byte written in base sixteen with capital letters, without a leading
/// zero: one character below sixteen, two from there on.
pub open spec fn hex_upper(b: u8) -> Seq<char> {
    if b < 16 {
        seq![digit_char(b as nat)]
    } else {
        seq![digit_char((b / 16) as nat), digit_char((b % 16) as nat)]
    }
}

/// The bytes of `bytes` written one after the other by `hex_upper`.
pub open spec fn hex_string(bytes: Seq<u8>) -> Seq<char>
    decreases bytes.len(),
{
    if bytes.len() == 0 {
        Seq::empty()
    } else {
        hex_string(bytes.drop_last()) + hex_upper(bytes.last())
    }
}

/// Where the first line of `s` ends: the place of its first line feed, or its
/// length where it has none.
pub open spec fn line_end(s: Seq<char>) -> int
    decreases s.len(),
{
    if s.len() == 0 || s[0] == '\n' {
        0
    } else {
        1 + line_end(s.drop_first())
    }
}

/// The first line of `s`: what stands before the first line feed, without a
/// carriage return that directly precedes that line feed. Without a line
/// feed the first line is all of `s`.
pub open spec fn first_line(s: Seq<char>) -> Seq<char> {
    let end = line_end(s);
    if 0 < end < s.len() && s[end - 1] == '\r' {
        s.take(end - 1)
    } else {
        s.take(end)
    }
}

/// Appends one character to a string. This is `String::push` of the standard
/// library: the string afterwards is the string before with `c` at its end.
#[verifier::external_body]
pub(crate) fn push_char(s: &mut String, c: char)
    ensures
        final(s)@ == old(s)@.push(c),
{
    s.push(c)
}

/// The character for a digit below sixteen.
pub fn digit_of(d: u8) -> (c: char)
    requires
        d < 16,
    ensures
        c == digit_char(d as nat),
{
    if d == 0 {
        '0'
    } else if d == 1 {
        '1'
    } else if d == 2 {
        '2'
    } else if d == 3 {
        '3'
    } else if d == 4 {
        '4'
    } else if d == 5 {
        '5'
    } else if d == 6 {
        '6'
    } else if d == 7 {
        '7'
    } else if d == 8 {
        '8'
    } else if d == 9 {
        '9'
    } else if d == 10 {
        'A'
    } else if d == 11 {
        'B'
    } else if d == 12 {
        'C'
    } else if d == 13 {
        'D'
    } else if d == 14 {
        'E'
    } else {
        'F'
    }
}

/// Appends `n` copies of `c`.
pub fn push_repeat(out: &mut String, c: char, n: usize)
    ensures
        final(out)@ == old(out)@ + repeat(c, n as nat),
{
    let mut i: usize = 0;
    while i < n
        invariant
            i <= n,
            out@ == old(out)@ + repeat(c, i as nat),
        decreases n - i,
    {
        push_char(out, c);
        i = i + 1;
        assert(out@ =~= old(out)@ + repeat(c, i as nat));
    }
}

/// Appends `s`, then blanks up to a column of `width` characters.
pub fn push_padded(out: &mut String, s: &str, width: usize)
    ensures
        final(out)@ == old(out)@ + pad_right(s@, width as nat),
{
    let len = s.unicode_len();
    out.append(s);
    if len < width {
        push_repeat(out, ' ', width - len);
        assert(out@ =~= old(out)@ + pad_right(s@, width as nat));
    }
}

/// Appends blanks up to a column of `width` characters, then `s`.
pub fn push_padded_left(out: &mut String, s: &str, width: usize)
    ensures
        final(out)@ == old(out)@ + pad_left(s@, width as nat),
{
    let len = s.unicode_len();
    if len < width {
        push_repeat(out, ' ', width - len);
    }
    out.append(s);
    assert(out@ =~= old(out)@ + pad_left(s@, width as nat));
}

/// Appends `n` in base ten.
pub fn push_decimal(out: &mut String, n: usize)
    ensures
        final(out)@ == old(out)@ + decimal(n as nat),
    decreases n,
{
    if n >= 10 {
        push_decimal(out, n / 10);
    }
    push_char(out, digit_of((n % 10) as u8));
    assert(out@ =~= old(out)@ + decimal(n as nat));
}

/// `n` in base ten.
pub fn decimal_string(n: usize) -> (r: String)
    ensures
        r@ == decimal(n as nat),
{
    let mut out = String::new();
    push_decimal(&mut out, n);
    assert(out@ =~= decimal(n as nat));
    out
}

/// Appends a byte in base sixteen, capital letters, no leading zero.
pub fn push_hex_upper(out: &mut String, b: u8)
    ensures
        final(out)@ == old(out)@ + hex_upper(b),
{
    if b >= 16 {
        push_char(out, digit_of(b / 16));
    }
    push_char(out, digit_of(b % 16));
    assert(out@ =~= old(out)@ + hex_upper(b));
}

/// The first line of `s`, cut to at most `width` characters.
pub fn first_line_prefix(s: &str, width: usize) -> (r: String)
    ensures
        r@ == take_prefix(first_line(s@), width as nat),
{
    let mut out = String::new();
    let mut count: usize = 0;
    // A carriage return is held back until the character after it is seen.
    let mut held: bool = false;
    let mut found: bool = false;
    let ghost mut pos: int = 0;
    for c in it: s.chars()
        invariant_except_break
            pos == it.index(),
            !found,
            forall|k: int| 0 <= k < pos ==> s@[k] != '\n',
            held ==> pos >= 1 && s@[pos - 1] == '\r' && count + 1 == pos && count < width,
            !held ==> count == pos && (pos > 0 ==> s@[pos - 1] != '\r'),
            count <= width,
            out@ == s@.take(count as int),
        invariant
            it.seq() == s@,
            0 <= pos <= s@.len(),
        ensures
            found ==> out@ == take_prefix(first_line(s@), width as nat),
            !found ==> {
                &&& pos == s@.len()
                &&& forall|k: int| 0 <= k < pos ==> s@[k] != '\n'
                &&& held ==> pos >= 1 && s@[pos - 1] == '\r' && count + 1 == pos && count < width
                &&& !held ==> count == pos
                &&& count <= width
                &&& out@ == s@.take(count as int)
            },
    {
        if c == '\n' {
            proof {
                lemma_line_end(s@, pos);
                assert(out@ =~= take_prefix(first_line(s@), width as nat));
            }
            found = true;
            break;
        }
        if held {
            push_char(&mut out, '\r');
            count = count + 1;
            held = false;
            assert(out@ =~= s@.take(count as int));
        }
        if count >= width {
            proof {
                lemma_line_end_at_least(s@, pos + 1);
                assert(first_line(s@).take(width as int) =~= s@.take(width as int));
            }
            found = true;
            break;
        }
        proof {
            pos = pos + 1;
        }
        if c == '\r' {
            held = true;
        } else {
            push_char(&mut out, c);
            count = count + 1;
            assert(out@ =~= s@.take(count as int));
        }
    }
    if !found {
        proof {
            lemma_line_end(s@, pos);
        }
        if held {
            push_char(&mut out, '\r');
        }
        assert(out@ =~= take_prefix(first_line(s@), width as nat));
    }
    out
}

/// Where no line feed stands before `pos`, the first line does not end
/// before `pos`.
pub proof fn lemma_line_end_at_least(s: Seq<char>, pos: int)
    requires
        0 <= pos <= s.len(),
        forall|k: int| 0 <= k < pos ==> s[k] != '\n',
    ensures
        pos <= line_end(s) <= s.len(),
    decreases s.len(),
{
    if s.len() > 0 && s[0] != '\n' {
        let t = s.drop_first();
        if pos > 0 {
            assert forall|k: int| 0 <= k < pos - 1 implies t[k] != '\n' by {
                assert(t[k] == s[k + 1]);
            }
            lemma_line_end_at_least(t, pos - 1);
        } else {
            lemma_line_end_at_least(t, 0);
        }
    }
}

/// A prefix of at most `n` characters has at most `n` characters.
pub proof fn lemma_take_prefix_len(s: Seq<char>, n: nat)
    ensures
        take_prefix(s, n).len() <= n,
        take_prefix(s, n).len() <= s.len(),
{
}

/// Bytes in base sixteen take at most two characters each.
pub proof fn lemma_hex_string_len(bytes: Seq<u8>)
    ensures
        hex_string(bytes).len() <= 2 * bytes.len(),
    decreases bytes.len(),
{
    if bytes.len() > 0 {
        lemma_hex_string_len(bytes.drop_last());
    }
}

/// Where no line feed stands before `pos`, and one stands at `pos` or `s`
/// ends there, the first line ends at `pos`.
pub proof fn lemma_line_end(s: Seq<char>, pos: int)
    requires
        0 <= pos <= s.len(),
        pos < s.len() ==> s[pos] == '\n',
        forall|k: int| 0 <= k < pos ==> s[k] != '\n',
    ensures
        line_end(s) == pos,
    decreases pos,
{
    if pos > 0 {
        let t = s.drop_first();
        assert forall|k: int| 0 <= k < pos - 1 implies t[k] != '\n' by {
            assert(t[k] == s[k + 1]);
        }
        lemma_line_end(t, pos - 1);
    }
}

} // verus!
