use nom_tracable::names::comes_before;
use nom_tracable::text::{
    decimal_string, digit_of, first_line_prefix, push_decimal, push_hex_upper, push_padded,
    push_padded_left, push_repeat,
};
use nom_tracable::FragmentDisplay;

#[test]
fn decimal_of_small_and_large_numbers() {
    assert_eq!(decimal_string(0), "0");
    assert_eq!(decimal_string(7), "7");
    assert_eq!(decimal_string(10), "10");
    assert_eq!(decimal_string(909), "909");
    assert_eq!(decimal_string(12345), "12345");
    assert_eq!(decimal_string(usize::MAX), format!("{}", usize::MAX));
}

#[test]
fn decimal_is_appended() {
    let mut out = String::from("n=");
    push_decimal(&mut out, 42);
    assert_eq!(out, "n=42");
}

#[test]
fn digits_up_to_fifteen() {
    let digits: String = (0u8..16).map(digit_of).collect();
    assert_eq!(digits, "0123456789ABCDEF");
}

#[test]
fn hex_has_no_leading_zero() {
    let mut out = String::new();
    for b in [0u8, 9, 10, 15, 16, 31, 160, 255] {
        push_hex_upper(&mut out, b);
        out.push(' ');
    }
    assert_eq!(out, "0 9 A F 10 1F A0 FF ");
    for b in 0u8..=255 {
        let mut out = String::new();
        push_hex_upper(&mut out, b);
        assert_eq!(out, format!("{:X}", b));
    }
}

#[test]
fn repeat_appends_copies() {
    let mut out = String::from("a");
    push_repeat(&mut out, '.', 3);
    assert_eq!(out, "a...");
    push_repeat(&mut out, '-', 0);
    assert_eq!(out, "a...");
}

#[test]
fn padding_counts_characters() {
    let mut out = String::new();
    push_padded(&mut out, "ab", 5);
    out.push('|');
    push_padded(&mut out, "abcdef", 5);
    out.push('|');
    push_padded(&mut out, "héé", 5);
    out.push('|');
    push_padded(&mut out, "", 2);
    out.push('|');
    assert_eq!(out, "ab   |abcdef|héé  |  |");
    assert_eq!(out, format!("{:<5}|{:<5}|{:<5}|{:<2}|", "ab", "abcdef", "héé", ""));
}

#[test]
fn padding_on_the_left() {
    let mut out = String::new();
    push_padded_left(&mut out, "42", 5);
    out.push('|');
    push_padded_left(&mut out, "123456", 5);
    assert_eq!(out, "   42|123456");
}

fn first_line_by_std(s: &str, width: usize) -> String {
    s.lines().next().unwrap_or_else(|| "").chars().take(width).collect()
}

#[test]
fn first_line_stops_at_the_line_feed() {
    assert_eq!(first_line_prefix("abc\ndef", 10), "abc");
    assert_eq!(first_line_prefix("abc\r\ndef", 10), "abc");
    assert_eq!(first_line_prefix("\nabc", 10), "");
    assert_eq!(first_line_prefix("\r\nabc", 10), "");
    assert_eq!(first_line_prefix("", 10), "");
    assert_eq!(first_line_prefix("abc", 10), "abc");
}

#[test]
fn first_line_keeps_a_lone_carriage_return() {
    assert_eq!(first_line_prefix("abc\rdef", 10), "abc\rdef");
    assert_eq!(first_line_prefix("abc\r", 10), "abc\r");
    assert_eq!(first_line_prefix("a\r\r\nb", 10), "a\r");
    assert_eq!(first_line_prefix("\r", 10), "\r");
}

#[test]
fn first_line_is_cut_to_the_width() {
    assert_eq!(first_line_prefix("abcdef", 3), "abc");
    assert_eq!(first_line_prefix("abcdef", 0), "");
    assert_eq!(first_line_prefix("abcdef", 6), "abcdef");
    assert_eq!(first_line_prefix("héllo wörld", 4), "héll");
    assert_eq!(first_line_prefix("ab\r\ncd", 3), "ab");
    assert_eq!(first_line_prefix("ab\rcd", 3), "ab\r");
    assert_eq!(first_line_prefix("ab\rcd", 2), "ab");
    assert_eq!(first_line_prefix("ab\r\ncd", 2), "ab");
}

#[test]
fn first_line_agrees_with_the_standard_library() {
    let pieces = ["", "a", "\n", "\r", "\r\n", "bc", "é", "\r\r", "\n\n"];
    for a in pieces {
        for b in pieces {
            for c in pieces {
                let s = format!("{}{}{}", a, b, c);
                for width in 0..6 {
                    assert_eq!(
                        first_line_prefix(&s, width),
                        first_line_by_std(&s, width),
                        "{:?} at width {}",
                        s,
                        width
                    );
                }
            }
        }
    }
}

#[test]
fn text_is_displayed_by_its_first_line() {
    assert_eq!("1+1\n2+2".display(96), "1+1");
    assert_eq!("1+1\n2+2".display(2), "1+");
    assert_eq!("".display(96), "");
}

#[test]
fn bytes_are_displayed_in_hex() {
    let bytes: &[u8] = &[0x0a, 0xff, 0x00, 0x31];
    assert_eq!(bytes.display(96), "AFF031");
    assert_eq!(bytes.display(6), "AFF0");
    assert_eq!(bytes.display(3), "A");
    assert_eq!(bytes.display(1), "");
    assert_eq!(bytes.display(0), "");
    let by_std: String = bytes.iter().take(5 / 2).map(|x| format!("{:X}", x)).collect();
    assert_eq!(bytes.display(5), by_std);
    let empty: &[u8] = &[];
    assert_eq!(empty.display(10), "");
}

#[test]
fn names_are_ordered_as_in_a_dictionary() {
    assert!(comes_before("a", "b"));
    assert!(!comes_before("b", "a"));
    assert!(!comes_before("a", "a"));
    assert!(comes_before("", "a"));
    assert!(!comes_before("a", ""));
    assert!(!comes_before("", ""));
    assert!(comes_before("expr", "expr_plus"));
    assert!(comes_before("expr_minus", "expr_plus"));
    assert!(comes_before("Z", "a"));
    assert!(comes_before("z", "é"));
}

#[test]
fn order_of_names_agrees_with_the_standard_library() {
    let names = ["", "a", "ab", "abc", "b", "ba", "A", "é", "e", "éa", "z", "\u{10000}", "\u{ffff}"];
    for a in names {
        for b in names {
            assert_eq!(comes_before(a, b), a < b, "{:?} and {:?}", a, b);
        }
    }
}
