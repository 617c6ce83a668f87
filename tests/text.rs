use scheduler::decimal::{parse_signed, parse_unsigned, push_signed, push_unsigned};
use scheduler::text::{chars_of, split_on, string_of};

fn chars(s: &str) -> Vec<char> {
    s.chars().collect()
}

fn split_str(s: &str, d: &str) -> Vec<String> {
    split_on(&chars(s), &chars(d)).iter().map(|f| string_of(f)).collect()
}

#[test]
fn split_matches_left_to_right() {
    assert_eq!(split_str("a::b::c", "::"), vec!["a", "b", "c"]);
    assert_eq!(split_str("", "::"), vec![""]);
    assert_eq!(split_str("::", "::"), vec!["", ""]);
    assert_eq!(split_str("a:::b", "::"), vec!["a", ":b"]);
    assert_eq!(split_str("a||b", "|"), vec!["a", "", "b"]);
}

#[test]
fn chars_and_strings_convert() {
    assert_eq!(chars_of("héllo"), vec!['h', 'é', 'l', 'l', 'o']);
    assert_eq!(string_of(&vec!['o', 'k']), "ok");
}

#[test]
fn unsigned_text() {
    assert_eq!(parse_unsigned(&chars("0")), Some(0));
    assert_eq!(parse_unsigned(&chars("12345")), Some(12345));
    assert_eq!(parse_unsigned(&chars("18446744073709551615")), Some(u64::MAX));
    assert_eq!(parse_unsigned(&chars("18446744073709551616")), None);
    assert_eq!(parse_unsigned(&chars("")), None);
    assert_eq!(parse_unsigned(&chars("+1")), None);
    assert_eq!(parse_unsigned(&chars("1a")), None);
    let mut out = Vec::new();
    push_unsigned(&mut out, 907);
    assert_eq!(out, chars("907"));
}

#[test]
fn signed_text() {
    assert_eq!(parse_signed(&chars("-42")), Some(-42));
    assert_eq!(parse_signed(&chars("-9223372036854775808")), Some(i64::MIN));
    assert_eq!(parse_signed(&chars("9223372036854775807")), Some(i64::MAX));
    assert_eq!(parse_signed(&chars("9223372036854775808")), None);
    assert_eq!(parse_signed(&chars("-")), None);
    assert_eq!(parse_signed(&chars("--1")), None);
    let mut out = Vec::new();
    push_signed(&mut out, i64::MIN);
    assert_eq!(out, chars("-9223372036854775808"));
    let mut out = Vec::new();
    push_signed(&mut out, 0);
    assert_eq!(out, chars("0"));
}
