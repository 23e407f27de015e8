use meetwo::decimal::{decimal, parse_unsigned, IntErrorKind};
use meetwo::text::{chars_of, str_eq, strip_ansi, trim, trim_end, trim_start};

fn s(cs: Vec<char>) -> String {
    cs.into_iter().collect()
}

#[test]
fn trim_removes_unicode_white_space_on_both_sides() {
    let cs = chars_of(" \t\u{3000}abc def\u{a0}\n ");
    assert_eq!(s(trim(&cs)), "abc def");
    assert_eq!(s(trim_start(&cs)), "abc def\u{a0}\n ");
    assert_eq!(s(trim_end(&cs)), " \t\u{3000}abc def");
    assert_eq!(s(trim(&chars_of("   "))), "");
    assert_eq!(s(trim(&chars_of(""))), "");
}

#[test]
fn trim_agrees_with_std() {
    for t in ["", "x", " x ", "\u{85}x\u{2028}", "\u{200b}x", "a b", "\r\n\tz\u{205f}"] {
        assert_eq!(s(trim(&chars_of(t))), t.trim());
        assert_eq!(s(trim_start(&chars_of(t))), t.trim_start());
        assert_eq!(s(trim_end(&chars_of(t))), t.trim_end());
    }
}

#[test]
fn strip_ansi_removes_colour_codes() {
    let cs = chars_of("\u{1b}[0;31mred\u{1b}[0m plain \u{1b}[1m");
    assert_eq!(s(strip_ansi(&cs)), "red plain ");
}

#[test]
fn strip_ansi_keeps_incomplete_sequences() {
    assert_eq!(s(strip_ansi(&chars_of("a\u{1b}[12"))), "a\u{1b}[12");
    assert_eq!(s(strip_ansi(&chars_of("\u{1b}x"))), "\u{1b}x");
    assert_eq!(s(strip_ansi(&chars_of("no codes"))), "no codes");
}

#[test]
fn sequence_helpers() {
    assert!(str_eq("abc", "abc"));
    assert!(!str_eq("abc", "abd"));
    assert!(!str_eq("abc", "ab"));
}

#[test]
fn parse_unsigned_accepts_digits_and_plus() {
    assert_eq!(parse_unsigned("0", u64::MAX), Ok(0));
    assert_eq!(parse_unsigned("25577", 65535), Ok(25577));
    assert_eq!(parse_unsigned("+7", 65535), Ok(7));
    assert_eq!(parse_unsigned("007", 65535), Ok(7));
    assert_eq!(parse_unsigned("18446744073709551615", u64::MAX), Ok(u64::MAX));
}

#[test]
fn parse_unsigned_error_kinds() {
    assert_eq!(parse_unsigned("", 65535), Err(IntErrorKind::Empty));
    assert_eq!(parse_unsigned("+", 65535), Err(IntErrorKind::InvalidDigit));
    assert_eq!(parse_unsigned("-", 65535), Err(IntErrorKind::InvalidDigit));
    assert_eq!(parse_unsigned("-1", 65535), Err(IntErrorKind::InvalidDigit));
    assert_eq!(parse_unsigned("12a", 65535), Err(IntErrorKind::InvalidDigit));
    assert_eq!(parse_unsigned(" 1", 65535), Err(IntErrorKind::InvalidDigit));
    assert_eq!(parse_unsigned("65536", 65535), Err(IntErrorKind::PosOverflow));
    assert_eq!(parse_unsigned("18446744073709551616", u64::MAX), Err(IntErrorKind::PosOverflow));
}

fn std_kind(e: std::num::ParseIntError) -> IntErrorKind {
    match e.kind() {
        std::num::IntErrorKind::Empty => IntErrorKind::Empty,
        std::num::IntErrorKind::InvalidDigit => IntErrorKind::InvalidDigit,
        std::num::IntErrorKind::PosOverflow => IntErrorKind::PosOverflow,
        other => panic!("unexpected kind {:?}", other),
    }
}

#[test]
fn parse_unsigned_agrees_with_std() {
    let cases = [
        "", "+", "-", "0", "+0", "-0", "12", "1x", "x1", "65535", "65536", "99999a", "+65535",
        "１", "99999999999999999999", "99999999999999999999x", "18446744073709551615",
    ];
    for t in cases {
        let mine16 = parse_unsigned(t, u16::MAX as u64);
        let std16 = t.parse::<u16>().map(|v| v as u64).map_err(std_kind);
        assert_eq!(mine16, std16, "u16 {:?}", t);
        let mine64 = parse_unsigned(t, u64::MAX);
        let std64 = t.parse::<u64>().map_err(std_kind);
        assert_eq!(mine64, std64, "u64 {:?}", t);
    }
}

#[test]
fn decimal_renders_like_to_string() {
    for n in [0u64, 7, 10, 59, 60, 100, 25577, 86400, u64::MAX] {
        assert_eq!(decimal(n), n.to_string());
    }
}

#[test]
fn decimal_roundtrip_on_values() {
    for n in [0u64, 1, 9, 10, 65535, 1517703749118853250, u64::MAX] {
        assert_eq!(parse_unsigned(&decimal(n), u64::MAX), Ok(n));
    }
    assert_eq!(parse_unsigned(&decimal(65535), 65535), Ok(65535));
}
