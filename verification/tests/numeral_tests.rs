use bench_rust::numerals::{format_u64, parse_u64};

fn parse_str(s: &str) -> Option<u64> {
    parse_u64(&s.as_bytes().to_vec())
}

#[test]
fn parse_plain_digits() {
    assert_eq!(parse_str("0"), Some(0));
    assert_eq!(parse_str("7"), Some(7));
    assert_eq!(parse_str("123"), Some(123));
    assert_eq!(parse_str("007"), Some(7));
}

#[test]
fn parse_leading_plus() {
    assert_eq!(parse_str("+42"), Some(42));
    assert_eq!(parse_str("+0"), Some(0));
}

#[test]
fn parse_rejects_non_numeric() {
    assert_eq!(parse_str("abc"), None);
    assert_eq!(parse_str(""), None);
    assert_eq!(parse_str("+"), None);
    assert_eq!(parse_str("12a"), None);
    assert_eq!(parse_str("a12"), None);
    assert_eq!(parse_str("-5"), None);
    assert_eq!(parse_str("1 2"), None);
    assert_eq!(parse_str("1.5"), None);
    assert_eq!(parse_str("++1"), None);
}

#[test]
fn parse_bounds() {
    assert_eq!(parse_str("18446744073709551615"), Some(u64::MAX));
    assert_eq!(parse_str("18446744073709551616"), None);
    assert_eq!(parse_str("99999999999999999999999"), None);
}

#[test]
fn format_exact_values() {
    assert_eq!(format_u64(0), b"0".to_vec());
    assert_eq!(format_u64(7), b"7".to_vec());
    assert_eq!(format_u64(10), b"10".to_vec());
    assert_eq!(format_u64(12345), b"12345".to_vec());
    assert_eq!(format_u64(u64::MAX), b"18446744073709551615".to_vec());
}

#[test]
fn format_then_parse_round_trip() {
    for n in [0u64, 1, 9, 10, 99, 100, 1_000_000, 123_456_789, u64::MAX] {
        assert_eq!(parse_u64(&format_u64(n)), Some(n));
    }
}
