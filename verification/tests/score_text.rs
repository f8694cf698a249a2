//! The decimal round trip behind the score displays.

use pong::text::{parse_u32_decimal, u32_to_decimal};

#[test]
fn renders_decimals_without_leading_zeros() {
    assert_eq!(u32_to_decimal(0), "0");
    assert_eq!(u32_to_decimal(1), "1");
    assert_eq!(u32_to_decimal(9), "9");
    assert_eq!(u32_to_decimal(10), "10");
    assert_eq!(u32_to_decimal(105), "105");
    assert_eq!(u32_to_decimal(u32::MAX), "4294967295");
}

#[test]
fn parses_what_it_renders() {
    for n in [0u32, 1, 9, 10, 11, 99, 100, 12345, 4294967295] {
        let shown = u32_to_decimal(n);
        assert_eq!(parse_u32_decimal(&shown), Some(n));
    }
}

#[test]
fn rejects_non_decimal_text() {
    assert_eq!(parse_u32_decimal(""), None);
    assert_eq!(parse_u32_decimal("a"), None);
    assert_eq!(parse_u32_decimal("1a"), None);
    assert_eq!(parse_u32_decimal("a1"), None);
    assert_eq!(parse_u32_decimal("-1"), None);
    assert_eq!(parse_u32_decimal("1 2"), None);
}

#[test]
fn rejects_values_beyond_u32() {
    assert_eq!(parse_u32_decimal("4294967295"), Some(u32::MAX));
    assert_eq!(parse_u32_decimal("4294967296"), None);
    assert_eq!(parse_u32_decimal("99999999999999999999"), None);
}

#[test]
fn accepts_leading_zeros_when_parsing() {
    assert_eq!(parse_u32_decimal("007"), Some(7));
}
