use chat_core::codec::{format_i64, parse_i32, parse_i64};
use chat_core::text::{is_blank, trim_str};

#[test]
fn format_small_values() {
    assert_eq!(format_i64(0), "0");
    assert_eq!(format_i64(7), "7");
    assert_eq!(format_i64(-1), "-1");
    assert_eq!(format_i64(12345), "12345");
    assert_eq!(format_i64(-90807), "-90807");
}

#[test]
fn format_extremes() {
    assert_eq!(format_i64(i64::MAX), "9223372036854775807");
    assert_eq!(format_i64(i64::MIN), "-9223372036854775808");
}

#[test]
fn parse_plain_and_signed() {
    assert_eq!(parse_i64("0"), Some(0));
    assert_eq!(parse_i64("42"), Some(42));
    assert_eq!(parse_i64("+42"), Some(42));
    assert_eq!(parse_i64("-42"), Some(-42));
    assert_eq!(parse_i64("007"), Some(7));
}

#[test]
fn parse_extremes_and_overflow() {
    assert_eq!(parse_i64("9223372036854775807"), Some(i64::MAX));
    assert_eq!(parse_i64("-9223372036854775808"), Some(i64::MIN));
    assert_eq!(parse_i64("9223372036854775808"), None);
    assert_eq!(parse_i64("-9223372036854775809"), None);
    assert_eq!(parse_i64("99999999999999999999999999"), None);
}

#[test]
fn parse_rejects_garbage() {
    assert_eq!(parse_i64(""), None);
    assert_eq!(parse_i64("-"), None);
    assert_eq!(parse_i64("+"), None);
    assert_eq!(parse_i64("12a"), None);
    assert_eq!(parse_i64("a12"), None);
    assert_eq!(parse_i64(" 12"), None);
    assert_eq!(parse_i64("1 2"), None);
    assert_eq!(parse_i64("--5"), None);
}

#[test]
fn parse_round_trips_formatting() {
    for n in [0i64, 1, -1, 999, -1000, i64::MAX, i64::MIN, 1234567890123456789] {
        assert_eq!(parse_i64(&format_i64(n)), Some(n));
    }
}

#[test]
fn parse_uid_range() {
    assert_eq!(parse_i32("2147483647"), Some(i32::MAX));
    assert_eq!(parse_i32("-2147483648"), Some(i32::MIN));
    assert_eq!(parse_i32("2147483648"), None);
    assert_eq!(parse_i32("17"), Some(17));
}

#[test]
fn blankness() {
    assert!(is_blank(""));
    assert!(is_blank("   \t\r\n"));
    assert!(!is_blank(" a "));
    assert!(!is_blank("x"));
}

#[test]
fn trimming() {
    assert_eq!(trim_str("  hi  "), "hi");
    assert_eq!(trim_str("hi"), "hi");
    assert_eq!(trim_str("   "), "");
    assert_eq!(trim_str("\t42\n"), "42");
    assert_eq!(trim_str(""), "");
}
