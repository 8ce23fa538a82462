use salmon_watch::text::{
    ascii_lowercase, contains_char, decimal_text, order_of, parse_signed, parse_unsigned,
    same_text, signed_decimal_text, split_text, starts_with, strip_prefix, trim, Order,
};

#[test]
fn texts_are_ordered_like_their_characters() {
    assert!(matches!(order_of("a", "b"), Order::Before));
    assert!(matches!(order_of("ab", "a"), Order::After));
    assert!(matches!(order_of("\u{e9}", "\u{e9}"), Order::Same));
    assert!(same_text("abc", "abc"));
    assert!(!same_text("abc", "abd"));
}

#[test]
fn prefixes_are_taken_off() {
    assert!(starts_with("internal.x", "internal."));
    assert!(!starts_with("intern", "internal."));
    assert_eq!(strip_prefix("OK: a", "OK: "), Some("a".into()));
    assert_eq!(strip_prefix("a", "OK: "), None);
    assert_eq!(split_text("a:b:", ':'), ["a", "b", ""]);
    assert!(contains_char("a:b", ':'));
}

#[test]
fn numbers_are_written_and_read() {
    assert_eq!(decimal_text(0), "0");
    assert_eq!(decimal_text(u128::MAX), "340282366920938463463374607431768211455");
    assert_eq!(signed_decimal_text(i128::MIN), "-170141183460469231731687303715884105728");
    assert_eq!(parse_unsigned("+65535", 65535), Some(65535));
    assert_eq!(parse_unsigned("65536", 65535), None);
    assert_eq!(parse_unsigned("", 10), None);
    assert_eq!(parse_unsigned("+", 10), None);
    assert_eq!(parse_unsigned("-1", 10), None);
    assert_eq!(parse_signed("-9223372036854775808"), Some(i64::MIN));
    assert_eq!(parse_signed("-9223372036854775809"), None);
    assert_eq!(parse_signed("+9223372036854775807"), Some(i64::MAX));
    assert_eq!(parse_signed("9223372036854775808"), None);
    assert_eq!(parse_signed("-"), None);
    assert_eq!(parse_signed("1 "), None);
}

#[test]
fn white_space_and_case_are_unicode_and_ascii() {
    assert_eq!(trim(" \u{a0}a b\r\n"), "a b");
    assert_eq!(trim(" \t"), "");
    assert_eq!(ascii_lowercase("WaRn\u{c9}"), "warn\u{c9}");
}
