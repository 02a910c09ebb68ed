use spread_bot::text::{i64_to_decimal, parse_u32, parse_u64, same_text, suffix_byte_len, text_contains, u64_to_decimal, utf8_width};

#[test]
fn decimal_of_u64() {
    assert_eq!(u64_to_decimal(0), "0");
    assert_eq!(u64_to_decimal(7), "7");
    assert_eq!(u64_to_decimal(42), "42");
    assert_eq!(u64_to_decimal(1700000000000), "1700000000000");
    assert_eq!(u64_to_decimal(u64::MAX), "18446744073709551615");
}

#[test]
fn decimal_of_i64() {
    assert_eq!(i64_to_decimal(0), "0");
    assert_eq!(i64_to_decimal(-1), "-1");
    assert_eq!(i64_to_decimal(110043), "110043");
    assert_eq!(i64_to_decimal(i64::MIN), "-9223372036854775808");
    assert_eq!(i64_to_decimal(i64::MAX), "9223372036854775807");
}

#[test]
fn same_text_compares_characters() {
    assert!(same_text("Trading", "Trading"));
    assert!(!same_text("Trading", "trading"));
    assert!(!same_text("USDT", "USDTX"));
    assert!(same_text("", ""));
}

#[test]
fn contains_finds_substrings() {
    assert!(text_contains("Bybit API error 110043: leverage not modified", "110043"));
    assert!(!text_contains("Bybit API error 10001: params error", "110043"));
    assert!(text_contains("abc", ""));
    assert!(!text_contains("", "a"));
    assert!(text_contains("aaab", "aab"));
    assert!(!text_contains("ab", "abc"));
}

#[test]
fn parse_reads_unsigned_numbers() {
    assert_eq!(parse_u64("3"), Some(3));
    assert_eq!(parse_u64("+12"), Some(12));
    assert_eq!(parse_u64("007"), Some(7));
    assert_eq!(parse_u64(""), None);
    assert_eq!(parse_u64("+"), None);
    assert_eq!(parse_u64("-1"), None);
    assert_eq!(parse_u64(" 1"), None);
    assert_eq!(parse_u64("1.5"), None);
    assert_eq!(parse_u64("18446744073709551615"), Some(u64::MAX));
    assert_eq!(parse_u64("18446744073709551616"), None);
    assert_eq!(parse_u64("99999999999999999999x"), None);
    assert_eq!(parse_u32("4294967295"), Some(u32::MAX));
    assert_eq!(parse_u32("4294967296"), None);
    assert_eq!(parse_u32("10"), Some(10));
}

#[test]
fn parse_agrees_with_std() {
    for s in ["0", "+0", "12", "+", "", "abc", "4294967295", "4294967296", "-0", "1_000", "٣"] {
        assert_eq!(parse_u32(s), s.parse::<u32>().ok(), "{}", s);
        assert_eq!(parse_u64(s), s.parse::<u64>().ok(), "{}", s);
    }
}

#[test]
fn utf8_widths() {
    assert_eq!(utf8_width('a'), 1);
    assert_eq!(utf8_width('é'), 2);
    assert_eq!(utf8_width('€'), 3);
    assert_eq!(utf8_width('😀'), 4);
    assert_eq!(suffix_byte_len("a€b", 1), 4);
    assert_eq!(suffix_byte_len("a€b", 3), 0);
}
