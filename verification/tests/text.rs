use anime_dl::text::{
    ends_with, find_str, i32_to_string, i64_to_string, parse_i32, parse_u64, replace_first,
    split_char, starts_with, str_eq, trim, usize_to_string,
};

#[test]
fn trim_strips_unicode_whitespace() {
    assert_eq!(trim("  a b \t\n"), "a b");
    assert_eq!(trim("\u{3000}x\u{A0}"), "x");
    assert_eq!(trim("   "), "");
    assert_eq!(trim(""), "");
}

#[test]
fn split_char_keeps_empty_pieces() {
    assert_eq!(split_char("a,,b,", ','), vec!["a", "", "b", ""]);
    assert_eq!(split_char("", ','), vec![""]);
    assert_eq!(split_char("abc", ','), vec!["abc"]);
}

#[test]
fn parse_i32_follows_from_str() {
    assert_eq!(parse_i32("42"), Some(42));
    assert_eq!(parse_i32("+7"), Some(7));
    assert_eq!(parse_i32("-0"), Some(0));
    assert_eq!(parse_i32("007"), Some(7));
    assert_eq!(parse_i32("-2147483648"), Some(i32::MIN));
    assert_eq!(parse_i32("2147483647"), Some(i32::MAX));
    assert_eq!(parse_i32("2147483648"), None);
    assert_eq!(parse_i32("99999999999999999999999"), None);
    assert_eq!(parse_i32(""), None);
    assert_eq!(parse_i32("-"), None);
    assert_eq!(parse_i32("+"), None);
    assert_eq!(parse_i32(" 1"), None);
    assert_eq!(parse_i32("1a"), None);
    assert_eq!(parse_i32("--1"), None);
    for s in ["0", "12", "-5", "x", "+-3", "2147483648"] {
        assert_eq!(parse_i32(s), s.parse::<i32>().ok());
    }
}

#[test]
fn parse_u64_follows_from_str() {
    assert_eq!(parse_u64("18446744073709551615"), Some(u64::MAX));
    assert_eq!(parse_u64("18446744073709551616"), None);
    assert_eq!(parse_u64("+3"), Some(3));
    assert_eq!(parse_u64("-0"), None);
    assert_eq!(parse_u64(""), None);
    for s in ["0", "12", "-5", "x", "+"] {
        assert_eq!(parse_u64(s), s.parse::<u64>().ok());
    }
}

#[test]
fn integers_render_in_decimal() {
    assert_eq!(i32_to_string(0), "0");
    assert_eq!(i32_to_string(-45), "-45");
    assert_eq!(i32_to_string(i32::MIN), "-2147483648");
    assert_eq!(i64_to_string(i64::MIN), i64::MIN.to_string());
    assert_eq!(usize_to_string(1230), "1230");
}

#[test]
fn decimal_round_trip() {
    for n in [0, 1, -1, 9, 10, -10, 12345, i32::MAX, i32::MIN] {
        assert_eq!(parse_i32(&i32_to_string(n)), Some(n));
    }
}

#[test]
fn prefixes_suffixes_and_search() {
    assert!(starts_with("https://x", "https://"));
    assert!(!starts_with("http", "https://"));
    assert!(ends_with("a.m3u8", ".m3u8"));
    assert!(!ends_with("m3u8", ".m3u8"));
    assert!(str_eq("ab", "ab"));
    assert!(!str_eq("ab", "abc"));
    assert_eq!(find_str("abcabc", "ca"), Some(2));
    assert_eq!(find_str("abc", "d"), None);
    assert_eq!(find_str("abc", ""), Some(0));
}

#[test]
fn replace_first_replaces_one_occurrence() {
    assert_eq!(replace_first("1 : a 1 : b", "1 :", ""), " a 1 : b");
    assert_eq!(replace_first("abc", "x", "y"), "abc");
    assert_eq!(replace_first("aaa", "a", "bb"), "bbaa");
    assert_eq!("1 : a 1 : b".replacen("1 :", "", 1), replace_first("1 : a 1 : b", "1 :", ""));
}
