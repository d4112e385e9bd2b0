use bt_player::text::{decimal_string, parse_usize, str_contains, str_ends_with, str_starts_with, trim_str};

#[test]
fn trims_unicode_whitespace() {
    assert_eq!(trim_str("  abc \t\n"), "abc");
    assert_eq!(trim_str("\u{3000}链接\u{00A0}"), "链接");
    assert_eq!(trim_str("   "), "");
    assert_eq!(trim_str(""), "");
    assert_eq!(trim_str("a b"), "a b");
}

#[test]
fn substring_tests() {
    assert!(str_contains("http://x/a.m3u8?k=1", ".m3u8"));
    assert!(!str_contains("abc", "abcd"));
    assert!(str_contains("abc", ""));
    assert!(str_starts_with("magnet:?xt", "magnet:"));
    assert!(!str_starts_with("magnet", "magnet:"));
    assert!(str_ends_with("live.m3u8", "m3u8"));
    assert!(!str_ends_with("m3u8.ts", "m3u8"));
}

#[test]
fn parses_like_std() {
    for s in ["0", "42", "+7", "007", "", "+", "-1", "1 ", "٣", "18446744073709551615", "18446744073709551616", "99999999999999999999999"] {
        assert_eq!(parse_usize(s), s.parse::<usize>().ok(), "input {:?}", s);
    }
}

#[test]
fn writes_decimals() {
    assert_eq!(decimal_string(0), "0");
    assert_eq!(decimal_string(9), "9");
    assert_eq!(decimal_string(10), "10");
    assert_eq!(decimal_string(1234567890), "1234567890");
    assert_eq!(decimal_string(usize::MAX), usize::MAX.to_string());
}
