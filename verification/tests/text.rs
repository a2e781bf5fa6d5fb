use yoik::text::{decimal_string, equal_ignore_ascii_case, parse_u64, trim};

#[test]
fn trim_removes_unicode_whitespace() {
    assert_eq!(trim("  a b \t\n"), "a b");
    assert_eq!(trim("\u{a0}\u{3000}x\u{2028}"), "x");
    assert_eq!(trim(""), "");
    assert_eq!(trim(" \r\n "), "");
    for s in ["abc", " x ", "\u{85}y\u{205f}", "\u{200b}z", "a\u{1680}"] {
        assert_eq!(trim(s), s.trim());
    }
}

#[test]
fn parse_u64_matches_str_parse() {
    for s in [
        "0", "42", "+7", "+", "", "-1", "1 ", " 1", "12a", "007", "18446744073709551615",
        "18446744073709551616", "99999999999999999999999", "+18446744073709551615", "١٢",
    ] {
        assert_eq!(parse_u64(s), s.parse::<u64>().ok(), "input {s:?}");
    }
}

#[test]
fn decimal_strings() {
    assert_eq!(decimal_string(0), "0");
    assert_eq!(decimal_string(10), "10");
    assert_eq!(decimal_string(u128::MAX), u128::MAX.to_string());
}

#[test]
fn ascii_case_insensitive_equality() {
    assert!(equal_ignore_ascii_case("AbC", "aBc"));
    assert!(!equal_ignore_ascii_case("abc", "abd"));
    assert!(!equal_ignore_ascii_case("é", "É"));
    assert!(!equal_ignore_ascii_case("a", "ab"));
}
