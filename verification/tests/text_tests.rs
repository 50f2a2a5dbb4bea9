use ltp_dashboard::patterns::{capture, is_match, replace_first};
use ltp_dashboard::text::{
    char_count, decimal, join, owned, pad_left, pad_right, parse_u32, repeated,
    same_text, starts_with, trimmed, trimmed_starts_with, utf8_longer_than,
};

#[test]
fn numbers_parse_like_str_parse() {
    let cases = [
        "0", "7", "+7", "007", "4294967295", "4294967296", "99999999999999999999", "", "+", "-1",
        " 1", "1 ", "1_000", "١", "+-1", "++1",
    ];
    for s in cases {
        assert_eq!(parse_u32(s), s.parse::<u32>().ok(), "{s:?}");
    }
}

#[test]
fn numbers_print_like_to_string() {
    for n in [0u64, 1, 9, 10, 99, 100, 12345, u32::MAX as u64, u64::MAX] {
        assert_eq!(decimal(n), n.to_string());
    }
}

#[test]
fn padding_like_format_width() {
    for s in ["", "ab", "héllo", "—", "exactly-10"] {
        for w in [0usize, 3, 5, 10, 12] {
            assert_eq!(pad_left(s, w), format!("{s:>w$}"), "{s:?} {w}");
            assert_eq!(pad_right(s, w), format!("{s:<w$}"), "{s:?} {w}");
        }
    }
}

#[test]
fn trimming_like_str_trim() {
    for s in ["", "  ", " a b ", "\t\nx\r\n", "\u{3000}wide\u{a0}", "plain"] {
        assert_eq!(trimmed(s), s.trim(), "{s:?}");
    }
    assert!(trimmed_starts_with("   Reviewed-by: x", "Reviewed-by:"));
    assert!(!trimmed_starts_with("> Reviewed-by: x", "Reviewed-by:"));
}

#[test]
fn small_string_helpers() {
    assert_eq!(join(&vec!["a".to_string(), "b".to_string(), "c".to_string()], ", "), "a, b, c");
    assert_eq!(join(&vec![], ", "), "");
    assert_eq!(join(&vec!["only".to_string()], " · "), "only");
    assert_eq!(repeated('─', 3), "───");
    assert_eq!(repeated('x', 0), "");
    assert_eq!(ltp_dashboard::text::concat("ab", "cd"), "abcd");
    assert_eq!(owned("z"), "z");
    assert!(same_text("abc", "abc"));
    assert!(!same_text("abc", "abd"));
    assert!(starts_with("+++ b/file", "+++"));
    assert!(!starts_with("+", "++"));
    assert_eq!(char_count("héllo"), 5);
    assert!(utf8_longer_than("héllo", 5));
    assert!(!utf8_longer_than("héllo", 6));
}

#[test]
fn regex_helpers_call_the_regex_crate() {
    assert!(is_match(r"(?i)\bfix\b", "Fix the build"));
    assert!(!is_match(r"(?i)\bfix\b", "prefix"));
    assert!(!is_match("(unclosed", "(unclosed"));
    assert_eq!(capture(r"v(\d+)", "[PATCH v12]", 1), Some("12".to_string()));
    assert_eq!(capture(r"v(\d+)|(x)", "x", 1), None);
    assert_eq!(capture(r"v(\d+)", "none", 1), None);
    assert_eq!(replace_first(r"^\[.*?\]\s*", "[PATCH] [x] title", ""), "[x] title");
    assert_eq!(replace_first("(", "text", ""), "text");
}

#[test]
fn printed_numbers_parse_back_and_trim_is_idempotent() {
    for n in [0u32, 1, 42, 1000, u32::MAX] {
        assert_eq!(parse_u32(&decimal(n as u64)), Some(n));
    }
    for s in ["  a  ", "\tb", "c", ""] {
        assert_eq!(trimmed(&trimmed(s)), trimmed(s));
    }
}
