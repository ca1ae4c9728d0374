use agency::text::{starts_with, str_eq, to_ascii_lowercase, trim_end_matches_char, trim_str};

#[test]
fn trim_strips_unicode_whitespace_on_both_ends() {
    assert_eq!(trim_str("  \t hello world \r\n"), "hello world");
    assert_eq!(trim_str("\u{3000}x\u{A0}"), "x");
    assert_eq!(trim_str("   "), "");
    assert_eq!(trim_str(""), "");
}

#[test]
fn trim_end_matches_removes_every_trailing_copy() {
    assert_eq!(trim_end_matches_char("http://h/v1///", '/'), "http://h/v1");
    assert_eq!(trim_end_matches_char("abc", '/'), "abc");
    assert_eq!(trim_end_matches_char("///", '/'), "");
}

#[test]
fn lowercase_touches_only_ascii_letters() {
    assert_eq!(to_ascii_lowercase("PnG"), "png");
    assert_eq!(to_ascii_lowercase("ÉA1"), "Éa1");
}

#[test]
fn string_comparisons() {
    assert!(str_eq("stop", "stop"));
    assert!(!str_eq("stop", "stops"));
    assert!(starts_with("image/png", "image/"));
    assert!(!starts_with("text/plain", "image/"));
    assert!(!starts_with("im", "image/"));
}
