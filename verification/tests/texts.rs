use keet::text::{
    contains, decimal_text, ends_with, equals_ignoring_case, lines, pad_left, repeat, starts_with,
    strip_suffix, trim,
};

#[test]
fn white_space_is_trimmed() {
    assert_eq!(trim("  a b\t\n"), "a b");
    assert_eq!(trim("\u{3000}x\u{a0}"), "x");
    assert_eq!(trim(" \r\n"), "");
}

#[test]
fn lines_end_with_line_feeds() {
    assert_eq!(lines("a\r\nb\n\nc"), vec!["a", "b", "", "c"]);
    assert_eq!(lines("a\n"), vec!["a"]);
    assert!(lines("").is_empty());
}

#[test]
fn parts_of_texts() {
    assert!(contains("abc", "bc") && contains("abc", "") && !contains("abc", "d"));
    assert!(starts_with("abc", "ab") && !starts_with("a", "ab"));
    assert!(ends_with("abc", "bc") && !ends_with("c", "bc"));
    assert_eq!(strip_suffix("-7 dB", " dB"), Some("-7".to_string()));
    assert_eq!(strip_suffix("-7", " dB"), None);
    assert!(equals_ignoring_case("Bass Boost", "bASS bOOST"));
    assert!(!equals_ignoring_case("É", "é"));
}

#[test]
fn numbers_as_texts() {
    assert_eq!(decimal_text(0), "0");
    assert_eq!(decimal_text(u64::MAX), u64::MAX.to_string());
    assert_eq!(pad_left("7", 3, '0'), "007");
    assert_eq!(pad_left("1234", 3, '0'), "1234");
    assert_eq!(repeat('═', 3), "═══");
}
