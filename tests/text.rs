use hydra_launcher::text::{contains_any, contains_str, prefix_chars, truncate_utf8, with_number};

#[test]
fn truncation_respects_characters() {
    assert_eq!(truncate_utf8("short", 10), "short");
    assert_eq!(truncate_utf8("zażółć gęślą", 4), "zażó...");
    assert_eq!(truncate_utf8("", 0), "");
    assert_eq!(truncate_utf8("abc", 0), "...");
    assert_eq!(prefix_chars("ąbcd", 2), "ąb");
    assert_eq!(prefix_chars("ab", 5), "ab");
}

#[test]
fn substring_search() {
    assert!(contains_str("hello world", "o w"));
    assert!(contains_str("abc", ""));
    assert!(contains_str("abc", "abc"));
    assert!(!contains_str("abc", "abcd"));
    assert!(!contains_str("", "a"));
    assert!(contains_any("stwórz funkcję", &["x", "funkcję"]));
    assert!(!contains_any("anything", &[]));
}

#[test]
fn numbers_in_decimal() {
    assert_eq!(with_number("tab_", 0), "tab_0");
    assert_eq!(with_number("n", 1234567890), "n1234567890");
    assert_eq!(with_number("", u64::MAX), "18446744073709551615");
}
