//! String normalization behaviour.

use dupscan::string_utils::normalize_option;
use dupscan::string_utils::normalize_string;
use dupscan::string_utils::remove_klammer;
use dupscan::string_utils::str_eq;
use dupscan::string_utils::str_le;
use dupscan::string_utils::trim_char;

#[test]
fn trim_char_collapses_runs() {
    assert_eq!(trim_char(&"a  b".to_string(), ' '), "a b");
    assert_eq!(trim_char(&"a   b  c".to_string(), ' '), "a b c");
}

#[test]
fn trim_char_drops_single_trailing() {
    assert_eq!(trim_char(&"ab ".to_string(), ' '), "ab");
    // a trailing run first collapses, leaving one space behind
    assert_eq!(trim_char(&"a  ".to_string(), ' '), "a ");
}

#[test]
fn trim_char_leaves_other_text_alone() {
    assert_eq!(trim_char(&"abc".to_string(), ' '), "abc");
    assert_eq!(trim_char(&String::new(), ' '), "");
}

#[test]
fn remove_klammer_strips_bracketed_stretch() {
    assert_eq!(remove_klammer(&"abc (def) g".to_string(), '(', ')'), "abc  g");
    assert_eq!(remove_klammer(&"x{skip}y".to_string(), '{', '}'), "xy");
}

#[test]
fn remove_klammer_strips_punctuation() {
    assert_eq!(remove_klammer(&"a-b.c!d".to_string(), '(', ')'), "abcd");
    assert_eq!(remove_klammer(&"it's".to_string(), '(', ')'), "its");
}

#[test]
fn normalize_string_lowercases_and_trims() {
    assert_eq!(normalize_string(&"Test (Live)".to_string()), "test");
    assert_eq!(normalize_string(&"test   live".to_string()), "test live");
    assert_eq!(normalize_string(&"ABC".to_string()), "abc");
}

#[test]
fn normalize_option_handles_missing() {
    assert_eq!(normalize_option(None), "");
    let v = "Mixed Case".to_string();
    assert_eq!(normalize_option(Some(&v)), "mixed case");
}

#[test]
fn str_eq_compares_characters() {
    assert!(str_eq("abc", "abc"));
    assert!(!str_eq("abc", "abd"));
    assert!(!str_eq("abc", "ab"));
    assert!(str_eq("", ""));
}

#[test]
fn str_le_is_lexicographic() {
    assert!(str_le(&"abc".to_string(), &"abd".to_string()));
    assert!(str_le(&"ab".to_string(), &"abc".to_string()));
    assert!(!str_le(&"b".to_string(), &"abc".to_string()));
    assert!(str_le(&"abc".to_string(), &"abc".to_string()));
}
