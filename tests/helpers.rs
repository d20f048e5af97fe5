use glob::chars::{chars_eq, is_separator};
use glob::path::{child, is_current_dir, is_hidden, join};
use glob::text::chars_of;
use glob::{MatchOptions, Pattern};

#[test]
fn join_adds_one_separator() {
    assert_eq!(join("a", "b"), "a/b");
    assert_eq!(join("a/", "b"), "a/b");
    assert_eq!(join("/", "etc"), "/etc");
    assert_eq!(join("", "b"), "b");
    assert_eq!(join("a", ""), "a/");
}

#[test]
fn child_of_current_dir_is_bare() {
    assert_eq!(child(".", "x"), "x");
    assert_eq!(child("./", "x"), "./x");
    assert_eq!(child("d", "x"), "d/x");
    assert!(is_current_dir("."));
    assert!(!is_current_dir(".."));
}

#[test]
fn hidden_names() {
    assert!(is_hidden(".git"));
    assert!(!is_hidden("git"));
    assert!(!is_hidden(""));
}

#[test]
fn char_helpers() {
    assert!(is_separator('/'));
    assert!(!is_separator('\\'));
    assert!(chars_eq('a', 'A', false));
    assert!(!chars_eq('a', 'A', true));
    assert!(!chars_eq('é', 'É', false));
    assert_eq!(chars_of("héllo"), vec!['h', 'é', 'l', 'l', 'o']);
}

#[test]
fn empty_pattern_matches_empty_text() {
    let p = Pattern::new("").unwrap();
    assert!(p.matches(""));
    assert!(!p.matches("a"));
    assert!(!p.is_recursive());
    assert_eq!(p.as_str(), "");
}

#[test]
fn question_mark_and_separators() {
    let p = Pattern::new("a?c").unwrap();
    assert!(p.matches("abc"));
    assert!(!p.matches("ac"));
    assert!(!p.matches("abbc"));
    let strict = MatchOptions {
        require_literal_separator: true,
        ..MatchOptions::new()
    };
    assert!(!p.matches_with("a/c", strict));
    assert!(p.matches_with("a/c", MatchOptions::new()));
}

#[test]
fn recursive_wildcard_needs_whole_components() {
    let p = Pattern::new("a/**/b").unwrap();
    assert!(p.matches("a/b"));
    assert!(p.matches("a/x/y/b"));
    assert!(!p.matches("a/xb"));
    assert!(!p.matches("ab"));
}
