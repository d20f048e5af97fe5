use glob::{MatchOptions, Pattern};

fn sensitive() -> MatchOptions {
    MatchOptions::new()
}

fn insensitive() -> MatchOptions {
    MatchOptions {
        case_sensitive: false,
        ..MatchOptions::new()
    }
}

#[test]
fn default_options_values() {
    let o = MatchOptions::new();
    assert!(o.case_sensitive);
    assert!(!o.require_literal_separator);
    assert!(!o.require_literal_leading_dot);
}

#[test]
fn matching_is_repeatable() {
    let p = Pattern::new("a*[bc]?").unwrap();
    for s in ["abcd", "axxbz", "ab", ""] {
        assert_eq!(p.matches(s), p.matches(s));
        assert_eq!(p.matches_with(s, insensitive()), p.matches_with(s, insensitive()));
    }
}

#[test]
fn escape_round_trips() {
    for s in ["", "plain", "[", "]", "?*", "a[b]c", "x[!y]", "**/x", "[]]", "!"] {
        let e = Pattern::escape(s);
        let p = Pattern::new(&e).unwrap();
        assert!(p.matches(s), "{} via {}", s, e);
        assert!(p.matches_with(s, insensitive()));
    }
    let p = Pattern::new(&Pattern::escape("a*b")).unwrap();
    assert!(!p.matches("axb"));
    assert!(!p.matches("a*bb"));
    assert!(!p.matches("A*b"));
    assert_eq!(Pattern::escape("?"), "[?]");
    assert_eq!(Pattern::escape("x!y"), "x!y");
}

#[test]
fn triple_star_always_invalid() {
    for p in ["***", "a***", "***b", "a/***/b", "**/***", "x*****"] {
        let e = Pattern::new(p).unwrap_err();
        assert_eq!(e.msg, "wildcards are either regular `*` or recursive `**`");
    }
    assert_eq!(Pattern::new("a***").unwrap_err().pos, 3);
    // inside a class the stars are members
    assert!(Pattern::new("[***]").unwrap().matches("*"));
}

#[test]
fn recursive_wildcard_placement() {
    for p in ["a**b", "a/**b", "b**/a"] {
        let e = Pattern::new(p).unwrap_err();
        assert_eq!(e.msg, "recursive wildcards must form a single path component");
    }
    assert_eq!(Pattern::new("b**/a").unwrap_err().pos, 0);
    for p in ["a/**/b", "**/b", "a/**", "**", "/**/x"] {
        assert!(Pattern::new(p).is_ok(), "{}", p);
    }
}

#[test]
fn unclosed_class_message() {
    let e = Pattern::new("x[ab").unwrap_err();
    assert_eq!(e.pos, 1);
    assert_eq!(e.msg, "invalid range pattern");
}

#[test]
fn recursive_needle() {
    let p = Pattern::new("some/**/needle.txt").unwrap();
    assert!(p.matches("some/needle.txt"));
    assert!(p.matches("some/a/needle.txt"));
    assert!(p.matches("some/a/b/needle.txt"));
    assert!(!p.matches("some/a/notit.txt"));
}

#[test]
fn digit_class_and_complement() {
    let digits = Pattern::new("[0-9]").unwrap();
    let others = Pattern::new("[!0-9]").unwrap();
    for c in ['0', '5', '9'] {
        assert!(digits.matches(&c.to_string()));
        assert!(!others.matches(&c.to_string()));
    }
    for c in ['a', '/', ' ', ':', 'é', '.'] {
        assert!(!digits.matches(&c.to_string()));
        assert!(others.matches(&c.to_string()));
    }
    assert!(!digits.matches("12"));
    assert!(!digits.matches(""));
}

#[test]
fn case_insensitive_literal() {
    let p = Pattern::new("aBc").unwrap();
    for s in ["ABC", "abc", "AbC", "aBc"] {
        assert!(p.matches_with(s, insensitive()));
    }
    assert!(p.matches_with("aBc", sensitive()));
    for s in ["ABC", "abc", "AbC", "aBcd", "ab"] {
        assert!(!p.matches_with(s, sensitive()));
    }
}

#[test]
fn case_insensitive_ranges() {
    let letters = Pattern::new("[a-c]").unwrap();
    assert!(letters.matches_with("B", insensitive()));
    assert!(!letters.matches_with("B", sensitive()));
    // lowered, the ends of this range are out of order: it matches as written
    let mixed = Pattern::new("[Z-a]").unwrap();
    assert!(mixed.matches_with("_", insensitive()));
    assert!(!mixed.matches_with("z", insensitive()));
}

#[test]
fn literal_separator_option() {
    let strict = MatchOptions {
        require_literal_separator: true,
        ..MatchOptions::new()
    };
    let p = Pattern::new("a*b").unwrap();
    assert!(!p.matches_with("a/b", strict));
    assert!(p.matches_with("a/b", MatchOptions::new()));
    assert!(p.matches_with("axb", strict));
}

#[test]
fn literal_leading_dot_option() {
    let strict = MatchOptions {
        require_literal_leading_dot: true,
        ..MatchOptions::new()
    };
    let p = Pattern::new("*.txt").unwrap();
    assert!(!p.matches_with(".hidden.txt", strict));
    assert!(p.matches_with(".hidden.txt", MatchOptions::new()));
    assert!(p.matches_with("shown.txt", strict));
}

#[test]
fn bracket_edge_cases() {
    assert!(Pattern::new("[]]").unwrap().matches("]"));
    assert!(Pattern::new("[!]]").unwrap().matches("x"));
    assert!(!Pattern::new("[!]]").unwrap().matches("]"));
    assert!(Pattern::new("[!!]").unwrap().matches("x"));
    assert!(!Pattern::new("[!!]").unwrap().matches("!"));
}

#[test]
fn consecutive_recursive_wildcards_collapse() {
    let p = Pattern::new("x/**/**/y").unwrap();
    assert!(p.is_recursive());
    assert!(p.matches("x/y"));
    assert!(p.matches("x/a/b/y"));
    assert!(!Pattern::new("a*b").unwrap().is_recursive());
}

#[test]
fn as_str_keeps_text() {
    assert_eq!(Pattern::new("a/[b]*").unwrap().as_str(), "a/[b]*");
}

#[test]
fn matches_path_with_options() {
    let p = Pattern::new("A/b").unwrap();
    assert!(p.matches_path_with(std::path::Path::new("a/B"), insensitive()));
    assert!(!p.matches_path(std::path::Path::new("a/B")));
}

#[test]
fn pattern_order_and_equality() {
    let a = Pattern::new("a*").unwrap();
    let b = Pattern::new("a*").unwrap();
    assert_eq!(a, b);
    assert_eq!(a.clone(), b);
    assert_ne!(a, Pattern::new("a?").unwrap());
}

#[test]
fn inverted_ranges_match_nothing() {
    let p = Pattern::new("[a-Z]").unwrap();
    for c in ["q", "a", "Z", "_", "Q"] {
        assert!(!p.matches_with(c, insensitive()));
        assert!(!p.matches_with(c, sensitive()));
    }
}

#[test]
fn leading_double_recursive_collapses() {
    let p = Pattern::new("**/**").unwrap();
    assert!(p.is_recursive());
    assert!(p.matches("a/b"));
    assert!(p.matches(""));
}
