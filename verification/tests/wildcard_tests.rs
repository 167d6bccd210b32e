use interpolation_engine::wildcard::{wildcard_captures, wildcard_match};

#[test]
fn a_star_matches_any_text() {
    assert!(wildcard_match("*", ""));
    assert!(wildcard_match("*", "anything\nat all"));
    assert!(wildcard_match("hello *", "hello world"));
    assert!(wildcard_match("hello *", "hello "));
    assert!(wildcard_match("a*b*c", "abc"));
    assert!(wildcard_match("a*b*c", "a--b--c"));
    assert!(!wildcard_match("a*b*c", "a--c"));
}

#[test]
fn matching_is_anchored() {
    assert!(wildcard_match("abc", "abc"));
    assert!(!wildcard_match("abc", "xabc"));
    assert!(!wildcard_match("abc", "abcx"));
    assert!(!wildcard_match("b", "abc"));
    assert!(wildcard_match("", ""));
    assert!(!wildcard_match("", "a"));
}

#[test]
fn no_other_character_is_special() {
    assert!(wildcard_match("a.c", "a.c"));
    assert!(!wildcard_match("a.c", "abc"));
    assert!(wildcard_match("(x)+[y]?", "(x)+[y]?"));
    assert!(!wildcard_match("x+", "xx"));
    assert!(wildcard_match("^$", "^$"));
    assert!(wildcard_match("a\\d", "a\\d"));
    assert!(!wildcard_match("a\\d", "a1"));
}

#[test]
fn captures_are_greedy_from_the_left() {
    assert_eq!(wildcard_captures("hello *", "hello world"), vec!["world".to_string()]);
    assert_eq!(wildcard_captures("*-*", "a-b-c"), vec!["a-b".to_string(), "c".to_string()]);
    assert_eq!(wildcard_captures("aa*", "aaab"), vec!["ab".to_string()]);
    assert_eq!(wildcard_captures("*", ""), vec!["".to_string()]);
    assert_eq!(wildcard_captures("abc", "abc"), Vec::<String>::new());
    assert_eq!(wildcard_captures("a*", "b"), Vec::<String>::new());
}
