use interpolation_engine::filter::{safe_index, InvertedFilter, OutputFilter};

fn chars(s: &str) -> Vec<char> {
    s.chars().collect()
}

#[test]
fn safe_index_holds_back_a_possible_marker() {
    assert_eq!(safe_index(&chars("hello <"), &chars("<out>")), 6);
    assert_eq!(safe_index(&chars("hello"), &chars("<out>")), 5);
    assert_eq!(safe_index(&chars("<ou"), &chars("<out>")), 0);
    assert_eq!(safe_index(&chars("abc"), &chars("")), 3);
    assert_eq!(safe_index(&chars(""), &chars("<out>")), 0);
}

#[test]
fn without_markers_everything_is_one_output() {
    let mut f = OutputFilter::new("", "", false);
    assert_eq!(f.update("hello "), "hello ");
    assert_eq!(f.update("world"), "world");
    assert_eq!(f.outputs(), vec!["hello world".to_string()]);
}

#[test]
fn outputs_between_markers() {
    let mut f = OutputFilter::new("<o>", "</o>", false);
    let mut shown = String::new();
    for chunk in ["skip ", "<o>", "first", "</o>", "between", "<o>", "second", "</o>"] {
        shown.push_str(&f.update(chunk));
    }
    assert_eq!(f.outputs().len(), 2);
    assert_eq!(f.outputs()[0], "first");
    assert!(shown.contains("first"));
    assert!(shown.contains("second"));
}

#[test]
fn a_chunk_changes_only_the_open_output() {
    let mut f = OutputFilter::new("[", "]", false);
    f.update("[");
    f.update("one");
    f.update("]");
    f.update("[");
    let before = f.outputs();
    f.update("two");
    let after = f.outputs();
    assert_eq!(before.len(), 2);
    assert_eq!(after.len(), 2);
    assert_eq!(after[0], before[0]);
    assert_eq!(after[1], "two");
}

#[test]
fn outputs_are_enumerated() {
    let mut f = OutputFilter::new("[", "]", true);
    assert_eq!(f.update("["), "1. ");
    assert_eq!(f.update("a"), "a");
    assert_eq!(f.update("]"), "");
    assert_eq!(f.update("["), "\n\n2. ");
    assert_eq!(f.update("b"), "b");
    assert_eq!(f.outputs(), vec!["a".to_string(), "b".to_string()]);
}

#[test]
fn the_inverted_filter_hides_between_markers() {
    let mut f = InvertedFilter::new("<think>", "</think>");
    let mut shown = String::new();
    for chunk in ["answer ", "<think>", "secret", "</think>", " done"] {
        shown.push_str(&f.update(chunk));
    }
    assert!(shown.starts_with("answer "));
    assert!(!shown.contains("secret"));
    assert!(shown.ends_with(" done"));
}

#[test]
fn the_inverted_filter_without_markers_shows_everything() {
    let mut f = InvertedFilter::new("", "");
    assert_eq!(f.update("abc"), "abc");
    assert_eq!(f.update("def"), "def");
}

#[test]
fn there_are_no_more_outputs_than_start_markers() {
    let stream = ["a", "<o>", "one", "</o>", "b<o>lost</o>", "<o>", "two", "</o>", "<", "o>", "open"];
    let mut f = OutputFilter::new("<o>", "</o>", false);
    for chunk in stream {
        f.update(chunk);
    }
    let whole: String = stream.concat();
    let starts = whole.matches("<o>").count();
    let outs = f.outputs();
    assert_eq!(outs, vec!["one".to_string(), "two".to_string(), "open".to_string()]);
    assert_eq!(starts, 4);
    assert!(outs.len() <= starts);
}
