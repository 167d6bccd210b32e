use interpolation_engine::agent::{
    agent_answer, agent_choice, agent_choice_request, agent_input_request, AgentIo,
};
use interpolation_engine::history::{history_record, parse_history};
use interpolation_engine::model::Task;
use interpolation_engine::preview::{preview_text, preview_value, task_log_label, task_preview};
use interpolation_engine::speech::{last_sentence_end, SentenceBuffer};
use interpolation_engine::ui::{
    build_choice_keys, char_at, contains_text, cursor_offset, find_history_match, is_word_char,
    next_char_index, next_word_index, prev_char_index, prev_word_index, scroll_output_delta,
    split_prompt, wrapped_line_count, UiEvent,
};
use interpolation_engine::value::{to_json_string, Number, Object, Value};

fn chars(s: &str) -> Vec<char> {
    s.chars().collect()
}

fn strings(items: &[&str]) -> Vec<String> {
    items.iter().map(|s| s.to_string()).collect()
}

#[test]
fn a_prompt_is_split_at_its_last_line() {
    assert_eq!(split_prompt("What is\nyour name?\n> "), ("What is\nyour name?".to_string(), "> ".to_string()));
    assert_eq!(split_prompt("> "), (String::new(), "> ".to_string()));
    assert_eq!(split_prompt("a\n"), ("a".to_string(), String::new()));
}

#[test]
fn choices_have_keys() {
    assert_eq!(build_choice_keys(3), strings(&["1", "2", "3"]));
    assert_eq!(build_choice_keys(0), Vec::<String>::new());
    let many = build_choice_keys(11);
    assert_eq!(many.len(), 11);
    assert_eq!(many[0], "a");
    assert_eq!(many[10], "k");
    assert_eq!(build_choice_keys(9)[8], "9");
}

#[test]
fn wrapping_and_the_cursor() {
    assert_eq!(wrapped_line_count("", 10), 0);
    assert_eq!(wrapped_line_count("abc", 0), 0);
    assert_eq!(wrapped_line_count("abc", 10), 1);
    assert_eq!(wrapped_line_count("abcdefghij", 10), 1);
    assert_eq!(wrapped_line_count("abcdefghijk", 10), 2);
    assert_eq!(wrapped_line_count("a\n\nbcd", 2), 4);
    assert_eq!(wrapped_line_count("a\n", 5), 2);
    assert_eq!(cursor_offset("", 10), (0, 0));
    assert_eq!(cursor_offset("abc", 10), (0, 3));
    assert_eq!(cursor_offset("abcde", 5), (1, 0));
    assert_eq!(cursor_offset("ab\ncd", 10), (1, 2));
}

#[test]
fn moving_through_a_line() {
    let line = chars("héllo wörld_1, ok");
    assert_eq!(prev_char_index(&line, 0), 0);
    assert_eq!(prev_char_index(&line, 3), 2);
    assert_eq!(next_char_index(&line, 3), 4);
    assert_eq!(next_char_index(&line, line.len()), line.len());
    assert_eq!(char_at(&line, 1), 'é');
    assert_eq!(char_at(&line, 99), '\0');
    assert!(is_word_char('é'));
    assert!(is_word_char('_'));
    assert!(is_word_char('7'));
    assert!(!is_word_char('-'));
    assert_eq!(prev_word_index(&line, 0), 0);
    assert_eq!(prev_word_index(&line, 5), 0);
    assert_eq!(prev_word_index(&line, 6), 0);
    assert_eq!(prev_word_index(&line, 13), 6);
    assert_eq!(prev_word_index(&line, 14), 6);
    assert_eq!(prev_word_index(&line, line.len()), 15);
    assert_eq!(next_word_index(&line, 0), 5);
    assert_eq!(next_word_index(&line, 5), 13);
    assert_eq!(next_word_index(&line, 13), 14);
    assert_eq!(next_word_index(&line, line.len()), line.len());
    assert_eq!(next_word_index(&chars("ab   "), 2), 5);
}

#[test]
fn looking_back_through_the_history() {
    let history = strings(&["first one", "second", "third one"]);
    assert_eq!(find_history_match(&history, "one", None), Some(2));
    assert_eq!(find_history_match(&history, "one", Some(1)), Some(0));
    assert_eq!(find_history_match(&history, "", None), Some(2));
    assert_eq!(find_history_match(&history, "none", None), None);
    assert_eq!(find_history_match(&Vec::new(), "x", None), None);
    assert!(contains_text(&chars("hello"), &chars("ell")));
    assert!(contains_text(&chars("hello"), &chars("")));
    assert!(!contains_text(&chars("hello"), &chars("hello!")));
    assert!(!contains_text(&chars(""), &chars("a")));
}

#[test]
fn the_history_file() {
    assert_eq!(history_record("two\nlines"), "two\nlines\n\u{1e}\n");
    let raw = format!("{}{}{}", history_record("one"), history_record("two\nlines"), history_record(""));
    assert_eq!(parse_history(&raw), strings(&["one", "two\nlines"]));
    assert_eq!(parse_history("old\n\nstyle\n"), strings(&["old", "style"]));
    assert_eq!(parse_history(""), Vec::<String>::new());
}

#[test]
fn scrolling_stops_at_both_ends() {
    let s = scroll_output_delta(5, false, 10, 3);
    assert_eq!((s.offset, s.follows, s.changed), (8, false, true));
    let s = scroll_output_delta(8, false, 10, 5);
    assert_eq!((s.offset, s.follows, s.changed), (10, true, true));
    let s = scroll_output_delta(10, true, 10, 5);
    assert_eq!((s.offset, s.follows, s.changed), (10, true, false));
    let s = scroll_output_delta(2, true, 10, -5);
    assert_eq!((s.offset, s.follows, s.changed), (0, false, true));
    let s = scroll_output_delta(2, false, 0, -5);
    assert_eq!((s.offset, s.follows, s.changed), (0, true, false));
    assert_ne!(UiEvent::ToggleMenu, UiEvent::Quit);
}

#[test]
fn sentences_go_to_the_voice_as_they_end() {
    assert_eq!(last_sentence_end(&chars("One. Two! Thr")), Some(9));
    assert_eq!(last_sentence_end(&chars("none")), None);
    let mut b = SentenceBuffer::new();
    assert_eq!(b.write("Hello wor"), Vec::<String>::new());
    assert_eq!(b.write("ld. How are"), strings(&["Hello world."]));
    assert_eq!(b.write(" you?\nFine"), strings(&["How are you?"]));
    assert_eq!(b.write("\n\n  \nA. B"), strings(&["Fine", "A."]));
    assert_eq!(b.finish(), strings(&["B"]));
    assert_eq!(b.finish(), Vec::<String>::new());
}

#[test]
fn the_agent_is_asked_and_answers() {
    let mut io = AgentIo::new("in".to_string(), "out".to_string());
    io.write("a".to_string());
    io.write("b".to_string());
    assert_eq!(io.output, "ab");
    io.set_output("c".to_string());
    assert_eq!(io.output, "c");
    io.clear();
    assert_eq!(io.output, "");
    assert_eq!(
        to_json_string(&agent_input_request("so far", "name?")),
        "{\"type\":\"user_input\",\"output\":\"so far\",\"prompt\":\"name?\"}"
    );
    assert_eq!(
        to_json_string(&agent_choice_request("", Some("pick"), &strings(&["x", "y"]))),
        "{\"type\":\"user_choice\",\"output\":\"\",\"prompt\":\"pick\",\"choices\":{\"1\":\"x\",\"2\":\"y\"}}"
    );
    assert_eq!(
        to_json_string(&agent_choice_request("", None, &Vec::new())),
        "{\"type\":\"user_choice\",\"output\":\"\",\"prompt\":null,\"choices\":{}}"
    );
    assert_eq!(agent_answer("typed\n\n"), "typed");
    assert_eq!(agent_answer(" typed "), " typed ");
    let options = strings(&["red", "2", "blue"]);
    assert_eq!(agent_choice(&options, " 3\n"), Some(2));
    assert_eq!(agent_choice(&options, "2"), Some(1));
    assert_eq!(agent_choice(&options, "red"), Some(0));
    assert_eq!(agent_choice(&options, "green"), None);
}

#[test]
fn previews() {
    assert_eq!(preview_text("short", 10), "short");
    assert_eq!(preview_text("0123456789abcdef", 11), "012[...]def");
    assert_eq!(preview_text("0123456789abcdef", 3), "[...]");
    assert_eq!(preview_value(&Value::String("x".to_string()), 80), "\"x\"");
    let mut t: Task = Object::new();
    t.insert("cmd".to_string(), Value::String("print".to_string()));
    t.insert("traceback_label".to_string(), Value::String("intro".to_string()));
    t.insert("line".to_string(), Value::Number(Number::Int(4)));
    assert_eq!(task_preview(&t), "cmd=\"print\", line=4");
    assert_eq!(task_log_label(&t, "root"), "print:4");
    t.remove("line");
    assert_eq!(task_log_label(&t, "root/x"), "root/x");
    assert_eq!(task_log_label(&t, ""), "print");
}
