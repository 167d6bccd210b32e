use interpolation_engine::model::{insert_key_of_file, DirListing, LoadError, ProgramLoadContext};
use interpolation_engine::parser::{
    add_line_numbers, join_lines, numbered_member, program_from_value, split_lines,
};
use interpolation_engine::state::State;
use interpolation_engine::value::{Number, Object, Value};

fn text(s: &str) -> Value {
    Value::String(s.to_string())
}

fn object(members: Vec<(&str, Value)>) -> Object {
    let mut o = Object::new();
    for (k, v) in members {
        o.insert(k.to_string(), v);
    }
    o
}

fn root(members: Vec<(&str, Value)>) -> Value {
    Value::Object(object(members))
}

fn task() -> Value {
    root(vec![("cmd", text("clear"))])
}

#[test]
fn lines_get_their_numbers() {
    let input = "{\n  order: [\n    { \"cmd\": \"print\", text: \"a\" },\n    { cmd: 'clear' }\n  ]\n}";
    let expected = "{\n  order: [\n    { \"cmd\":\"print\", line:3, text: \"a\" },\n    { cmd:'clear', line:4 }\n  ]\n}\n";
    assert_eq!(add_line_numbers(input), Some(expected.to_string()));
    assert_eq!(add_line_numbers(""), Some(String::new()));
    assert_eq!(add_line_numbers("no members here"), Some("no members here\n".to_string()));
    assert_eq!(
        add_line_numbers("{cmd:\"a\"},{cmd:\"b\"}"),
        Some("{cmd:\"a\", line:1},{cmd:\"b\", line:1}\n".to_string())
    );
}

#[test]
fn lines_of_a_text() {
    assert_eq!(split_lines("a\nb\r\nc"), vec!["a", "b", "c"]);
    assert_eq!(split_lines("a\n"), vec!["a"]);
    assert_eq!(split_lines("\n\n"), vec!["", ""]);
    assert_eq!(split_lines("a\r"), vec!["a\r"]);
    assert_eq!(split_lines(""), Vec::<String>::new());
    for sample in ["x\ny\r\n\r\nz", "\r\n", "one", "a\n\nb\n"] {
        let expected: Vec<String> = sample.lines().map(|l| l.to_string()).collect();
        assert_eq!(split_lines(sample), expected);
    }
    assert_eq!(join_lines(&vec!["a".to_string(), "b".to_string()]), "a\nb\n");
    assert_eq!(numbered_member("cmd", "\"x\"", " ,", 12), "cmd:\"x\", line:12 ,");
}

#[test]
fn the_parts_of_a_program() {
    let p = program_from_value(root(vec![
        ("default_state", root(vec![("inserts", root(vec![]))])),
        ("order", Value::Array(vec![task(), task()])),
        ("tasks", root(vec![("helper", task())])),
        ("save_states", root(vec![])),
    ]))
    .unwrap();
    assert_eq!(p.order.len(), 2);
    assert_eq!(p.named_tasks.len(), 1);
    assert_eq!(p.named_tasks[0].0, "helper");
    assert_eq!(p.completion_args.len(), 0);
    let st = State::from_default(&p.default_state);
    assert!(st.is_well_formed());
    assert_eq!(st.get_output(), "");
}

#[test]
fn what_a_program_must_have() {
    let full = |skip: &str| {
        let mut members = vec![
            ("default_state", root(vec![])),
            ("order", Value::Array(vec![task()])),
            ("named_tasks", root(vec![])),
            ("save_states", root(vec![])),
            ("completion_args", root(vec![("model", text("m"))])),
        ];
        members.retain(|m| m.0 != skip);
        root(members)
    };
    assert!(program_from_value(full("")).is_ok());
    assert_eq!(program_from_value(full("completion_args")).unwrap().completion_args.len(), 0);
    assert_eq!(program_from_value(Value::Null).err(), Some(LoadError::RootNotAnObject));
    assert_eq!(program_from_value(full("default_state")).err(), Some(LoadError::MissingDefaultState));
    assert_eq!(program_from_value(full("order")).err(), Some(LoadError::MissingOrder));
    assert_eq!(program_from_value(full("named_tasks")).err(), Some(LoadError::MissingNamedTasks));
    assert_eq!(program_from_value(full("save_states")).err(), Some(LoadError::MissingSaveStates));
    let bad_task = root(vec![
        ("default_state", root(vec![])),
        ("order", Value::Array(vec![Value::Number(Number::Int(1))])),
        ("named_tasks", root(vec![])),
        ("save_states", root(vec![])),
    ]);
    assert_eq!(program_from_value(bad_task).err(), Some(LoadError::TaskNotAnObject));
}

#[test]
fn the_context_of_a_program() {
    assert_eq!(
        ProgramLoadContext::new("p".to_string(), None, None).err(),
        Some(LoadError::NoParentDirectory)
    );
    let missing = DirListing { path: "nowhere".to_string(), is_dir: false, files: Vec::new() };
    assert_eq!(
        ProgramLoadContext::new("p".to_string(), Some(".".to_string()), Some(missing)).err(),
        Some(LoadError::InsertsDirNotADirectory)
    );
    assert_eq!(insert_key_of_file("a.json5"), "a");
    assert_eq!(insert_key_of_file("a.json5.json5"), "a");
    assert_eq!(insert_key_of_file("a.txt"), "a.txt");
    assert_eq!(insert_key_of_file(".json5"), "");
    assert_eq!(insert_key_of_file("json5"), "json5");
}
