use interpolation_engine::journal::{format_chat_transcript, format_pretty_event, join_texts};
use interpolation_engine::value::{Number, Object, Value};

const TS: &str = "2024-05-06T07:08:09.123Z";

fn text(s: &str) -> Value {
    Value::String(s.to_string())
}

fn num(i: i64) -> Value {
    Value::Number(Number::Int(i))
}

fn object(members: Vec<(&str, Value)>) -> Object {
    let mut o = Object::new();
    for (k, v) in members {
        o.insert(k.to_string(), v);
    }
    o
}

fn entry(event: &str, members: Vec<(&str, Value)>) -> Option<String> {
    format_pretty_event(event, &object(members), TS)
}

fn line(words: &str) -> Option<String> {
    Some(format!("[{TS}] {words}"))
}

fn message(role: &str, content: &str) -> Value {
    Value::Object(object(vec![("role", text(role)), ("content", text(content))]))
}

#[test]
fn the_run_of_a_program_is_recorded() {
    assert_eq!(
        entry("program_start", vec![("program", text("demo.json5")), ("order_len", num(4)), ("agent_mode", Value::Bool(true))]),
        line("Program start: demo.json5 (order_len=4, agent_mode=true)")
    );
    assert_eq!(entry("program_start", vec![]), line("Program start:  (order_len=0, agent_mode=false)"));
    assert_eq!(entry("program_complete", vec![]), line("Reached end of order list."));
    assert_eq!(entry("program_terminated", vec![]), line("Terminated by user."));
    assert_eq!(entry("program_end", vec![("success", Value::Bool(false))]), line("Program ended with error."));
    assert_eq!(entry("program_end", vec![("success", Value::Bool(true))]), None);
    assert_eq!(entry("program_end", vec![]), None);
}

#[test]
fn an_event_that_is_not_known_is_not_recorded() {
    assert_eq!(entry("something_else", vec![("label", text("x"))]), None);
    assert_eq!(entry("", vec![]), None);
}

#[test]
fn a_task_is_called_by_its_label_or_by_where_it_runs() {
    assert_eq!(
        entry("task_start", vec![("label", text("greet")), ("runtime_label", text("root/1")), ("preview", text("text=\"hi\""))]),
        line("Order Item greet: text=\"hi\"")
    );
    assert_eq!(entry("task_start", vec![("runtime_label", text("root/1")), ("preview", text(""))]), line("Order Item root/1."));
    assert_eq!(entry("task_start", vec![]), line("Order Item task."));
    assert_eq!(entry("task_start", vec![("label", num(7))]), line("Order Item 7."));
}

#[test]
fn answers_are_recorded_with_where_they_went() {
    assert_eq!(
        entry("user_input", vec![("output_name", text("name")), ("value", text("Ann"))]),
        line("User entered \"Ann\" -> name.")
    );
    assert_eq!(entry("user_input", vec![]), line("User entered \"\"."));
    assert_eq!(
        entry("user_choice", vec![("output_name", text("pick")), ("index", num(2)), ("choice", text("b"))]),
        line("User selected \"b\" (index 2) -> pick.")
    );
    assert_eq!(entry("user_choice", vec![("choice", num(5))]), line("User selected 5 (index -1)."));
    assert_eq!(
        entry("random_choice", vec![("output_name", text("r")), ("index", num(0)), ("choice", Value::Array(vec![num(1), text("x")]))]),
        line("Random choice [1,\"x\"] (index 0) -> r.")
    );
}

#[test]
fn a_long_value_is_recorded_in_short() {
    let long = "a".repeat(100);
    let got = entry("user_input", vec![("value", text(&long))]).unwrap();
    let quoted = got.strip_prefix(&format!("[{TS}] User entered ")).unwrap().strip_suffix('.').unwrap();
    assert_eq!(quoted.chars().count(), 80);
    assert!(quoted.starts_with("\"aaa") && quoted.ends_with("aaa\"") && quoted.contains("[...]"));
}

#[test]
fn jumps_are_recorded() {
    assert_eq!(entry("goto", vec![("target", text("again"))]), line("goto -> again."));
    assert_eq!(
        entry("goto_map", vec![("target", text("yes")), ("value", text("y"))]),
        line("goto_map value is y, proceeding to yes.")
    );
    assert_eq!(
        entry("goto_map", vec![("target", text("fallback")), ("value", text("NULL")), ("interpolation_error", Value::Bool(true))]),
        line("goto_map value could not be resolved (NULL), proceeding to fallback.")
    );
}

#[test]
fn commands_on_inserts_are_recorded() {
    assert_eq!(
        entry("replace_map", vec![("output_name", text("out")), ("repeat_until_done", Value::Bool(true)), ("maps", num(3))]),
        line("replace_map -> out (repeat_until_done=true, maps=3).")
    );
    assert_eq!(
        entry("replace_map", vec![("output_name", text("out")), ("item_preview", text("\"hello\""))]),
        line("replace_map -> out (repeat_until_done=false, maps=0, item=\"hello\").")
    );
    assert_eq!(entry("delete", vec![("count", num(2))]), line("delete: 2 keys."));
    assert_eq!(
        entry("delete_except", vec![("count", num(1)), ("keys", Value::Array(vec![text("a")]))]),
        line("delete_except: 1 keys [\"a\"].")
    );
    assert_eq!(
        entry("math", vec![("input", text("{n} + 1")), ("expression", text("2 + 1")), ("result", num(3))]),
        line("Math: {n} + 1 => 2 + 1 => 3.")
    );
    assert_eq!(
        entry("math", vec![("input", text("2 + 1")), ("expression", text("2 + 1")), ("result", num(3))]),
        line("Math: 2 + 1 => 3.")
    );
    assert_eq!(entry("math", vec![("input", text("1")), ("result", num(1))]), line("Math: 1 => 1."));
    assert_eq!(entry("write", vec![("path", text("/tmp/x")), ("bytes", num(12))]), line("write: '/tmp/x' (12 bytes)."));
    assert_eq!(
        entry("speak", vec![("voice_path", text("v.onnx")), ("text_len", num(5))]),
        line("speak: voice_path='v.onnx' text_len=5.")
    );
}

#[test]
fn a_round_of_a_for_names_what_it_bound() {
    let items = Value::Object(object(vec![("x", num(1)), ("name", text("Ann"))]));
    assert_eq!(
        entry("for_iteration", vec![("iteration", num(2)), ("items", items)]),
        Some(format!("[{TS}] For loop starting iteration 2.\n  For loop: x set to 1.\n  For loop: name set to \"Ann\"."))
    );
    assert_eq!(entry("for_iteration", vec![("iteration", num(1))]), line("For loop starting iteration 1."));
    assert_eq!(entry("for_iteration", vec![("items", num(3))]), line("For loop starting iteration 0."));
}

#[test]
fn the_menu_is_recorded() {
    assert_eq!(entry("menu_save", vec![("slot", num(3)), ("label", text("before"))]), line("Saved slot 3 ('before')."));
    assert_eq!(entry("menu_load", vec![("slot", num(3)), ("label", text("before"))]), line("Loaded slot 3 ('before')."));
    assert_eq!(entry("menu_reload", vec![]), line("Reloaded and restarted program."));
    assert_eq!(entry("menu_quit", vec![]), line("Quit requested from menu."));
}

#[test]
fn a_transcript_names_who_spoke_in_upper_case() {
    let messages = Value::Array(vec![message("system", "Be brief."), num(1), message("user", "Hi\nthere")]);
    assert_eq!(
        format_chat_transcript(&messages, None),
        "----------------------------MESSAGES--------------------------\nSYSTEM\nBe brief.\n\nUSER\nHi\nthere\n--------------------------------------------------------------"
    );
    assert_eq!(
        format_chat_transcript(&messages, Some(&text("Hello!"))),
        "----------------------------MESSAGES--------------------------\nSYSTEM\nBe brief.\n\nUSER\nHi\nthere\n\nASSISTANT\nHello!\n--------------------------------------------------------------"
    );
    let bare = Value::Array(vec![Value::Object(object(vec![("content", num(1))]))]);
    assert_eq!(
        format_chat_transcript(&bare, Some(&num(2))),
        "----------------------------MESSAGES--------------------------\nUSER\n\n\n--------------------------------------------------------------"
    );
    assert_eq!(
        format_chat_transcript(&Value::Null, None),
        "----------------------------MESSAGES--------------------------\n--------------------------------------------------------------"
    );
}

#[test]
fn a_chat_is_recorded_with_its_transcript() {
    assert_eq!(entry("chat_start", vec![("output_name", text("reply")), ("messages", num(2))]), line("Chat start: reply (messages=2)."));
    let messages = || Value::Array(vec![message("user", "Pick")]);
    assert_eq!(
        entry("chat_error", vec![("output_name", text("reply")), ("error", text("HTTP 500")), ("messages", messages())]),
        Some(format!(
            "[{TS}] Chat error: reply (HTTP 500).\n----------------------------MESSAGES--------------------------\nUSER\nPick\n--------------------------------------------------------------"
        ))
    );
    assert_eq!(entry("chat_error", vec![("error", text("down"))]), line("Chat error:  (down)."));
    assert_eq!(
        entry(
            "chat_done",
            vec![("output_name", text("reply")), ("outputs", num(1)), ("visual_len", num(1)), ("messages", messages()), ("assistant_raw", text("B"))]
        ),
        Some(format!(
            "[{TS}] Chat done: reply (outputs=1, visual_len=1).\n----------------------------MESSAGES--------------------------\nUSER\nPick\n\nASSISTANT\nB\n--------------------------------------------------------------"
        ))
    );
    assert_eq!(
        entry("chat_done", vec![("assistant_raw", text("B"))]),
        Some(format!(
            "[{TS}] Chat done:  (outputs=0, visual_len=0).\n----------------------------MESSAGES--------------------------\nASSISTANT\nB\n--------------------------------------------------------------"
        ))
    );
    assert_eq!(entry("chat_done", vec![("outputs", num(2))]), line("Chat done:  (outputs=2, visual_len=0)."));
}

#[test]
fn texts_are_joined() {
    assert_eq!(join_texts(&vec![], ", "), "");
    assert_eq!(join_texts(&vec!["a".to_string()], ", "), "a");
    assert_eq!(join_texts(&vec!["a".to_string(), "".to_string(), "c".to_string()], ", "), "a, , c");
}
