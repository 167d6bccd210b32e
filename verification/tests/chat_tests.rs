use interpolation_engine::action::Action;
use interpolation_engine::chat::{
    build_request, check_chat_args, is_done_marker, map_message, needs_retry, normalize_api_url,
    ChatArgs, ChatError, ChatStream,
};
use interpolation_engine::chat_plan::{finish_chat, parse_i64};
use interpolation_engine::engine::execute_task_at;
use interpolation_engine::error::ExecError;
use interpolation_engine::model::{Clock, ProgramLoadContext};
use interpolation_engine::state::State;
use interpolation_engine::value::{to_json_string, Number, Object, Value};

fn text(s: &str) -> Value {
    Value::String(s.to_string())
}

fn num(i: i64) -> Value {
    Value::Number(Number::Int(i))
}

fn object(members: Vec<(&str, Value)>) -> Object {
    let mut o = Object::new();
    for (k, v) in members {
        o.insert(k.to_string(), v);
    }
    o
}

fn args() -> ChatArgs {
    ChatArgs {
        messages: vec![map_message("user", "Pick")],
        completion_args: object(vec![("model", text("m")), ("max_completion_tokens", num(64))]),
        start_str: String::new(),
        stop_str: String::new(),
        hide_start_str: String::new(),
        hide_stop_str: String::new(),
        n_outputs: 1,
        shown: true,
        choices_list: None,
        extra_body: Object::new(),
        api_url: "http://localhost:8080/".to_string(),
        api_key: "k".to_string(),
    }
}

fn chunk(content: &str, finish: Option<&str>) -> Value {
    let mut choice = object(vec![("delta", Value::Object(object(vec![("content", text(content))])))]);
    if let Some(f) = finish {
        choice.insert("finish_reason".to_string(), text(f));
    }
    Value::Object(object(vec![("choices", Value::Array(vec![Value::Object(choice)]))]))
}

#[test]
fn markers_come_as_a_pair_and_choices_alone() {
    assert_eq!(check_chat_args(&args()), Ok(()));
    let mut a = args();
    a.start_str = "<".to_string();
    assert_eq!(check_chat_args(&a), Err(ChatError::UnpairedMarkers));
    a.stop_str = ">".to_string();
    assert_eq!(check_chat_args(&a), Ok(()));
    a.choices_list = Some(vec!["A".to_string()]);
    assert_eq!(check_chat_args(&a), Err(ChatError::ChoicesWithMarkers));
    let mut b = args();
    b.choices_list = Some(vec!["A".to_string()]);
    b.n_outputs = 2;
    assert_eq!(check_chat_args(&b), Err(ChatError::ChoicesWithOutputs));
}

#[test]
fn the_address_of_completions() {
    assert_eq!(normalize_api_url("http://h:1"), "http://h:1/v1/chat/completions");
    assert_eq!(normalize_api_url("http://h:1///"), "http://h:1/v1/chat/completions");
    assert_eq!(normalize_api_url("http://h:1/v1"), "http://h:1/v1/chat/completions");
    assert_eq!(normalize_api_url("http://h:1/v1/"), "http://h:1/v1/chat/completions");
    assert_eq!(normalize_api_url(""), "/v1/chat/completions");
}

#[test]
fn the_request() {
    let r = build_request(&args());
    assert_eq!(
        to_json_string(&Value::Object(r)),
        "{\"model\":\"m\",\"messages\":[{\"role\":\"user\",\"content\":\"Pick\"}],\"stream\":true,\"max_tokens\":64}"
    );
    let mut a = args();
    a.extra_body = object(vec![("top_k", num(5))]);
    let r = build_request(&a);
    assert_eq!(r.get("extra_body"), Some(&Value::Object(object(vec![("top_k", num(5))]))));
}

#[test]
fn chat_json_schema_choice() {
    let mut a = args();
    a.choices_list = Some(vec!["A".to_string(), "B".to_string()]);
    assert_eq!(check_chat_args(&a), Ok(()));
    let request = build_request(&a);
    let schema = "{\"type\":\"object\",\"properties\":{\"choice\":{\"enum\":[\"A\",\"B\"]}},\"required\":[\"choice\"],\"additionalProperties\":false}";
    match request.get("messages") {
        Some(Value::Array(m)) => {
            assert_eq!(m.len(), 2);
            let expected = format!(
                "Respond only with a valid JSON object conforming to this schema: {}. Do not add any additional text.",
                schema
            );
            assert_eq!(m[1], Value::Object(map_message("user", &expected)));
        }
        other => panic!("unexpected {:?}", other),
    }
    match request.get("response_format") {
        Some(v) => assert_eq!(to_json_string(v), format!("{{\"type\":\"json_schema\",\"json_schema\":{}}}", schema)),
        None => panic!("no response format"),
    }

    let mut stream = ChatStream::new(&a);
    stream.feed(&chunk("{\"choice\":", None));
    stream.feed(&chunk("\"B\"}", None));
    assert_eq!(stream.raw_text(), "{\"choice\":\"B\"}");
    let parsed = Value::Object(object(vec![("choice", text("B"))]));
    let result = stream.finish(true, Some(&parsed)).unwrap();
    assert_eq!(result.outputs, vec!["B".to_string()]);
    let missing = Value::Object(object(vec![("other", text("B"))]));
    assert_eq!(stream.finish(true, Some(&missing)).unwrap_err(), ChatError::MissingChoice);
    assert_eq!(stream.finish(true, None).unwrap_err(), ChatError::InvalidChoice);
}

#[test]
fn an_answer_is_cut_into_outputs() {
    let mut a = args();
    a.start_str = "<o>".to_string();
    a.stop_str = "</o>".to_string();
    a.hide_start_str = "<think>".to_string();
    a.hide_stop_str = "</think>".to_string();
    a.n_outputs = 2;
    let mut stream = ChatStream::new(&a);
    let mut shown = String::new();
    for part in ["intro", "<o>", " one ", "<think>", "hidden", "</think>", "</o>", "<o>", "two", "</o>"] {
        shown.push_str(&stream.feed(&chunk(part, None)));
    }
    let result = stream.finish(false, None).unwrap();
    assert_eq!(result.outputs.len(), 2);
    assert_eq!(result.outputs[1], "two");
    assert!(result.outputs[0].starts_with("one"));
    assert_eq!(result.visual_output, shown);
    assert!(!shown.contains("hidden"));
    assert!(shown.contains("1. "));
    assert!(shown.contains("2. "));
    assert!(!needs_retry(result.outputs.len(), 2));
    assert!(needs_retry(1, 2));
    assert!(!needs_retry(0, -1));
}

#[test]
fn an_answer_that_ran_out_of_context_fails() {
    let mut stream = ChatStream::new(&args());
    assert_eq!(stream.feed(&chunk("abc", None)), "abc");
    assert_eq!(stream.feed(&chunk("", Some("length"))), "");
    assert_eq!(stream.finish(false, None).unwrap_err(), ChatError::ContextOverflow);
    assert!(is_done_marker("[DONE]"));
    assert!(!is_done_marker("[DONE] "));
    let mut quiet = args();
    quiet.shown = false;
    let mut stream = ChatStream::new(&quiet);
    assert_eq!(stream.feed(&chunk("abc", None)), "");
    assert_eq!(stream.feed(&Value::Null), "");
    let result = stream.finish(false, None).unwrap();
    assert_eq!(result.outputs, vec!["abc".to_string()]);
    assert_eq!(result.visual_output, "");
    assert_eq!(result.raw, "abc");
}

#[test]
fn the_chat_command_is_planned() {
    let ctx = ProgramLoadContext::new("p.json5".to_string(), Some(".".to_string()), None).unwrap();
    let clock = Clock { hour_minute: "00:00".to_string(), hour_minute_second: "00:00:00".to_string() };
    let inserts = object(vec![
        ("topic", text("rust")),
        ("history", Value::Array(vec![Value::Object(object(vec![("role", text("system")), ("content", text("  be brief about {topic} "))])), num(1), Value::Object(object(vec![("content", text("hi"))]))])),
    ]);
    let mut st = State::from_default(&object(vec![("inserts", Value::Object(inserts))]));
    let completion = object(vec![
        ("model", text("base")),
        ("api_url", text("http://api")),
        ("extra_body", Value::Object(object(vec![("a", num(1))]))),
        ("n_outputs", text("3")),
    ]);
    let task = object(vec![
        ("cmd", text("chat")),
        ("messages", text("{history}")),
        ("output_name", text("answer")),
        ("model", text("special")),
        ("shown", text("false")),
        ("start_str", text("<")),
        ("stop_str", text(">")),
        ("choices_list", Value::Array(vec![num(1), text("b")])),
        ("voice_path", text("v.onnx")),
        ("line", num(9)),
    ]);
    let plan = match execute_task_at(&mut st, &task, &completion, &Vec::new(), &ctx, &clock) {
        Ok(Action::Chat(p)) => p,
        other => panic!("unexpected {:?}", other),
    };
    assert_eq!(plan.output_name, "answer");
    assert_eq!(plan.voice_path, Some("v.onnx".to_string()));
    assert_eq!(plan.voice_speaker, None);
    assert_eq!(plan.args.n_outputs, 3);
    assert!(!plan.args.shown);
    assert_eq!(plan.args.start_str, "<");
    assert_eq!(plan.args.stop_str, ">");
    assert_eq!(plan.args.api_url, "http://api");
    assert_eq!(plan.args.api_key, "unused");
    assert_eq!(plan.args.choices_list, Some(vec!["1".to_string(), "b".to_string()]));
    assert_eq!(plan.args.extra_body.get("a"), Some(&num(1)));
    assert_eq!(to_json_string(&Value::Object(plan.args.completion_args.clone())), "{\"model\":\"special\"}");
    assert_eq!(plan.args.messages.len(), 2);
    assert_eq!(Value::Object(plan.args.messages[0].clone()), Value::Object(map_message("system", "be brief about rust")));
    assert_eq!(Value::Object(plan.args.messages[1].clone()), Value::Object(map_message("user", "hi")));

    let bad = object(vec![("cmd", text("chat")), ("messages", num(1)), ("output_name", text("answer"))]);
    assert!(matches!(
        execute_task_at(&mut st, &bad, &completion, &Vec::new(), &ctx, &clock),
        Err(ExecError::MessagesNotList)
    ));
}

#[test]
fn the_answer_is_stored() {
    let mut st = State::from_default(&object(vec![("inserts", Value::Object(Object::new()))]));
    st.set_output("before ".to_string());
    finish_chat(&mut st, "one", &vec!["only".to_string()], "seen");
    assert_eq!(st.inserts().get("one"), Some(&text("only")));
    assert_eq!(st.get_output(), "before seen");
    finish_chat(&mut st, "many", &vec!["a".to_string(), "b".to_string()], "");
    assert_eq!(st.inserts().get("many"), Some(&Value::Array(vec![text("a"), text("b")])));
    finish_chat(&mut st, "none", &Vec::new(), "");
    assert_eq!(st.inserts().get("none"), Some(&Value::Array(vec![])));
    assert_eq!(st.get_output(), "before seen");
}

#[test]
fn integers_in_text() {
    assert_eq!(parse_i64("42"), Some(42));
    assert_eq!(parse_i64("-42"), Some(-42));
    assert_eq!(parse_i64("+7"), Some(7));
    assert_eq!(parse_i64("007"), Some(7));
    assert_eq!(parse_i64(""), None);
    assert_eq!(parse_i64("-"), None);
    assert_eq!(parse_i64("4 2"), None);
    assert_eq!(parse_i64("1.5"), None);
    assert_eq!(parse_i64("9223372036854775807"), Some(i64::MAX));
    assert_eq!(parse_i64("9223372036854775808"), None);
    assert_eq!(parse_i64("-9223372036854775808"), Some(i64::MIN));
    assert_eq!(parse_i64("-9223372036854775809"), None);
    assert_eq!(parse_i64("99999999999999999999999999999999999999999999"), None);
}
