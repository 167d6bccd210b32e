use interpolation_engine::interp::{
    extract_from_str, extract_insert_keys, get_interpdata_at, get_simple_insertkey,
    interpolate_inserts, interpolate_inserts_at, recursive_escape, recursive_interpolate,
    recursive_interpolate_at, recursive_unescape, InterpError,
};
use interpolation_engine::model::{Clock, DirFile, DirListing, ProgramLoadContext};
use interpolation_engine::value::{to_json_string, value_to_string, Number, Object, Value};

fn text(s: &str) -> Value {
    Value::String(s.to_string())
}

fn num(i: i64) -> Value {
    Value::Number(Number::Int(i))
}

fn object(members: Vec<(&str, Value)>) -> Object {
    let mut o = Object::new();
    for (k, v) in members {
        o.insert(k.to_string(), v);
    }
    o
}

fn plain_context() -> ProgramLoadContext {
    ProgramLoadContext::new("prog.json5".to_string(), Some(".".to_string()), None).unwrap()
}

fn noon() -> Clock {
    Clock { hour_minute: "12:00".to_string(), hour_minute_second: "12:00:30".to_string() }
}

fn alias_inserts() -> Object {
    object(vec![("A", text("B")), ("B", text("hello"))])
}

#[test]
fn simple_key_of_a_group() {
    assert_eq!(get_simple_insertkey("{name}"), Some("name".to_string()));
    assert_eq!(get_simple_insertkey("{a}{b}"), None);
    assert_eq!(get_simple_insertkey("x{a}"), None);
    assert_eq!(get_simple_insertkey("{a}x"), None);
    assert_eq!(get_simple_insertkey("{{a}}"), Some("{a}".to_string()));
    assert_eq!(get_simple_insertkey("{}"), Some("".to_string()));
    assert_eq!(get_simple_insertkey("{"), None);
    assert_eq!(get_simple_insertkey(""), None);
    assert_eq!(get_simple_insertkey("{a}}"), None);
    assert_eq!(get_simple_insertkey("{a{b}c}"), Some("a{b}c".to_string()));
}

#[test]
fn interpolation_with_nesting() {
    let ctx = plain_context();
    let inserts = alias_inserts();
    assert_eq!(interpolate_inserts(&inserts, "{{A}}", &ctx), Ok(text("hello")));
    assert_eq!(
        interpolate_inserts(&inserts, "before {A} after", &ctx),
        Ok(text("before B after"))
    );
    let kept = interpolate_inserts(&inserts, "\\{A\\}", &ctx).unwrap();
    assert_eq!(kept, text("\\{A\\}"));
    assert_eq!(recursive_unescape(kept), text("{A}"));
}

#[test]
fn a_simple_group_gives_the_raw_value() {
    let ctx = plain_context();
    let inserts = object(vec![("xs", Value::Array(vec![num(1), num(2)])), ("n", num(7))]);
    assert_eq!(
        interpolate_inserts(&inserts, "{xs}", &ctx),
        Ok(Value::Array(vec![num(1), num(2)]))
    );
    assert_eq!(interpolate_inserts(&inserts, "{n}", &ctx), Ok(num(7)));
    assert_eq!(interpolate_inserts(&inserts, "n={n} xs={xs}", &ctx), Ok(text("n=7 xs=12")));
}

#[test]
fn interpolation_failures() {
    let ctx = plain_context();
    let inserts = object(vec![("o", Value::Object(Object::new())), ("z", Value::Null)]);
    assert_eq!(interpolate_inserts(&inserts, "a {missing} b", &ctx), Err(InterpError::UnknownKey));
    assert_eq!(interpolate_inserts(&inserts, "a {} b", &ctx), Err(InterpError::EmptyKey));
    assert_eq!(interpolate_inserts(&inserts, "a {ARG1} b", &ctx), Err(InterpError::MissingArgument));
    assert_eq!(interpolate_inserts(&inserts, "a {o", &ctx), Err(InterpError::UnevenBraces));
    assert_eq!(interpolate_inserts(&inserts, "a }{ b", &ctx), Err(InterpError::UnevenBraces));
    assert_eq!(interpolate_inserts(&inserts, "a {o} b", &ctx), Err(InterpError::UnsupportedType));
    assert_eq!(interpolate_inserts(&inserts, "a {z} b", &ctx), Err(InterpError::UnsupportedType));
}

#[test]
fn interpolation_that_never_ends_gives_up() {
    let ctx = plain_context();
    let inserts = object(vec![("A", text("{A}"))]);
    assert_eq!(interpolate_inserts(&inserts, "x{A}", &ctx), Err(InterpError::TooManyPasses));
}

#[test]
fn the_clock_keys() {
    let ctx = plain_context();
    let inserts = Object::new();
    let clock = noon();
    assert_eq!(get_interpdata_at(&inserts, "HH:MM", &ctx, &clock), Ok(text("12:00")));
    assert_eq!(get_interpdata_at(&inserts, "HH:MM:SS", &ctx, &clock), Ok(text("12:00:30")));
    assert_eq!(
        interpolate_inserts_at(&inserts, "at {HH:MM}", &ctx, &clock),
        Ok(text("at 12:00"))
    );
    let now = interpolate_inserts(&inserts, "{HH:MM}", &ctx).unwrap();
    assert_eq!(value_to_string(&now).chars().count(), 5);
}

#[test]
fn the_inserts_directory() {
    let listing = DirListing {
        path: "inserts".to_string(),
        is_dir: true,
        files: vec![
            DirFile { name: "greeting".to_string(), text: Some("  hi {you}\n".to_string()), parsed: None },
            DirFile {
                name: "data.json5".to_string(),
                text: Some("{a:'{x}'}".to_string()),
                parsed: Some(Value::Object(object(vec![("a", text("{x}"))]))),
            },
            DirFile { name: "broken.json5".to_string(), text: Some("{".to_string()), parsed: None },
        ],
    };
    let ctx =
        ProgramLoadContext::new("prog.json5".to_string(), Some(".".to_string()), Some(listing))
            .unwrap();
    assert_eq!(
        ctx.inserts_dir_keys,
        vec!["greeting".to_string(), "data".to_string(), "broken".to_string()]
    );
    let inserts = Object::new();
    let clock = noon();
    assert_eq!(get_interpdata_at(&inserts, "greeting", &ctx, &clock), Ok(text("hi \\{you\\}")));
    assert_eq!(
        get_interpdata_at(&inserts, "data", &ctx, &clock),
        Ok(Value::Object(object(vec![("a", text("\\{x\\}"))])))
    );
    assert_eq!(get_interpdata_at(&inserts, "broken", &ctx, &clock), Err(InterpError::UnreadableFile));
    assert_eq!(get_interpdata_at(&inserts, "nothing", &ctx, &clock), Err(InterpError::UnknownKey));
    assert_eq!(
        interpolate_inserts_at(&inserts, "say: {greeting}", &ctx, &clock),
        Ok(text("say: hi \\{you\\}"))
    );
}

#[test]
fn escape_and_unescape() {
    let v = Value::Array(vec![text("a{b}"), Value::Object(object(vec![("{k}", text("}"))]))]);
    let escaped = recursive_escape(v.clone());
    assert_eq!(
        escaped,
        Value::Array(vec![text("a\\{b\\}"), Value::Object(object(vec![("\\{k\\}", text("\\}"))]))])
    );
    assert_eq!(recursive_unescape(escaped), v);
}

#[test]
fn escape_round_trip_on_literals() {
    let ctx = plain_context();
    let inserts = alias_inserts();
    let v = Value::Object(object(vec![
        ("name", text("plain text")),
        ("list", Value::Array(vec![num(1), Value::Bool(true), Value::Null, text("x")])),
    ]));
    let back =
        recursive_interpolate(&inserts, recursive_unescape(recursive_escape(v.clone())), &ctx);
    assert_eq!(back, Ok(v));
}

#[test]
fn recursive_interpolation_walks_values() {
    let ctx = plain_context();
    let inserts = alias_inserts();
    let clock = noon();
    let v = Value::Object(object(vec![
        ("{A}", text("{B} there")),
        ("keep", text("{missing}")),
        ("list", Value::Array(vec![text("{A}"), num(3)])),
    ]));
    let expected = Value::Object(object(vec![
        ("B", text("hello there")),
        ("keep", text("{missing}")),
        ("list", Value::Array(vec![text("B"), num(3)])),
    ]));
    assert_eq!(recursive_interpolate_at(&inserts, v, &ctx, &clock), Ok(expected));
}

#[test]
fn pattern_commands_are_left_alone() {
    let ctx = plain_context();
    let inserts = alias_inserts();
    let task = Value::Object(object(vec![("cmd", text("goto_map")), ("text", text("{A}"))]));
    assert_eq!(recursive_interpolate(&inserts, task.clone(), &ctx), Ok(task));
}

#[test]
fn container_commands_resolve_only_their_tasks() {
    let ctx = plain_context();
    let sub = Value::Array(vec![Value::Object(object(vec![("cmd", text("clear"))]))]);
    let inserts = object(vec![("subtasks", sub.clone()), ("A", text("B"))]);
    let task = Value::Object(object(vec![
        ("cmd", text("serial")),
        ("note", text("{A}")),
        ("tasks", text("{subtasks}")),
    ]));
    let expected = Value::Object(object(vec![
        ("cmd", text("serial")),
        ("note", text("{A}")),
        ("tasks", sub),
    ]));
    assert_eq!(recursive_interpolate(&inserts, task, &ctx), Ok(expected));
    let failing =
        Value::Object(object(vec![("cmd", text("for")), ("tasks", text("{nowhere}"))]));
    assert_eq!(recursive_interpolate(&inserts, failing, &ctx), Err(InterpError::UnknownKey));
}

#[test]
fn keys_of_the_outermost_groups() {
    assert_eq!(extract_from_str("a {x} b {y{z}} \\{n\\}"), vec!["x".to_string(), "y{z}".to_string()]);
    assert_eq!(extract_from_str("none"), Vec::<String>::new());
    assert_eq!(extract_from_str("{}"), vec!["".to_string()]);
    let v = Value::Object(object(vec![("{k}", Value::Array(vec![text("{a}"), text("{b}")]))]));
    assert_eq!(extract_insert_keys(&v), vec!["k".to_string(), "a".to_string(), "b".to_string()]);
}

#[test]
fn texts_of_values() {
    assert_eq!(value_to_string(&text("t")), "t");
    assert_eq!(value_to_string(&num(-42)), "-42");
    assert_eq!(value_to_string(&num(i64::MIN)), "-9223372036854775808");
    assert_eq!(value_to_string(&Value::Number(Number::Real("1.5".to_string()))), "1.5");
    assert_eq!(value_to_string(&Value::Bool(true)), "true");
    assert_eq!(value_to_string(&Value::Null), "null");
    assert_eq!(value_to_string(&Value::Array(vec![text("a"), num(1)])), "a1");
    let o = Value::Object(object(vec![("k\"", Value::Array(vec![text("a\nb"), num(0)]))]));
    assert_eq!(value_to_string(&o), "{\"k\\\"\":[\"a\\nb\",0]}");
    assert_eq!(to_json_string(&text("x")), "\"x\"");
    assert_eq!(to_json_string(&Value::Array(vec![])), "[]");
    assert_eq!(to_json_string(&Value::Object(Object::new())), "{}");
}

#[test]
fn objects_are_equal_whatever_the_order_of_their_keys() {
    let a = Value::Object(object(vec![("x", num(1)), ("y", num(2))]));
    let b = Value::Object(object(vec![("y", num(2)), ("x", num(1))]));
    let c = Value::Object(object(vec![("y", num(2)), ("x", num(3))]));
    assert_eq!(a, b);
    assert_ne!(a, c);
    assert_ne!(num(1), Value::Number(Number::Real("1.0".to_string())));
}

#[test]
fn an_object_keeps_insertion_order() {
    let mut o = object(vec![("b", num(1)), ("a", num(2))]);
    o.insert("b".to_string(), num(3));
    o.insert("c".to_string(), num(4));
    let keys: Vec<&str> = o.entries.iter().map(|e| e.0.as_str()).collect();
    assert_eq!(keys, vec!["b", "a", "c"]);
    assert_eq!(o.get("b"), Some(&num(3)));
    o.remove("b");
    let keys: Vec<&str> = o.entries.iter().map(|e| e.0.as_str()).collect();
    assert_eq!(keys, vec!["a", "c"]);
    assert_eq!(o.get("b"), None);
    assert_eq!(o.len(), 2);
}

#[test]
fn the_time_of_day_is_two_digits_for_each_part() {
    let ctx = plain_context();
    let inserts = Object::new();
    let short: Vec<char> = value_to_string(&interpolate_inserts(&inserts, "{HH:MM}", &ctx).unwrap()).chars().collect();
    assert_eq!(short.len(), 5);
    assert_eq!(short[2], ':');
    let hour: u32 = short[..2].iter().collect::<String>().parse().unwrap();
    let minute: u32 = short[3..].iter().collect::<String>().parse().unwrap();
    assert!(hour <= 23 && minute <= 59);
    let long: Vec<char> = value_to_string(&interpolate_inserts(&inserts, "{HH:MM:SS}", &ctx).unwrap()).chars().collect();
    assert_eq!(long.len(), 8);
    assert_eq!((long[2], long[5]), (':', ':'));
    assert!(long.iter().enumerate().all(|(i, c)| i == 2 || i == 5 || c.is_ascii_digit()));
    let second: u32 = long[6..].iter().collect::<String>().parse().unwrap();
    assert!(second <= 60);
}
