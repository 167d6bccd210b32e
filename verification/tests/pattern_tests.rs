use interpolation_engine::error::ExecError;
use interpolation_engine::interp::InterpError;
use interpolation_engine::model::{Clock, ProgramLoadContext};
use interpolation_engine::patterns::{goto_map_target_at, replace_map_at};
use interpolation_engine::value::{Number, Object, Value};

fn text(s: &str) -> Value {
    Value::String(s.to_string())
}

fn arm(key: &str, value: Value) -> Value {
    let mut o = Object::new();
    o.insert(key.to_string(), value);
    Value::Object(o)
}

fn ctx() -> ProgramLoadContext {
    ProgramLoadContext::new("prog.json5".to_string(), Some(".".to_string()), None).unwrap()
}

fn clock() -> Clock {
    Clock { hour_minute: "08:15".to_string(), hour_minute_second: "08:15:00".to_string() }
}

fn inserts() -> Object {
    let mut o = Object::new();
    o.insert("mood".to_string(), text("happy"));
    o
}

#[test]
fn goto_map_takes_the_first_matching_arm() {
    let maps = vec![arm("sad", text("a")), arm("hap*", text("b")), arm("*", text("c"))];
    assert_eq!(goto_map_target_at(&inserts(), "{mood}", &maps, &ctx(), &clock()), Ok("b".to_string()));
    assert_eq!(goto_map_target_at(&inserts(), "other", &maps, &ctx(), &clock()), Ok("c".to_string()));
    let none = vec![arm("sad", text("a"))];
    assert_eq!(goto_map_target_at(&inserts(), "{mood}", &none, &ctx(), &clock()), Err(ExecError::NoMatch));
}

#[test]
fn goto_map_null_arm() {
    let maps = vec![arm("x", text("a")), arm("NULL", text("fallback"))];
    assert_eq!(
        goto_map_target_at(&inserts(), "{missing}", &maps, &ctx(), &clock()),
        Ok("fallback".to_string())
    );
    let none = vec![arm("x", text("a"))];
    assert_eq!(
        goto_map_target_at(&inserts(), "{missing}", &none, &ctx(), &clock()),
        Err(ExecError::NoNullArm)
    );
}

#[test]
fn goto_map_bad_arms() {
    let maps = vec![text("not an arm")];
    assert_eq!(goto_map_target_at(&inserts(), "x", &maps, &ctx(), &clock()), Err(ExecError::BadArm));
    let empty = vec![Value::Object(Object::new())];
    assert_eq!(goto_map_target_at(&inserts(), "x", &empty, &ctx(), &clock()), Err(ExecError::BadArm));
    let unknown = vec![arm("{nokey}", text("a"))];
    assert_eq!(
        goto_map_target_at(&inserts(), "x", &unknown, &ctx(), &clock()),
        Err(ExecError::Interpolation(InterpError::UnknownKey))
    );
}

#[test]
fn replace_map_wildcard_captures() {
    let maps = vec![arm("hello *", text("hi {1}"))];
    assert_eq!(
        replace_map_at(&text("hello world"), &maps, &inserts(), &ctx(), &clock(), false),
        Ok(text("hi world"))
    );
    let repeat = vec![arm("aa*", text("a{1}"))];
    assert_eq!(
        replace_map_at(&text("aaab"), &repeat, &inserts(), &ctx(), &clock(), true),
        Ok(text("ab"))
    );
    assert_eq!(
        replace_map_at(&text("aaab"), &repeat, &inserts(), &ctx(), &clock(), false),
        Ok(text("aab"))
    );
}

#[test]
fn replace_map_rewrites_keys_and_values() {
    let maps = vec![arm("a", text("b")), arm("*x", text("{1}y"))];
    let mut o = Object::new();
    o.insert("a".to_string(), Value::Array(vec![text("a"), text("ax"), Value::Number(Number::Int(1))]));
    let mut expected = Object::new();
    expected.insert(
        "b".to_string(),
        Value::Array(vec![text("b"), text("ay"), Value::Number(Number::Int(1))]),
    );
    assert_eq!(
        replace_map_at(&Value::Object(o), &maps, &inserts(), &ctx(), &clock(), false),
        Ok(Value::Object(expected))
    );
}

#[test]
fn replace_map_null_arm_stands_in() {
    let maps = vec![arm("a", text("b")), arm("NULL", text("nothing"))];
    assert_eq!(
        replace_map_at(&text("{missing}"), &maps, &inserts(), &ctx(), &clock(), false),
        Ok(text("nothing"))
    );
    let list = Value::Array(vec![text("a"), text("{missing}")]);
    assert_eq!(
        replace_map_at(&list, &maps, &inserts(), &ctx(), &clock(), false),
        Ok(Value::Array(vec![text("b"), text("nothing")]))
    );
    let none = vec![arm("a", text("b"))];
    assert_eq!(
        replace_map_at(&text("{missing}"), &none, &inserts(), &ctx(), &clock(), false),
        Err(ExecError::NoNullArm)
    );
}

#[test]
fn replace_map_that_never_settles_gives_up() {
    let maps = vec![arm("*", text("{1}x"))];
    assert_eq!(
        replace_map_at(&text("a"), &maps, &inserts(), &ctx(), &clock(), true),
        Err(ExecError::NoNullArm)
    );
}
