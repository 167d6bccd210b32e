use interpolation_engine::menu::{
    collect_slots, inject_arguments, load_state, reload_state, save_state,
};
use interpolation_engine::model::Program;
use interpolation_engine::state::State;
use interpolation_engine::value::{Number, Object, Value};

fn text(s: &str) -> Value {
    Value::String(s.to_string())
}

fn num(i: i64) -> Value {
    Value::Number(Number::Int(i))
}

fn object(members: Vec<(&str, Value)>) -> Object {
    let mut o = Object::new();
    for (k, v) in members {
        o.insert(k.to_string(), v);
    }
    o
}

fn empty_program() -> Program {
    Program {
        default_state: object(vec![("inserts", Value::Object(Object::new()))]),
        order: Vec::new(),
        named_tasks: Vec::new(),
        save_states: Object::new(),
        completion_args: Object::new(),
    }
}

#[test]
fn arguments_become_inserts() {
    let mut st = State::from_default(&empty_program().default_state);
    inject_arguments(&mut st, &vec!["first".to_string(), "{second}".to_string()]);
    assert_eq!(st.inserts().get("ARG1"), Some(&text("first")));
    assert_eq!(st.inserts().get("ARG2"), Some(&text("\\{second\\}")));
    assert_eq!(st.get_output(), "");
    assert_eq!(st.get_i64("order_index"), 1);
}

#[test]
fn save_then_load_restores_the_run() {
    let mut program = empty_program();
    let mut st = State::from_default(&program.default_state);
    inject_arguments(&mut st, &vec!["one".to_string()]);
    st.set_insert("score", num(7));
    st.set_i64("order_index", 5);
    st.set_i64("order_index/root/serial:3", 2);
    st.set_output("so far".to_string());
    save_state(&mut program, &st, 2, "checkpoint");

    let slots = collect_slots(&program.save_states);
    assert_eq!(slots.len(), 9);
    assert!(slots[0].is_empty);
    assert_eq!(slots[0].label, "(Empty Slot)");
    assert!(!slots[2].is_empty);
    assert_eq!(slots[2].label, "checkpoint");

    let mut later = State::from_default(&program.default_state);
    inject_arguments(&mut later, &vec!["other".to_string()]);
    later.set_insert("score", num(99));
    later.set_i64("order_index", 9);
    assert!(load_state(&mut later, &slots[2]));
    assert_eq!(later.get_i64("order_index"), 5);
    assert_eq!(later.get_i64("order_index/root/serial:3"), 2);
    assert_eq!(later.inserts().get("score"), Some(&num(7)));
    assert_eq!(later.get_output(), "so far");
    assert_eq!(later.inserts().get("ARG1"), Some(&text("other")));

    let before = later.get_i64("order_index");
    assert!(!load_state(&mut later, &slots[0]));
    assert_eq!(later.get_i64("order_index"), before);
}

#[test]
fn a_slot_without_a_label() {
    let saves = object(vec![("1", Value::Object(object(vec![("inserts", Value::Object(Object::new()))]))), ("2", num(3))]);
    let slots = collect_slots(&saves);
    assert_eq!(slots[0].label, "(Unlabelled Slot)");
    assert!(!slots[0].is_empty);
    assert!(slots[1].is_empty);
}

#[test]
fn reload_begins_afresh_but_keeps_the_arguments() {
    let mut st = State::from_default(&empty_program().default_state);
    inject_arguments(&mut st, &vec!["kept".to_string()]);
    st.set_insert("old", num(1));
    st.set_i64("order_index", 4);
    let fresh = object(vec![("inserts", Value::Object(object(vec![("new", num(2))])))]);
    reload_state(&mut st, &fresh);
    assert_eq!(st.get_i64("order_index"), 1);
    assert_eq!(st.inserts().get("old"), None);
    assert_eq!(st.inserts().get("new"), Some(&num(2)));
    assert_eq!(st.inserts().get("ARG1"), Some(&text("kept")));
    assert_eq!(st.get_output(), "");
}
