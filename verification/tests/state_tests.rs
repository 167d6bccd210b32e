use interpolation_engine::fields::{as_array, as_string, as_task_array, item_or_null};
use interpolation_engine::error::ExecError;
use interpolation_engine::interp::{delete_interpdata, set_interpdata};
use interpolation_engine::state::State;
use interpolation_engine::text::{chars_of, replace_chars, same_text, string_of, trim_chars};
use interpolation_engine::value::{int_to_string, Number, Object, Value};

fn text(s: &str) -> Value {
    Value::String(s.to_string())
}

fn num(i: i64) -> Value {
    Value::Number(Number::Int(i))
}

#[test]
fn a_state_without_inserts_has_none() {
    let mut st = State::from_default(&Object::new());
    assert!(!st.is_well_formed());
    assert_eq!(st.inserts().len(), 0);
    assert!(!st.has_insert("a"));
    st.set_insert("a", num(1));
    assert!(st.is_well_formed());
    assert!(st.has_insert("a"));
    st.remove_insert("a");
    assert!(!st.has_insert("a"));
    assert_eq!(st.get_i64("order_index"), 1);
    st.set_i64("order_index", 3);
    assert_eq!(st.get_i64("order_index"), 3);
    st.remove("order_index");
    assert_eq!(st.get_i64("order_index"), 1);
    st.append_output("a");
    st.append_output("b");
    assert_eq!(st.get_output(), "ab");
}

#[test]
fn the_fields_of_a_task() {
    let mut t = Object::new();
    t.insert("s".to_string(), text("x"));
    t.insert("a".to_string(), Value::Array(vec![num(1)]));
    t.insert("tasks".to_string(), Value::Array(vec![Value::Object(Object::new())]));
    assert_eq!(as_string(&t, "s"), Ok("x".to_string()));
    assert_eq!(as_string(&t, "a"), Err(ExecError::FieldNotString));
    assert_eq!(as_string(&t, "gone"), Err(ExecError::FieldNotString));
    assert_eq!(as_array(&t, "a"), Ok(vec![num(1)]));
    assert_eq!(as_array(&t, "s"), Err(ExecError::FieldNotArray));
    assert_eq!(as_task_array(&t, "tasks").map(|v| v.len()), Ok(1));
    assert_eq!(as_task_array(&t, "a").map(|v| v.len()), Err(ExecError::TasksNotObjects));
    assert_eq!(as_task_array(&t, "s").map(|v| v.len()), Err(ExecError::FieldNotArray));
    assert_eq!(item_or_null(&t, "gone"), Value::Null);
    assert_eq!(item_or_null(&t, "s"), text("x"));
}

#[test]
fn inserts_are_set_and_deleted() {
    let mut inserts = Object::new();
    set_interpdata(&mut inserts, "a", num(1));
    set_interpdata(&mut inserts, "b", num(2));
    set_interpdata(&mut inserts, "a", num(3));
    assert_eq!(inserts.get("a"), Some(&num(3)));
    assert_eq!(inserts.len(), 2);
    delete_interpdata(&mut inserts, "a");
    delete_interpdata(&mut inserts, "gone");
    assert_eq!(inserts.len(), 1);
    assert_eq!(inserts.take("b"), Some(num(2)));
    assert_eq!(inserts.get("b"), Some(&Value::Null));
    assert_eq!(inserts.take("gone"), None);
}

#[test]
fn texts() {
    let replace = |s: &str, from: &str, to: &str| string_of(&replace_chars(&chars_of(s), &chars_of(from), &chars_of(to)));
    for (s, from, to) in [("aaa", "aa", "b"), ("a{b}{c}", "{", "\\{"), ("abc", "x", "y"), ("", "a", "b"), ("abab", "ab", ""), ("héllo", "l", "ll")] {
        assert_eq!(replace(s, from, to), s.replace(from, to));
    }
    assert_eq!(replace("abc", "", "x"), "abc");
    for s in ["  a b \n", "\u{a0}x\u{2003}", "", "   ", "x"] {
        assert_eq!(string_of(&trim_chars(&chars_of(s))), s.trim());
    }
    assert!(same_text("a", "a"));
    assert!(!same_text("a", "b"));
    for i in [0i64, 7, -7, 10, 1234567890, i64::MAX, i64::MIN] {
        assert_eq!(int_to_string(i), i.to_string());
    }
}
