use interpolation_engine::action::{Action, IndexArg, TaskOutcome};
use interpolation_engine::cursor::{
    advance_cursor, bind_iteration, child_label, clear_order_indices, counter_label, current_task,
    cursor_label, find_label_index, task_label,
};
use interpolation_engine::engine::{
    execute_task, execute_task_at, finish_list_index, finish_list_slice, finish_math,
    finish_random_choice, finish_random_choice_with, finish_user_choice, finish_user_input,
};
use interpolation_engine::error::ExecError;
use interpolation_engine::interp::InterpError;
use interpolation_engine::model::{Clock, ProgramLoadContext, Task};
use interpolation_engine::state::State;
use interpolation_engine::value::{Number, Object, Value};

fn text(s: &str) -> Value {
    Value::String(s.to_string())
}

fn num(i: i64) -> Value {
    Value::Number(Number::Int(i))
}

fn list(items: Vec<Value>) -> Value {
    Value::Array(items)
}

fn object(members: Vec<(&str, Value)>) -> Object {
    let mut o = Object::new();
    for (k, v) in members {
        o.insert(k.to_string(), v);
    }
    o
}

fn task(members: Vec<(&str, Value)>) -> Task {
    object(members)
}

fn ctx() -> ProgramLoadContext {
    ProgramLoadContext::new("prog.json5".to_string(), Some(".".to_string()), None).unwrap()
}

fn clock() -> Clock {
    Clock { hour_minute: "10:30".to_string(), hour_minute_second: "10:30:15".to_string() }
}

fn state(inserts: Vec<(&str, Value)>) -> State {
    State::from_default(&object(vec![("inserts", Value::Object(object(inserts)))]))
}

fn run(st: &mut State, t: Task) -> Result<Action, ExecError> {
    execute_task_at(st, &t, &Object::new(), &Vec::new(), &ctx(), &clock())
}

fn insert(st: &State, key: &str) -> Option<Value> {
    st.inserts().get(key).cloned()
}

fn is_done(a: &Result<Action, ExecError>) -> bool {
    matches!(a, Ok(Action::Done(TaskOutcome::Next)))
}

#[test]
fn set_stores_the_interpolated_item() {
    let mut st = state(vec![("who", text("world"))]);
    let r = run(&mut st, task(vec![("cmd", text("set")), ("item", text("hello {who}")), ("output_name", text("greeting"))]));
    assert!(is_done(&r));
    assert_eq!(insert(&st, "greeting"), Some(text("hello world")));
    let r = run(&mut st, task(vec![("cmd", text("set")), ("output_name", text("nothing"))]));
    assert!(is_done(&r));
    assert_eq!(insert(&st, "nothing"), Some(Value::Null));
    let r = run(&mut st, task(vec![("cmd", text("set")), ("item", num(1))]));
    assert!(matches!(r, Err(ExecError::FieldNotString)));
}

#[test]
fn a_task_needs_a_known_command() {
    let mut st = state(vec![]);
    assert!(matches!(run(&mut st, task(vec![("item", num(1))])), Err(ExecError::MissingCmd)));
    assert!(matches!(run(&mut st, task(vec![("cmd", num(1))])), Err(ExecError::MissingCmd)));
    assert!(matches!(run(&mut st, task(vec![("cmd", text("dance"))])), Err(ExecError::UnknownCommand)));
    assert!(is_done(&run(&mut st, task(vec![("cmd", text("label")), ("name", text("here"))]))));
}

#[test]
fn print_appends_to_the_output() {
    let mut st = state(vec![("n", num(3))]);
    let r = run(&mut st, task(vec![("cmd", text("print")), ("text", text("n is {n} \\{literally\\}"))]));
    match r {
        Ok(Action::Print(t)) => assert_eq!(t, "n is 3 {literally}"),
        other => panic!("unexpected {:?}", other),
    }
    let _ = run(&mut st, task(vec![("cmd", text("print")), ("text", text("!"))]));
    assert_eq!(st.get_output(), "n is 3 {literally}!");
    let r = run(&mut st, task(vec![("cmd", text("clear"))]));
    assert!(matches!(r, Ok(Action::Clear)));
    assert_eq!(st.get_output(), "");
}

#[test]
fn list_commands() {
    let mut st = state(vec![("xs", list(vec![num(10), num(20), num(30), num(40), num(50)]))]);
    assert!(is_done(&run(&mut st, task(vec![("cmd", text("list_index")), ("list", text("{xs}")), ("index", num(-1)), ("output_name", text("last"))]))));
    assert_eq!(insert(&st, "last"), Some(num(50)));
    assert!(matches!(
        run(&mut st, task(vec![("cmd", text("list_index")), ("list", text("{xs}")), ("index", num(0)), ("output_name", text("x"))])),
        Err(ExecError::IndexZero)
    ));
    assert!(matches!(
        run(&mut st, task(vec![("cmd", text("list_index")), ("list", text("{xs}")), ("index", Value::Bool(true)), ("output_name", text("x"))])),
        Err(ExecError::IndexNotInt)
    ));
    assert!(is_done(&run(&mut st, task(vec![("cmd", text("list_slice")), ("list", text("{xs}")), ("from_index", num(2)), ("to_index", num(0)), ("output_name", text("none"))]))));
    assert_eq!(insert(&st, "none"), Some(list(vec![])));
    assert!(is_done(&run(&mut st, task(vec![("cmd", text("list_slice")), ("list", text("{xs}")), ("from_index", num(-2)), ("to_index", num(-1)), ("output_name", text("tail"))]))));
    assert_eq!(insert(&st, "tail"), Some(list(vec![num(40), num(50)])));
    assert!(matches!(
        run(&mut st, task(vec![("cmd", text("list_slice")), ("list", text("{xs}")), ("from_index", num(0)), ("to_index", num(3)), ("output_name", text("x"))])),
        Err(ExecError::SliceLowerZero)
    ));
    assert!(is_done(&run(&mut st, task(vec![("cmd", text("list_join")), ("list", text("{tail}")), ("before", text("[")), ("between", text("|")), ("after", text("]")), ("output_name", text("joined"))]))));
    assert_eq!(insert(&st, "joined"), Some(text("[40|50]")));
    assert!(is_done(&run(&mut st, task(vec![("cmd", text("list_append")), ("list", text("{tail}")), ("item", num(60)), ("output_name", text("tail"))]))));
    assert!(is_done(&run(&mut st, task(vec![("cmd", text("list_remove")), ("list", text("{tail}")), ("item", num(40)), ("output_name", text("tail"))]))));
    assert_eq!(insert(&st, "tail"), Some(list(vec![num(50), num(60)])));
    assert!(is_done(&run(&mut st, task(vec![("cmd", text("list_concat")), ("lists", list(vec![text("{tail}"), list(vec![num(1)])])), ("output_name", text("all"))]))));
    assert_eq!(insert(&st, "all"), Some(list(vec![num(50), num(60), num(1)])));
    assert!(matches!(
        run(&mut st, task(vec![("cmd", text("list_append")), ("list", num(1)), ("item", num(60)), ("output_name", text("x"))])),
        Err(ExecError::FieldNotArray)
    ));
}

#[test]
fn positions_that_are_expressions_are_left_to_the_caller() {
    let mut st = state(vec![("xs", list(vec![num(7), num(8)]))]);
    let r = run(&mut st, task(vec![("cmd", text("list_index")), ("list", text("{xs}")), ("index", text("1 + 1")), ("output_name", text("x"))]));
    match r {
        Ok(Action::ListIndex { list, index, store_as }) => {
            assert_eq!(index, "1 + 1");
            assert_eq!(finish_list_index(&mut st, &list, 2, &store_as), Ok(()));
        }
        other => panic!("unexpected {:?}", other),
    }
    assert_eq!(insert(&st, "x"), Some(num(8)));
    let r = run(&mut st, task(vec![("cmd", text("list_slice")), ("list", text("{xs}")), ("from_index", text("1")), ("to_index", num(2)), ("output_name", text("y"))]));
    match r {
        Ok(Action::ListSlice { list, from_index, to_index, store_as }) => {
            assert!(matches!(from_index, IndexArg::Expr(_)));
            assert!(matches!(to_index, IndexArg::Int(2)));
            assert_eq!(finish_list_slice(&mut st, &list, Some(1), Some(2), &store_as), Ok(()));
            assert_eq!(finish_list_slice(&mut st, &list, Some(1), None, &store_as), Err(ExecError::IndexNotInt));
        }
        other => panic!("unexpected {:?}", other),
    }
    assert_eq!(insert(&st, "y"), Some(list(vec![num(7), num(8)])));
}

#[test]
fn goto_and_continue() {
    let mut st = state(vec![]);
    let r = run(&mut st, task(vec![("cmd", text("goto")), ("name", text("end"))]));
    assert!(matches!(r, Ok(Action::Done(TaskOutcome::Goto(ref t))) if t == "end"));
    let r = run(&mut st, task(vec![("cmd", text("goto")), ("name", text("CONTINUE"))]));
    assert!(is_done(&r));
    let arm = |k: &str, v: &str| Value::Object(object(vec![(k, text(v))]));
    let r = run(&mut st, task(vec![("cmd", text("goto_map")), ("text", text("yes")), ("target_maps", list(vec![arm("y*", "CONTINUE")]))]));
    assert!(is_done(&r));
}

#[test]
fn goto_map_null_leads_behind_the_fallback_label() {
    let mut st = state(vec![]);
    let arm = Value::Object(object(vec![("NULL", text("fallback"))]));
    let tasks = vec![
        task(vec![("cmd", text("goto_map")), ("text", text("{missing}")), ("target_maps", list(vec![arm]))]),
        task(vec![("cmd", text("print")), ("text", text("skipped"))]),
        task(vec![("cmd", text("label")), ("name", text("fallback"))]),
        task(vec![("cmd", text("print")), ("text", text("reached"))]),
    ];
    let outcome = match run(&mut st, tasks[0].clone()) {
        Ok(Action::Done(o)) => o,
        other => panic!("unexpected {:?}", other),
    };
    let next = advance_cursor(&tasks, 1, &outcome).unwrap();
    assert_eq!(next, 4);
    let t = current_task(&tasks, next).unwrap().unwrap();
    assert_eq!(t.get("text"), Some(&text("reached")));
}

#[test]
fn a_goto_finds_labels_in_its_own_list_only() {
    let inner = vec![
        task(vec![("cmd", text("goto")), ("name", text("outer_label"))]),
        task(vec![("cmd", text("label")), ("name", text("inner_label"))]),
    ];
    let outer = vec![
        task(vec![("cmd", text("serial")), ("tasks", list(inner.iter().cloned().map(Value::Object).collect()))]),
        task(vec![("cmd", text("label")), ("name", text("outer_label"))]),
    ];
    let jump = TaskOutcome::Goto("outer_label".to_string());
    assert_eq!(advance_cursor(&inner, 1, &jump), Err(ExecError::LabelNotFound));
    assert_eq!(advance_cursor(&outer, 1, &jump), Ok(3));
    assert_eq!(advance_cursor(&inner, 1, &TaskOutcome::Goto("inner_label".to_string())), Ok(3));
    assert_eq!(advance_cursor(&inner, 1, &TaskOutcome::Next), Ok(2));
    assert_eq!(find_label_index(&outer, "outer_label"), Ok(1));
    assert!(matches!(current_task(&inner, 3), Ok(None)));
    assert!(matches!(current_task(&inner, 0), Err(ExecError::BadCursor)));
    assert_eq!(advance_cursor(&inner, i64::MAX, &TaskOutcome::Next), Ok(i64::MAX));
}

#[test]
fn a_for_with_lists_of_different_lengths_fails() {
    let mut st = state(vec![("xs", list(vec![num(1), num(2)])), ("ys", list(vec![num(1)]))]);
    let map = Value::Object(object(vec![("x", text("{xs}")), ("y", text("{ys}"))]));
    let r = run(&mut st, task(vec![("cmd", text("for")), ("name_list_map", map), ("tasks", list(vec![]))]));
    assert!(matches!(r, Err(ExecError::ListsDiffer)));
    let map = Value::Object(object(vec![("x", text("{xs}")), ("y", num(3))]));
    let r = run(&mut st, task(vec![("cmd", text("for")), ("name_list_map", map), ("tasks", list(vec![]))]));
    assert!(matches!(r, Err(ExecError::ForNotList)));
}

#[test]
fn a_for_binds_the_items_of_each_round() {
    let mut st = state(vec![("xs", list(vec![num(1), num(2)])), ("ys", list(vec![text("a"), text("b")]))]);
    let map = Value::Object(object(vec![("x", text("{xs}")), ("y", text("{ys}"))]));
    let body = list(vec![Value::Object(task(vec![("cmd", text("clear"))]))]);
    let r = run(&mut st, task(vec![("cmd", text("for")), ("name_list_map", map), ("tasks", body)]));
    match r {
        Ok(Action::For { names, lists, tasks, len }) => {
            assert_eq!(names, vec!["x".to_string(), "y".to_string()]);
            assert_eq!(len, 2);
            assert_eq!(tasks.len(), 1);
            assert_eq!(bind_iteration(&mut st, &names, &lists, 2), Ok(()));
            assert_eq!(insert(&st, "x"), Some(num(2)));
            assert_eq!(insert(&st, "y"), Some(text("b")));
            assert_eq!(bind_iteration(&mut st, &names, &lists, 3), Err(ExecError::BadCursor));
            assert_eq!(bind_iteration(&mut st, &names, &lists, 0), Err(ExecError::BadCursor));
        }
        other => panic!("unexpected {:?}", other),
    }
}

#[test]
fn requests_carry_what_the_caller_needs() {
    let mut st = state(vec![("who", text("you"))]);
    let r = run(&mut st, task(vec![("cmd", text("user_input")), ("prompt", text("name, {who}?")), ("output_name", text("name"))]));
    assert!(matches!(r, Ok(Action::UserInput { ref prompt, ref output_name }) if prompt == "name, you?" && output_name == "name"));
    finish_user_input(&mut st, "name", "a {b}");
    assert_eq!(insert(&st, "name"), Some(text("a \\{b\\}")));
    let r = run(&mut st, task(vec![("cmd", text("user_choice")), ("list", list(vec![num(1), text("two")])), ("description", text("pick")), ("output_name", text("pick"))]));
    match r {
        Ok(Action::UserChoice { list, options, description, output_name }) => {
            assert_eq!(options, vec!["1".to_string(), "two".to_string()]);
            assert_eq!(description, "pick");
            assert_eq!(finish_user_choice(&mut st, &list, 1, &output_name), Ok(()));
            assert_eq!(finish_user_choice(&mut st, &list, 2, &output_name), Err(ExecError::ChoiceOutOfBounds));
            assert_eq!(finish_user_choice(&mut st, &Vec::new(), 5, "empty"), Ok(()));
        }
        other => panic!("unexpected {:?}", other),
    }
    assert_eq!(insert(&st, "pick"), Some(text("two")));
    assert_eq!(insert(&st, "empty"), Some(Value::Null));
    let r = run(&mut st, task(vec![("cmd", text("sleep")), ("seconds", num(2))]));
    assert!(matches!(r, Ok(Action::Sleep(Value::Number(Number::Int(2))))));
    let r = run(&mut st, task(vec![("cmd", text("await_insert")), ("name", text("x"))]));
    assert!(matches!(r, Ok(Action::AwaitInsert { ref name }) if name == "x"));
    let r = run(&mut st, task(vec![("cmd", text("math")), ("input", text("1+1")), ("output_name", text("m"))]));
    assert!(matches!(r, Ok(Action::Math { ref input, .. }) if input == "1+1"));
    finish_math(&mut st, "m", 2);
    assert_eq!(insert(&st, "m"), Some(num(2)));
    let r = run(&mut st, task(vec![("cmd", text("show_inserts"))]));
    assert!(matches!(r, Ok(Action::ShowInserts)));
    let r = run(&mut st, task(vec![("cmd", text("speak")), ("text", text("hi")), ("voice_path", text("v.onnx")), ("voice_speaker", num(3))]));
    assert!(matches!(r, Ok(Action::Speak { voice_speaker: Some(3), .. })));
}

#[test]
fn write_gives_the_content_to_write() {
    let mut st = state(vec![]);
    let r = run(&mut st, task(vec![("cmd", text("write")), ("item", text("a \\{b\\}")), ("path", text("out.txt"))]));
    assert!(matches!(r, Ok(Action::Write { ref path, ref content }) if path == "out.txt" && content == "a {b}"));
    let r = run(&mut st, task(vec![("cmd", text("write")), ("item", list(vec![num(1), text("x")])), ("path", text("out.json"))]));
    assert!(matches!(r, Ok(Action::Write { ref content, .. }) if content == "[1,\"x\"]"));
    let r = run(&mut st, task(vec![("cmd", text("write")), ("item", Value::Bool(true)), ("path", text("b"))]));
    assert!(matches!(r, Ok(Action::Write { ref content, .. }) if content == "true"));
}

#[test]
fn run_task_finds_the_named_task() {
    let mut st = state(vec![]);
    let named = vec![("greet".to_string(), task(vec![("cmd", text("clear"))]))];
    let t = task(vec![("cmd", text("run_task")), ("task_name", text("greet"))]);
    let r = execute_task_at(&mut st, &t, &Object::new(), &named, &ctx(), &clock());
    assert!(matches!(r, Ok(Action::RunTask { ref name, .. }) if name == "greet"));
    let t = task(vec![("cmd", text("run_task")), ("task_name", text("nobody"))]);
    let r = execute_task_at(&mut st, &t, &Object::new(), &named, &ctx(), &clock());
    assert!(matches!(r, Err(ExecError::UnknownTask)));
}

#[test]
fn containers_give_their_tasks() {
    let mut st = state(vec![("subs", list(vec![Value::Object(task(vec![("cmd", text("clear"))]))]))]);
    for cmd in ["serial", "parallel_wait", "parallel_race"] {
        let r = run(&mut st, task(vec![("cmd", text(cmd)), ("tasks", text("{subs}"))]));
        let n = match r {
            Ok(Action::Serial { tasks }) => tasks.len(),
            Ok(Action::ParallelWait { tasks }) => tasks.len(),
            Ok(Action::ParallelRace { tasks }) => tasks.len(),
            other => panic!("unexpected {:?}", other),
        };
        assert_eq!(n, 1);
    }
    let r = run(&mut st, task(vec![("cmd", text("serial")), ("tasks", list(vec![num(1)]))]));
    assert!(matches!(r, Err(ExecError::TasksNotObjects)));
    let r = run(&mut st, task(vec![("cmd", text("serial")), ("tasks", text("{nowhere}"))]));
    assert!(matches!(r, Err(ExecError::Interpolation(InterpError::UnknownKey))));
}

#[test]
fn delete_and_delete_except() {
    let mut st = state(vec![("tmp_a", num(1)), ("keep", num(2)), ("tmp_b", num(3))]);
    assert!(is_done(&run(&mut st, task(vec![("cmd", text("delete")), ("wildcards", list(vec![text("tmp_*")]))]))));
    assert_eq!(st.inserts().len(), 1);
    assert_eq!(insert(&st, "keep"), Some(num(2)));
    let mut st = state(vec![("tmp_a", num(1)), ("keep", num(2)), ("tmp_b", num(3))]);
    assert!(is_done(&run(&mut st, task(vec![("cmd", text("delete_except")), ("wildcards", list(vec![text("tmp_*")]))]))));
    assert_eq!(st.inserts().len(), 2);
    assert_eq!(insert(&st, "keep"), None);
}

#[test]
fn unescape_and_replace_map_commands() {
    let mut st = state(vec![("a", text("A")), ("raw", text("\\{a\\}"))]);
    assert!(is_done(&run(&mut st, task(vec![("cmd", text("unescape")), ("item", text("{raw}")), ("output_name", text("out"))]))));
    assert_eq!(insert(&st, "out"), Some(text("A")));
    let arm = Value::Object(object(vec![("hello *", text("hi {1}"))]));
    assert!(is_done(&run(&mut st, task(vec![("cmd", text("replace_map")), ("item", text("hello world")), ("wildcard_maps", list(vec![arm])), ("output_name", text("r"))]))));
    assert_eq!(insert(&st, "r"), Some(text("hi world")));
}

#[test]
fn random_choice_picks_an_item_of_the_list() {
    let mut st = state(vec![]);
    let r = run(&mut st, task(vec![("cmd", text("random_choice")), ("list", list(vec![num(1), num(2), num(3)])), ("output_name", text("pick"))]));
    match r {
        Ok(Action::RandomChoice { list, output_name }) => {
            assert_eq!(finish_random_choice_with(&mut st, &list, &output_name, 7), Ok(1));
            assert_eq!(insert(&st, "pick"), Some(num(2)));
            let p = finish_random_choice(&mut st, &list, &output_name).unwrap();
            assert!(p < 3);
            assert_eq!(insert(&st, "pick"), Some(list[p].clone()));
        }
        other => panic!("unexpected {:?}", other),
    }
    let r = run(&mut st, task(vec![("cmd", text("random_choice")), ("list", list(vec![])), ("output_name", text("pick"))]));
    assert!(matches!(r, Err(ExecError::EmptyChoice)));
    assert_eq!(finish_random_choice_with(&mut st, &Vec::new(), "x", 1), Err(ExecError::EmptyChoice));
}

#[test]
fn a_failure_leaves_the_state_as_it_was() {
    let mut st = state(vec![("a", num(1))]);
    let before = st.data.clone();
    let r = run(&mut st, task(vec![("cmd", text("list_index")), ("list", list(vec![])), ("index", num(1)), ("output_name", text("a"))]));
    assert!(r.is_err());
    assert_eq!(Value::Object(st.data.clone()), Value::Object(before));
}

#[test]
fn the_clock_is_read_for_every_task() {
    let mut st = state(vec![]);
    let t = task(vec![("cmd", text("set")), ("item", text("{HH:MM:SS}")), ("output_name", text("now"))]);
    let r = execute_task(&mut st, &t, &Object::new(), &Vec::new(), &ctx());
    assert!(is_done(&r));
    match insert(&st, "now") {
        Some(Value::String(s)) => assert_eq!(s.len(), 8),
        other => panic!("unexpected {:?}", other),
    }
}

#[test]
fn labels_and_cursor_keys() {
    let t = task(vec![("cmd", text("serial")), ("line", num(12))]);
    assert_eq!(task_label(&t, 3), "serial:12");
    assert_eq!(task_label(&task(vec![("cmd", text("for"))]), 3), "for:3");
    assert_eq!(task_label(&task(vec![]), 1), "task:1");
    assert_eq!(child_label("root", &t, 1), "root/serial:12");
    assert_eq!(cursor_label("root/serial:12"), "order_index/root/serial:12");
    assert_eq!(counter_label("root/for:18"), "order_index/root/for:18/counter");
    let mut st = state(vec![]);
    st.set_i64("order_index", 4);
    st.set_i64("order_index/root/serial:12", 2);
    st.set_i64("order_index/root/serial:12/for:3/counter", 5);
    st.set_i64("order_index/root/other", 7);
    clear_order_indices(&mut st, "order_index/root/serial:12");
    assert_eq!(st.get_i64("order_index"), 4);
    assert_eq!(st.get_i64("order_index/root/serial:12"), 1);
    assert_eq!(st.get_i64("order_index/root/serial:12/for:3/counter"), 1);
    assert_eq!(st.get_i64("order_index/root/other"), 7);
}

#[test]
fn a_for_needs_an_object_of_lists() {
    let mut st = state(vec![]);
    let r = run(
        &mut st,
        task(vec![
            ("cmd", text("for")),
            ("name_list_map", list(vec![num(1)])),
            ("tasks", list(vec![])),
        ]),
    );
    assert!(matches!(r, Err(ExecError::FieldNotObject)));
}
