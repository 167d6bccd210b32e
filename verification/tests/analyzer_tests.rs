use interpolation_engine::analyzer::{analyze_program, literal_voice_path, PathProbe};
use interpolation_engine::checks::{is_literal_no_braces, scan_braces, Diagnostic};
use interpolation_engine::model::{Program, ProgramLoadContext, Task};
use interpolation_engine::value::{Number, Object, Value};

fn text(s: &str) -> Value {
    Value::String(s.to_string())
}

fn num(i: i64) -> Value {
    Value::Number(Number::Int(i))
}

fn list(items: Vec<Value>) -> Value {
    Value::Array(items)
}

fn object(members: Vec<(&str, Value)>) -> Object {
    let mut o = Object::new();
    for (k, v) in members {
        o.insert(k.to_string(), v);
    }
    o
}

fn task(members: Vec<(&str, Value)>) -> Task {
    object(members)
}

fn ctx() -> ProgramLoadContext {
    ProgramLoadContext::new("prog.json5".to_string(), Some(".".to_string()), None).unwrap()
}

fn program(order: Vec<Task>) -> Program {
    Program {
        default_state: object(vec![(
            "inserts",
            Value::Object(object(vec![
                ("name", text("x")),
                ("count", num(3)),
                ("xs", list(vec![num(1), num(2)])),
                ("empty", list(vec![])),
                ("later_on", num(0)),
            ])),
        )]),
        order,
        named_tasks: vec![("helper".to_string(), task(vec![("cmd", text("clear"))]))],
        save_states: Object::new(),
        completion_args: Object::new(),
    }
}

fn messages(order: Vec<Task>) -> Vec<String> {
    match analyze_program(&program(order), &ctx(), &Vec::new()) {
        Ok(()) => Vec::new(),
        Err(diags) => diags.into_iter().map(|d: Diagnostic| d.message).collect(),
    }
}

#[test]
fn a_sound_program_passes() {
    let order = vec![
        task(vec![("cmd", text("label")), ("name", text("start"))]),
        task(vec![("cmd", text("print")), ("text", text("hello {name}"))]),
        task(vec![("cmd", text("set")), ("item", num(1)), ("output_name", text("{name}"))]),
        task(vec![("cmd", text("list_index")), ("list", text("{xs}")), ("index", num(-2)), ("output_name", text("first"))]),
        task(vec![("cmd", text("run_task")), ("task_name", text("helper"))]),
        task(vec![("cmd", text("goto")), ("name", text("CONTINUE"))]),
        task(vec![("cmd", text("goto")), ("name", text("start"))]),
        task(vec![("cmd", text("clear"))]),
    ];
    assert!(analyze_program(&program(order), &ctx(), &Vec::new()).is_ok());
}

#[test]
fn missing_fields_and_wrong_types() {
    assert_eq!(messages(vec![task(vec![("text", text("x"))])]), vec!["Task missing 'cmd' string"]);
    assert_eq!(messages(vec![task(vec![("cmd", text("dance"))])]), vec!["Unknown cmd 'dance'"]);
    assert_eq!(messages(vec![task(vec![("cmd", text("print"))])]), vec!["Missing required field 'text'"]);
    assert_eq!(
        messages(vec![task(vec![("cmd", text("print")), ("text", num(1))])]),
        vec!["Field 'text' must be a string"]
    );
    assert_eq!(
        messages(vec![task(vec![("cmd", text("print")), ("text", text("{count}"))])]),
        vec!["Field 'text' must be a string"]
    );
    assert_eq!(
        messages(vec![task(vec![("cmd", text("sleep")), ("seconds", list(vec![]))])]),
        vec!["Field 'seconds' must be a number or string"]
    );
    assert_eq!(
        messages(vec![task(vec![("cmd", text("list_append")), ("list", text("{name}")), ("item", num(1)), ("output_name", text("o"))])]),
        vec!["Field 'list' must be an array"]
    );
    assert_eq!(
        messages(vec![task(vec![("cmd", text("list_append")), ("list", text("plain")), ("item", num(1)), ("output_name", text("o"))])]),
        vec!["Field 'list' must be an array"]
    );
    assert_eq!(
        messages(vec![task(vec![("cmd", text("list_index")), ("list", text("{later_*}")), ("index", Value::Bool(true)), ("output_name", text("o"))])]),
        vec!["Field 'index' must be an int or string"]
    );
    assert_eq!(
        messages(vec![task(vec![("cmd", text("serial")), ("tasks", list(vec![num(1)]))])]),
        vec!["Field 'tasks' must be an array of objects"]
    );
    assert_eq!(
        messages(vec![task(vec![("cmd", text("for")), ("name_list_map", num(1)), ("tasks", list(vec![]))])]),
        vec!["Field 'name_list_map' must be an object"]
    );
}

#[test]
fn positions_are_checked_where_the_list_is_known() {
    let index = |i: i64| task(vec![("cmd", text("list_index")), ("list", text("{xs}")), ("index", num(i)), ("output_name", text("o"))]);
    assert_eq!(messages(vec![index(0)]), vec!["list_index index 0 is invalid (1-based)"]);
    assert_eq!(messages(vec![index(3)]), vec!["list_index index out of bounds"]);
    assert_eq!(messages(vec![index(-3)]), vec!["list_index index out of bounds"]);
    assert!(messages(vec![index(2)]).is_empty());
    let slice = |f: i64, t: i64| task(vec![("cmd", text("list_slice")), ("list", text("{xs}")), ("from_index", num(f)), ("to_index", num(t)), ("output_name", text("o"))]);
    assert_eq!(messages(vec![slice(0, 0)]), vec!["list_slice from_index 0 is invalid (1-based)"]);
    assert_eq!(
        messages(vec![slice(5, 9)]),
        vec!["list_slice from_index out of bounds", "list_slice to_index out of bounds"]
    );
    assert!(messages(vec![slice(1, 0)]).is_empty());
    assert_eq!(
        messages(vec![task(vec![("cmd", text("random_choice")), ("list", text("{empty}")), ("output_name", text("o"))])]),
        vec!["random_choice list is empty"]
    );
    assert_eq!(
        messages(vec![task(vec![("cmd", text("list_concat")), ("lists", list(vec![list(vec![]), num(1)])), ("output_name", text("o"))])]),
        vec!["list_concat.lists must contain only arrays or simple interpolations"]
    );
}

#[test]
fn labels_and_targets() {
    let order = vec![
        task(vec![("cmd", text("label")), ("name", text("a"))]),
        task(vec![("cmd", text("label")), ("name", text("a"))]),
        task(vec![("cmd", text("label")), ("name", num(1))]),
        task(vec![("cmd", text("goto")), ("name", text("nowhere"))]),
        task(vec![("cmd", text("goto")), ("name", text("{name}"))]),
        task(vec![("cmd", text("run_task")), ("task_name", text("nobody"))]),
    ];
    assert_eq!(
        messages(order),
        vec![
            "Label 'a' is not unique in its list of tasks",
            "label.name must be a string",
            "Field 'name' must be a string",
            "goto target 'nowhere' not found in order",
            "run_task references unknown task 'nobody'",
        ]
    );
}

#[test]
fn labels_are_looked_up_in_the_list_of_the_task() {
    let inner = list(vec![
        Value::Object(task(vec![("cmd", text("goto")), ("name", text("outer"))])),
        Value::Object(task(vec![("cmd", text("label")), ("name", text("inner"))])),
        Value::Object(task(vec![("cmd", text("goto")), ("name", text("inner"))])),
    ]);
    let order = vec![
        task(vec![("cmd", text("label")), ("name", text("outer"))]),
        task(vec![("cmd", text("serial")), ("tasks", inner)]),
        task(vec![("cmd", text("goto")), ("name", text("inner"))]),
    ];
    assert_eq!(
        messages(order),
        vec!["goto target 'outer' not found in order", "goto target 'inner' not found in order"]
    );
}

#[test]
fn goto_map_arms() {
    let arm = |k: &str, v: Value| Value::Object(object(vec![(k, v)]));
    let gm = |t: &str, maps: Vec<Value>| task(vec![("cmd", text("goto_map")), ("text", text(t)), ("target_maps", list(maps))]);
    assert_eq!(messages(vec![gm("x", vec![])]), vec!["goto_map.target_maps must not be empty"]);
    assert_eq!(messages(vec![gm("{name}", vec![num(1)])]), vec!["target_maps entries must be objects"]);
    assert_eq!(
        messages(vec![gm("{name}", vec![Value::Object(object(vec![("a", text("CONTINUE")), ("b", text("CONTINUE"))]))])]),
        vec!["target_maps entries must have 1 key"]
    );
    assert_eq!(messages(vec![gm("{name}", vec![arm("a", num(1))])]), vec!["target_maps values must be strings"]);
    assert_eq!(
        messages(vec![gm("{name}", vec![arm("", text("CONTINUE"))])]),
        vec!["target_maps keys must be non-empty strings"]
    );
    assert_eq!(
        messages(vec![gm("yes", vec![arm("n*", text("CONTINUE"))])]),
        vec!["goto_map has no matches for literal text 'yes'"]
    );
    assert_eq!(
        messages(vec![gm("yes", vec![arm("y*", text("gone"))])]),
        vec!["goto_map target 'gone' not found in order"]
    );
    assert!(messages(vec![gm("yes", vec![arm("y*", text("CONTINUE"))])]).is_empty());
    assert!(messages(vec![gm("yes", vec![arm("n*", text("CONTINUE")), arm("NULL", text("CONTINUE"))])]).is_empty());
    assert_eq!(
        messages(vec![gm("{name", vec![arm("a{}", text("CONTINUE"))])]),
        vec![
            "Field 'text' has malformed interpolation (uneven braces)",
            "Field 'target_maps key' contains an empty interpolation key"
        ]
    );
}

#[test]
fn replace_map_arms_and_for_lists() {
    let arm = |k: &str, v: Value| Value::Object(object(vec![(k, v)]));
    let rm = |maps: Vec<Value>| task(vec![("cmd", text("replace_map")), ("item", text("x")), ("output_name", text("o")), ("wildcard_maps", list(maps))]);
    assert!(messages(vec![rm(vec![arm("a*", text("{1}"))])]).is_empty());
    assert_eq!(messages(vec![rm(vec![arm("a", num(1))])]), vec!["wildcard_maps values must be strings"]);
    assert_eq!(messages(vec![rm(vec![text("a")])]), vec!["wildcard_maps entries must be objects"]);
    let lp = |map: Vec<(&str, Value)>| task(vec![("cmd", text("for")), ("name_list_map", Value::Object(object(map))), ("tasks", list(vec![]))]);
    assert!(messages(vec![lp(vec![("a", text("{xs}")), ("b", list(vec![num(1), num(2)]))])]).is_empty());
    assert_eq!(
        messages(vec![lp(vec![("a", text("{xs}")), ("b", list(vec![num(1)]))])]),
        vec!["for lists have differing lengths"]
    );
    assert!(messages(vec![lp(vec![("a", text("{later_*}")), ("b", list(vec![num(1)]))])]).is_empty());
    assert_eq!(
        messages(vec![lp(vec![("a", text("no list"))])]),
        vec!["for.name_list_map value for 'a' must be a list or simple interpolation"]
    );
}

#[test]
fn named_tasks_are_analyzed_too() {
    let mut p = program(vec![]);
    p.named_tasks = vec![("broken".to_string(), task(vec![("cmd", text("goto")), ("name", text("gone"))]))];
    let diags = analyze_program(&p, &ctx(), &Vec::new()).unwrap_err();
    assert_eq!(diags.len(), 1);
    assert_eq!(diags[0].message, "goto target 'gone' not found in named_tasks.broken");
}

#[test]
fn diagnostics_carry_label_and_line() {
    let order = vec![task(vec![("cmd", text("print")), ("line", num(12)), ("traceback_label", text("intro"))])];
    let diags = analyze_program(&program(order), &ctx(), &Vec::new()).unwrap_err();
    assert_eq!(diags[0].line, Some(12));
    assert_eq!(diags[0].label, Some("intro".to_string()));
}

#[test]
fn voice_files_are_checked_as_they_were_found() {
    let speak = task(vec![("cmd", text("speak")), ("text", text("hi")), ("voice_path", text("voices/a.onnx"))]);
    assert_eq!(literal_voice_path(&speak), Some("voices/a.onnx".to_string()));
    let dynamic = task(vec![("cmd", text("speak")), ("text", text("hi")), ("voice_path", text("{name}.onnx"))]);
    assert_eq!(literal_voice_path(&dynamic), None);
    let probe = |exists: bool, is_dir: bool| {
        vec![PathProbe { path: "voices/a.onnx".to_string(), resolved: "/p/voices/a.onnx".to_string(), exists, is_dir }]
    };
    let run = |probes: Vec<PathProbe>| match analyze_program(&program(vec![speak.clone()]), &ctx(), &probes) {
        Ok(()) => Vec::new(),
        Err(d) => d.into_iter().map(|x| x.message).collect::<Vec<String>>(),
    };
    assert!(run(probe(true, false)).is_empty());
    assert_eq!(run(probe(false, false)), vec!["voice_path does not exist: /p/voices/a.onnx"]);
    assert_eq!(run(probe(true, true)), vec!["voice_path is a directory: /p/voices/a.onnx"]);
    assert!(run(Vec::new()).is_empty());
}

#[test]
fn brace_scans() {
    assert!(scan_braces("a {b} c").balanced);
    assert!(scan_braces("a {b} c").has_unescaped);
    assert!(!scan_braces("a {b c").balanced);
    assert!(!scan_braces("a } b {").balanced);
    assert!(scan_braces("a \\{ b").balanced);
    assert!(!scan_braces("a \\{ b").has_unescaped);
    assert!(is_literal_no_braces("plain \\{text\\}"));
    assert!(!is_literal_no_braces("{x}"));
}

#[test]
fn keys_must_have_a_value_to_come_from() {
    let order = vec![
        task(vec![("cmd", text("set")), ("item", text("{name} {HH:MM} {ARG1} \\{no key\\} {{name}}")), ("output_name", text("made"))]),
        task(vec![("cmd", text("set")), ("item", num(1)), ("output_name", text("item_{count}"))]),
        task(vec![("cmd", text("print")), ("text", text("{made} {item_3} {item_*} {gone}"))]),
        task(vec![("cmd", text("for")), ("name_list_map", Value::Object(object(vec![("each", text("{xs}"))]))), ("tasks", list(vec![
            Value::Object(task(vec![("cmd", text("print")), ("text", text("{each} {nowhere}"))])),
        ]))]),
        task(vec![("cmd", text("replace_map")), ("item", text("x")), ("output_name", text("r")), ("wildcard_maps", list(vec![
            Value::Object(object(vec![("a*", text("{1} {2x}"))])),
        ]))]),
        task(vec![("cmd", text("print")), ("text", text("{1}"))]),
    ];
    assert_eq!(
        messages(order),
        vec![
            "Interpolation key 'gone' has no value to come from",
            "Interpolation key 'nowhere' has no value to come from",
            "Interpolation key '2x' has no value to come from",
            "Interpolation key '1' has no value to come from",
        ]
    );
}

#[test]
fn jumps_among_tasks_that_run_side_by_side_are_refused() {
    let jump = || Value::Object(task(vec![("cmd", text("goto")), ("name", text("CONTINUE"))]));
    let still = || Value::Object(task(vec![("cmd", text("clear"))]));
    assert_eq!(
        messages(vec![task(vec![("cmd", text("parallel_wait")), ("tasks", list(vec![still(), jump()]))])]),
        vec!["'parallel_wait' cannot hold a goto or a goto_map among its tasks"]
    );
    assert_eq!(
        messages(vec![task(vec![("cmd", text("parallel_race")), ("tasks", list(vec![jump()]))])]),
        vec!["'parallel_race' cannot hold a goto or a goto_map among its tasks"]
    );
    assert!(messages(vec![task(vec![("cmd", text("serial")), ("tasks", list(vec![still(), jump()]))])]).is_empty());
    assert!(messages(vec![task(vec![("cmd", text("parallel_wait")), ("tasks", list(vec![still()]))])]).is_empty());
    let inner = Value::Object(task(vec![("cmd", text("serial")), ("tasks", list(vec![jump()]))]));
    assert!(messages(vec![task(vec![("cmd", text("parallel_race")), ("tasks", list(vec![inner]))])]).is_empty());
}
