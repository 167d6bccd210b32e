use interpolation_engine::save::{splice_at, splice_key_into_json5, SpliceError};

const PROGRAM: &str = "{\n  // where the run begins\n  default_state: { inserts: {} },\n  order: [],\n  save_states: {\n    old: { a: 1 },\n  }, // kept\n  named_tasks: {},\n}\n";

const DUMPED: &str = "{\n  \"1\": {\n    \"label\": \"first\"\n  }\n}";

#[test]
fn the_members_of_the_object_are_replaced_in_place() {
    let out = splice_key_into_json5(PROGRAM, "save_states", DUMPED).unwrap();
    assert_eq!(
        out,
        "{\n  // where the run begins\n  default_state: { inserts: {} },\n  order: [],\n  save_states: {\n    \"1\": {\n      \"label\": \"first\"\n    }\n  }, // kept\n  named_tasks: {},\n}\n"
    );
}

#[test]
fn the_key_may_stand_in_quotes() {
    let out = splice_key_into_json5("{\"save_states\" : {\"x\": {}}, 'other': {}}", "save_states", "{\n  \"y\": 2\n}").unwrap();
    assert_eq!(out, "{\"save_states\" : {\n{  \"y\": 2\n{}, 'other': {}}");
    let out = splice_key_into_json5("'k':{}", "k", "{}").unwrap();
    assert_eq!(out, "'k':{\n\n}");
}

#[test]
fn the_first_object_of_that_key_is_taken() {
    let out = splice_key_into_json5("a: {b: 1}\na: {c: 2}", "a", "{\n  \"z\": 0\n}").unwrap();
    assert_eq!(out, "a: {\n  \"z\": 0\n}\na: {c: 2}");
}

#[test]
fn a_key_that_binds_no_object_is_not_found() {
    assert_eq!(splice_key_into_json5("{ save_states: [] }", "save_states", DUMPED), Err(SpliceError::KeyNotFound));
    assert_eq!(splice_key_into_json5("", "save_states", DUMPED), Err(SpliceError::KeyNotFound));
}

#[test]
fn an_object_that_is_not_closed_is_refused() {
    assert_eq!(splice_key_into_json5("{ save_states: { a: { b: 1 }", "save_states", DUMPED), Err(SpliceError::Unclosed));
}

#[test]
fn a_key_that_makes_no_pattern_is_refused() {
    assert_eq!(splice_key_into_json5("{ a(: {} }", "a(", DUMPED), Err(SpliceError::BadKey));
}

#[test]
fn the_parts_of_a_match_are_spliced() {
    assert_eq!(splice_at("x\n\t", "k: {", " 1 } tail", "{\n 2\n}"), Ok("x\n\tk: {\n\t 2\n\t} tail".to_string()));
    assert_eq!(splice_at("", "k: {", "{}{}", "{}"), Err(SpliceError::Unclosed));
    assert_eq!(splice_at("", "{", "}", "one line"), Ok("{\n\n}".to_string()));
}
