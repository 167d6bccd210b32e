use interpolation_engine::error::ExecError;
use interpolation_engine::lists::{
    eval_index, is_index_out_of_bounds, list_append, list_concat, list_index, list_join,
    list_remove, list_slice, slice_indices,
};
use interpolation_engine::value::{Number, Value};

fn num(i: i64) -> Value {
    Value::Number(Number::Int(i))
}

fn tens() -> Vec<Value> {
    vec![num(10), num(20), num(30), num(40), num(50)]
}

#[test]
fn list_slice_edge_cases() {
    let list = tens();
    assert_eq!(list_slice(&list, 2, 0), Ok(vec![]));
    assert_eq!(list_slice(&list, -2, -1), Ok(vec![num(40), num(50)]));
    assert_eq!(list_slice(&list, 0, 3), Err(ExecError::SliceLowerZero));
    assert_eq!(list_slice(&list, 2, 4), Ok(vec![num(20), num(30), num(40)]));
    assert_eq!(list_slice(&list, 4, 2), Ok(vec![]));
    assert_eq!(list_slice(&list, 1, 6), Err(ExecError::SliceOutOfBounds));
    assert_eq!(list_slice(&list, -6, 2), Err(ExecError::SliceOutOfBounds));
    assert_eq!(list_slice(&list, 1, 5), Ok(tens()));
}

#[test]
fn positions_count_from_one() {
    let list = tens();
    assert_eq!(list_index(&list, 1), Ok(num(10)));
    assert_eq!(list_index(&list, 5), Ok(num(50)));
    assert_eq!(list_index(&list, -1), Ok(num(50)));
    assert_eq!(list_index(&list, -5), Ok(num(10)));
    assert_eq!(list_index(&list, 0), Err(ExecError::IndexZero));
    assert_eq!(list_index(&list, 6), Err(ExecError::IndexOutOfBounds));
    assert_eq!(list_index(&list, -6), Err(ExecError::IndexOutOfBounds));
    assert_eq!(list_index(&vec![], 1), Err(ExecError::IndexOutOfBounds));
}

#[test]
fn index_symmetry() {
    let list = tens();
    let n = list.len() as i64;
    for i in 1..=n {
        assert_eq!(list_index(&list, i), list_index(&list, i - n - 1));
    }
}

#[test]
fn index_arithmetic() {
    assert_eq!(eval_index(3, 5), Ok(2));
    assert_eq!(eval_index(-2, 5), Ok(3));
    assert_eq!(eval_index(i64::MIN, 5), Err(ExecError::IndexOutOfBounds));
    assert_eq!(eval_index(i64::MAX, 5), Err(ExecError::IndexOutOfBounds));
    assert_eq!(slice_indices(1, -1, 5), Ok((0, 4)));
    assert_eq!(slice_indices(3, 2, 5), Ok((2, 1)));
    assert!(is_index_out_of_bounds(0, 5));
    assert!(is_index_out_of_bounds(6, 5));
    assert!(!is_index_out_of_bounds(-5, 5));
}

#[test]
fn join_concat_append_remove() {
    let list = vec![num(1), Value::String("b".to_string()), Value::Bool(false)];
    assert_eq!(list_join(&list, "<", ", ", ">"), "<1, b, false>");
    assert_eq!(list_join(&vec![], "<", ", ", ">"), "<>");
    assert_eq!(list_join(&vec![num(7)], "", ", ", ""), "7");
    let lists = vec![Value::Array(vec![num(1)]), Value::Array(vec![]), Value::Array(vec![num(2), num(3)])];
    assert_eq!(list_concat(&lists), Ok(vec![num(1), num(2), num(3)]));
    assert_eq!(list_concat(&vec![Value::Array(vec![]), num(1)]), Err(ExecError::ConcatNotLists));
    assert_eq!(list_append(&vec![num(1)], num(2)), vec![num(1), num(2)]);
    assert_eq!(list_remove(&vec![num(1), num(2), num(1)], &num(1)), vec![num(2), num(1)]);
    assert_eq!(list_remove(&vec![num(1), num(2)], &num(3)), vec![num(1), num(2)]);
}
