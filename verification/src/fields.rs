//! Reading the fields of a task.

use crate::error::ExecError;
use crate::model::Task;
use crate::value::{dict_get, lemma_list_view, list_view, Json, Object, Value};
use vstd::prelude::*;

verus! {

/// The string that `d` binds `name` to.
pub open spec fn str_field(d: Seq<(Seq<char>, Json)>, name: Seq<char>) -> Result<
    Seq<char>,
    ExecError,
> {
    match dict_get(d, name) {
        Some(Json::Text(s)) => Ok(s),
        _ => Err(ExecError::FieldNotString),
    }
}

/// The list that `d` binds `name` to.
pub open spec fn list_field(d: Seq<(Seq<char>, Json)>, name: Seq<char>) -> Result<
    Seq<Json>,
    ExecError,
> {
    match dict_get(d, name) {
        Some(Json::List(a)) => Ok(a),
        _ => Err(ExecError::FieldNotArray),
    }
}

/// The object that `d` binds `name` to.
pub open spec fn object_field(d: Seq<(Seq<char>, Json)>, name: Seq<char>) -> Result<
    Seq<(Seq<char>, Json)>,
    ExecError,
> {
    match dict_get(d, name) {
        Some(Json::Dict(m)) => Ok(m),
        _ => Err(ExecError::FieldNotObject),
    }
}

/// What `d` binds `name` to; `null` where it binds it to nothing.
pub open spec fn item_field(d: Seq<(Seq<char>, Json)>, name: Seq<char>) -> Json {
    match dict_get(d, name) {
        Some(v) => v,
        None => Json::Null,
    }
}

/// The members of the objects of `a`; none where an item of `a` is no object.
pub open spec fn as_tasks(a: Seq<Json>) -> Option<Seq<Seq<(Seq<char>, Json)>>> {
    if forall|i: int| 0 <= i < a.len() ==> (#[trigger] a[i]) is Dict {
        Some(Seq::new(a.len(), |i: int| a[i]->Dict_0))
    } else {
        None
    }
}

/// The list of tasks that `d` binds `name` to.
pub open spec fn tasks_field(d: Seq<(Seq<char>, Json)>, name: Seq<char>) -> Result<
    Seq<Seq<(Seq<char>, Json)>>,
    ExecError,
> {
    match list_field(d, name) {
        Err(e) => Err(e),
        Ok(a) => match as_tasks(a) {
            Some(t) => Ok(t),
            None => Err(ExecError::TasksNotObjects),
        },
    }
}

/// The models of `tasks`, in order.
pub open spec fn tasks_view(tasks: Seq<Task>) -> Seq<Seq<(Seq<char>, Json)>> {
    Seq::new(tasks.len(), |i: int| tasks[i]@)
}

/// The string that `task` binds `key` to.
pub fn as_string(task: &Task, key: &str) -> (r: Result<String, ExecError>)
    ensures
        match r {
            Ok(s) => str_field(task@, key@) == Ok::<Seq<char>, ExecError>(s@),
            Err(e) => str_field(task@, key@) == Err::<Seq<char>, ExecError>(e),
        },
{
    match task.get(key) {
        Some(Value::String(s)) => Ok(s.clone()),
        _ => Err(ExecError::FieldNotString),
    }
}

/// The list that `task` binds `key` to.
pub fn as_array(task: &Task, key: &str) -> (r: Result<Vec<Value>, ExecError>)
    ensures
        match r {
            Ok(a) => list_field(task@, key@) == Ok::<Seq<Json>, ExecError>(list_view(a@)),
            Err(e) => list_field(task@, key@) == Err::<Seq<Json>, ExecError>(e),
        },
{
    match task.get(key) {
        Some(Value::Array(a)) => {
            assert(list_view(a@).subrange(0, a@.len() as int) == list_view(a@)) by {
                lemma_list_view(a@);
            }
            Ok(crate::lists::copy_range(a, 0, a.len()))
        },
        _ => Err(ExecError::FieldNotArray),
    }
}

/// What `task` binds `key` to; `null` where it binds it to nothing.
pub fn item_or_null(task: &Task, key: &str) -> (r: Value)
    ensures
        r@ == item_field(task@, key@),
{
    match task.get(key) {
        Some(v) => v.clone(),
        None => Value::Null,
    }
}

/// The objects of `list` as tasks.
pub fn tasks_of(list: &Vec<Value>) -> (r: Result<Vec<Task>, ExecError>)
    ensures
        match r {
            Ok(t) => as_tasks(list_view(list@)) == Some(tasks_view(t@)),
            Err(e) => e == ExecError::TasksNotObjects && as_tasks(list_view(list@)) is None,
        },
{
    let ghost items = list_view(list@);
    proof {
        lemma_list_view(list@);
    }
    let mut out: Vec<Task> = Vec::new();
    let mut i: usize = 0;
    while i < list.len()
        invariant
            i <= list.len(),
            items == list_view(list@),
            items.len() == list@.len(),
            forall|k: int| 0 <= k < items.len() ==> items[k] == list@[k]@,
            out@.len() == i,
            forall|k: int| 0 <= k < i ==> (#[trigger] items[k]) is Dict && out@[k]@ == items[k]->Dict_0,
        decreases list.len() - i,
    {
        match &list[i] {
            Value::Object(m) => {
                out.push(m.clone());
            },
            _ => {
                assert(!(items[i as int] is Dict));
                return Err(ExecError::TasksNotObjects);
            },
        }
        i += 1;
    }
    assert(tasks_view(out@) =~= as_tasks(items)->Some_0);
    Ok(out)
}

/// The list of tasks that `task` binds `key` to.
pub fn as_task_array(task: &Task, key: &str) -> (r: Result<Vec<Task>, ExecError>)
    ensures
        match r {
            Ok(t) => tasks_field(task@, key@) == Ok::<Seq<Seq<(Seq<char>, Json)>>, ExecError>(
                tasks_view(t@),
            ),
            Err(e) => tasks_field(task@, key@) == Err::<Seq<Seq<(Seq<char>, Json)>>, ExecError>(e),
        },
{
    match task.get(key) {
        Some(Value::Array(a)) => tasks_of(a),
        _ => Err(ExecError::FieldNotArray),
    }
}

} // verus!
