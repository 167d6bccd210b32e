//! Running one task: the library interpolates the task, carries out what it
//! can by itself, and returns what is left for the caller to do.

use crate::action::{
    index_arg, index_arg_of, lists_view, Action, ActionView, IndexArg, IndexArgView, Outcome,
    TaskOutcome,
};
use crate::commands::{
    content_to_write, nothing, plan_clear, plan_delete, plan_goto, plan_goto_map, plan_list_append,
    plan_list_concat, plan_list_join, plan_list_remove, plan_print, plan_replace_map, plan_set,
    plan_unescape, planned, run_clear, run_delete, run_goto, run_goto_map, run_list_append,
    run_list_concat, run_list_join, run_list_remove, run_print, run_replace_map, run_set,
    run_unescape, stored, write_content, Planned,
};
use crate::error::ExecError;
use crate::fields::{
    as_array, as_string, as_task_array, item_field, item_or_null, list_field, object_field,
    str_field, tasks_field, tasks_view,
};
use crate::interp::{
    deep_interpolate, deep_interpolate_value, escape_text, scope_of, scope_with, text_field, Scope,
};
use crate::lists::{checked_position, eval_index, list_slice, rendered, slice_of};
use crate::model::{Clock, ProgramLoadContext, Task};
use crate::state::{inserts_of, with_insert, State};
use crate::text::same_text;
use crate::value::{
    lemma_dict_view, lemma_list_view, list_view, Json, Number, Object, Value,
};
use vstd::prelude::*;

verus! {

/// The named tasks as pairs of a name and the members of the task.
pub open spec fn named_view(named: Seq<(String, Task)>) -> Seq<(Seq<char>, Seq<(Seq<char>, Json)>)> {
    Seq::new(named.len(), |i: int| (named[i].0@, named[i].1@))
}

/// The place of the first task at or after `from` named `name`, or `named.len()`.
pub open spec fn named_position(
    named: Seq<(Seq<char>, Seq<(Seq<char>, Json)>)>,
    name: Seq<char>,
    from: int,
) -> int
    decreases named.len() - from,
{
    if from < 0 || from >= named.len() {
        named.len() as int
    } else if named[from].0 == name {
        from
    } else {
        named_position(named, name, from + 1)
    }
}

/// The keys of `d`, in order.
pub open spec fn keys_of(d: Seq<(Seq<char>, Json)>) -> Seq<Seq<char>> {
    Seq::new(d.len(), |i: int| d[i].0)
}

/// `acc` followed by the values of `d`, each interpolated, which must be lists.
pub open spec fn for_lists(scope: Scope, d: Seq<(Seq<char>, Json)>, acc: Seq<Seq<Json>>) -> Result<
    Seq<Seq<Json>>,
    ExecError,
>
    decreases d.len(),
{
    if d.len() == 0 {
        Ok(acc)
    } else {
        match deep_interpolate(scope, d[0].1) {
            Err(e) => Err(ExecError::Interpolation(e)),
            Ok(Json::List(a)) => for_lists(scope, d.skip(1), acc.push(a)),
            Ok(_) => Err(ExecError::ForNotList),
        }
    }
}

/// Every list of `lists` has `len` items.
pub open spec fn same_lengths(lists: Seq<Seq<Json>>, len: nat) -> bool {
    forall|i: int| 0 <= i < lists.len() ==> (#[trigger] lists[i]).len() == len
}

/// `for`: the lists are interpolated and must agree in length; running the
/// tasks once for each place is left to the caller.
pub open spec fn plan_for(scope: Scope, st: Seq<(Seq<char>, Json)>, task: Seq<(Seq<char>, Json)>) -> Planned {
    match object_field(task, "name_list_map"@) {
        Err(e) => Err(e),
        Ok(map) => match tasks_field(task, "tasks"@) {
            Err(e) => Err(e),
            Ok(tasks) => match for_lists(scope, map, Seq::empty()) {
                Err(e) => Err(e),
                Ok(lists) => {
                    let len = if lists.len() > 0 {
                        lists[0].len()
                    } else {
                        0
                    };
                    if same_lengths(lists, len) {
                        Ok((st, ActionView::For { names: keys_of(map), lists, tasks, len }))
                    } else {
                        Err(ExecError::ListsDiffer)
                    }
                },
            },
        },
    }
}

/// What is stored once the position of a `list_index` is known.
pub open spec fn index_stored(
    st: Seq<(Seq<char>, Json)>,
    list: Seq<Json>,
    index: int,
    name: Result<Seq<char>, ExecError>,
) -> Result<Seq<(Seq<char>, Json)>, ExecError> {
    match checked_position(index, list.len() as int) {
        Err(e) => Err(e),
        Ok(p) => match name {
            Err(e) => Err(e),
            Ok(n) => Ok(with_insert(st, n, list[p])),
        },
    }
}

/// What is stored once the bounds of a `list_slice` are known.
pub open spec fn slice_stored(
    st: Seq<(Seq<char>, Json)>,
    list: Seq<Json>,
    from: int,
    to: int,
    name: Result<Seq<char>, ExecError>,
) -> Result<Seq<(Seq<char>, Json)>, ExecError> {
    match slice_of(list, from, to) {
        Err(e) => Err(e),
        Ok(items) => match name {
            Err(e) => Err(e),
            Ok(n) => Ok(with_insert(st, n, Json::List(items))),
        },
    }
}

/// The plan of a state that is done.
pub open spec fn done(r: Result<Seq<(Seq<char>, Json)>, ExecError>) -> Planned {
    match r {
        Ok(st) => Ok((st, ActionView::Done(Outcome::Next))),
        Err(e) => Err(e),
    }
}

/// `list_index`: the item at the position `index`. Where the position is
/// an expression, evaluating it is left to the caller.
pub open spec fn plan_list_index(st: Seq<(Seq<char>, Json)>, task: Seq<(Seq<char>, Json)>) -> Planned {
    match list_field(task, "list"@) {
        Err(e) => Err(e),
        Ok(list) => match index_arg(item_field(task, "index"@)) {
            IndexArgView::Expr(e) => Ok(
                (
                    st,
                    ActionView::ListIndex {
                        list,
                        index: e,
                        store_as: str_field(task, "output_name"@),
                    },
                ),
            ),
            IndexArgView::Int(i) => done(index_stored(st, list, i, str_field(task, "output_name"@))),
            IndexArgView::Invalid => Err(ExecError::IndexNotInt),
        },
    }
}

/// `list_slice`: the items from position `from_index` to position
/// `to_index`. Where a bound is an expression, evaluating it is left to the caller.
pub open spec fn plan_list_slice(st: Seq<(Seq<char>, Json)>, task: Seq<(Seq<char>, Json)>) -> Planned {
    match list_field(task, "list"@) {
        Err(e) => Err(e),
        Ok(list) => {
            let from = index_arg(item_field(task, "from_index"@));
            let to = index_arg(item_field(task, "to_index"@));
            let name = str_field(task, "output_name"@);
            let later = Ok(
                (st, ActionView::ListSlice { list, from_index: from, to_index: to, store_as: name }),
            );
            match from {
                IndexArgView::Invalid => Err(ExecError::IndexNotInt),
                IndexArgView::Expr(_) => later,
                IndexArgView::Int(f) => match to {
                    IndexArgView::Invalid => Err(ExecError::IndexNotInt),
                    IndexArgView::Expr(_) => later,
                    IndexArgView::Int(t) => done(slice_stored(st, list, f, t, name)),
                },
            }
        },
    }
}

/// The plan of a command that only reads fields and leaves the rest to the caller.
pub open spec fn plan_request(
    scope: Scope,
    st: Seq<(Seq<char>, Json)>,
    task: Seq<(Seq<char>, Json)>,
    named: Seq<(Seq<char>, Seq<(Seq<char>, Json)>)>,
    completion: Seq<(Seq<char>, Json)>,
    cmd: Seq<char>,
) -> Planned {
    if cmd == "sleep"@ {
        Ok((st, ActionView::Sleep(item_field(task, "seconds"@))))
    } else if cmd == "write"@ {
        match str_field(task, "path"@) {
            Err(e) => Err(e),
            Ok(path) => Ok(
                (st, ActionView::Write { path, content: write_content(item_field(task, "item"@)) }),
            ),
        }
    } else if cmd == "show_inserts"@ {
        Ok((st, ActionView::ShowInserts))
    } else if cmd == "user_input"@ {
        match str_field(task, "prompt"@) {
            Err(e) => Err(e),
            Ok(prompt) => match str_field(task, "output_name"@) {
                Err(e) => Err(e),
                Ok(output_name) => Ok((st, ActionView::UserInput { prompt, output_name })),
            },
        }
    } else if cmd == "user_choice"@ {
        match list_field(task, "list"@) {
            Err(e) => Err(e),
            Ok(list) => match str_field(task, "description"@) {
                Err(e) => Err(e),
                Ok(description) => match str_field(task, "output_name"@) {
                    Err(e) => Err(e),
                    Ok(output_name) => Ok(
                        (
                            st,
                            ActionView::UserChoice {
                                list,
                                options: rendered(list),
                                description,
                                output_name,
                            },
                        ),
                    ),
                },
            },
        }
    } else if cmd == "await_insert"@ {
        match str_field(task, "name"@) {
            Err(e) => Err(e),
            Ok(name) => Ok((st, ActionView::AwaitInsert { name })),
        }
    } else if cmd == "run_task"@ {
        match str_field(task, "task_name"@) {
            Err(e) => Err(e),
            Ok(name) => {
                let p = named_position(named, name, 0);
                if p < named.len() {
                    Ok((st, ActionView::RunTask { name, task: named[p].1 }))
                } else {
                    Err(ExecError::UnknownTask)
                }
            },
        }
    } else if cmd == "parallel_wait"@ {
        match tasks_field(task, "tasks"@) {
            Err(e) => Err(e),
            Ok(tasks) => Ok((st, ActionView::ParallelWait { tasks })),
        }
    } else if cmd == "parallel_race"@ {
        match tasks_field(task, "tasks"@) {
            Err(e) => Err(e),
            Ok(tasks) => Ok((st, ActionView::ParallelRace { tasks })),
        }
    } else if cmd == "serial"@ {
        match tasks_field(task, "tasks"@) {
            Err(e) => Err(e),
            Ok(tasks) => Ok((st, ActionView::Serial { tasks })),
        }
    } else if cmd == "math"@ {
        match str_field(task, "input"@) {
            Err(e) => Err(e),
            Ok(input) => match str_field(task, "output_name"@) {
                Err(e) => Err(e),
                Ok(output_name) => Ok((st, ActionView::Math { input, output_name })),
            },
        }
    } else if cmd == "random_choice"@ {
        match list_field(task, "list"@) {
            Err(e) => Err(e),
            Ok(list) => match str_field(task, "output_name"@) {
                Err(e) => Err(e),
                Ok(output_name) => if list.len() == 0 {
                    Err(ExecError::EmptyChoice)
                } else {
                    Ok((st, ActionView::RandomChoice { list, output_name }))
                },
            },
        }
    } else if cmd == "speak"@ {
        match str_field(task, "text"@) {
            Err(e) => Err(e),
            Ok(text) => match str_field(task, "voice_path"@) {
                Err(e) => Err(e),
                Ok(voice_path) => Ok(
                    (
                        st,
                        ActionView::Speak {
                            text,
                            voice_path,
                            voice_speaker: match item_field(task, "voice_speaker"@) {
                                Json::Int(i) => Some(i),
                                _ => None,
                            },
                        },
                    ),
                ),
            },
        }
    } else if cmd == "chat"@ {
        match crate::chat_plan::planned_chat(scope, task, completion) {
            Err(e) => Err(e),
            Ok(p) => Ok((st, ActionView::Chat(p))),
        }
    } else {
        Err(ExecError::UnknownCommand)
    }
}

/// The plan of the command `cmd` on the interpolated task `task`.
pub open spec fn plan_command(
    scope: Scope,
    st: Seq<(Seq<char>, Json)>,
    task: Seq<(Seq<char>, Json)>,
    named: Seq<(Seq<char>, Seq<(Seq<char>, Json)>)>,
    completion: Seq<(Seq<char>, Json)>,
    cmd: Seq<char>,
) -> Planned {
    if cmd == "list_join"@ {
        plan_list_join(st, task)
    } else if cmd == "list_concat"@ {
        plan_list_concat(st, task)
    } else if cmd == "list_append"@ {
        plan_list_append(st, task)
    } else if cmd == "list_remove"@ {
        plan_list_remove(st, task)
    } else if cmd == "list_index"@ {
        plan_list_index(st, task)
    } else if cmd == "list_slice"@ {
        plan_list_slice(st, task)
    } else if cmd == "for"@ {
        plan_for(scope, st, task)
    } else if cmd == "label"@ {
        nothing(st)
    } else if cmd == "set"@ {
        plan_set(st, task)
    } else if cmd == "unescape"@ {
        plan_unescape(scope, st, task)
    } else if cmd == "print"@ {
        plan_print(st, task)
    } else if cmd == "clear"@ {
        plan_clear(st)
    } else if cmd == "goto"@ {
        plan_goto(st, task)
    } else if cmd == "goto_map"@ {
        plan_goto_map(scope, st, task)
    } else if cmd == "replace_map"@ {
        plan_replace_map(scope, st, task)
    } else if cmd == "delete"@ {
        plan_delete(st, task, false)
    } else if cmd == "delete_except"@ {
        plan_delete(st, task, true)
    } else {
        plan_request(scope, st, task, named, completion, cmd)
    }
}

/// What running the task `task` in the state `st` comes to: the task is
/// interpolated with the inserts of `st`, then its command is planned.
/// `named` are the named tasks of the program, `completion` its completion arguments.
pub open spec fn plan(
    scope: Scope,
    st: Seq<(Seq<char>, Json)>,
    task: Seq<(Seq<char>, Json)>,
    named: Seq<(Seq<char>, Seq<(Seq<char>, Json)>)>,
    completion: Seq<(Seq<char>, Json)>,
) -> Planned {
    match deep_interpolate(scope, Json::Dict(task)) {
        Err(e) => Err(ExecError::Interpolation(e)),
        Ok(Json::Dict(t)) => match text_field(t, "cmd"@) {
            None => Err(ExecError::MissingCmd),
            Some(cmd) => plan_command(scope, st, t, named, completion, cmd),
        },
        Ok(_) => Err(ExecError::MissingCmd),
    }
}

fn run_for(
    state: &State,
    task: &Task,
    snapshot: &Object,
    ctx: &ProgramLoadContext,
    clock: &Clock,
) -> (r: Result<Action, ExecError>)
    ensures
        planned(r, *state) == plan_for(scope_of(*snapshot, *ctx, *clock), state@, task@),
{
    let ghost scope = scope_of(*snapshot, *ctx, *clock);
    let map = match task.get("name_list_map") {
        Some(Value::Object(m)) => m,
        _ => {
            return Err(ExecError::FieldNotObject);
        },
    };
    let tasks = as_task_array(task, "tasks")?;
    let ghost d = map@;
    let mut names: Vec<String> = Vec::new();
    let mut lists: Vec<Vec<Value>> = Vec::new();
    let mut i: usize = 0;
    proof {
        lemma_dict_view(map.entries@);
        assert(d.skip(0) == d);
        assert(lists_view(lists@) =~= Seq::<Seq<Json>>::empty());
    }
    while i < map.entries.len()
        invariant
            i <= map.entries.len(),
            scope == scope_of(*snapshot, *ctx, *clock),
            d == map@,
            d.len() == map.entries@.len(),
            forall|k: int| 0 <= k < d.len() ==> d[k] == (map.entries@[k].0@, map.entries@[k].1@),
            names@.len() == i,
            forall|k: int| 0 <= k < i ==> names@[k]@ == d[k].0,
            for_lists(scope, d, Seq::empty()) == for_lists(scope, d.skip(i as int), lists_view(lists@)),
            object_field(task@, "name_list_map"@) == Ok::<Seq<(Seq<char>, Json)>, ExecError>(d),
            tasks_field(task@, "tasks"@) == Ok::<Seq<Seq<(Seq<char>, Json)>>, ExecError>(
                tasks_view(tasks@),
            ),
        decreases map.entries.len() - i,
    {
        let ghost rest = d.skip(i as int);
        assert(rest[0] == d[i as int]);
        assert(rest.skip(1) == d.skip(i + 1));
        let value = match deep_interpolate_value(snapshot, &map.entries[i].1, ctx, clock) {
            Ok(v) => v,
            Err(e) => {
                return Err(ExecError::Interpolation(e));
            },
        };
        match value {
            Value::Array(a) => {
                let ghost before = lists@;
                lists.push(a);
                assert(lists_view(lists@) =~= lists_view(before).push(list_view(a@)));
            },
            _ => {
                return Err(ExecError::ForNotList);
            },
        }
        names.push(map.entries[i].0.clone());
        i += 1;
    }
    assert(d.skip(d.len() as int).len() == 0);
    let len = if lists.len() > 0 {
        lists[0].len()
    } else {
        0
    };
    let ghost models = lists_view(lists@);
    let mut k: usize = 0;
    proof {
        if lists.len() > 0 {
            lemma_list_view(lists@[0]@);
        }
    }
    while k < lists.len()
        invariant
            k <= lists.len(),
            models == lists_view(lists@),
            len == if models.len() > 0 {
                models[0].len()
            } else {
                0
            },
            for_lists(scope, d, Seq::empty()) == Ok::<Seq<Seq<Json>>, ExecError>(models),
            object_field(task@, "name_list_map"@) == Ok::<Seq<(Seq<char>, Json)>, ExecError>(d),
            tasks_field(task@, "tasks"@) == Ok::<Seq<Seq<(Seq<char>, Json)>>, ExecError>(
                tasks_view(tasks@),
            ),
            scope == scope_of(*snapshot, *ctx, *clock),
            forall|q: int| 0 <= q < k ==> (#[trigger] models[q]).len() == len,
        decreases lists.len() - k,
    {
        proof {
            lemma_list_view(lists@[k as int]@);
        }
        if lists[k].len() != len {
            assert(models[k as int].len() != len);
            return Err(ExecError::ListsDiffer);
        }
        k += 1;
    }
    proof {
        if lists.len() > 0 {
            lemma_list_view(lists@[0]@);
        }
        assert(crate::model::texts_of(names@) =~= keys_of(d));
    }
    Ok(Action::For { names, lists, tasks, len })
}

/// Stores the item of `list` at the position `index` as the insert
/// `output_name`. This ends a `list_index` whose position was an expression.
pub fn finish_list_index(
    state: &mut State,
    list: &Vec<Value>,
    index: i64,
    output_name: &Result<String, ExecError>,
) -> (r: Result<(), ExecError>)
    ensures
        match r {
            Ok(_) => index_stored(
                old(state)@,
                list_view(list@),
                index as int,
                crate::action::name_view(*output_name),
            ) == Ok::<Seq<(Seq<char>, Json)>, ExecError>(final(state)@),
            Err(e) => index_stored(
                old(state)@,
                list_view(list@),
                index as int,
                crate::action::name_view(*output_name),
            ) == Err::<Seq<(Seq<char>, Json)>, ExecError>(e) && final(state)@ == old(state)@,
        },
{
    proof {
        lemma_list_view(list@);
    }
    let p = eval_index(index, list.len())?;
    match output_name {
        Ok(name) => {
            state.set_insert(name.as_str(), list[p].clone());
            Ok(())
        },
        Err(e) => Err(*e),
    }
}

/// Stores the items of `list` from position `from_index` to position
/// `to_index` as the insert `output_name`. This ends a `list_slice`; a bound
/// that is neither an integer nor an expression comes as `None`.
pub fn finish_list_slice(
    state: &mut State,
    list: &Vec<Value>,
    from_index: Option<i64>,
    to_index: Option<i64>,
    output_name: &Result<String, ExecError>,
) -> (r: Result<(), ExecError>)
    ensures
        match r {
            Ok(_) => from_index is Some && to_index is Some && slice_stored(
                old(state)@,
                list_view(list@),
                from_index->0 as int,
                to_index->0 as int,
                crate::action::name_view(*output_name),
            ) == Ok::<Seq<(Seq<char>, Json)>, ExecError>(final(state)@),
            Err(e) => final(state)@ == old(state)@ && if from_index is None || to_index is None {
                e == ExecError::IndexNotInt
            } else {
                slice_stored(
                    old(state)@,
                    list_view(list@),
                    from_index->0 as int,
                    to_index->0 as int,
                    crate::action::name_view(*output_name),
                ) == Err::<Seq<(Seq<char>, Json)>, ExecError>(e)
            },
        },
{
    let from = match from_index {
        Some(f) => f,
        None => {
            return Err(ExecError::IndexNotInt);
        },
    };
    let to = match to_index {
        Some(t) => t,
        None => {
            return Err(ExecError::IndexNotInt);
        },
    };
    let items = list_slice(list, from, to)?;
    match output_name {
        Ok(name) => {
            state.set_insert(name.as_str(), Value::Array(items));
            Ok(())
        },
        Err(e) => Err(*e),
    }
}

fn run_list_index(state: &mut State, task: &Task) -> (r: Result<Action, ExecError>)
    ensures
        planned(r, *final(state)) == plan_list_index(old(state)@, task@),
        r is Err ==> final(state)@ == old(state)@,
{
    let list = as_array(task, "list")?;
    let index = index_arg_of(&item_or_null(task, "index"));
    let name = as_string(task, "output_name");
    match index {
        IndexArg::Expr(e) => Ok(Action::ListIndex { list, index: e, store_as: name }),
        IndexArg::Int(i) => {
            finish_list_index(state, &list, i, &name)?;
            Ok(Action::Done(TaskOutcome::Next))
        },
        IndexArg::Invalid => Err(ExecError::IndexNotInt),
    }
}

fn run_list_slice(state: &mut State, task: &Task) -> (r: Result<Action, ExecError>)
    ensures
        planned(r, *final(state)) == plan_list_slice(old(state)@, task@),
        r is Err ==> final(state)@ == old(state)@,
{
    let list = as_array(task, "list")?;
    let from = index_arg_of(&item_or_null(task, "from_index"));
    let to = index_arg_of(&item_or_null(task, "to_index"));
    let name = as_string(task, "output_name");
    match (&from, &to) {
        (IndexArg::Invalid, _) => Err(ExecError::IndexNotInt),
        (IndexArg::Int(_), IndexArg::Invalid) => Err(ExecError::IndexNotInt),
        (IndexArg::Int(f), IndexArg::Int(t)) => {
            finish_list_slice(state, &list, Some(*f), Some(*t), &name)?;
            Ok(Action::Done(TaskOutcome::Next))
        },
        _ => Ok(Action::ListSlice { list, from_index: from, to_index: to, store_as: name }),
    }
}

/// The texts of the items of `list`, in order.
pub fn render_all_items(list: &Vec<Value>) -> (r: Vec<String>)
    ensures
        crate::model::texts_of(r@) == rendered(list_view(list@)),
{
    proof {
        lemma_list_view(list@);
    }
    let mut r: Vec<String> = Vec::new();
    let mut i: usize = 0;
    while i < list.len()
        invariant
            i <= list.len(),
            r@.len() == i,
            list_view(list@).len() == list@.len(),
            forall|k: int| 0 <= k < list@.len() ==> list_view(list@)[k] == list@[k]@,
            forall|k: int| 0 <= k < i ==> r@[k]@ == crate::value::render(list@[k]@),
        decreases list.len() - i,
    {
        r.push(crate::value::value_to_string(&list[i]));
        i += 1;
    }
    assert(crate::model::texts_of(r@) =~= rendered(list_view(list@)));
    r
}

/// The named task `name`.
pub fn find_named_task(named: &Vec<(String, Task)>, name: &str) -> (r: Option<Task>)
    ensures
        match r {
            Some(t) => named_position(named_view(named@), name@, 0) < named@.len() && t@
                == named_view(named@)[named_position(named_view(named@), name@, 0)].1,
            None => named_position(named_view(named@), name@, 0) >= named@.len(),
        },
{
    let wanted = name.to_owned();
    let ghost nv = named_view(named@);
    let mut i: usize = 0;
    while i < named.len()
        invariant
            i <= named.len(),
            wanted@ == name@,
            nv == named_view(named@),
            named_position(nv, name@, 0) == named_position(nv, name@, i as int),
        decreases named.len() - i,
    {
        if named[i].0 == wanted {
            return Some(named[i].1.clone());
        }
        i += 1;
    }
    None
}

fn run_request(
    state: &State,
    task: &Task,
    named: &Vec<(String, Task)>,
    completion_args: &Object,
    cmd: &str,
    snapshot: &Object,
    ctx: &ProgramLoadContext,
    clock: &Clock,
) -> (r: Result<Action, ExecError>)
    ensures
        planned(r, *state) == plan_request(
            scope_of(*snapshot, *ctx, *clock),
            state@,
            task@,
            named_view(named@),
            completion_args@,
            cmd@,
        ),
{
    if same_text(cmd, "sleep") {
        Ok(Action::Sleep(item_or_null(task, "seconds")))
    } else if same_text(cmd, "write") {
        let item = item_or_null(task, "item");
        let path = as_string(task, "path")?;
        Ok(Action::Write { path, content: content_to_write(&item) })
    } else if same_text(cmd, "show_inserts") {
        Ok(Action::ShowInserts)
    } else if same_text(cmd, "user_input") {
        let prompt = as_string(task, "prompt")?;
        let output_name = as_string(task, "output_name")?;
        Ok(Action::UserInput { prompt, output_name })
    } else if same_text(cmd, "user_choice") {
        let list = as_array(task, "list")?;
        let description = as_string(task, "description")?;
        let output_name = as_string(task, "output_name")?;
        let options = render_all_items(&list);
        Ok(Action::UserChoice { list, options, description, output_name })
    } else if same_text(cmd, "await_insert") {
        let name = as_string(task, "name")?;
        Ok(Action::AwaitInsert { name })
    } else if same_text(cmd, "run_task") {
        let name = as_string(task, "task_name")?;
        match find_named_task(named, name.as_str()) {
            Some(t) => Ok(Action::RunTask { name, task: t }),
            None => Err(ExecError::UnknownTask),
        }
    } else if same_text(cmd, "parallel_wait") {
        let tasks = as_task_array(task, "tasks")?;
        Ok(Action::ParallelWait { tasks })
    } else if same_text(cmd, "parallel_race") {
        let tasks = as_task_array(task, "tasks")?;
        Ok(Action::ParallelRace { tasks })
    } else if same_text(cmd, "serial") {
        let tasks = as_task_array(task, "tasks")?;
        Ok(Action::Serial { tasks })
    } else if same_text(cmd, "math") {
        let input = as_string(task, "input")?;
        let output_name = as_string(task, "output_name")?;
        Ok(Action::Math { input, output_name })
    } else if same_text(cmd, "random_choice") {
        let list = as_array(task, "list")?;
        let output_name = as_string(task, "output_name")?;
        proof {
            lemma_list_view(list@);
        }
        if list.len() == 0 {
            Err(ExecError::EmptyChoice)
        } else {
            Ok(Action::RandomChoice { list, output_name })
        }
    } else if same_text(cmd, "speak") {
        let text = as_string(task, "text")?;
        let voice_path = as_string(task, "voice_path")?;
        let voice_speaker = match task.get("voice_speaker") {
            Some(Value::Number(Number::Int(i))) => Some(*i),
            _ => None,
        };
        Ok(Action::Speak { text, voice_path, voice_speaker })
    } else if same_text(cmd, "chat") {
        let p = crate::chat_plan::plan_chat(task, completion_args, snapshot, ctx, clock)?;
        Ok(Action::Chat(p))
    } else {
        Err(ExecError::UnknownCommand)
    }
}

fn run_command(
    state: &mut State,
    task: &Task,
    named: &Vec<(String, Task)>,
    completion_args: &Object,
    cmd: &str,
    snapshot: &Object,
    ctx: &ProgramLoadContext,
    clock: &Clock,
) -> (r: Result<Action, ExecError>)
    ensures
        planned(r, *final(state)) == plan_command(
            scope_of(*snapshot, *ctx, *clock),
            old(state)@,
            task@,
            named_view(named@),
            completion_args@,
            cmd@,
        ),
        r is Err ==> final(state)@ == old(state)@,
{
    if same_text(cmd, "list_join") {
        run_list_join(state, task)
    } else if same_text(cmd, "list_concat") {
        run_list_concat(state, task)
    } else if same_text(cmd, "list_append") {
        run_list_append(state, task)
    } else if same_text(cmd, "list_remove") {
        run_list_remove(state, task)
    } else if same_text(cmd, "list_index") {
        run_list_index(state, task)
    } else if same_text(cmd, "list_slice") {
        run_list_slice(state, task)
    } else if same_text(cmd, "for") {
        run_for(state, task, snapshot, ctx, clock)
    } else if same_text(cmd, "label") {
        Ok(Action::Done(TaskOutcome::Next))
    } else if same_text(cmd, "set") {
        run_set(state, task)
    } else if same_text(cmd, "unescape") {
        run_unescape(state, task, snapshot, ctx, clock)
    } else if same_text(cmd, "print") {
        run_print(state, task)
    } else if same_text(cmd, "clear") {
        run_clear(state)
    } else if same_text(cmd, "goto") {
        run_goto(state, task)
    } else if same_text(cmd, "goto_map") {
        run_goto_map(state, task, snapshot, ctx, clock)
    } else if same_text(cmd, "replace_map") {
        run_replace_map(state, task, snapshot, ctx, clock)
    } else if same_text(cmd, "delete") {
        run_delete(state, task, false)
    } else if same_text(cmd, "delete_except") {
        run_delete(state, task, true)
    } else {
        run_request(state, task, named, completion_args, cmd, snapshot, ctx, clock)
    }
}

/// Runs `task` in `state` at the time `clock`: the task is interpolated with
/// the inserts as they are now, the command that it names is carried out as
/// far as the library can, and what is left to do is returned. A failure
/// leaves the state as it was.
pub fn execute_task_at(
    state: &mut State,
    task: &Task,
    completion_args: &Object,
    named_tasks: &Vec<(String, Task)>,
    ctx: &ProgramLoadContext,
    clock: &Clock,
) -> (r: Result<Action, ExecError>)
    ensures
        planned(r, *final(state)) == plan(
            scope_with(inserts_of(old(state)@), *ctx, *clock),
            old(state)@,
            task@,
            named_view(named_tasks@),
            completion_args@,
        ),
        r is Err ==> final(state)@ == old(state)@,
{
    let snapshot = state.inserts();
    let wrapped = Value::Object(task.clone());
    let interpolated = match deep_interpolate_value(&snapshot, &wrapped, ctx, clock) {
        Ok(v) => v,
        Err(e) => {
            return Err(ExecError::Interpolation(e));
        },
    };
    match &interpolated {
        Value::Object(t) => {
            let cmd = match t.get("cmd") {
                Some(Value::String(c)) => c.clone(),
                _ => {
                    return Err(ExecError::MissingCmd);
                },
            };
            run_command(state, t, named_tasks, completion_args, cmd.as_str(), &snapshot, ctx, clock)
        },
        _ => Err(ExecError::MissingCmd),
    }
}

/// Runs `task` in `state` now; see `execute_task_at`.
pub fn execute_task(
    state: &mut State,
    task: &Task,
    completion_args: &Object,
    named_tasks: &Vec<(String, Task)>,
    ctx: &ProgramLoadContext,
) -> (r: Result<Action, ExecError>)
    ensures
        exists|clock: Clock|
            clock.is_time_of_day() && planned(r, *final(state)) == plan(
                scope_with(inserts_of(old(state)@), *ctx, clock),
                old(state)@,
                task@,
                named_view(named_tasks@),
                completion_args@,
            ),
        r is Err ==> final(state)@ == old(state)@,
{
    let clock = crate::interp::read_clock();
    execute_task_at(state, task, completion_args, named_tasks, ctx, &clock)
}

/// Stores what the user typed as the insert `output_name`, every brace
/// of it escaped, so that it is never taken for a group.
pub fn finish_user_input(state: &mut State, output_name: &str, input: &str)
    ensures
        final(state)@ == with_insert(old(state)@, output_name@, Json::Text(escape_text(input@))),
{
    let escaped = crate::interp::recode_string(input, true);
    state.set_insert(output_name, Value::String(escaped));
}

/// What a `user_choice` stores: the item that was chosen, or `null` where
/// there was nothing to choose from.
pub open spec fn chosen(list: Seq<Json>, choice: int) -> Result<Json, ExecError> {
    if list.len() == 0 {
        Ok(Json::Null)
    } else if 0 <= choice < list.len() {
        Ok(list[choice])
    } else {
        Err(ExecError::ChoiceOutOfBounds)
    }
}

/// Stores the item of `list` that the user chose as the insert `output_name`.
pub fn finish_user_choice(state: &mut State, list: &Vec<Value>, choice: usize, output_name: &str) -> (r:
    Result<(), ExecError>)
    ensures
        match r {
            Ok(_) => chosen(list_view(list@), choice as int) is Ok && final(state)@ == with_insert(
                old(state)@,
                output_name@,
                chosen(list_view(list@), choice as int)->Ok_0,
            ),
            Err(e) => chosen(list_view(list@), choice as int) == Err::<Json, ExecError>(e)
                && final(state)@ == old(state)@,
        },
{
    proof {
        lemma_list_view(list@);
    }
    if list.len() == 0 {
        state.set_insert(output_name, Value::Null);
        Ok(())
    } else if choice < list.len() {
        state.set_insert(output_name, list[choice].clone());
        Ok(())
    } else {
        Err(ExecError::ChoiceOutOfBounds)
    }
}

/// Stores the result of a `math` as the insert `output_name`.
pub fn finish_math(state: &mut State, output_name: &str, result: i64)
    ensures
        final(state)@ == with_insert(old(state)@, output_name@, Json::Int(result as int)),
{
    state.set_insert(output_name, Value::Number(Number::Int(result)));
}

/// `rand::random::<usize>()`: a number drawn at random. Nothing is claimed of it.
#[verifier::external_body]
fn random_number() -> (r: usize) {
    rand::random::<usize>()
}

/// Stores the item of `list` that the number `drawn` picks, the one at place
/// `drawn % list.len()`, as the insert `output_name`, and returns its place.
pub fn finish_random_choice_with(
    state: &mut State,
    list: &Vec<Value>,
    output_name: &str,
    drawn: usize,
) -> (r: Result<usize, ExecError>)
    ensures
        match r {
            Ok(p) => list@.len() > 0 && p == (drawn as int) % (list@.len() as int) && final(state)@ == with_insert(
                old(state)@,
                output_name@,
                list_view(list@)[p as int],
            ),
            Err(e) => e == ExecError::EmptyChoice && list@.len() == 0 && final(state)@ == old(
                state,
            )@,
        },
{
    proof {
        lemma_list_view(list@);
    }
    if list.len() == 0 {
        return Err(ExecError::EmptyChoice);
    }
    let p = drawn % list.len();
    state.set_insert(output_name, list[p].clone());
    Ok(p)
}

/// Stores an item of `list` picked at random as the insert `output_name`,
/// and returns its place.
pub fn finish_random_choice(state: &mut State, list: &Vec<Value>, output_name: &str) -> (r: Result<
    usize,
    ExecError,
>)
    ensures
        match r {
            Ok(p) => p < list@.len() && final(state)@ == with_insert(
                old(state)@,
                output_name@,
                list_view(list@)[p as int],
            ),
            Err(e) => e == ExecError::EmptyChoice && list@.len() == 0 && final(state)@ == old(
                state,
            )@,
        },
{
    let drawn = random_number();
    finish_random_choice_with(state, list, output_name, drawn)
}

/// A `for` never cuts a list short: where it is planned at all, every one
/// of its lists has as many items as it has rounds.
pub proof fn lemma_for_is_never_cut_short(
    scope: Scope,
    st: Seq<(Seq<char>, Json)>,
    task: Seq<(Seq<char>, Json)>,
)
    ensures
        match plan_for(scope, st, task) {
            Ok((_, ActionView::For { names, lists, tasks, len })) => forall|i: int|
                0 <= i < lists.len() ==> (#[trigger] lists[i]).len() == len,
            Ok(_) => false,
            Err(_) => true,
        },
{
}

} // verus!
