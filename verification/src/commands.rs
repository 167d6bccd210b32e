//! The commands that the library carries out by itself: each reads the
//! fields of its task, which has been interpolated, and changes the state.

use crate::action::{Action, ActionView, Outcome, TaskOutcome};
use crate::error::ExecError;
use crate::fields::{as_array, as_string, item_field, item_or_null, list_field, str_field};
use crate::interp::{
    deep_interpolate, deep_interpolate_value, recode_value, scope_of, unescape_json,
    unescape_text, Scope,
};
use crate::lists::{
    concatenated, joined, list_append, list_concat, list_join, list_remove, without_first,
};
use crate::model::{Clock, ProgramLoadContext, Task};
use crate::patterns::{goto_map_target_at, goto_target, replace_json, replace_map_at};
use crate::state::{
    inserts_of, output_of, with_insert, with_inserts_of, with_output, State,
};
use crate::text::{chars_of, same_text};
use crate::value::{
    json_text, lemma_dict_view, lemma_list_view, list_view, render, Json, Object, Value,
};
use crate::wildcard::{wildcard_match_chars, wildcard_matches};
use vstd::prelude::*;

verus! {

/// What a command plans: the state it leaves and what is left to do, or why it cannot run.
pub type Planned = Result<(Seq<(Seq<char>, Json)>, ActionView), ExecError>;

/// What a command did, as a plan.
pub open spec fn planned(r: Result<Action, ExecError>, st: State) -> Planned {
    match r {
        Ok(a) => Ok((st@, a@)),
        Err(e) => Err(e),
    }
}

/// The plan that binds the insert `name` to `v` and is done.
pub open spec fn stored(st: Seq<(Seq<char>, Json)>, name: Seq<char>, v: Json) -> Planned {
    Ok((with_insert(st, name, v), ActionView::Done(Outcome::Next)))
}

/// The plan that changes nothing and is done.
pub open spec fn nothing(st: Seq<(Seq<char>, Json)>) -> Planned {
    Ok((st, ActionView::Done(Outcome::Next)))
}

fn store(state: &mut State, name: &str, value: Value) -> (r: Result<Action, ExecError>)
    ensures
        planned(r, *final(state)) == stored(old(state)@, name@, value@),
{
    state.set_insert(name, value);
    Ok(Action::Done(TaskOutcome::Next))
}

/// `list_join`: the texts of the items of `list` between `before` and
/// `after`, with `between` between them.
pub open spec fn plan_list_join(st: Seq<(Seq<char>, Json)>, task: Seq<(Seq<char>, Json)>) -> Planned {
    match list_field(task, "list"@) {
        Err(e) => Err(e),
        Ok(list) => match str_field(task, "before"@) {
            Err(e) => Err(e),
            Ok(before) => match str_field(task, "between"@) {
                Err(e) => Err(e),
                Ok(between) => match str_field(task, "after"@) {
                    Err(e) => Err(e),
                    Ok(after) => match str_field(task, "output_name"@) {
                        Err(e) => Err(e),
                        Ok(name) => stored(
                            st,
                            name,
                            Json::Text(joined(list, before, between, after)),
                        ),
                    },
                },
            },
        },
    }
}

/// Carries out a `list_join`; see `plan_list_join`.
pub fn run_list_join(state: &mut State, task: &Task) -> (r: Result<Action, ExecError>)
    ensures
        planned(r, *final(state)) == plan_list_join(old(state)@, task@),
        r is Err ==> final(state)@ == old(state)@,
{
    let list = as_array(task, "list")?;
    let before = as_string(task, "before")?;
    let between = as_string(task, "between")?;
    let after = as_string(task, "after")?;
    let name = as_string(task, "output_name")?;
    let text = list_join(&list, before.as_str(), between.as_str(), after.as_str());
    store(state, name.as_str(), Value::String(text))
}

/// `list_concat`: the items of the lists of `lists`, one list after the other.
pub open spec fn plan_list_concat(st: Seq<(Seq<char>, Json)>, task: Seq<(Seq<char>, Json)>) -> Planned {
    match list_field(task, "lists"@) {
        Err(e) => Err(e),
        Ok(lists) => match str_field(task, "output_name"@) {
            Err(e) => Err(e),
            Ok(name) => match concatenated(lists) {
                None => Err(ExecError::ConcatNotLists),
                Some(all) => stored(st, name, Json::List(all)),
            },
        },
    }
}

/// Carries out a `list_concat`; see `plan_list_concat`.
pub fn run_list_concat(state: &mut State, task: &Task) -> (r: Result<Action, ExecError>)
    ensures
        planned(r, *final(state)) == plan_list_concat(old(state)@, task@),
        r is Err ==> final(state)@ == old(state)@,
{
    let lists = as_array(task, "lists")?;
    let name = as_string(task, "output_name")?;
    let all = list_concat(&lists)?;
    store(state, name.as_str(), Value::Array(all))
}

/// `list_append`: `list` with `item` behind its last item.
pub open spec fn plan_list_append(st: Seq<(Seq<char>, Json)>, task: Seq<(Seq<char>, Json)>) -> Planned {
    match list_field(task, "list"@) {
        Err(e) => Err(e),
        Ok(list) => match str_field(task, "output_name"@) {
            Err(e) => Err(e),
            Ok(name) => stored(st, name, Json::List(list.push(item_field(task, "item"@)))),
        },
    }
}

/// Carries out a `list_append`; see `plan_list_append`.
pub fn run_list_append(state: &mut State, task: &Task) -> (r: Result<Action, ExecError>)
    ensures
        planned(r, *final(state)) == plan_list_append(old(state)@, task@),
        r is Err ==> final(state)@ == old(state)@,
{
    let list = as_array(task, "list")?;
    let item = item_or_null(task, "item");
    let name = as_string(task, "output_name")?;
    store(state, name.as_str(), Value::Array(list_append(&list, item)))
}

/// `list_remove`: `list` without the first item that equals `item`.
pub open spec fn plan_list_remove(st: Seq<(Seq<char>, Json)>, task: Seq<(Seq<char>, Json)>) -> Planned {
    match list_field(task, "list"@) {
        Err(e) => Err(e),
        Ok(list) => match str_field(task, "output_name"@) {
            Err(e) => Err(e),
            Ok(name) => stored(
                st,
                name,
                Json::List(without_first(list, item_field(task, "item"@))),
            ),
        },
    }
}

/// Carries out a `list_remove`; see `plan_list_remove`.
pub fn run_list_remove(state: &mut State, task: &Task) -> (r: Result<Action, ExecError>)
    ensures
        planned(r, *final(state)) == plan_list_remove(old(state)@, task@),
        r is Err ==> final(state)@ == old(state)@,
{
    let list = as_array(task, "list")?;
    let item = item_or_null(task, "item");
    let name = as_string(task, "output_name")?;
    store(state, name.as_str(), Value::Array(list_remove(&list, &item)))
}

/// `set`: the insert `output_name` becomes `item`.
pub open spec fn plan_set(st: Seq<(Seq<char>, Json)>, task: Seq<(Seq<char>, Json)>) -> Planned {
    match str_field(task, "output_name"@) {
        Err(e) => Err(e),
        Ok(name) => stored(st, name, item_field(task, "item"@)),
    }
}

/// Carries out a `set`; see `plan_set`.
pub fn run_set(state: &mut State, task: &Task) -> (r: Result<Action, ExecError>)
    ensures
        planned(r, *final(state)) == plan_set(old(state)@, task@),
        r is Err ==> final(state)@ == old(state)@,
{
    let item = item_or_null(task, "item");
    let name = as_string(task, "output_name")?;
    store(state, name.as_str(), item)
}

/// `unescape`: the insert `output_name` becomes `item`, unescaped and then interpolated.
pub open spec fn plan_unescape(
    scope: Scope,
    st: Seq<(Seq<char>, Json)>,
    task: Seq<(Seq<char>, Json)>,
) -> Planned {
    match str_field(task, "output_name"@) {
        Err(e) => Err(e),
        Ok(name) => match deep_interpolate(scope, unescape_json(item_field(task, "item"@))) {
            Err(e) => Err(ExecError::Interpolation(e)),
            Ok(v) => stored(st, name, v),
        },
    }
}

/// Carries out an `unescape`; see `plan_unescape`.
pub fn run_unescape(
    state: &mut State,
    task: &Task,
    snapshot: &Object,
    ctx: &ProgramLoadContext,
    clock: &Clock,
) -> (r: Result<Action, ExecError>)
    ensures
        planned(r, *final(state)) == plan_unescape(
            scope_of(*snapshot, *ctx, *clock),
            old(state)@,
            task@,
        ),
        r is Err ==> final(state)@ == old(state)@,
{
    let item = item_or_null(task, "item");
    let name = as_string(task, "output_name")?;
    let unescaped = recode_value(&item, false);
    match deep_interpolate_value(snapshot, &unescaped, ctx, clock) {
        Ok(v) => store(state, name.as_str(), v),
        Err(e) => Err(ExecError::Interpolation(e)),
    }
}

/// `print`: `text`, its escaped braces as braces, is appended to the
/// output; it is left to the caller to show it.
pub open spec fn plan_print(st: Seq<(Seq<char>, Json)>, task: Seq<(Seq<char>, Json)>) -> Planned {
    match str_field(task, "text"@) {
        Err(e) => Err(e),
        Ok(text) => Ok(
            (
                with_output(st, output_of(st) + unescape_text(text)),
                ActionView::Print(unescape_text(text)),
            ),
        ),
    }
}

/// Carries out a `print`; see `plan_print`.
pub fn run_print(state: &mut State, task: &Task) -> (r: Result<Action, ExecError>)
    ensures
        planned(r, *final(state)) == plan_print(old(state)@, task@),
        r is Err ==> final(state)@ == old(state)@,
{
    let text = as_string(task, "text")?;
    let shown = crate::interp::recode_string(text.as_str(), false);
    state.append_output(shown.as_str());
    Ok(Action::Print(shown))
}

/// `clear`: the output is emptied; it is left to the caller to clear what is shown.
pub open spec fn plan_clear(st: Seq<(Seq<char>, Json)>) -> Planned {
    Ok((with_output(st, Seq::empty()), ActionView::Clear))
}

/// Carries out a `clear`; see `plan_clear`.
pub fn run_clear(state: &mut State) -> (r: Result<Action, ExecError>)
    ensures
        planned(r, *final(state)) == plan_clear(old(state)@),
        r is Ok,
{
    state.set_output(String::new());
    Ok(Action::Clear)
}

/// How a task that names the target `target` ends: `CONTINUE` is no jump.
pub open spec fn outcome_of(target: Seq<char>) -> Outcome {
    if target == "CONTINUE"@ {
        Outcome::Next
    } else {
        Outcome::Goto(target)
    }
}

/// How a task that names the target `target` ends.
pub fn outcome_for(target: String) -> (r: TaskOutcome)
    ensures
        r@ == outcome_of(target@),
{
    if same_text(target.as_str(), "CONTINUE") {
        TaskOutcome::Next
    } else {
        TaskOutcome::Goto(target)
    }
}

/// `goto`: the run goes on behind the label `name`, or with the next task where `name` is `CONTINUE`.
pub open spec fn plan_goto(st: Seq<(Seq<char>, Json)>, task: Seq<(Seq<char>, Json)>) -> Planned {
    match str_field(task, "name"@) {
        Err(e) => Err(e),
        Ok(target) => Ok((st, ActionView::Done(outcome_of(target)))),
    }
}

/// Carries out a `goto`; see `plan_goto`.
pub fn run_goto(state: &State, task: &Task) -> (r: Result<Action, ExecError>)
    ensures
        planned(r, *state) == plan_goto(state@, task@),
{
    let target = as_string(task, "name")?;
    Ok(Action::Done(outcome_for(target)))
}

/// `goto_map`: the run goes on behind the label that the first matching arm names.
pub open spec fn plan_goto_map(
    scope: Scope,
    st: Seq<(Seq<char>, Json)>,
    task: Seq<(Seq<char>, Json)>,
) -> Planned {
    match str_field(task, "text"@) {
        Err(e) => Err(e),
        Ok(text) => match list_field(task, "target_maps"@) {
            Err(e) => Err(e),
            Ok(maps) => match goto_target(scope, text, maps) {
                Err(e) => Err(e),
                Ok(target) => Ok((st, ActionView::Done(outcome_of(target)))),
            },
        },
    }
}

/// Carries out a `goto_map`; see `plan_goto_map`.
pub fn run_goto_map(
    state: &State,
    task: &Task,
    snapshot: &Object,
    ctx: &ProgramLoadContext,
    clock: &Clock,
) -> (r: Result<Action, ExecError>)
    ensures
        planned(r, *state) == plan_goto_map(scope_of(*snapshot, *ctx, *clock), state@, task@),
{
    let text = as_string(task, "text")?;
    let maps = as_array(task, "target_maps")?;
    let target = goto_map_target_at(snapshot, text.as_str(), &maps, ctx, clock)?;
    Ok(Action::Done(outcome_for(target)))
}

/// Whether `v` is `true`.
pub open spec fn is_true(v: Json) -> bool {
    v == Json::Bool(true)
}

/// `replace_map`: the insert `output_name` becomes `item` rewritten by the arms.
pub open spec fn plan_replace_map(
    scope: Scope,
    st: Seq<(Seq<char>, Json)>,
    task: Seq<(Seq<char>, Json)>,
) -> Planned {
    match str_field(task, "output_name"@) {
        Err(e) => Err(e),
        Ok(name) => match list_field(task, "wildcard_maps"@) {
            Err(e) => Err(e),
            Ok(maps) => match replace_json(
                scope,
                maps,
                item_field(task, "item"@),
                is_true(item_field(task, "repeat_until_done"@)),
            ) {
                Err(e) => Err(e),
                Ok(v) => stored(st, name, v),
            },
        },
    }
}

/// Carries out a `replace_map`; see `plan_replace_map`.
pub fn run_replace_map(
    state: &mut State,
    task: &Task,
    snapshot: &Object,
    ctx: &ProgramLoadContext,
    clock: &Clock,
) -> (r: Result<Action, ExecError>)
    ensures
        planned(r, *final(state)) == plan_replace_map(
            scope_of(*snapshot, *ctx, *clock),
            old(state)@,
            task@,
        ),
        r is Err ==> final(state)@ == old(state)@,
{
    let item = item_or_null(task, "item");
    let name = as_string(task, "output_name")?;
    let maps = as_array(task, "wildcard_maps")?;
    let repeat = match task.get("repeat_until_done") {
        Some(Value::Bool(b)) => *b,
        _ => false,
    };
    let v = replace_map_at(&item, &maps, snapshot, ctx, clock, repeat)?;
    store(state, name.as_str(), v)
}

/// Whether one of `wildcards` at or after `from`, taken as text, matches `key`.
pub open spec fn matches_any(wildcards: Seq<Json>, key: Seq<char>, from: int) -> bool
    decreases wildcards.len() - from,
{
    if from < 0 || from >= wildcards.len() {
        false
    } else {
        wildcard_matches(render(wildcards[from]), key) || matches_any(wildcards, key, from + 1)
    }
}

/// The members of `inserts` that stay: those that no wildcard matches, or,
/// where `except` holds, those that some wildcard matches.
pub open spec fn kept(inserts: Seq<(Seq<char>, Json)>, wildcards: Seq<Json>, except: bool) -> Seq<
    (Seq<char>, Json),
>
    decreases inserts.len(),
{
    if inserts.len() == 0 {
        Seq::empty()
    } else {
        let front = kept(inserts.take(inserts.len() - 1), wildcards, except);
        let last = inserts[inserts.len() - 1];
        if matches_any(wildcards, last.0, 0) == except {
            front.push(last)
        } else {
            front
        }
    }
}

/// `delete` removes the inserts whose keys a wildcard matches;
/// `delete_except` removes all others.
pub open spec fn plan_delete(
    st: Seq<(Seq<char>, Json)>,
    task: Seq<(Seq<char>, Json)>,
    except: bool,
) -> Planned {
    match list_field(task, "wildcards"@) {
        Err(e) => Err(e),
        Ok(wildcards) => Ok(
            (
                with_inserts_of(st, kept(inserts_of(st), wildcards, except)),
                ActionView::Done(Outcome::Next),
            ),
        ),
    }
}

fn matches_any_wildcard(wildcards: &Vec<Value>, key: &Vec<char>) -> (r: bool)
    ensures
        r == matches_any(list_view(wildcards@), key@, 0),
{
    let ghost items = list_view(wildcards@);
    proof {
        lemma_list_view(wildcards@);
    }
    let mut i: usize = 0;
    while i < wildcards.len()
        invariant
            i <= wildcards.len(),
            items == list_view(wildcards@),
            items.len() == wildcards@.len(),
            forall|k: int| 0 <= k < items.len() ==> items[k] == wildcards@[k]@,
            matches_any(items, key@, 0) == matches_any(items, key@, i as int),
        decreases wildcards.len() - i,
    {
        let mut pattern: Vec<char> = Vec::new();
        crate::value::push_rendered(&mut pattern, &wildcards[i]);
        if wildcard_match_chars(&pattern, key) {
            return true;
        }
        i += 1;
    }
    false
}

/// Carries out a `delete` or, where `except` holds, a `delete_except`; see `plan_delete`.
pub fn run_delete(state: &mut State, task: &Task, except: bool) -> (r: Result<Action, ExecError>)
    ensures
        planned(r, *final(state)) == plan_delete(old(state)@, task@, except),
        r is Err ==> final(state)@ == old(state)@,
{
    let wildcards = as_array(task, "wildcards")?;
    let inserts = state.inserts();
    let ghost d = inserts@;
    let mut out = Object::new();
    let mut i: usize = 0;
    proof {
        lemma_dict_view(inserts.entries@);
        lemma_dict_view(out.entries@);
        assert(d.take(0) == Seq::<(Seq<char>, Json)>::empty());
    }
    while i < inserts.entries.len()
        invariant
            i <= inserts.entries.len(),
            d == inserts@,
            d.len() == inserts.entries@.len(),
            forall|k: int|
                0 <= k < d.len() ==> d[k] == (inserts.entries@[k].0@, inserts.entries@[k].1@),
            out@ == kept(d.take(i as int), list_view(wildcards@), except),
        decreases inserts.entries.len() - i,
    {
        let key = chars_of(inserts.entries[i].0.as_str());
        assert(d.take(i + 1).take(i as int) == d.take(i as int));
        if matches_any_wildcard(&wildcards, &key) == except {
            let ghost before = out.entries@;
            out.entries.push((inserts.entries[i].0.clone(), inserts.entries[i].1.clone()));
            proof {
                lemma_dict_view(out.entries@);
                lemma_dict_view(before);
                assert(out.entries@.take(out.entries@.len() - 1) == before);
            }
        }
        i += 1;
    }
    assert(d.take(d.len() as int) == d);
    state.set_inserts(out);
    Ok(Action::Done(TaskOutcome::Next))
}

/// What `write` writes for `item`: a string as it is, a number or a truth
/// value as its text, anything else as JSON; with escaped braces as braces.
pub open spec fn write_content(item: Json) -> Seq<char> {
    let v = unescape_json(item);
    match v {
        Json::Text(_) | Json::Int(_) | Json::Real(_) | Json::Bool(_) => render(v),
        _ => json_text(v),
    }
}

/// What `write` writes for `item`.
pub fn content_to_write(item: &Value) -> (s: String)
    ensures
        s@ == write_content(item@),
{
    let v = recode_value(item, false);
    match &v {
        Value::String(_) | Value::Number(_) | Value::Bool(_) => crate::value::value_to_string(&v),
        _ => crate::value::to_json_string(&v),
    }
}

} // verus!
