//! Where a run stands in a list of tasks. Cursors count from 1 and live in
//! the state, so that a saved state resumes where it was saved. A `goto`
//! looks for its label in the list that its task stands in, and nowhere else.

use crate::action::{Outcome, TaskOutcome};
use crate::commands::outcome_of;
use crate::error::ExecError;
use crate::fields::tasks_view;
use crate::interp::text_field;
use crate::model::Task;
use crate::state::{with_insert, State};
use crate::text::{append_chars, chars_of, same_text, starts_with, string_of};
use crate::value::{
    dict_get, int_text, lemma_dict_view, lemma_list_view, nat_text, push_int, push_nat, Json,
    Number, Object, Value,
};
use vstd::prelude::*;

verus! {

/// `task` is the label `name`.
pub open spec fn is_label(task: Seq<(Seq<char>, Json)>, name: Seq<char>) -> bool {
    text_field(task, "cmd"@) == Some("label"@) && text_field(task, "name"@) == Some(name)
}

/// The place of the first label `name` at or after `from` in `tasks`, or `tasks.len()`.
pub open spec fn label_position(tasks: Seq<Seq<(Seq<char>, Json)>>, name: Seq<char>, from: int) -> int
    decreases tasks.len() - from,
{
    if from < 0 || from >= tasks.len() {
        tasks.len() as int
    } else if is_label(tasks[from], name) {
        from
    } else {
        label_position(tasks, name, from + 1)
    }
}

/// `x`, or the greatest cursor where `x` is beyond it.
pub open spec fn clip(x: int) -> int {
    if x > i64::MAX {
        i64::MAX as int
    } else {
        x
    }
}

/// The cursor after the task at `cursor` ended with `outcome`: the next
/// task, or the task behind the label that `outcome` names, which must
/// stand in `tasks`.
pub open spec fn next_cursor(tasks: Seq<Seq<(Seq<char>, Json)>>, cursor: int, outcome: Outcome) -> Result<
    int,
    ExecError,
> {
    match outcome {
        Outcome::Next => Ok(clip(cursor + 1)),
        Outcome::Goto(target) => {
            let p = label_position(tasks, target, 0);
            if p < tasks.len() {
                Ok(clip(p + 2))
            } else {
                Err(ExecError::LabelNotFound)
            }
        },
    }
}

fn is_label_task(task: &Task, name: &str) -> (r: bool)
    ensures
        r == is_label(task@, name@),
{
    let is_label_cmd = match task.get("cmd") {
        Some(Value::String(c)) => same_text(c.as_str(), "label"),
        _ => false,
    };
    if !is_label_cmd {
        return false;
    }
    match task.get("name") {
        Some(Value::String(n)) => same_text(n.as_str(), name),
        _ => false,
    }
}

/// The place of the label `target` in `tasks`.
pub fn find_label_index(tasks: &Vec<Task>, target: &str) -> (r: Result<usize, ExecError>)
    ensures
        match r {
            Ok(i) => i == label_position(tasks_view(tasks@), target@, 0) && i < tasks.len()
                && is_label(tasks@[i as int]@, target@),
            Err(e) => e == ExecError::LabelNotFound && label_position(
                tasks_view(tasks@),
                target@,
                0,
            ) == tasks.len(),
        },
{
    let ghost tv = tasks_view(tasks@);
    let mut i: usize = 0;
    while i < tasks.len()
        invariant
            i <= tasks.len(),
            tv == tasks_view(tasks@),
            label_position(tv, target@, 0) == label_position(tv, target@, i as int),
        decreases tasks.len() - i,
    {
        if is_label_task(&tasks[i], target) {
            return Ok(i);
        }
        i += 1;
    }
    Err(ExecError::LabelNotFound)
}

/// The cursor after the task at `cursor` of `tasks` ended with `outcome`.
pub fn advance_cursor(tasks: &Vec<Task>, cursor: i64, outcome: &TaskOutcome) -> (r: Result<
    i64,
    ExecError,
>)
    ensures
        match r {
            Ok(c) => next_cursor(tasks_view(tasks@), cursor as int, outcome@) == Ok::<int, ExecError>(
                c as int,
            ),
            Err(e) => next_cursor(tasks_view(tasks@), cursor as int, outcome@) == Err::<
                int,
                ExecError,
            >(e),
        },
{
    match outcome {
        TaskOutcome::Next => {
            if cursor == i64::MAX {
                Ok(i64::MAX)
            } else {
                Ok(cursor + 1)
            }
        },
        TaskOutcome::Goto(target) => {
            let p = find_label_index(tasks, target.as_str())?;
            let next: u128 = p as u128 + 2;
            if next > i64::MAX as u128 {
                Ok(i64::MAX)
            } else {
                Ok(next as i64)
            }
        },
    }
}

/// The task that `cursor` points at: none where the cursor is behind the
/// last task, a failure where it is before the first.
pub fn current_task(tasks: &Vec<Task>, cursor: i64) -> (r: Result<Option<&Task>, ExecError>)
    ensures
        match r {
            Ok(Some(t)) => 1 <= cursor <= tasks.len() && *t == tasks@[cursor - 1],
            Ok(None) => cursor > tasks.len(),
            Err(e) => e == ExecError::BadCursor && cursor < 1,
        },
{
    if cursor < 1 {
        return Err(ExecError::BadCursor);
    }
    if cursor as u128 > tasks.len() as u128 {
        return Ok(None);
    }
    Ok(Some(&tasks[(cursor - 1) as usize]))
}

/// The command of `task` as a label shows it: `task` where it names none.
pub open spec fn command_name(task: Seq<(Seq<char>, Json)>) -> Seq<char> {
    match text_field(task, "cmd"@) {
        Some(c) => c,
        None => "task"@,
    }
}

/// The label of `task`: its command, a colon, and its line, or `fallback` where it has none.
pub open spec fn task_label_text(task: Seq<(Seq<char>, Json)>, fallback: nat) -> Seq<char> {
    command_name(task) + seq![':'] + match dict_get(task, "line"@) {
        Some(Json::Int(line)) => int_text(line),
        _ => nat_text(fallback),
    }
}

/// The label of a task that runs under `runtime_label`.
pub open spec fn child_label_text(
    runtime_label: Seq<char>,
    task: Seq<(Seq<char>, Json)>,
    fallback: nat,
) -> Seq<char> {
    runtime_label + seq!['/'] + task_label_text(task, fallback)
}

/// The key under which the cursor of the list that runs under `runtime_label` is kept.
pub open spec fn cursor_key(runtime_label: Seq<char>) -> Seq<char> {
    "order_index/"@ + runtime_label
}

/// The key under which the counter of the `for` that runs under `runtime_label` is kept.
pub open spec fn counter_key(runtime_label: Seq<char>) -> Seq<char> {
    "order_index/"@ + runtime_label + "/counter"@
}

/// The label of `task`.
pub fn task_label(task: &Task, fallback_index: usize) -> (r: String)
    ensures
        r@ == task_label_text(task@, fallback_index as nat),
{
    let mut out = match task.get("cmd") {
        Some(Value::String(c)) => chars_of(c.as_str()),
        _ => chars_of("task"),
    };
    out.push(':');
    match task.get("line") {
        Some(Value::Number(Number::Int(line))) => {
            push_int(&mut out, *line);
        },
        _ => {
            push_nat(&mut out, fallback_index as u64);
        },
    }
    string_of(&out)
}

/// The label of the task `task` that runs under `runtime_label` as number `index` of its list.
pub fn child_label(runtime_label: &str, task: &Task, index: usize) -> (r: String)
    ensures
        r@ == child_label_text(runtime_label@, task@, index as nat),
{
    let mut out = chars_of(runtime_label);
    out.push('/');
    let label = task_label(task, index);
    let tail = chars_of(label.as_str());
    append_chars(&mut out, &tail);
    string_of(&out)
}

/// The key under which the cursor of the list that runs under `runtime_label` is kept.
pub fn cursor_label(runtime_label: &str) -> (r: String)
    ensures
        r@ == cursor_key(runtime_label@),
{
    let mut out = chars_of("order_index/");
    let tail = chars_of(runtime_label);
    append_chars(&mut out, &tail);
    string_of(&out)
}

/// The key under which the counter of the `for` that runs under `runtime_label` is kept.
pub fn counter_label(runtime_label: &str) -> (r: String)
    ensures
        r@ == counter_key(runtime_label@),
{
    let mut out = chars_of("order_index/");
    let tail = chars_of(runtime_label);
    append_chars(&mut out, &tail);
    let end = chars_of("/counter");
    append_chars(&mut out, &end);
    string_of(&out)
}

/// The members of `d` whose keys do not begin with `prefix`.
pub open spec fn without_prefixed(d: Seq<(Seq<char>, Json)>, prefix: Seq<char>) -> Seq<
    (Seq<char>, Json),
>
    decreases d.len(),
{
    if d.len() == 0 {
        Seq::empty()
    } else {
        let front = without_prefixed(d.take(d.len() - 1), prefix);
        let last = d[d.len() - 1];
        if prefix.is_prefix_of(last.0) {
            front
        } else {
            front.push(last)
        }
    }
}

/// Forgets every cursor whose key begins with `prefix`, so that the lists
/// under it begin afresh when they run again.
pub fn clear_order_indices(state: &mut State, prefix: &str)
    ensures
        final(state)@ == without_prefixed(old(state)@, prefix@),
{
    let p = chars_of(prefix);
    let ghost d = state@;
    let mut out: Vec<(String, Value)> = Vec::new();
    let mut i: usize = 0;
    proof {
        lemma_dict_view(state.data.entries@);
        lemma_dict_view(out@);
        assert(d.take(0) == Seq::<(Seq<char>, Json)>::empty());
    }
    while i < state.data.entries.len()
        invariant
            i <= state.data.entries.len(),
            p@ == prefix@,
            d == state@,
            *state == *old(state),
            d.len() == state.data.entries@.len(),
            forall|k: int|
                0 <= k < d.len() ==> d[k] == (state.data.entries@[k].0@, state.data.entries@[k].1@),
            crate::value::dict_view(out@) == without_prefixed(d.take(i as int), prefix@),
        decreases state.data.entries.len() - i,
    {
        let key = chars_of(state.data.entries[i].0.as_str());
        assert(d.take(i + 1).take(i as int) == d.take(i as int));
        if !starts_with(&key, &p) {
            let ghost before = out@;
            out.push((state.data.entries[i].0.clone(), state.data.entries[i].1.clone()));
            proof {
                lemma_dict_view(out@);
                lemma_dict_view(before);
                assert(out@.take(out@.len() - 1) == before);
            }
        }
        i += 1;
    }
    assert(d.take(d.len() as int) == d);
    state.data = Object { entries: out };
}

/// The state `st` with, for each list from `from` on, the item at `place`
/// bound to the name of the list.
pub open spec fn bound_items(
    st: Seq<(Seq<char>, Json)>,
    names: Seq<Seq<char>>,
    lists: Seq<Seq<Json>>,
    place: int,
    from: int,
) -> Seq<(Seq<char>, Json)>
    decreases names.len() - from,
{
    if from < 0 || from >= names.len() {
        st
    } else {
        bound_items(with_insert(st, names[from], lists[from][place]), names, lists, place, from + 1)
    }
}

/// Binds, for round `counter` of a `for`, the item of each list at that
/// place to the name of the list. The round must be one of the lists' places.
pub fn bind_iteration(
    state: &mut State,
    names: &Vec<String>,
    lists: &Vec<Vec<Value>>,
    counter: i64,
) -> (r: Result<(), ExecError>)
    ensures
        match r {
            Ok(_) => final(state)@ == bound_items(
                old(state)@,
                crate::model::texts_of(names@),
                crate::action::lists_view(lists@),
                counter - 1,
                0,
            ),
            Err(e) => e == ExecError::BadCursor && final(state)@ == old(state)@ && (counter < 1
                || names.len() != lists.len() || exists|k: int|
                0 <= k < lists.len() && counter > (#[trigger] lists@[k]).len()),
        },
{
    if counter < 1 || names.len() != lists.len() {
        return Err(ExecError::BadCursor);
    }
    let mut k: usize = 0;
    while k < lists.len()
        invariant
            k <= lists.len(),
            counter >= 1,
            names.len() == lists.len(),
            forall|q: int| 0 <= q < k ==> counter <= (#[trigger] lists@[q]).len(),
        decreases lists.len() - k,
    {
        if counter as u128 > lists[k].len() as u128 {
            return Err(ExecError::BadCursor);
        }
        k += 1;
    }
    if names.len() == 0 {
        return Ok(());
    }
    assert(counter <= lists@[0].len());
    let place = (counter - 1) as usize;
    let ghost nv = crate::model::texts_of(names@);
    let ghost lv = crate::action::lists_view(lists@);
    let mut i: usize = 0;
    while i < names.len()
        invariant
            i <= names.len(),
            names.len() == lists.len(),
            place == counter - 1,
            nv == crate::model::texts_of(names@),
            lv == crate::action::lists_view(lists@),
            forall|q: int| 0 <= q < lists.len() ==> place < (#[trigger] lists@[q]).len(),
            bound_items(old(state)@, nv, lv, place as int, 0) == bound_items(
                state@,
                nv,
                lv,
                place as int,
                i as int,
            ),
        decreases names.len() - i,
    {
        proof {
            lemma_list_view(lists@[i as int]@);
        }
        state.set_insert(names[i].as_str(), lists[i][place].clone());
        i += 1;
    }
    Ok(())
}

/// A `goto` finds its label in its own list of tasks or fails: the cursor
/// moves behind the first label of that name in `tasks`, and there is a
/// failure just when `tasks` holds no such label.
pub proof fn lemma_label_scope(tasks: Seq<Seq<(Seq<char>, Json)>>, cursor: int, name: Seq<char>)
    ensures
        next_cursor(tasks, cursor, Outcome::Goto(name)) is Ok <==> exists|i: int|
            0 <= i < tasks.len() && is_label(#[trigger] tasks[i], name),
        next_cursor(tasks, cursor, Outcome::Goto(name)) is Err ==> next_cursor(
            tasks,
            cursor,
            Outcome::Goto(name),
        ) == Err::<int, ExecError>(ExecError::LabelNotFound),
        next_cursor(tasks, cursor, Outcome::Goto(name)) is Ok ==> {
            let p = label_position(tasks, name, 0);
            &&& next_cursor(tasks, cursor, Outcome::Goto(name)) == Ok::<int, ExecError>(clip(p + 2))
            &&& 0 <= p < tasks.len()
            &&& is_label(tasks[p], name)
            &&& forall|j: int| 0 <= j < p ==> !is_label(#[trigger] tasks[j], name)
        },
{
    lemma_label_position(tasks, name, 0);
}

/// `label_position` is the place of the first label of that name.
pub proof fn lemma_label_position(tasks: Seq<Seq<(Seq<char>, Json)>>, name: Seq<char>, from: int)
    requires
        0 <= from <= tasks.len(),
    ensures
        from <= label_position(tasks, name, from) <= tasks.len(),
        label_position(tasks, name, from) < tasks.len() ==> is_label(
            tasks[label_position(tasks, name, from)],
            name,
        ),
        forall|j: int|
            from <= j < label_position(tasks, name, from) ==> !is_label(#[trigger] tasks[j], name),
    decreases tasks.len() - from,
{
    if from < tasks.len() && !is_label(tasks[from], name) {
        lemma_label_position(tasks, name, from + 1);
    }
}

/// The target `CONTINUE` is no jump: after a task that names it, the run
/// goes on with the next task.
pub proof fn lemma_continue_is_inert(tasks: Seq<Seq<(Seq<char>, Json)>>, cursor: int)
    ensures
        next_cursor(tasks, cursor, outcome_of("CONTINUE"@)) == Ok::<int, ExecError>(clip(cursor + 1)),
{
}

} // verus!
