//! What the menu does to the state: saving it to a slot, loading it from
//! one, and beginning afresh after the program was loaded again. The
//! arguments that the program was started with stay through all of it.

use crate::interp::{escape_text, is_argument_key, recode_string};
use crate::model::Program;
use crate::state::{
    cursor_of, initial_state, inserts_of, output_of, with_insert, with_inserts_of, State,
};
use crate::text::{chars_of, string_of};
use crate::value::{
    dict_get, dict_set, lemma_dict_set_get, lemma_dict_view, nat_text, push_nat, Json, Object,
    Value,
};
use vstd::prelude::*;

verus! {

/// The number of slots that states can be saved to.
pub const SLOT_COUNT: usize = 9;

/// A slot as the menu shows it.
pub struct Slot {
    pub label: String,
    pub data: Object,
    pub is_empty: bool,
}

/// The model of a `Slot`.
pub struct SlotView {
    pub label: Seq<char>,
    pub data: Seq<(Seq<char>, Json)>,
    pub is_empty: bool,
}

impl View for Slot {
    type V = SlotView;

    open spec fn view(&self) -> SlotView {
        SlotView { label: self.label@, data: self.data@, is_empty: self.is_empty }
    }
}

/// The slot of number `number` as `save_states` holds it: a saved state
/// under its label, or an empty slot.
pub open spec fn slot_of(save_states: Seq<(Seq<char>, Json)>, number: nat) -> SlotView {
    match dict_get(save_states, nat_text(number)) {
        Some(Json::Dict(data)) => SlotView {
            label: match dict_get(data, "label"@) {
                Some(Json::Text(l)) => l,
                _ => "(Unlabelled Slot)"@,
            },
            data,
            is_empty: false,
        },
        _ => SlotView { label: "(Empty Slot)"@, data: Seq::empty(), is_empty: true },
    }
}

/// The slots of the program, the first at place 0.
pub fn collect_slots(save_states: &Object) -> (slots: Vec<Slot>)
    ensures
        slots@.len() == SLOT_COUNT,
        forall|i: int| 0 <= i < SLOT_COUNT ==> (#[trigger] slots@[i])@ == slot_of(
            save_states@,
            (i + 1) as nat,
        ),
{
    let mut slots: Vec<Slot> = Vec::new();
    let mut i: usize = 0;
    while i < SLOT_COUNT
        invariant
            i <= SLOT_COUNT,
            slots@.len() == i,
            forall|k: int| 0 <= k < i ==> (#[trigger] slots@[k])@ == slot_of(
                save_states@,
                (k + 1) as nat,
            ),
        decreases SLOT_COUNT - i,
    {
        let mut key: Vec<char> = Vec::new();
        push_nat(&mut key, (i + 1) as u64);
        let name = string_of(&key);
        let slot = match save_states.get(name.as_str()) {
            Some(Value::Object(data)) => Slot {
                label: match data.get("label") {
                    Some(Value::String(l)) => l.clone(),
                    _ => "(Unlabelled Slot)".to_owned(),
                },
                data: data.clone(),
                is_empty: false,
            },
            _ => Slot { label: "(Empty Slot)".to_owned(), data: Object::new(), is_empty: true },
        };
        slots.push(slot);
        i += 1;
    }
    slots
}

/// The state `st` as it is saved under `label`.
pub open spec fn saved_state(st: Seq<(Seq<char>, Json)>, label: Seq<char>) -> Seq<(Seq<char>, Json)> {
    dict_set(st, "label"@, Json::Text(label))
}

/// Saves `state` under `label` to the slot at place `place`, the first
/// slot being at place 0.
pub fn save_state(program: &mut Program, state: &State, place: usize, label: &str)
    requires
        place < SLOT_COUNT,
    ensures
        final(program).save_states@ == dict_set(
            old(program).save_states@,
            nat_text((place + 1) as nat),
            Json::Dict(saved_state(state@, label@)),
        ),
        final(program).default_state == old(program).default_state,
        final(program).order == old(program).order,
        final(program).named_tasks == old(program).named_tasks,
        final(program).completion_args == old(program).completion_args,
{
    let mut saved = state.data.clone();
    saved.insert("label".to_owned(), Value::String(label.to_owned()));
    let mut key: Vec<char> = Vec::new();
    push_nat(&mut key, (place + 1) as u64);
    program.save_states.insert(string_of(&key), Value::Object(saved));
}

/// `inserts` with the arguments among the members of `from` at or after
/// place `i` bound as they are there.
pub open spec fn with_arguments(
    inserts: Seq<(Seq<char>, Json)>,
    from: Seq<(Seq<char>, Json)>,
    i: int,
) -> Seq<(Seq<char>, Json)>
    decreases from.len() - i,
{
    if i < 0 || i >= from.len() {
        inserts
    } else if is_argument_key(from[i].0) {
        with_arguments(dict_set(inserts, from[i].0, from[i].1), from, i + 1)
    } else {
        with_arguments(inserts, from, i + 1)
    }
}

/// The state that a run goes on in after `data` was put in place of the
/// state `current`: `data`, with an output, and with the arguments of `current`.
pub open spec fn restored_state(current: Seq<(Seq<char>, Json)>, data: Seq<(Seq<char>, Json)>) -> Seq<
    (Seq<char>, Json),
> {
    let base = initial_state(data);
    with_inserts_of(base, with_arguments(inserts_of(base), inserts_of(current), 0))
}

fn restore(state: &mut State, data: &Object)
    ensures
        final(state)@ == restored_state(old(state)@, data@),
{
    let current = state.inserts();
    let mut next = State::from_default(data);
    let mut inserts = next.inserts();
    let ghost from = current@;
    let ghost start = inserts@;
    proof {
        lemma_dict_view(current.entries@);
    }
    let mut i: usize = 0;
    while i < current.entries.len()
        invariant
            i <= current.entries.len(),
            from == current@,
            from.len() == current.entries@.len(),
            forall|k: int|
                0 <= k < from.len() ==> from[k] == (current.entries@[k].0@, current.entries@[k].1@),
            with_arguments(start, from, 0) == with_arguments(inserts@, from, i as int),
        decreases current.entries.len() - i,
    {
        let key = chars_of(current.entries[i].0.as_str());
        if crate::interp::is_argument_key_chars(&key) {
            inserts.insert(current.entries[i].0.clone(), current.entries[i].1.clone());
        }
        i += 1;
    }
    next.set_inserts(inserts);
    *state = next;
}

/// Loads the state of `slot`. An empty slot cannot be loaded: the state
/// stays as it is and `false` is returned.
pub fn load_state(state: &mut State, slot: &Slot) -> (loaded: bool)
    ensures
        loaded == !slot.is_empty,
        final(state)@ == if slot.is_empty {
            old(state)@
        } else {
            restored_state(old(state)@, slot.data@)
        },
{
    if slot.is_empty {
        return false;
    }
    restore(state, &slot.data);
    true
}

/// Begins afresh in the state `default_state` of a program that was loaded again.
pub fn reload_state(state: &mut State, default_state: &Object)
    ensures
        final(state)@ == restored_state(old(state)@, default_state@),
{
    restore(state, default_state);
}

/// The state `st` with the arguments `args` from place `i` on: argument
/// number `n`, counted from 1, is the insert `ARG` and `n`, with every brace escaped.
pub open spec fn with_program_arguments(st: Seq<(Seq<char>, Json)>, args: Seq<Seq<char>>, i: int) -> Seq<
    (Seq<char>, Json),
>
    decreases args.len() - i,
{
    if i < 0 || i >= args.len() {
        st
    } else {
        with_program_arguments(
            with_insert(
                st,
                seq!['A', 'R', 'G'] + nat_text((i + 1) as nat),
                Json::Text(escape_text(args[i])),
            ),
            args,
            i + 1,
        )
    }
}

/// Puts the arguments that the program was started with into the inserts.
pub fn inject_arguments(state: &mut State, args: &Vec<String>)
    ensures
        final(state)@ == with_program_arguments(old(state)@, crate::model::texts_of(args@), 0),
{
    let ghost texts = crate::model::texts_of(args@);
    let mut i: usize = 0;
    while i < args.len()
        invariant
            i <= args.len(),
            texts == crate::model::texts_of(args@),
            with_program_arguments(old(state)@, texts, 0) == with_program_arguments(
                state@,
                texts,
                i as int,
            ),
        decreases args.len() - i,
    {
        let mut key: Vec<char> = Vec::new();
        key.push('A');
        key.push('R');
        key.push('G');
        push_nat(&mut key, (i + 1) as u64);
        assert(key@ =~= seq!['A', 'R', 'G'] + nat_text((i + 1) as nat));
        let escaped = recode_string(args[i].as_str(), true);
        state.set_insert(string_of(&key).as_str(), Value::String(escaped));
        i += 1;
    }
}

/// Putting arguments in place changes no insert that is no argument.
pub proof fn lemma_arguments_keep_others(
    inserts: Seq<(Seq<char>, Json)>,
    from: Seq<(Seq<char>, Json)>,
    i: int,
    key: Seq<char>,
)
    requires
        !is_argument_key(key),
    ensures
        dict_get(with_arguments(inserts, from, i), key) == dict_get(inserts, key),
    decreases from.len() - i,
{
    if 0 <= i < from.len() {
        if is_argument_key(from[i].0) {
            lemma_dict_set_get(inserts, from[i].0, from[i].1, key);
            lemma_arguments_keep_others(dict_set(inserts, from[i].0, from[i].1), from, i + 1, key);
        } else {
            lemma_arguments_keep_others(inserts, from, i + 1, key);
        }
    }
}

/// A state that is saved and then loaded is the state that was saved: the
/// cursor of the program and every other cursor, the output, and every
/// insert that is no argument are as they were when it was saved, whatever
/// the state `current` that it is loaded into.
pub proof fn lemma_save_then_load(
    st: Seq<(Seq<char>, Json)>,
    current: Seq<(Seq<char>, Json)>,
    label: Seq<char>,
    key: Seq<char>,
)
    ensures
        ({
            let loaded = restored_state(current, saved_state(st, label));
            &&& cursor_of(loaded, "order_index"@) == cursor_of(st, "order_index"@)
            &&& output_of(loaded) == output_of(st)
            &&& key != "label"@ && key != "inserts"@ && key != "output"@ ==> dict_get(loaded, key)
                == dict_get(st, key)
            &&& !is_argument_key(key) ==> dict_get(inserts_of(loaded), key) == dict_get(
                inserts_of(st),
                key,
            )
        }),
{
    reveal_strlit("order_index");
    reveal_strlit("label");
    reveal_strlit("inserts");
    reveal_strlit("output");
    let saved = saved_state(st, label);
    let base = initial_state(saved);
    let args = with_arguments(inserts_of(base), inserts_of(current), 0);
    let loaded = with_inserts_of(base, args);
    assert("order_index"@.len() == 11);
    assert("label"@.len() == 5);
    assert("inserts"@.len() == 7);
    assert("output"@.len() == 6);
    lemma_dict_set_get(st, "label"@, Json::Text(label), "order_index"@);
    lemma_dict_set_get(st, "label"@, Json::Text(label), "output"@);
    lemma_dict_set_get(st, "label"@, Json::Text(label), "inserts"@);
    lemma_dict_set_get(st, "label"@, Json::Text(label), key);
    lemma_dict_set_get(saved, "output"@, Json::Text(Seq::empty()), "order_index"@);
    lemma_dict_set_get(saved, "output"@, Json::Text(Seq::empty()), "inserts"@);
    lemma_dict_set_get(saved, "output"@, Json::Text(Seq::empty()), "output"@);
    lemma_dict_set_get(saved, "output"@, Json::Text(Seq::empty()), key);
    lemma_dict_set_get(base, "inserts"@, Json::Dict(args), "order_index"@);
    lemma_dict_set_get(base, "inserts"@, Json::Dict(args), "output"@);
    lemma_dict_set_get(base, "inserts"@, Json::Dict(args), key);
    assert(inserts_of(base) == inserts_of(st));
    assert(inserts_of(loaded) == args);
    if !is_argument_key(key) {
        lemma_arguments_keep_others(inserts_of(base), inserts_of(current), 0, key);
    }
}

} // verus!
