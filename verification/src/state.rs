//! The state of a run: the inserts, the output so far, and the cursors that
//! say where the run stands. All of it is kept in one object, so that a
//! saved state holds everything that a run resumes from.

use crate::text::{append_chars, chars_of, string_of};
use crate::value::{
    dict_get, dict_has, dict_remove, dict_set, lemma_dict_position, Json, Number, Object, Value,
};
use vstd::prelude::*;

verus! {

/// The state of a run, all of it in one object.
pub struct State {
    pub data: Object,
}

impl View for State {
    type V = Seq<(Seq<char>, Json)>;

    open spec fn view(&self) -> Seq<(Seq<char>, Json)> {
        self.data@
    }
}

/// The state holds its inserts, and they are an object.
pub open spec fn has_inserts(d: Seq<(Seq<char>, Json)>) -> bool {
    match dict_get(d, "inserts"@) {
        Some(Json::Dict(_)) => true,
        _ => false,
    }
}

/// The inserts of the state `d`.
pub open spec fn inserts_of(d: Seq<(Seq<char>, Json)>) -> Seq<(Seq<char>, Json)> {
    match dict_get(d, "inserts"@) {
        Some(Json::Dict(m)) => m,
        _ => Seq::empty(),
    }
}

/// The state `d` with other inserts.
pub open spec fn with_inserts_of(d: Seq<(Seq<char>, Json)>, inserts: Seq<(Seq<char>, Json)>) -> Seq<
    (Seq<char>, Json),
> {
    dict_set(d, "inserts"@, Json::Dict(inserts))
}

/// The state `d` with the insert `key` bound to `v`.
pub open spec fn with_insert(d: Seq<(Seq<char>, Json)>, key: Seq<char>, v: Json) -> Seq<
    (Seq<char>, Json),
> {
    with_inserts_of(d, dict_set(inserts_of(d), key, v))
}

/// The state `d` without the insert `key`.
pub open spec fn without_insert(d: Seq<(Seq<char>, Json)>, key: Seq<char>) -> Seq<
    (Seq<char>, Json),
> {
    with_inserts_of(d, dict_remove(inserts_of(d), key))
}

/// The output of the state `d`: empty where it holds none.
pub open spec fn output_of(d: Seq<(Seq<char>, Json)>) -> Seq<char> {
    match dict_get(d, "output"@) {
        Some(Json::Text(s)) => s,
        _ => Seq::empty(),
    }
}

/// The state `d` with the output `text`.
pub open spec fn with_output(d: Seq<(Seq<char>, Json)>, text: Seq<char>) -> Seq<(Seq<char>, Json)> {
    dict_set(d, "output"@, Json::Text(text))
}

/// The cursor that the state `d` holds under `key`: 1 where it holds none.
pub open spec fn cursor_of(d: Seq<(Seq<char>, Json)>, key: Seq<char>) -> int {
    match dict_get(d, key) {
        Some(Json::Int(i)) => i,
        _ => 1,
    }
}

/// The state that a run begins in: `d`, with an empty output where `d` has none.
pub open spec fn initial_state(d: Seq<(Seq<char>, Json)>) -> Seq<(Seq<char>, Json)> {
    if dict_has(d, "output"@) {
        d
    } else {
        with_output(d, Seq::empty())
    }
}

impl State {
    /// The state that a run begins in.
    pub fn from_default(default_state: &Object) -> (s: State)
        ensures
            s@ == initial_state(default_state@),
    {
        let mut data = default_state.clone();
        if !data.contains_key("output") {
            data.insert("output".to_owned(), Value::String(String::new()));
        }
        State { data }
    }

    /// Whether the state holds its inserts.
    pub fn is_well_formed(&self) -> (r: bool)
        ensures
            r == has_inserts(self@),
    {
        match self.data.get("inserts") {
            Some(Value::Object(_)) => true,
            _ => false,
        }
    }

    /// A copy of the inserts as they are now.
    pub fn inserts(&self) -> (r: Object)
        ensures
            r@ == inserts_of(self@),
    {
        match self.data.get("inserts") {
            Some(Value::Object(m)) => m.clone(),
            _ => Object::new(),
        }
    }

    /// Whether an insert `key` is there.
    pub fn has_insert(&self, key: &str) -> (r: bool)
        ensures
            r == dict_has(inserts_of(self@), key@),
    {
        match self.data.get("inserts") {
            Some(Value::Object(m)) => m.contains_key(key),
            _ => {
                assert(!dict_has(Seq::<(Seq<char>, Json)>::empty(), key@));
                false
            },
        }
    }

    /// Replaces the inserts.
    pub fn set_inserts(&mut self, inserts: Object)
        ensures
            final(self)@ == with_inserts_of(old(self)@, inserts@),
    {
        self.data.insert("inserts".to_owned(), Value::Object(inserts));
    }

    /// Binds the insert `key` to `value`.
    pub fn set_insert(&mut self, key: &str, value: Value)
        ensures
            final(self)@ == with_insert(old(self)@, key@, value@),
    {
        let mut inserts = match self.data.take("inserts") {
            Some(Value::Object(m)) => m,
            _ => Object::new(),
        };
        inserts.insert(key.to_owned(), value);
        self.data.insert("inserts".to_owned(), Value::Object(inserts));
        proof {
            lemma_set_twice(old(self)@, "inserts"@, Json::Null, Json::Dict(inserts@));
        }
    }

    /// Removes the insert `key`.
    pub fn remove_insert(&mut self, key: &str)
        ensures
            final(self)@ == without_insert(old(self)@, key@),
    {
        let mut inserts = match self.data.take("inserts") {
            Some(Value::Object(m)) => m,
            _ => Object::new(),
        };
        inserts.remove(key);
        self.data.insert("inserts".to_owned(), Value::Object(inserts));
        proof {
            lemma_set_twice(old(self)@, "inserts"@, Json::Null, Json::Dict(inserts@));
        }
    }

    /// The output so far.
    pub fn get_output(&self) -> (r: String)
        ensures
            r@ == output_of(self@),
    {
        match self.data.get("output") {
            Some(Value::String(s)) => s.clone(),
            _ => String::new(),
        }
    }

    /// Replaces the output.
    pub fn set_output(&mut self, text: String)
        ensures
            final(self)@ == with_output(old(self)@, text@),
    {
        self.data.insert("output".to_owned(), Value::String(text));
    }

    /// Appends `text` to the output.
    pub fn append_output(&mut self, text: &str)
        ensures
            final(self)@ == with_output(old(self)@, output_of(old(self)@) + text@),
    {
        let mut out = chars_of(self.get_output().as_str());
        let tail = chars_of(text);
        append_chars(&mut out, &tail);
        self.set_output(string_of(&out));
    }

    /// The cursor kept under `key`; 1 where there is none.
    pub fn get_i64(&self, key: &str) -> (r: i64)
        ensures
            r == cursor_of(self@, key@),
    {
        match self.data.get(key) {
            Some(Value::Number(Number::Int(i))) => *i,
            _ => 1,
        }
    }

    /// Keeps the cursor `value` under `key`.
    pub fn set_i64(&mut self, key: &str, value: i64)
        ensures
            final(self)@ == dict_set(old(self)@, key@, Json::Int(value as int)),
    {
        self.data.insert(key.to_owned(), Value::Number(Number::Int(value)));
    }

    /// Forgets what is kept under `key`.
    pub fn remove(&mut self, key: &str)
        ensures
            final(self)@ == dict_remove(old(self)@, key@),
    {
        self.data.remove(key);
    }
}

/// Binding a key twice is binding it to the second value.
pub proof fn lemma_set_twice(d: Seq<(Seq<char>, Json)>, key: Seq<char>, a: Json, b: Json)
    ensures
        dict_set(dict_set(d, key, a), key, b) == dict_set(d, key, b),
{
    lemma_dict_position(d, key);
    let once = dict_set(d, key, a);
    let p = crate::value::dict_position(d, key);
    crate::value::lemma_dict_position_is(once, key, p);
    assert(dict_set(once, key, b) =~= dict_set(d, key, b));
}

} // verus!
