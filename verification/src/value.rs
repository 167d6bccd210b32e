//! The dynamic value that inserts, tasks and their fields are made of.
//!
//! `Value` is the executable type; its view `Json` is the mathematical value
//! that every contract of the library speaks of. An `Object` keeps its members
//! in insertion order; a key is looked up at its first member.

use vstd::prelude::*;

verus! {

/// A number: an integer, or the decimal text of a number that is no `i64`.
#[derive(Debug)]
pub enum Number {
    Int(i64),
    Real(String),
}

/// A value: `null`, a truth value, a number, a string, a list or an object.
#[derive(Debug)]
pub enum Value {
    Null,
    Bool(bool),
    Number(Number),
    String(String),
    Array(Vec<Value>),
    Object(Object),
}

/// A map from keys to values that keeps insertion order.
#[derive(Debug)]
pub struct Object {
    pub entries: Vec<(String, Value)>,
}

/// The mathematical model of a `Value`.
pub enum Json {
    Null,
    Bool(bool),
    Int(int),
    Real(Seq<char>),
    Text(Seq<char>),
    List(Seq<Json>),
    Dict(Seq<(Seq<char>, Json)>),
}

/// The model of `v`.
pub open spec fn json_of(v: Value) -> Json
    decreases v,
{
    match v {
        Value::Null => Json::Null,
        Value::Bool(b) => Json::Bool(b),
        Value::Number(Number::Int(i)) => Json::Int(i as int),
        Value::Number(Number::Real(t)) => Json::Real(t@),
        Value::String(s) => Json::Text(s@),
        Value::Array(a) => Json::List(list_view(a@)),
        Value::Object(m) => Json::Dict(dict_view(m.entries@)),
    }
}

/// The models of the values of `a`, in order.
pub open spec fn list_view(a: Seq<Value>) -> Seq<Json>
    decreases a,
{
    if a.len() == 0 {
        Seq::empty()
    } else {
        list_view(a.take(a.len() - 1)).push(json_of(a[a.len() - 1]))
    }
}

/// The models of the members of `e`, in order.
pub open spec fn dict_view(e: Seq<(String, Value)>) -> Seq<(Seq<char>, Json)>
    decreases e,
{
    if e.len() == 0 {
        Seq::empty()
    } else {
        dict_view(e.take(e.len() - 1)).push((e[e.len() - 1].0@, json_of(e[e.len() - 1].1)))
    }
}

impl View for Value {
    type V = Json;

    open spec fn view(&self) -> Json {
        json_of(*self)
    }
}

impl View for Object {
    type V = Seq<(Seq<char>, Json)>;

    open spec fn view(&self) -> Seq<(Seq<char>, Json)> {
        dict_view(self.entries@)
    }
}

/// `list_view` goes member by member.
pub proof fn lemma_list_view(a: Seq<Value>)
    ensures
        list_view(a).len() == a.len(),
        forall|i: int| 0 <= i < a.len() ==> (#[trigger] list_view(a)[i]) == a[i]@,
    decreases a.len(),
{
    if a.len() > 0 {
        let front = a.take(a.len() - 1);
        lemma_list_view(front);
        assert forall|i: int| 0 <= i < a.len() implies (#[trigger] list_view(a)[i]) == a[i]@ by {
            if i < a.len() - 1 {
                assert(front[i] == a[i]);
            }
        }
    }
}

/// `dict_view` goes member by member.
pub proof fn lemma_dict_view(e: Seq<(String, Value)>)
    ensures
        dict_view(e).len() == e.len(),
        forall|i: int|
            0 <= i < e.len() ==> (#[trigger] dict_view(e)[i]) == (e[i].0@, e[i].1@),
    decreases e.len(),
{
    if e.len() > 0 {
        let front = e.take(e.len() - 1);
        lemma_dict_view(front);
        assert forall|i: int| 0 <= i < e.len() implies (#[trigger] dict_view(e)[i]) == (
            e[i].0@,
            e[i].1@,
        ) by {
            if i < e.len() - 1 {
                assert(front[i] == e[i]);
            }
        }
    }
}

/// The position of the first member of `d` with key `key`, or `d.len()`.
pub open spec fn dict_position(d: Seq<(Seq<char>, Json)>, key: Seq<char>) -> int
    decreases d.len(),
{
    if d.len() == 0 {
        0
    } else if d[0].0 == key {
        0
    } else {
        1 + dict_position(d.skip(1), key)
    }
}

/// Whether `d` has a member with key `key`.
pub open spec fn dict_has(d: Seq<(Seq<char>, Json)>, key: Seq<char>) -> bool {
    dict_position(d, key) < d.len()
}

/// The value of the first member of `d` with key `key`.
pub open spec fn dict_get(d: Seq<(Seq<char>, Json)>, key: Seq<char>) -> Option<Json> {
    if dict_has(d, key) {
        Some(d[dict_position(d, key)].1)
    } else {
        None
    }
}

/// `d` with `key` bound to `v`: in place where `key` is present, else at the end.
pub open spec fn dict_set(d: Seq<(Seq<char>, Json)>, key: Seq<char>, v: Json) -> Seq<
    (Seq<char>, Json),
> {
    if dict_has(d, key) {
        d.update(dict_position(d, key), (key, v))
    } else {
        d.push((key, v))
    }
}

/// `d` without its first member with key `key`; the others keep their order.
pub open spec fn dict_remove(d: Seq<(Seq<char>, Json)>, key: Seq<char>) -> Seq<(Seq<char>, Json)> {
    if dict_has(d, key) {
        d.take(dict_position(d, key)) + d.skip(dict_position(d, key) + 1)
    } else {
        d
    }
}

/// No two members of `d` have the same key.
pub open spec fn distinct_keys(d: Seq<(Seq<char>, Json)>) -> bool {
    forall|i: int, j: int| 0 <= i < j < d.len() ==> d[i].0 != d[j].0
}

/// `dict_position` is the place of the first member with that key.
pub proof fn lemma_dict_position(d: Seq<(Seq<char>, Json)>, key: Seq<char>)
    ensures
        0 <= dict_position(d, key) <= d.len(),
        dict_position(d, key) < d.len() ==> d[dict_position(d, key)].0 == key,
        forall|k: int| 0 <= k < dict_position(d, key) ==> d[k].0 != key,
    decreases d.len(),
{
    if d.len() > 0 && d[0].0 != key {
        let rest = d.skip(1);
        lemma_dict_position(rest, key);
        assert forall|k: int| 0 <= k < dict_position(d, key) implies d[k].0 != key by {
            if k > 0 {
                assert(rest[k - 1] == d[k]);
            }
        }
    }
}

/// The first position at which a key stands is its position.
pub proof fn lemma_dict_position_is(d: Seq<(Seq<char>, Json)>, key: Seq<char>, p: int)
    requires
        0 <= p <= d.len(),
        p < d.len() ==> d[p].0 == key,
        forall|k: int| 0 <= k < p ==> d[k].0 != key,
    ensures
        dict_position(d, key) == p,
{
    lemma_dict_position(d, key);
}

/// After binding `key`, the key has its new value and every other key the value it had.
pub proof fn lemma_dict_set_get(d: Seq<(Seq<char>, Json)>, key: Seq<char>, v: Json, other: Seq<char>)
    ensures
        dict_get(dict_set(d, key, v), key) == Some(v),
        other != key ==> dict_get(dict_set(d, key, v), other) == dict_get(d, other),
        other != key ==> dict_has(dict_set(d, key, v), other) == dict_has(d, other),
{
    let after = dict_set(d, key, v);
    lemma_dict_position(d, key);
    lemma_dict_position(d, other);
    let p = dict_position(d, key);
    let q = dict_position(d, other);
    lemma_dict_position_is(after, key, p);
    if other != key {
        lemma_dict_position_is(after, other, if q < d.len() {
            q
        } else {
            after.len() as int
        });
    }
}

impl Object {
    /// An object without members.
    pub fn new() -> (m: Object)
        ensures
            m@ == Seq::<(Seq<char>, Json)>::empty(),
    {
        let m = Object { entries: Vec::new() };
        assert(m@ =~= Seq::<(Seq<char>, Json)>::empty());
        m
    }

    /// The number of members.
    pub fn len(&self) -> (n: usize)
        ensures
            n == self@.len(),
    {
        proof {
            lemma_dict_view(self.entries@);
        }
        self.entries.len()
    }

    /// Whether the object has no member.
    pub fn is_empty(&self) -> (r: bool)
        ensures
            r == (self@.len() == 0),
    {
        proof {
            lemma_dict_view(self.entries@);
        }
        self.entries.len() == 0
    }

    /// The position of the first member with key `key`, or the number of members.
    pub fn position(&self, key: &str) -> (p: usize)
        ensures
            p == dict_position(self@, key@),
            p <= self.entries@.len(),
    {
        proof {
            lemma_dict_view(self.entries@);
        }
        let k = key.to_owned();
        let mut i: usize = 0;
        while i < self.entries.len()
            invariant
                i <= self.entries.len(),
                self@.len() == self.entries@.len(),
                k@ == key@,
                forall|j: int| 0 <= j < i ==> self@[j].0 != key@,
            decreases self.entries.len() - i,
        {
            proof {
                lemma_dict_view(self.entries@);
            }
            if self.entries[i].0 == k {
                proof {
                    lemma_dict_position_is(self@, key@, i as int);
                }
                return i;
            }
            i += 1;
        }
        proof {
            lemma_dict_position_is(self@, key@, i as int);
        }
        i
    }

    /// Whether a member has the key `key`.
    pub fn contains_key(&self, key: &str) -> (r: bool)
        ensures
            r == dict_has(self@, key@),
    {
        proof {
            lemma_dict_view(self.entries@);
        }
        self.position(key) < self.entries.len()
    }

    /// The value bound to `key`, if there is one.
    pub fn get(&self, key: &str) -> (r: Option<&Value>)
        ensures
            match r {
                Some(v) => dict_get(self@, key@) == Some(v@),
                None => dict_get(self@, key@) is None,
            },
    {
        let p = self.position(key);
        proof {
            lemma_dict_view(self.entries@);
        }
        if p < self.entries.len() {
            Some(&self.entries[p].1)
        } else {
            None
        }
    }

    /// Binds `key` to `value`: in place where `key` is present, else at the end.
    pub fn insert(&mut self, key: String, value: Value)
        ensures
            final(self)@ == dict_set(old(self)@, key@, value@),
    {
        proof {
            lemma_dict_view(self.entries@);
        }
        let p = self.position(key.as_str());
        if p < self.entries.len() {
            self.entries.set(p, (key, value));
            proof {
                lemma_dict_view(self.entries@);
            }
            assert(self@ =~= dict_set(old(self)@, key@, value@));
        } else {
            self.entries.push((key, value));
            proof {
                lemma_dict_view(self.entries@);
            }
            assert(self@ =~= dict_set(old(self)@, key@, value@));
        }
    }

    /// Takes out the value bound to `key`, if there is one, and leaves `null` in its place.
    pub fn take(&mut self, key: &str) -> (r: Option<Value>)
        ensures
            match r {
                Some(v) => dict_get(old(self)@, key@) == Some(v@) && final(self)@ == dict_set(
                    old(self)@,
                    key@,
                    Json::Null,
                ),
                None => dict_get(old(self)@, key@) is None && final(self)@ == old(self)@,
            },
    {
        proof {
            lemma_dict_view(self.entries@);
        }
        let p = self.position(key);
        if p < self.entries.len() {
            let (k, v) = self.entries.remove(p);
            self.entries.insert(p, (k, Value::Null));
            proof {
                lemma_dict_view(self.entries@);
                lemma_dict_position(old(self)@, key@);
            }
            assert(self@ =~= dict_set(old(self)@, key@, Json::Null));
            Some(v)
        } else {
            None
        }
    }

    /// Removes the first member with key `key`, if there is one.
    pub fn remove(&mut self, key: &str)
        ensures
            final(self)@ == dict_remove(old(self)@, key@),
    {
        proof {
            lemma_dict_view(self.entries@);
        }
        let p = self.position(key);
        if p < self.entries.len() {
            self.entries.remove(p);
            proof {
                lemma_dict_view(self.entries@);
            }
            assert(self@ =~= dict_remove(old(self)@, key@));
        }
    }
}

} // verus!

verus! {

/// The decimal digit `d`.
pub open spec fn digit_char(d: int) -> char {
    if d == 0 {
        '0'
    } else if d == 1 {
        '1'
    } else if d == 2 {
        '2'
    } else if d == 3 {
        '3'
    } else if d == 4 {
        '4'
    } else if d == 5 {
        '5'
    } else if d == 6 {
        '6'
    } else if d == 7 {
        '7'
    } else if d == 8 {
        '8'
    } else {
        '9'
    }
}

/// The decimal text of `n`, without leading zeros.
pub open spec fn nat_text(n: nat) -> Seq<char>
    decreases n,
{
    if n < 10 {
        seq![digit_char(n as int)]
    } else {
        nat_text(n / 10).push(digit_char((n % 10) as int))
    }
}

/// The decimal text of `i`, with a minus sign where it is negative.
pub open spec fn int_text(i: int) -> Seq<char> {
    if i < 0 {
        seq!['-'] + nat_text((-i) as nat)
    } else {
        nat_text(i as nat)
    }
}

/// What `serde_json::to_string` gives for a string: the string as a JSON
/// string literal, in double quotes and with its escapes.
pub uninterp spec fn json_quoted(s: Seq<char>) -> Seq<char>;

/// The text of `v` as interpolation splices it: a string as it is, a number in
/// decimal, a list as the texts of its items one after another, `null` and an
/// object as JSON.
pub open spec fn render(v: Json) -> Seq<char>
    decreases v,
{
    match v {
        Json::Null => "null"@,
        Json::Bool(b) => if b {
            "true"@
        } else {
            "false"@
        },
        Json::Int(i) => int_text(i),
        Json::Real(t) => t,
        Json::Text(s) => s,
        Json::List(a) => render_all(a),
        Json::Dict(d) => seq!['{'] + json_members(d) + seq!['}'],
    }
}

/// The texts of the items of `a`, one after another.
pub open spec fn render_all(a: Seq<Json>) -> Seq<char>
    decreases a,
{
    if a.len() == 0 {
        Seq::empty()
    } else {
        render_all(a.take(a.len() - 1)) + render(a[a.len() - 1])
    }
}

/// `v` as compact JSON text.
pub open spec fn json_text(v: Json) -> Seq<char>
    decreases v,
{
    match v {
        Json::Null => "null"@,
        Json::Bool(b) => if b {
            "true"@
        } else {
            "false"@
        },
        Json::Int(i) => int_text(i),
        Json::Real(t) => t,
        Json::Text(s) => json_quoted(s),
        Json::List(a) => seq!['['] + json_items(a) + seq![']'],
        Json::Dict(d) => seq!['{'] + json_members(d) + seq!['}'],
    }
}

/// The JSON texts of the items of `a`, with commas between them.
pub open spec fn json_items(a: Seq<Json>) -> Seq<char>
    decreases a,
{
    if a.len() == 0 {
        Seq::empty()
    } else if a.len() == 1 {
        json_text(a[0])
    } else {
        json_items(a.take(a.len() - 1)) + seq![','] + json_text(a[a.len() - 1])
    }
}

/// The JSON texts of the members of `d`, each as `"key":value`, with commas between them.
pub open spec fn json_members(d: Seq<(Seq<char>, Json)>) -> Seq<char>
    decreases d,
{
    if d.len() == 0 {
        Seq::empty()
    } else if d.len() == 1 {
        json_quoted(d[0].0) + seq![':'] + json_text(d[0].1)
    } else {
        json_members(d.take(d.len() - 1)) + seq![','] + json_quoted(d[d.len() - 1].0) + seq![':']
            + json_text(d[d.len() - 1].1)
    }
}

/// Equality of values: lists item by item, objects member by member whatever
/// the order of their keys.
pub open spec fn json_equal(a: Json, b: Json) -> bool
    decreases a,
{
    match a {
        Json::List(x) => b is List && x.len() == b->List_0.len() && forall|i: int|
            0 <= i < x.len() ==> json_equal(x[i], #[trigger] b->List_0[i]),
        Json::Dict(x) => b is Dict && x.len() == b->Dict_0.len() && forall|i: int|
            0 <= i < x.len() ==> member_matches(#[trigger] x[i], b->Dict_0),
        _ => a == b,
    }
}

/// `d` binds the key of `m` to a value equal to that of `m`.
pub open spec fn member_matches(m: (Seq<char>, Json), d: Seq<(Seq<char>, Json)>) -> bool
    decreases m,
{
    dict_has(d, m.0) && json_equal(m.1, d[dict_position(d, m.0)].1)
}

/// `serde_json::to_string` on a string slice: the string as a JSON string
/// literal. It cannot fail on a string.
#[verifier::external_body]
fn quote_json(s: &str) -> (r: String)
    ensures
        r@ == json_quoted(s@),
{
    serde_json::to_string(s).unwrap_or_default()
}

fn digit_of(d: u64) -> (c: char)
    requires
        d < 10,
    ensures
        c == digit_char(d as int),
{
    if d == 0 {
        '0'
    } else if d == 1 {
        '1'
    } else if d == 2 {
        '2'
    } else if d == 3 {
        '3'
    } else if d == 4 {
        '4'
    } else if d == 5 {
        '5'
    } else if d == 6 {
        '6'
    } else if d == 7 {
        '7'
    } else if d == 8 {
        '8'
    } else {
        '9'
    }
}

/// Appends the decimal text of `n` to `out`.
pub fn push_nat(out: &mut Vec<char>, n: u64)
    ensures
        final(out)@ == old(out)@ + nat_text(n as nat),
    decreases n,
{
    if n < 10 {
        out.push(digit_of(n));
        assert(out@ =~= old(out)@ + nat_text(n as nat));
    } else {
        push_nat(out, n / 10);
        out.push(digit_of(n % 10));
        assert(out@ =~= old(out)@ + nat_text(n as nat));
    }
}

/// Appends the decimal text of `i` to `out`.
pub fn push_int(out: &mut Vec<char>, i: i64)
    ensures
        final(out)@ == old(out)@ + int_text(i as int),
{
    if i < 0 {
        out.push('-');
        let mag: u64 = if i == i64::MIN {
            9223372036854775808u64
        } else {
            (-i) as u64
        };
        push_nat(out, mag);
        assert(out@ =~= old(out)@ + int_text(i as int));
    } else {
        push_nat(out, i as u64);
    }
}

/// The decimal text of `i`.
pub fn int_to_string(i: i64) -> (s: String)
    ensures
        s@ == int_text(i as int),
{
    let mut out: Vec<char> = Vec::new();
    push_int(&mut out, i);
    crate::text::string_of(&out)
}

impl Clone for Number {
    fn clone(&self) -> (r: Number)
        ensures
            r == *self,
    {
        match self {
            Number::Int(i) => Number::Int(*i),
            Number::Real(t) => Number::Real(t.clone()),
        }
    }
}

impl Clone for Value {
    fn clone(&self) -> (r: Value)
        ensures
            r@ == self@,
        decreases self,
    {
        match self {
            Value::Null => Value::Null,
            Value::Bool(b) => Value::Bool(*b),
            Value::Number(n) => Value::Number(n.clone()),
            Value::String(s) => Value::String(s.clone()),
            Value::Array(a) => {
                let mut out: Vec<Value> = Vec::new();
                let mut i: usize = 0;
                while i < a.len()
                    invariant
                        i <= a.len(),
                        *self == Value::Array(*a),
                        out@.len() == i,
                        forall|k: int| 0 <= k < i ==> out@[k]@ == a@[k]@,
                    decreases a.len() - i,
                {
                    assert(self->Array_0 == *a);
                    assert(decreases_to!(*a => a[i as int]));
                    let item = a[i].clone();
                    out.push(item);
                    i += 1;
                }
                proof {
                    lemma_list_view(out@);
                    lemma_list_view(a@);
                    assert(list_view(out@) =~= list_view(a@));
                }
                Value::Array(out)
            },
            Value::Object(m) => {
                let mut out: Vec<(String, Value)> = Vec::new();
                let mut i: usize = 0;
                while i < m.entries.len()
                    invariant
                        i <= m.entries.len(),
                        *self == Value::Object(*m),
                        out@.len() == i,
                        forall|k: int|
                            0 <= k < i ==> out@[k].0@ == m.entries@[k].0@ && out@[k].1@
                                == m.entries@[k].1@,
                    decreases m.entries.len() - i,
                {
                    assert(self->Object_0 == *m);
                    assert(decreases_to!(m.entries => m.entries[i as int]));
                    let key = m.entries[i].0.clone();
                    let item = m.entries[i].1.clone();
                    out.push((key, item));
                    i += 1;
                }
                proof {
                    lemma_dict_view(out@);
                    lemma_dict_view(m.entries@);
                    assert(dict_view(out@) =~= dict_view(m.entries@));
                }
                Value::Object(Object { entries: out })
            },
        }
    }
}

impl Clone for Object {
    fn clone(&self) -> (r: Object)
        ensures
            r@ == self@,
    {
        let mut out: Vec<(String, Value)> = Vec::new();
        let mut i: usize = 0;
        while i < self.entries.len()
            invariant
                i <= self.entries.len(),
                out@.len() == i,
                forall|k: int|
                    0 <= k < i ==> out@[k].0@ == self.entries@[k].0@ && out@[k].1@
                        == self.entries@[k].1@,
            decreases self.entries.len() - i,
        {
            let key = self.entries[i].0.clone();
            let item = self.entries[i].1.clone();
            out.push((key, item));
            i += 1;
        }
        proof {
            lemma_dict_view(out@);
            lemma_dict_view(self.entries@);
            assert(dict_view(out@) =~= dict_view(self.entries@));
        }
        Object { entries: out }
    }
}

} // verus!

verus! {

/// The text of one more item is the text so far and the text of the item.
pub proof fn lemma_render_all_step(a: Seq<Json>, i: int)
    requires
        0 <= i < a.len(),
    ensures
        render_all(a.take(i + 1)) == render_all(a.take(i)) + render(a[i]),
{
    assert(a.take(i + 1).take(i) == a.take(i));
}

/// The JSON text of one more item is the text so far, a comma and the text of the item.
pub proof fn lemma_json_items_step(a: Seq<Json>, i: int)
    requires
        0 <= i < a.len(),
    ensures
        json_items(a.take(i + 1)) == if i == 0 {
            json_text(a[0])
        } else {
            json_items(a.take(i)) + seq![','] + json_text(a[i])
        },
{
    assert(a.take(i + 1).take(i) == a.take(i));
}

/// The JSON text of one more member is the text so far, a comma and the text of the member.
pub proof fn lemma_json_members_step(d: Seq<(Seq<char>, Json)>, i: int)
    requires
        0 <= i < d.len(),
    ensures
        json_members(d.take(i + 1)) == if i == 0 {
            json_quoted(d[0].0) + seq![':'] + json_text(d[0].1)
        } else {
            json_members(d.take(i)) + seq![','] + json_quoted(d[i].0) + seq![':'] + json_text(
                d[i].1,
            )
        },
{
    assert(d.take(i + 1).take(i) == d.take(i));
}

/// Appends the JSON text of the members of `m` to `out`.
fn push_json_members(out: &mut Vec<char>, m: &Object)
    ensures
        final(out)@ == old(out)@ + json_members(m@),
    decreases m,
{
    let mut i: usize = 0;
    proof {
        lemma_dict_view(m.entries@);
        assert(m@.take(0) == Seq::<(Seq<char>, Json)>::empty());
        assert(old(out)@ + json_members(m@.take(0)) == old(out)@);
    }
    while i < m.entries.len()
        invariant
            i <= m.entries.len(),
            m@.len() == m.entries@.len(),
            forall|k: int| 0 <= k < m@.len() ==> m@[k] == (m.entries@[k].0@, m.entries@[k].1@),
            out@ == old(out)@ + json_members(m@.take(i as int)),
        decreases m.entries.len() - i,
    {
        let ghost before = out@;
        if i > 0 {
            out.push(',');
        }
        let quoted = quote_json(m.entries[i].0.as_str());
        let q = crate::text::chars_of(quoted.as_str());
        crate::text::append_chars(out, &q);
        out.push(':');
        assert(decreases_to!(m.entries => m.entries[i as int]));
        push_json(out, &m.entries[i].1);
        proof {
            lemma_json_members_step(m@, i as int);
            let d = m@;
            let piece = json_quoted(d[i as int].0) + seq![':'] + json_text(d[i as int].1);
            if i == 0 {
                assert(out@ =~= before + piece);
                assert(before + piece =~= old(out)@ + json_members(d.take(i + 1)));
            } else {
                assert(out@ =~= before + (seq![','] + piece));
                assert(json_members(d.take(i + 1)) =~= json_members(d.take(i as int)) + (seq![',']
                    + piece));
                assert(before + (seq![','] + piece) =~= old(out)@ + json_members(d.take(i + 1)));
            }
        }
        i += 1;
    }
    assert(m@.take(m@.len() as int) == m@);
}

/// Appends `v` as compact JSON text to `out`.
pub fn push_json(out: &mut Vec<char>, v: &Value)
    ensures
        final(out)@ == old(out)@ + json_text(v@),
    decreases v,
{
    match v {
        Value::Null => {
            let t = crate::text::chars_of("null");
            crate::text::append_chars(out, &t);
        },
        Value::Bool(b) => {
            let t = if *b {
                crate::text::chars_of("true")
            } else {
                crate::text::chars_of("false")
            };
            crate::text::append_chars(out, &t);
        },
        Value::Number(Number::Int(i)) => {
            push_int(out, *i);
        },
        Value::Number(Number::Real(t)) => {
            let c = crate::text::chars_of(t.as_str());
            crate::text::append_chars(out, &c);
        },
        Value::String(s) => {
            let quoted = quote_json(s.as_str());
            let q = crate::text::chars_of(quoted.as_str());
            crate::text::append_chars(out, &q);
        },
        Value::Array(a) => {
            out.push('[');
            let ghost start = out@;
            let ghost items = list_view(a@);
            let mut i: usize = 0;
            proof {
                lemma_list_view(a@);
                assert(items.take(0) == Seq::<Json>::empty());
                assert(start + json_items(items.take(0)) == start);
            }
            while i < a.len()
                invariant
                    i <= a.len(),
                    v is Array && v->Array_0 == *a,
                    items == list_view(a@),
                    items.len() == a@.len(),
                    forall|k: int| 0 <= k < items.len() ==> items[k] == a@[k]@,
                    out@ == start + json_items(items.take(i as int)),
                decreases a.len() - i,
            {
                let ghost before = out@;
                if i > 0 {
                    out.push(',');
                }
                assert(decreases_to!(*a => a[i as int]));
                push_json(out, &a[i]);
                proof {
                    lemma_json_items_step(items, i as int);
                    if i == 0 {
                        assert(out@ =~= start + json_items(items.take(i + 1)));
                    } else {
                        assert(out@ =~= before + (seq![','] + json_text(items[i as int])));
                        assert(out@ =~= start + json_items(items.take(i + 1)));
                    }
                }
                i += 1;
            }
            assert(items.take(items.len() as int) == items);
            out.push(']');
            assert(out@ =~= old(out)@ + json_text(v@));
        },
        Value::Object(m) => {
            out.push('{');
            assert(v->Object_0 == *m);
            push_json_members(out, m);
            out.push('}');
            assert(out@ =~= old(out)@ + json_text(v@));
        },
    }
}

/// Appends the text of `v`, as interpolation splices it, to `out`.
pub fn push_rendered(out: &mut Vec<char>, v: &Value)
    ensures
        final(out)@ == old(out)@ + render(v@),
    decreases v,
{
    match v {
        Value::Null => {
            let t = crate::text::chars_of("null");
            crate::text::append_chars(out, &t);
        },
        Value::Bool(b) => {
            let t = if *b {
                crate::text::chars_of("true")
            } else {
                crate::text::chars_of("false")
            };
            crate::text::append_chars(out, &t);
        },
        Value::Number(Number::Int(i)) => {
            push_int(out, *i);
        },
        Value::Number(Number::Real(t)) => {
            let c = crate::text::chars_of(t.as_str());
            crate::text::append_chars(out, &c);
        },
        Value::String(s) => {
            let c = crate::text::chars_of(s.as_str());
            crate::text::append_chars(out, &c);
        },
        Value::Array(a) => {
            let ghost items = list_view(a@);
            let mut i: usize = 0;
            proof {
                lemma_list_view(a@);
                assert(items.take(0) == Seq::<Json>::empty());
                assert(old(out)@ + render_all(items.take(0)) == old(out)@);
            }
            while i < a.len()
                invariant
                    i <= a.len(),
                    v is Array && v->Array_0 == *a,
                    items == list_view(a@),
                    items.len() == a@.len(),
                    forall|k: int| 0 <= k < items.len() ==> items[k] == a@[k]@,
                    out@ == old(out)@ + render_all(items.take(i as int)),
                decreases a.len() - i,
            {
                assert(decreases_to!(*a => a[i as int]));
                push_rendered(out, &a[i]);
                proof {
                    lemma_render_all_step(items, i as int);
                    assert(out@ =~= old(out)@ + render_all(items.take(i + 1)));
                }
                i += 1;
            }
            assert(items.take(items.len() as int) == items);
        },
        Value::Object(m) => {
            out.push('{');
            push_json_members(out, m);
            out.push('}');
            assert(out@ =~= old(out)@ + render(v@));
        },
    }
}

/// The text of `value` as interpolation splices it.
pub fn value_to_string(value: &Value) -> (s: String)
    ensures
        s@ == render(value@),
{
    let mut out: Vec<char> = Vec::new();
    push_rendered(&mut out, value);
    crate::text::string_of(&out)
}

/// `value` as compact JSON text.
pub fn to_json_string(value: &Value) -> (s: String)
    ensures
        s@ == json_text(value@),
{
    let mut out: Vec<char> = Vec::new();
    push_json(&mut out, value);
    crate::text::string_of(&out)
}

impl Value {
    /// Whether `self` and `other` are equal values.
    pub fn equals(&self, other: &Value) -> (r: bool)
        ensures
            r == json_equal(self@, other@),
        decreases self,
    {
        match self {
            Value::Null => match other {
                Value::Null => true,
                _ => false,
            },
            Value::Bool(x) => match other {
                Value::Bool(y) => *x == *y,
                _ => false,
            },
            Value::Number(Number::Int(x)) => match other {
                Value::Number(Number::Int(y)) => *x == *y,
                _ => false,
            },
            Value::Number(Number::Real(x)) => match other {
                Value::Number(Number::Real(y)) => *x == *y,
                _ => false,
            },
            Value::String(x) => match other {
                Value::String(y) => *x == *y,
                _ => false,
            },
            Value::Array(x) => match other {
                Value::Array(y) => {
                    proof {
                        lemma_list_view(x@);
                        lemma_list_view(y@);
                    }
                    if x.len() != y.len() {
                        return false;
                    }
                    let mut i: usize = 0;
                    while i < x.len()
                        invariant
                            i <= x.len(),
                            x.len() == y.len(),
                            self is Array && self->Array_0 == *x,
                            other@ == Json::List(list_view(y@)),
                            self@ == Json::List(list_view(x@)),
                            list_view(x@).len() == x@.len(),
                            list_view(y@).len() == y@.len(),
                            forall|k: int| 0 <= k < x@.len() ==> list_view(x@)[k] == x@[k]@,
                            forall|k: int| 0 <= k < y@.len() ==> list_view(y@)[k] == y@[k]@,
                            forall|k: int|
                                0 <= k < i ==> json_equal(
                                    list_view(x@)[k],
                                    #[trigger] list_view(y@)[k],
                                ),
                        decreases x.len() - i,
                    {
                        assert(decreases_to!(*x => x[i as int]));
                        if !x[i].equals(&y[i]) {
                            assert(!json_equal(list_view(x@)[i as int], list_view(y@)[i as int]));
                            return false;
                        }
                        i += 1;
                    }
                    true
                },
                _ => false,
            },
            Value::Object(x) => match other {
                Value::Object(y) => {
                    proof {
                        lemma_dict_view(x.entries@);
                        lemma_dict_view(y.entries@);
                    }
                    if x.entries.len() != y.entries.len() {
                        return false;
                    }
                    let mut i: usize = 0;
                    while i < x.entries.len()
                        invariant
                            i <= x.entries.len(),
                            x.entries.len() == y.entries.len(),
                            self is Object && self->Object_0 == *x,
                            other@ == Json::Dict(y@),
                            self@ == Json::Dict(x@),
                            x@.len() == x.entries@.len(),
                            y@.len() == y.entries@.len(),
                            forall|k: int|
                                0 <= k < x@.len() ==> x@[k] == (x.entries@[k].0@, x.entries@[k].1@),
                            forall|k: int|
                                0 <= k < y@.len() ==> y@[k] == (y.entries@[k].0@, y.entries@[k].1@),
                            forall|k: int| 0 <= k < i ==> member_matches(#[trigger] x@[k], y@),
                        decreases x.entries.len() - i,
                    {
                        let p = y.position(x.entries[i].0.as_str());
                        if p >= y.entries.len() {
                            assert(!member_matches(x@[i as int], y@));
                            return false;
                        }
                        assert(decreases_to!(x.entries => x.entries[i as int]));
                        if !x.entries[i].1.equals(&y.entries[p].1) {
                            assert(!member_matches(x@[i as int], y@));
                            return false;
                        }
                        i += 1;
                    }
                    true
                },
                _ => false,
            },
        }
    }

    /// Whether the value is `null`.
    pub fn is_null(&self) -> (r: bool)
        ensures
            r == (self@ is Null),
    {
        match self {
            Value::Null => true,
            _ => false,
        }
    }

    /// Whether the value is a string.
    pub fn is_string(&self) -> (r: bool)
        ensures
            r == (self@ is Text),
    {
        match self {
            Value::String(_) => true,
            _ => false,
        }
    }

    /// Whether the value is a number.
    pub fn is_number(&self) -> (r: bool)
        ensures
            r == (self@ is Int || self@ is Real),
    {
        match self {
            Value::Number(_) => true,
            _ => false,
        }
    }

    /// Whether the value is a list.
    pub fn is_array(&self) -> (r: bool)
        ensures
            r == (self@ is List),
    {
        match self {
            Value::Array(_) => true,
            _ => false,
        }
    }

    /// Whether the value is an object.
    pub fn is_object(&self) -> (r: bool)
        ensures
            r == (self@ is Dict),
    {
        match self {
            Value::Object(_) => true,
            _ => false,
        }
    }

    /// The string, where `self` is one.
    pub fn as_str(&self) -> (r: Option<&str>)
        ensures
            match r {
                Some(s) => self@ == Json::Text(s@),
                None => !(self@ is Text),
            },
    {
        match self {
            Value::String(s) => Some(s.as_str()),
            _ => None,
        }
    }

    /// The integer, where `self` is one.
    pub fn as_i64(&self) -> (r: Option<i64>)
        ensures
            match r {
                Some(i) => self@ == Json::Int(i as int),
                None => !(self@ is Int),
            },
    {
        match self {
            Value::Number(Number::Int(i)) => Some(*i),
            _ => None,
        }
    }

    /// The truth value, where `self` is one.
    pub fn as_bool(&self) -> (r: Option<bool>)
        ensures
            match r {
                Some(b) => self@ == Json::Bool(b),
                None => !(self@ is Bool),
            },
    {
        match self {
            Value::Bool(b) => Some(*b),
            _ => None,
        }
    }

    /// The items, where `self` is a list.
    pub fn as_array(&self) -> (r: Option<&Vec<Value>>)
        ensures
            match r {
                Some(a) => self@ == Json::List(list_view(a@)) && *self == Value::Array(*a),
                None => !(self@ is List),
            },
    {
        match self {
            Value::Array(a) => Some(a),
            _ => None,
        }
    }

    /// The members, where `self` is an object.
    pub fn as_object(&self) -> (r: Option<&Object>)
        ensures
            match r {
                Some(m) => self@ == Json::Dict(m@) && *self == Value::Object(*m),
                None => !(self@ is Dict),
            },
    {
        match self {
            Value::Object(m) => Some(m),
            _ => None,
        }
    }
}

} // verus!

verus! {

impl PartialEq for Value {
    fn eq(&self, other: &Value) -> (r: bool) {
        self.equals(other)
    }
}

impl vstd::std_specs::cmp::PartialEqSpecImpl for Value {
    open spec fn obeys_eq_spec() -> bool {
        true
    }

    open spec fn eq_spec(&self, other: &Value) -> bool {
        json_equal(self@, other@)
    }
}

} // verus!
