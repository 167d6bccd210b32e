//! Whether the keys that a program interpolates can have a value when it
//! runs: a key must be an insert that the program begins with, a key of the
//! clock, an argument, a file of the inserts directory, or a name that some
//! task of the program stores under.

use crate::checks::{concat3, findings, none, one, report, Diagnostic, Finding};
use crate::interp::{extract_from_str, keys_in_text, text_field};
use crate::model::Task;
use crate::text::{chars_of, same_text, string_of};
use crate::value::{
    dict_get, dict_has, lemma_dict_position, lemma_dict_view, lemma_list_view, list_view, Json,
    Object, Value,
};
use crate::wildcard::{wildcard_match_chars, wildcard_matches};
use vstd::prelude::*;

verus! {

/// Where the scan of a name for its pattern stands.
pub struct PatternScan {
    pub out: Seq<char>,
    pub depth: nat,
    pub escaped: bool,
}

/// The scan after one more character: what stands outside of groups is
/// kept, and a group becomes one star.
pub open spec fn pattern_step(st: PatternScan, ch: char) -> PatternScan {
    let kept = if st.depth == 0 {
        st.out.push(ch)
    } else {
        st.out
    };
    if st.escaped {
        PatternScan { escaped: false, out: kept, ..st }
    } else if ch == '\\' {
        PatternScan { escaped: true, out: kept, ..st }
    } else if ch == '{' {
        PatternScan {
            depth: st.depth + 1,
            out: if st.depth == 0 {
                st.out.push('*')
            } else {
                st.out
            },
            ..st
        }
    } else if ch == '}' && st.depth > 0 {
        PatternScan { depth: (st.depth - 1) as nat, ..st }
    } else {
        PatternScan { out: kept, ..st }
    }
}

/// The scan after all of `s`.
pub open spec fn pattern_scan(s: Seq<char>) -> PatternScan
    decreases s.len(),
{
    if s.len() == 0 {
        PatternScan { out: Seq::empty(), depth: 0, escaped: false }
    } else {
        pattern_step(pattern_scan(s.take(s.len() - 1)), s[s.len() - 1])
    }
}

/// The pattern of the names that the text `name` can come to when it is
/// interpolated: the text with a star for each of its groups.
pub open spec fn name_pattern(name: Seq<char>) -> Seq<char> {
    pattern_scan(name).out
}

/// The pattern of the names that `name` can come to.
pub fn pattern_of_name(name: &str) -> (r: String)
    ensures
        r@ == name_pattern(name@),
{
    let s = chars_of(name);
    let mut out: Vec<char> = Vec::new();
    let mut depth: usize = 0;
    let mut escaped = false;
    let mut i: usize = 0;
    assert(s@.take(0) == Seq::<char>::empty());
    while i < s.len()
        invariant
            i <= s.len(),
            s@ == name@,
            depth <= i,
            out@ == pattern_scan(s@.take(i as int)).out,
            depth == pattern_scan(s@.take(i as int)).depth,
            escaped == pattern_scan(s@.take(i as int)).escaped,
        decreases s.len() - i,
    {
        assert(s@.take(i + 1).take(i as int) == s@.take(i as int));
        let ch = s[i];
        if escaped {
            escaped = false;
            if depth == 0 {
                out.push(ch);
            }
        } else if ch == '\\' {
            escaped = true;
            if depth == 0 {
                out.push(ch);
            }
        } else if ch == '{' {
            if depth == 0 {
                out.push('*');
            }
            depth += 1;
        } else if ch == '}' && depth > 0 {
            depth -= 1;
        } else if depth == 0 {
            out.push(ch);
        }
        i += 1;
    }
    assert(s@.take(s.len() as int) == s@);
    string_of(&out)
}

/// `acc` followed by the patterns of the names that the task `task`
/// stores under: its `output_name`, and, of a `for`, the names of its lists.
pub open spec fn task_producers(task: Seq<(Seq<char>, Json)>, acc: Seq<Seq<char>>) -> Seq<Seq<char>> {
    let named = match dict_get(task, "output_name"@) {
        Some(Json::Text(n)) => acc.push(name_pattern(n)),
        _ => acc,
    };
    match dict_get(task, "name_list_map"@) {
        Some(Json::Dict(map)) => if text_field(task, "cmd"@) == Some("for"@) {
            key_patterns(map, 0, named)
        } else {
            named
        },
        _ => named,
    }
}

/// `acc` followed by the patterns of the keys of `d` from `from` on.
pub open spec fn key_patterns(d: Seq<(Seq<char>, Json)>, from: int, acc: Seq<Seq<char>>) -> Seq<
    Seq<char>,
>
    decreases d.len() - from,
{
    if from < 0 || from >= d.len() {
        acc
    } else {
        key_patterns(d, from + 1, acc.push(name_pattern(d[from].0)))
    }
}

/// `acc` followed by the patterns of the names that the tasks of `list`
/// from `from` on, and the tasks inside them, store under.
pub open spec fn producers_of(list: Seq<Json>, from: int, acc: Seq<Seq<char>>) -> Seq<Seq<char>>
    decreases list, list.len() - from,
{
    if from < 0 || from >= list.len() {
        acc
    } else {
        match list[from] {
            Json::Dict(task) => {
                let own = task_producers(task, acc);
                match dict_get(task, "tasks"@) {
                    Some(Json::List(sub)) => {
                        proof {
                            lemma_dict_position(task, "tasks"@);
                        }
                        producers_of(list, from + 1, producers_of(sub, 0, own))
                    },
                    _ => producers_of(list, from + 1, own),
                }
            },
            _ => producers_of(list, from + 1, acc),
        }
    }
}

fn push_key_patterns(map: &Object, out: &mut Vec<String>)
    ensures
        crate::model::texts_of(final(out)@) == key_patterns(
            map@,
            0,
            crate::model::texts_of(old(out)@),
        ),
{
    proof {
        lemma_dict_view(map.entries@);
    }
    let mut i: usize = 0;
    while i < map.entries.len()
        invariant
            i <= map.entries.len(),
            map@.len() == map.entries@.len(),
            forall|k: int| 0 <= k < map@.len() ==> map@[k] == (map.entries@[k].0@, map.entries@[k].1@),
            key_patterns(map@, 0, crate::model::texts_of(old(out)@)) == key_patterns(
                map@,
                i as int,
                crate::model::texts_of(out@),
            ),
        decreases map.entries.len() - i,
    {
        let ghost before = out@;
        let p = pattern_of_name(map.entries[i].0.as_str());
        out.push(p);
        assert(crate::model::texts_of(out@) =~= crate::model::texts_of(before).push(p@));
        i += 1;
    }
}

fn push_task_producers(task: &Task, out: &mut Vec<String>)
    ensures
        crate::model::texts_of(final(out)@) == task_producers(
            task@,
            crate::model::texts_of(old(out)@),
        ),
{
    match task.get("output_name") {
        Some(Value::String(n)) => {
            let ghost before = out@;
            let p = pattern_of_name(n.as_str());
            out.push(p);
            assert(crate::model::texts_of(out@) =~= crate::model::texts_of(before).push(p@));
        },
        _ => {},
    }
    let is_for = match task.get("cmd") {
        Some(Value::String(c)) => same_text(c.as_str(), "for"),
        _ => false,
    };
    match task.get("name_list_map") {
        Some(Value::Object(map)) => {
            if is_for {
                push_key_patterns(map, out);
            }
        },
        _ => {},
    }
}

/// Appends to `out` the patterns of the names that the tasks of `list`,
/// and the tasks inside them, store under.
pub fn collect_producers(list: &Vec<Value>, out: &mut Vec<String>)
    ensures
        crate::model::texts_of(final(out)@) == producers_of(
            list_view(list@),
            0,
            crate::model::texts_of(old(out)@),
        ),
    decreases list,
{
    let ghost items = list_view(list@);
    proof {
        lemma_list_view(list@);
    }
    let mut i: usize = 0;
    while i < list.len()
        invariant
            i <= list.len(),
            items == list_view(list@),
            items.len() == list@.len(),
            forall|k: int| 0 <= k < items.len() ==> items[k] == list@[k]@,
            producers_of(items, 0, crate::model::texts_of(old(out)@)) == producers_of(
                items,
                i as int,
                crate::model::texts_of(out@),
            ),
        decreases list.len() - i,
    {
        match &list[i] {
            Value::Object(task) => {
                push_task_producers(task, out);
                let p = task.position("tasks");
                proof {
                    lemma_dict_view(task.entries@);
                    lemma_dict_position(task@, "tasks"@);
                }
                if p < task.entries.len() {
                    match &task.entries[p].1 {
                        Value::Array(sub) => {
                            assert(decreases_to!(*list => list[i as int]));
                            assert(list[i as int]->Object_0 == *task);
                            assert(decreases_to!(task.entries => task.entries[p as int]));
                            assert(task.entries[p as int].1->Array_0 == *sub);
                            collect_producers(sub, out);
                        },
                        _ => {},
                    }
                }
            },
            _ => {},
        }
        i += 1;
    }
}

/// What a key can get its value from.
pub struct Sources {
    /// The inserts that the program begins with.
    pub inserts: Seq<(Seq<char>, Json)>,
    /// The keys of the files of the inserts directory.
    pub dir_keys: Seq<Seq<char>>,
    /// The patterns of the names that tasks store under.
    pub producers: Seq<Seq<char>>,
}

/// Whether the key `key` can be the name `candidate`: they are the same, or
/// a star of the one stands for part of the other.
pub open spec fn key_matches(candidate: Seq<char>, key: Seq<char>) -> bool {
    wildcard_matches(key, candidate) || wildcard_matches(candidate, key)
}

/// Whether `key` can be one of `names` at or after `from`.
pub open spec fn matches_name(names: Seq<Seq<char>>, key: Seq<char>, from: int) -> bool
    decreases names.len() - from,
{
    if from < 0 || from >= names.len() {
        false
    } else {
        key_matches(names[from], key) || matches_name(names, key, from + 1)
    }
}

/// Whether `key` can be a key of `d` at or after `from`.
pub open spec fn matches_insert(d: Seq<(Seq<char>, Json)>, key: Seq<char>, from: int) -> bool
    decreases d.len() - from,
{
    if from < 0 || from >= d.len() {
        false
    } else {
        key_matches(d[from].0, key) || matches_insert(d, key, from + 1)
    }
}

/// `key` is a number: digits only, and at least one.
pub open spec fn is_capture_key(key: Seq<char>) -> bool {
    key.len() > 0 && forall|i: int| 0 <= i < key.len() ==> crate::interp::is_digit(#[trigger] key[i])
}

/// `key` holds a brace: it is put together when the program runs.
pub open spec fn is_dynamic(key: Seq<char>) -> bool {
    exists|i: int| 0 <= i < key.len() && (#[trigger] key[i] == '{' || key[i] == '}')
}

/// Whether `key` can have a value when the program runs. A key that is
/// empty or put together at run time is not judged; in a `replace_map`, a
/// number is what a star matched.
pub open spec fn is_reachable(sources: Sources, key: Seq<char>, in_replace_map: bool) -> bool {
    key.len() == 0 || is_dynamic(key) || key == "HH:MM"@ || key == "HH:MM:SS"@
        || crate::checks::begins_with_arg(key) || (in_replace_map && is_capture_key(key))
        || matches_insert(sources.inserts, key, 0) || matches_name(sources.dir_keys, key, 0)
        || matches_name(sources.producers, key, 0)
}

/// What a key can get its value from, as the analyzer holds it.
pub struct Known<'a> {
    pub inserts: &'a Object,
    pub dir_keys: &'a Vec<String>,
    pub producers: &'a Vec<String>,
}

impl<'a> View for Known<'a> {
    type V = Sources;

    open spec fn view(&self) -> Sources {
        Sources {
            inserts: self.inserts@,
            dir_keys: crate::model::texts_of(self.dir_keys@),
            producers: crate::model::texts_of(self.producers@),
        }
    }
}

fn key_can_be(candidate: &Vec<char>, key: &Vec<char>) -> (r: bool)
    ensures
        r == key_matches(candidate@, key@),
{
    wildcard_match_chars(key, candidate) || wildcard_match_chars(candidate, key)
}

fn can_be_name(names: &Vec<String>, key: &Vec<char>) -> (r: bool)
    ensures
        r == matches_name(crate::model::texts_of(names@), key@, 0),
{
    let ghost texts = crate::model::texts_of(names@);
    let mut i: usize = 0;
    while i < names.len()
        invariant
            i <= names.len(),
            texts == crate::model::texts_of(names@),
            matches_name(texts, key@, 0) == matches_name(texts, key@, i as int),
        decreases names.len() - i,
    {
        let c = chars_of(names[i].as_str());
        if key_can_be(&c, key) {
            return true;
        }
        i += 1;
    }
    false
}

fn can_be_insert(inserts: &Object, key: &Vec<char>) -> (r: bool)
    ensures
        r == matches_insert(inserts@, key@, 0),
{
    proof {
        lemma_dict_view(inserts.entries@);
    }
    let mut i: usize = 0;
    while i < inserts.entries.len()
        invariant
            i <= inserts.entries.len(),
            inserts@.len() == inserts.entries@.len(),
            forall|k: int|
                0 <= k < inserts@.len() ==> inserts@[k] == (
                    inserts.entries@[k].0@,
                    inserts.entries@[k].1@,
                ),
            matches_insert(inserts@, key@, 0) == matches_insert(inserts@, key@, i as int),
        decreases inserts.entries.len() - i,
    {
        let c = chars_of(inserts.entries[i].0.as_str());
        if key_can_be(&c, key) {
            return true;
        }
        i += 1;
    }
    false
}

/// Whether `key` can have a value when the program runs.
pub fn key_is_reachable(known: &Known, key: &str, in_replace_map: bool) -> (r: bool)
    ensures
        r == is_reachable(known@, key@, in_replace_map),
{
    let k = chars_of(key);
    if k.len() == 0 {
        return true;
    }
    let mut digits = true;
    let mut i: usize = 0;
    while i < k.len()
        invariant
            i <= k.len(),
            k@ == key@,
            digits == forall|q: int| 0 <= q < i ==> crate::interp::is_digit(#[trigger] k@[q]),
            forall|q: int| 0 <= q < i ==> k@[q] != '{' && k@[q] != '}',
        decreases k.len() - i,
    {
        if k[i] == '{' || k[i] == '}' {
            return true;
        }
        if !('0' <= k[i] && k[i] <= '9') {
            digits = false;
        }
        i += 1;
    }
    assert(!is_dynamic(key@));
    if same_text(key, "HH:MM") || same_text(key, "HH:MM:SS") {
        return true;
    }
    if k.len() >= 3 && k[0] == 'A' && k[1] == 'R' && k[2] == 'G' {
        return true;
    }
    if in_replace_map && digits {
        return true;
    }
    can_be_insert(known.inserts, &k) || can_be_name(known.dir_keys, &k) || can_be_name(
        known.producers,
        &k,
    )
}

/// The findings for the keys `keys` from `from` on that cannot have a value.
pub open spec fn key_findings(
    task: Seq<(Seq<char>, Json)>,
    keys: Seq<Seq<char>>,
    from: int,
    sources: Sources,
    in_replace_map: bool,
) -> Seq<Finding>
    decreases keys.len() - from,
{
    if from < 0 || from >= keys.len() {
        none()
    } else {
        (if is_reachable(sources, keys[from], in_replace_map) {
            none()
        } else {
            one(task, "Interpolation key '"@ + keys[from] + "' has no value to come from"@)
        }) + key_findings(task, keys, from + 1, sources, in_replace_map)
    }
}

/// The keys that are checked in `v`, which stands in a task: those of its
/// strings and keys, but not those of the tasks inside it.
pub open spec fn checked_keys(v: Json) -> Seq<Seq<char>>
    decreases v,
{
    match v {
        Json::Text(s) => keys_in_text(s),
        Json::List(a) => checked_keys_list(a),
        Json::Dict(d) => if dict_has(d, "cmd"@) {
            Seq::empty()
        } else {
            checked_keys_members(d)
        },
        _ => Seq::empty(),
    }
}

/// The keys that are checked in the items of `a`, in order.
pub open spec fn checked_keys_list(a: Seq<Json>) -> Seq<Seq<char>>
    decreases a,
{
    if a.len() == 0 {
        Seq::empty()
    } else {
        checked_keys_list(a.take(a.len() - 1)) + checked_keys(a[a.len() - 1])
    }
}

/// The keys that are checked in the keys and values of `d`, in order.
pub open spec fn checked_keys_members(d: Seq<(Seq<char>, Json)>) -> Seq<Seq<char>>
    decreases d,
{
    if d.len() == 0 {
        Seq::empty()
    } else {
        checked_keys_members(d.take(d.len() - 1)) + keys_in_text(d[d.len() - 1].0) + checked_keys(
            d[d.len() - 1].1,
        )
    }
}

/// The keys that are checked in the task `task`: those of its fields, but
/// for its `tasks`.
pub open spec fn task_keys(task: Seq<(Seq<char>, Json)>) -> Seq<Seq<char>>
    decreases task.len(),
{
    if task.len() == 0 {
        Seq::empty()
    } else {
        let last = task[task.len() - 1];
        task_keys(task.take(task.len() - 1)) + (if last.0 == "tasks"@ {
            Seq::empty()
        } else {
            keys_in_text(last.0) + checked_keys(last.1)
        })
    }
}

fn push_texts(keys: &mut Vec<String>, s: &str)
    ensures
        crate::model::texts_of(final(keys)@) == crate::model::texts_of(old(keys)@) + keys_in_text(
            s@,
        ),
{
    let found = extract_from_str(s);
    let ghost start = crate::model::texts_of(keys@);
    let mut i: usize = 0;
    assert(start + crate::model::texts_of(found@).take(0) =~= start);
    while i < found.len()
        invariant
            i <= found.len(),
            crate::model::texts_of(keys@) == start + crate::model::texts_of(found@).take(i as int),
        decreases found.len() - i,
    {
        let ghost before = keys@;
        keys.push(found[i].clone());
        assert(crate::model::texts_of(keys@) =~= crate::model::texts_of(before).push(found@[i as int]@));
        assert(start + crate::model::texts_of(found@).take(i + 1) =~= (start + crate::model::texts_of(
            found@,
        ).take(i as int)).push(found@[i as int]@));
        i += 1;
    }
    assert(crate::model::texts_of(found@).take(found@.len() as int) =~= crate::model::texts_of(
        found@,
    ));
}

fn push_checked_keys(keys: &mut Vec<String>, v: &Value)
    ensures
        crate::model::texts_of(final(keys)@) == crate::model::texts_of(old(keys)@) + checked_keys(
            v@,
        ),
    decreases v,
{
    let ghost start = crate::model::texts_of(keys@);
    match v {
        Value::String(s) => {
            push_texts(keys, s.as_str());
        },
        Value::Array(a) => {
            let ghost items = list_view(a@);
            let mut i: usize = 0;
            proof {
                lemma_list_view(a@);
                assert(items.take(0) == Seq::<Json>::empty());
                assert(start + checked_keys_list(items.take(0)) =~= start);
            }
            while i < a.len()
                invariant
                    i <= a.len(),
                    v is Array && v->Array_0 == *a,
                    items == list_view(a@),
                    items.len() == a@.len(),
                    forall|k: int| 0 <= k < items.len() ==> items[k] == a@[k]@,
                    crate::model::texts_of(keys@) == start + checked_keys_list(items.take(i as int)),
                decreases a.len() - i,
            {
                assert(decreases_to!(*a => a[i as int]));
                push_checked_keys(keys, &a[i]);
                proof {
                    assert(items.take(i + 1).take(i as int) == items.take(i as int));
                    assert(start + checked_keys_list(items.take(i as int)) + checked_keys(
                        items[i as int],
                    ) =~= start + checked_keys_list(items.take(i + 1)));
                }
                i += 1;
            }
            assert(items.take(items.len() as int) == items);
        },
        Value::Object(m) => {
            if m.contains_key("cmd") {
                assert(start + checked_keys(v@) =~= start);
                return ;
            }
            let ghost d = m@;
            let mut i: usize = 0;
            proof {
                lemma_dict_view(m.entries@);
                assert(d.take(0) == Seq::<(Seq<char>, Json)>::empty());
                assert(start + checked_keys_members(d.take(0)) =~= start);
            }
            while i < m.entries.len()
                invariant
                    i <= m.entries.len(),
                    v is Object && v->Object_0 == *m,
                    d == m@,
                    d.len() == m.entries@.len(),
                    forall|k: int| 0 <= k < d.len() ==> d[k] == (m.entries@[k].0@, m.entries@[k].1@),
                    crate::model::texts_of(keys@) == start + checked_keys_members(d.take(i as int)),
                decreases m.entries.len() - i,
            {
                push_texts(keys, m.entries[i].0.as_str());
                assert(decreases_to!(m.entries => m.entries[i as int]));
                push_checked_keys(keys, &m.entries[i].1);
                proof {
                    assert(d.take(i + 1).take(i as int) == d.take(i as int));
                    assert(start + checked_keys_members(d.take(i as int)) + keys_in_text(
                        d[i as int].0,
                    ) + checked_keys(d[i as int].1) =~= start + checked_keys_members(
                        d.take(i + 1),
                    ));
                }
                i += 1;
            }
            assert(d.take(d.len() as int) == d);
        },
        _ => {
            assert(start + checked_keys(v@) =~= start);
        },
    }
}

/// The keys that are checked in `task`.
pub fn keys_of_task(task: &Task) -> (keys: Vec<String>)
    ensures
        crate::model::texts_of(keys@) == task_keys(task@),
{
    let ghost d = task@;
    let mut keys: Vec<String> = Vec::new();
    let mut i: usize = 0;
    proof {
        lemma_dict_view(task.entries@);
        assert(d.take(0) == Seq::<(Seq<char>, Json)>::empty());
        assert(crate::model::texts_of(keys@) =~= Seq::<Seq<char>>::empty());
    }
    while i < task.entries.len()
        invariant
            i <= task.entries.len(),
            d == task@,
            d.len() == task.entries@.len(),
            forall|k: int| 0 <= k < d.len() ==> d[k] == (task.entries@[k].0@, task.entries@[k].1@),
            crate::model::texts_of(keys@) == task_keys(d.take(i as int)),
        decreases task.entries.len() - i,
    {
        let ghost before = crate::model::texts_of(keys@);
        assert(d.take(i + 1).take(i as int) == d.take(i as int));
        if !same_text(task.entries[i].0.as_str(), "tasks") {
            push_texts(&mut keys, task.entries[i].0.as_str());
            push_checked_keys(&mut keys, &task.entries[i].1);
            assert(crate::model::texts_of(keys@) =~= before + (keys_in_text(d[i as int].0)
                + checked_keys(d[i as int].1)));
        } else {
            assert(before + Seq::<Seq<char>>::empty() =~= before);
        }
        i += 1;
    }
    assert(d.take(d.len() as int) == d);
    keys
}

/// The findings for the keys of `task` that cannot have a value.
pub open spec fn task_reach_findings(task: Seq<(Seq<char>, Json)>, sources: Sources) -> Seq<Finding> {
    key_findings(task, task_keys(task), 0, sources, text_field(task, "cmd"@) == Some("replace_map"@))
}

/// Reports the keys of `task` that cannot have a value.
pub fn check_task_keys(task: &Task, known: &Known, diags: &mut Vec<Diagnostic>)
    ensures
        findings(final(diags)@) == findings(old(diags)@) + task_reach_findings(task@, known@),
{
    let ghost base = findings(diags@);
    let in_replace_map = match task.get("cmd") {
        Some(Value::String(c)) => same_text(c.as_str(), "replace_map"),
        _ => false,
    };
    let keys = keys_of_task(task);
    let ghost texts = crate::model::texts_of(keys@);
    let ghost mut done: Seq<Finding> = Seq::empty();
    let mut i: usize = 0;
    assert(findings(diags@) =~= base + done);
    while i < keys.len()
        invariant
            i <= keys.len(),
            texts == crate::model::texts_of(keys@),
            findings(diags@) == base + done,
            key_findings(task@, texts, 0, known@, in_replace_map) == done + key_findings(
                task@,
                texts,
                i as int,
                known@,
                in_replace_map,
            ),
        decreases keys.len() - i,
    {
        let ghost before = findings(diags@);
        if !key_is_reachable(known, keys[i].as_str(), in_replace_map) {
            report(
                diags,
                task,
                concat3("Interpolation key '", keys[i].as_str(), "' has no value to come from"),
            );
        }
        proof {
            let piece = if is_reachable(known@, texts[i as int], in_replace_map) {
                none()
            } else {
                one(task@, "Interpolation key '"@ + texts[i as int] + "' has no value to come from"@)
            };
            assert(findings(diags@) =~= before + piece);
            assert(base + done + piece =~= base + (done + piece));
            assert(done + (piece + key_findings(task@, texts, i + 1, known@, in_replace_map)) =~= (
            done + piece) + key_findings(task@, texts, i + 1, known@, in_replace_map));
            done = done + piece;
        }
        i += 1;
    }
    assert(done + none() =~= done);
}

/// The findings for the keys of the tasks of `list` from `from` on, and of
/// the tasks inside them, that cannot have a value.
pub open spec fn list_reach_findings(list: Seq<Json>, from: int, sources: Sources) -> Seq<Finding>
    decreases list, list.len() - from,
{
    if from < 0 || from >= list.len() {
        none()
    } else {
        (match list[from] {
            Json::Dict(task) => task_reach_findings(task, sources) + (match dict_get(task, "tasks"@) {
                Some(Json::List(sub)) => {
                    proof {
                        lemma_dict_position(task, "tasks"@);
                    }
                    list_reach_findings(sub, 0, sources)
                },
                _ => none(),
            }),
            _ => none(),
        }) + list_reach_findings(list, from + 1, sources)
    }
}

/// Reports the keys of the tasks of `list`, and of the tasks inside them,
/// that cannot have a value.
pub fn check_list_keys(list: &Vec<Value>, known: &Known, diags: &mut Vec<Diagnostic>)
    ensures
        findings(final(diags)@) == findings(old(diags)@) + list_reach_findings(
            list_view(list@),
            0,
            known@,
        ),
    decreases list,
{
    let ghost base = findings(diags@);
    let ghost items = list_view(list@);
    proof {
        lemma_list_view(list@);
    }
    let ghost mut done: Seq<Finding> = Seq::empty();
    let mut i: usize = 0;
    assert(findings(diags@) =~= base + done);
    while i < list.len()
        invariant
            i <= list.len(),
            items == list_view(list@),
            items.len() == list@.len(),
            forall|k: int| 0 <= k < items.len() ==> items[k] == list@[k]@,
            findings(diags@) == base + done,
            list_reach_findings(items, 0, known@) == done + list_reach_findings(
                items,
                i as int,
                known@,
            ),
        decreases list.len() - i,
    {
        let ghost before = findings(diags@);
        match &list[i] {
            Value::Object(task) => {
                check_task_keys(task, known, diags);
                let p = task.position("tasks");
                proof {
                    lemma_dict_view(task.entries@);
                    lemma_dict_position(task@, "tasks"@);
                }
                if p < task.entries.len() {
                    match &task.entries[p].1 {
                        Value::Array(sub) => {
                            assert(decreases_to!(*list => list[i as int]));
                            assert(list[i as int]->Object_0 == *task);
                            assert(decreases_to!(task.entries => task.entries[p as int]));
                            assert(task.entries[p as int].1->Array_0 == *sub);
                            check_list_keys(sub, known, diags);
                        },
                        _ => {},
                    }
                }
            },
            _ => {},
        }
        proof {
            let piece = match items[i as int] {
                Json::Dict(task) => task_reach_findings(task, known@) + (match dict_get(
                    task,
                    "tasks"@,
                ) {
                    Some(Json::List(sub)) => list_reach_findings(sub, 0, known@),
                    _ => none(),
                }),
                _ => none(),
            };
            assert(findings(diags@) =~= before + piece);
            assert(base + done + piece =~= base + (done + piece));
            assert(done + (piece + list_reach_findings(items, i + 1, known@)) =~= (done + piece)
                + list_reach_findings(items, i + 1, known@));
            done = done + piece;
        }
        i += 1;
    }
    assert(done + none() =~= done);
}

} // verus!
