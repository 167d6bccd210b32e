//! What holds of interpolation whatever the text: a group gives back the
//! key that it was wrapped around, and a value without braces comes back
//! unchanged from escaping, unescaping and interpolating.

use crate::interp::{
    brace_level, deep_interpolate, deep_interpolate_list, deep_interpolate_members, escape_json,
    escaped_start, escaped_stop, expand, hidden_start, hidden_stop, hide_escapes, interpolate,
    interpolate_or_keep, is_container_command, is_pattern_command, is_simple_insert, recode_json,
    recode_list, recode_members, recode_text, resolve_references, resolve_tasks, show_escapes,
    simple_key, text_field, unescape_json, InterpError, Scope, PASS_LIMIT,
};
use crate::text::{count_of, last_before, lemma_replace_absent, occurs, occurs_at};
use crate::value::{
    dict_get, dict_has, dict_position, dict_set, distinct_keys, lemma_dict_position, render, Json,
};
use vstd::prelude::*;

verus! {

/// Counting goes part by part.
pub proof fn lemma_count_concat(a: Seq<char>, b: Seq<char>, c: char)
    ensures
        count_of(a + b, c) == count_of(a, c) + count_of(b, c),
    decreases b.len(),
{
    if b.len() == 0 {
        assert(a + b == a);
    } else {
        lemma_count_concat(a, b.drop_last(), c);
        assert((a + b).drop_last() == a + b.drop_last());
    }
}

/// Counting in a text of one character.
pub proof fn lemma_count_one(x: char, c: char)
    ensures
        count_of(seq![x], c) == if x == c {
            1nat
        } else {
            0nat
        },
{
    assert(seq![x].drop_last().len() == 0);
    assert(count_of(seq![x].drop_last(), c) == 0);
    assert(seq![x].last() == x);
}

/// The group around the key `k`.
pub open spec fn wrapped(k: Seq<char>) -> Seq<char> {
    seq!['{'] + k + seq!['}']
}

/// The depth of braces inside `k` at place `j`: the opening braces before
/// `j` less the closing braces up to and including `j`.
pub open spec fn inner_level(k: Seq<char>, j: int) -> int {
    count_of(k.take(j), '{') - count_of(k.take(j + 1), '}')
}

/// Every closing brace of `k` closes a brace that `k` opened, and every
/// brace that `k` opens is closed in `k`: no brace of `k` stands at depth 0.
pub open spec fn closes_itself(k: Seq<char>) -> bool {
    &&& count_of(k, '{') == count_of(k, '}')
    &&& forall|j: int| 0 <= j < k.len() ==> #[trigger] inner_level(k, j) >= 0
}

proof fn lemma_level_steps(k: Seq<char>, j: int)
    requires
        0 <= j < k.len(),
    ensures
        j == 0 ==> inner_level(k, j) >= -1,
        j > 0 ==> inner_level(k, j) >= inner_level(k, j - 1) - 1,
{
    assert(k.take(j + 1).drop_last() == k.take(j));
    if j > 0 {
        assert(k.take(j).drop_last() == k.take(j - 1));
    } else {
        assert(k.take(0).len() == 0);
        assert(count_of(k.take(0), '{') == 0);
        assert(count_of(k.take(0), '}') == 0);
        assert(count_of(k.take(1), '}') <= 1);
    }
}

proof fn lemma_never_minus_one(k: Seq<char>, j: int)
    requires
        0 <= j < k.len(),
        forall|i: int| 0 <= i < k.len() ==> #[trigger] inner_level(k, i) != -1,
    ensures
        inner_level(k, j) >= 0,
    decreases j,
{
    lemma_level_steps(k, j);
    if j > 0 {
        lemma_never_minus_one(k, j - 1);
    }
}

proof fn lemma_wrapped_levels(k: Seq<char>, i: int)
    requires
        0 <= i < k.len() + 2,
    ensures
        brace_level(wrapped(k), i) == if i == 0 {
            0
        } else if i == k.len() + 1 {
            count_of(k, '{') - count_of(k, '}')
        } else {
            1 + inner_level(k, i - 1)
        },
{
    let w = wrapped(k);
    lemma_count_one('{', '{');
    lemma_count_one('{', '}');
    lemma_count_one('}', '{');
    lemma_count_one('}', '}');
    if i == 0 {
        assert(w.take(0).len() == 0);
        assert(w.take(1) == seq!['{']);
    } else if i == k.len() + 1 {
        assert(w.take(i) == seq!['{'] + k);
        assert(w.take(i + 1) == w);
        lemma_count_concat(seq!['{'], k, '{');
        lemma_count_concat(seq!['{'] + k, seq!['}'], '}');
        lemma_count_concat(seq!['{'], k, '}');
    } else {
        assert(w.take(i) == seq!['{'] + k.take(i - 1));
        assert(w.take(i + 1) == seq!['{'] + k.take(i));
        lemma_count_concat(seq!['{'], k.take(i - 1), '{');
        lemma_count_concat(seq!['{'], k.take(i), '}');
    }
}

/// A group gives back its key just when the key closes itself: the key of
/// `{k}` is `k` if no brace of `k` stands at depth 0, and `{k}` is no single
/// group otherwise.
pub proof fn lemma_simple_key_identity(k: Seq<char>)
    ensures
        simple_key(wrapped(k)) == Some(k) <==> closes_itself(k),
        simple_key(wrapped(k)) is None <==> !closes_itself(k),
{
    let w = wrapped(k);
    assert(w.subrange(1, w.len() - 1) == k);
    assert forall|i: int| 0 <= i < w.len() implies brace_level(w, i) == if i == 0 {
        0
    } else if i == k.len() + 1 {
        count_of(k, '{') - count_of(k, '}')
    } else {
        1 + inner_level(k, i - 1)
    } by {
        lemma_wrapped_levels(k, i);
    }
    if closes_itself(k) {
        assert forall|i: int| 0 <= i < w.len() implies ((#[trigger] brace_level(w, i) == 0) <==> (i
            == 0 || i == w.len() - 1)) by {
            if 0 < i < w.len() - 1 {
                assert(inner_level(k, i - 1) >= 0);
            }
        }
        assert(is_simple_insert(w));
    }
    if is_simple_insert(w) {
        assert(brace_level(w, w.len() - 1) == 0);
        assert forall|j: int| 0 <= j < k.len() implies #[trigger] inner_level(k, j) != -1 by {
            assert(brace_level(w, j + 1) != 0);
        }
        assert forall|j: int| 0 <= j < k.len() implies #[trigger] inner_level(k, j) >= 0 by {
            lemma_never_minus_one(k, j);
        }
        assert(closes_itself(k));
    }
}

/// A text that holds no brace and nothing that stands for a hidden brace.
pub open spec fn plain_text(s: Seq<char>) -> bool {
    &&& forall|i: int| 0 <= i < s.len() ==> s[i] != '{' && s[i] != '}'
    &&& !occurs(s, hidden_start())
    &&& !occurs(s, hidden_stop())
}

/// A value of literals only: all its strings and keys are plain texts, and
/// no object of it has a key twice.
pub open spec fn plain(v: Json) -> bool
    decreases v,
{
    match v {
        Json::Text(s) => plain_text(s),
        Json::List(a) => forall|i: int| 0 <= i < a.len() ==> plain(#[trigger] a[i]),
        Json::Dict(d) => distinct_keys(d) && forall|i: int|
            0 <= i < d.len() ==> plain_text((#[trigger] d[i]).0) && plain(d[i].1),
        _ => true,
    }
}

proof fn lemma_needle_absent(s: Seq<char>, needle: Seq<char>, at: int)
    requires
        forall|i: int| 0 <= i < s.len() ==> s[i] != '{' && s[i] != '}',
        0 <= at < needle.len(),
        needle[at] == '{' || needle[at] == '}',
    ensures
        !occurs(s, needle),
{
    if occurs(s, needle) {
        let i = choose|i: int| occurs_at(s, i, needle);
        assert(s.subrange(i, i + needle.len())[at] == needle[at]);
        assert(s[i + at] == needle[at]);
    }
}

proof fn lemma_plain_text_recode(s: Seq<char>, escaping: bool)
    requires
        plain_text(s),
    ensures
        recode_text(s, escaping) == s,
        hide_escapes(s) == s,
        show_escapes(s) == s,
{
    lemma_needle_absent(s, seq!['{'], 0);
    lemma_needle_absent(s, seq!['}'], 0);
    lemma_needle_absent(s, escaped_start(), 1);
    lemma_needle_absent(s, escaped_stop(), 1);
    lemma_replace_absent(s, seq!['{'], escaped_start());
    lemma_replace_absent(s, seq!['}'], escaped_stop());
    lemma_replace_absent(s, escaped_start(), seq!['{']);
    lemma_replace_absent(s, escaped_stop(), seq!['}']);
    lemma_replace_absent(s, escaped_start(), hidden_start());
    lemma_replace_absent(s, escaped_stop(), hidden_stop());
    lemma_replace_absent(s, hidden_start(), escaped_start());
    lemma_replace_absent(s, hidden_stop(), escaped_stop());
}

proof fn lemma_last_before(s: Seq<char>, c: char, upto: int)
    requires
        0 <= upto <= s.len(),
    ensures
        last_before(s, c, upto) == -1 || (0 <= last_before(s, c, upto) < upto && s[last_before(
            s,
            c,
            upto,
        )] == c),
    decreases upto,
{
    if upto > 0 && s[upto - 1] != c {
        lemma_last_before(s, c, upto - 1);
    }
}

/// A plain text is its own value.
pub proof fn lemma_plain_text_interpolates(scope: Scope, s: Seq<char>)
    requires
        plain_text(s),
    ensures
        interpolate(scope, s) == Ok::<Json, InterpError>(Json::Text(s)),
        interpolate_or_keep(scope, s) == Json::Text(s),
        simple_key(s) is None,
{
    lemma_plain_text_recode(s, true);
    lemma_last_before(s, '{', s.len() as int);
    assert(!is_simple_insert(s));
    assert(expand(scope, s, PASS_LIMIT as nat) == Ok::<Seq<char>, InterpError>(s));
}

proof fn lemma_not_in_front(d: Seq<(Seq<char>, Json)>)
    requires
        distinct_keys(d),
        d.len() > 0,
    ensures
        !dict_has(d.take(d.len() - 1), d[d.len() - 1].0),
        distinct_keys(d.take(d.len() - 1)),
{
    let front = d.take(d.len() - 1);
    lemma_dict_position(front, d[d.len() - 1].0);
    let p = dict_position(front, d[d.len() - 1].0);
    if p < front.len() {
        assert(front[p] == d[p]);
    }
    assert forall|i: int, j: int| 0 <= i < j < front.len() implies front[i].0 != front[j].0 by {
        assert(front[i] == d[i]);
        assert(front[j] == d[j]);
    }
}

/// Escaping and unescaping leave a value of literals as it is.
pub proof fn lemma_plain_recode(v: Json, escaping: bool)
    requires
        plain(v),
    ensures
        recode_json(v, escaping) == v,
    decreases v,
{
    match v {
        Json::Text(s) => {
            lemma_plain_text_recode(s, escaping);
        },
        Json::List(a) => {
            lemma_plain_recode_list(a, escaping);
        },
        Json::Dict(d) => {
            lemma_plain_recode_members(d, escaping);
        },
        _ => {},
    }
}

proof fn lemma_plain_recode_list(a: Seq<Json>, escaping: bool)
    requires
        forall|i: int| 0 <= i < a.len() ==> plain(#[trigger] a[i]),
    ensures
        recode_list(a, escaping) == a,
    decreases a,
{
    if a.len() > 0 {
        let front = a.take(a.len() - 1);
        assert forall|i: int| 0 <= i < front.len() implies plain(#[trigger] front[i]) by {
            assert(front[i] == a[i]);
        }
        lemma_plain_recode_list(front, escaping);
        lemma_plain_recode(a[a.len() - 1], escaping);
        assert(front.push(a[a.len() - 1]) =~= a);
    } else {
        assert(a =~= Seq::<Json>::empty());
    }
}

proof fn lemma_plain_recode_members(d: Seq<(Seq<char>, Json)>, escaping: bool)
    requires
        distinct_keys(d),
        forall|i: int| 0 <= i < d.len() ==> plain_text((#[trigger] d[i]).0) && plain(d[i].1),
    ensures
        recode_members(d, escaping) == d,
    decreases d,
{
    if d.len() > 0 {
        let front = d.take(d.len() - 1);
        let last = d[d.len() - 1];
        lemma_not_in_front(d);
        assert forall|i: int| 0 <= i < front.len() implies plain_text((#[trigger] front[i]).0)
            && plain(front[i].1) by {
            assert(front[i] == d[i]);
        }
        lemma_plain_recode_members(front, escaping);
        lemma_plain_text_recode(last.0, escaping);
        lemma_plain_recode(last.1, escaping);
        assert(dict_set(front, last.0, last.1) =~= d);
    } else {
        assert(d =~= Seq::<(Seq<char>, Json)>::empty());
    }
}

proof fn lemma_plain_references(scope: Scope, a: Seq<Json>, acc: Seq<Json>)
    requires
        forall|i: int| 0 <= i < a.len() ==> plain(#[trigger] a[i]),
    ensures
        resolve_references(scope, a, acc) == Ok::<Seq<Json>, InterpError>(acc + a),
    decreases a.len(),
{
    if a.len() == 0 {
        assert(acc + a =~= acc);
    } else {
        let rest = a.skip(1);
        assert(plain(a[0]));
        match a[0] {
            Json::Text(s) => {
                lemma_plain_text_interpolates(scope, s);
            },
            _ => {},
        }
        assert forall|i: int| 0 <= i < rest.len() implies plain(#[trigger] rest[i]) by {
            assert(rest[i] == a[i + 1]);
        }
        lemma_plain_references(scope, rest, acc.push(a[0]));
        assert(acc.push(a[0]) + rest =~= acc + a);
    }
}

proof fn lemma_has_after_push(acc: Seq<(Seq<char>, Json)>, key: Seq<char>, v: Json, other: Seq<char>)
    requires
        !dict_has(acc, key),
    ensures
        dict_set(acc, key, v) == acc.push((key, v)),
        dict_has(acc.push((key, v)), other) == (dict_has(acc, other) || other == key),
{
    crate::value::lemma_dict_set_get(acc, key, v, other);
}

/// Interpolating a value of literals gives the value.
pub proof fn lemma_plain_deep(scope: Scope, v: Json)
    requires
        plain(v),
    ensures
        deep_interpolate(scope, v) == Ok::<Json, InterpError>(v),
    decreases v,
{
    match v {
        Json::Text(s) => {
            lemma_plain_text_interpolates(scope, s);
        },
        Json::List(a) => {
            lemma_plain_deep_list(scope, a, Seq::empty());
            assert(Seq::<Json>::empty() + a =~= a);
        },
        Json::Dict(d) => {
            let cmd = text_field(d, "cmd"@);
            if cmd is Some && is_pattern_command(cmd->Some_0) {
            } else if cmd is Some && is_container_command(cmd->Some_0) {
                match dict_get(d, "tasks"@) {
                    None => {},
                    Some(t) => {
                        lemma_dict_position(d, "tasks"@);
                        let p = dict_position(d, "tasks"@);
                        assert(plain(d[p].1));
                        match t {
                            Json::Text(s) => {
                                lemma_plain_text_interpolates(scope, s);
                            },
                            Json::List(a) => {
                                lemma_plain_references(scope, a, Seq::empty());
                                assert(Seq::<Json>::empty() + a =~= a);
                            },
                            _ => {},
                        }
                        assert(resolve_tasks(scope, t) == Ok::<Json, InterpError>(t));
                        assert(dict_set(d, "tasks"@, t) =~= d);
                    },
                }
            } else {
                assert forall|i: int| 0 <= i < d.len() implies !dict_has(
                    Seq::<(Seq<char>, Json)>::empty(),
                    (#[trigger] d[i]).0,
                ) by {}
                lemma_plain_deep_members(scope, d, Seq::empty());
                assert(Seq::<(Seq<char>, Json)>::empty() + d =~= d);
            }
        },
        _ => {},
    }
}

proof fn lemma_plain_deep_list(scope: Scope, a: Seq<Json>, acc: Seq<Json>)
    requires
        forall|i: int| 0 <= i < a.len() ==> plain(#[trigger] a[i]),
    ensures
        deep_interpolate_list(scope, a, acc) == Ok::<Seq<Json>, InterpError>(acc + a),
    decreases a,
{
    if a.len() == 0 {
        assert(acc + a =~= acc);
    } else {
        let rest = a.skip(1);
        assert(plain(a[0]));
        lemma_plain_deep(scope, a[0]);
        assert forall|i: int| 0 <= i < rest.len() implies plain(#[trigger] rest[i]) by {
            assert(rest[i] == a[i + 1]);
        }
        lemma_plain_deep_list(scope, rest, acc.push(a[0]));
        assert(acc.push(a[0]) + rest =~= acc + a);
    }
}

proof fn lemma_plain_deep_members(scope: Scope, d: Seq<(Seq<char>, Json)>, acc: Seq<(Seq<char>, Json)>)
    requires
        distinct_keys(d),
        forall|i: int| 0 <= i < d.len() ==> plain_text((#[trigger] d[i]).0) && plain(d[i].1),
        forall|i: int| 0 <= i < d.len() ==> !dict_has(acc, (#[trigger] d[i]).0),
    ensures
        deep_interpolate_members(scope, d, acc) == Ok::<Seq<(Seq<char>, Json)>, InterpError>(
            acc + d,
        ),
    decreases d,
{
    if d.len() == 0 {
        assert(acc + d =~= acc);
    } else {
        let rest = d.skip(1);
        let first = d[0];
        assert(plain_text(first.0) && plain(first.1));
        lemma_plain_text_interpolates(scope, first.0);
        lemma_plain_deep(scope, first.1);
        assert(render(Json::Text(first.0)) == first.0);
        assert(!dict_has(acc, first.0));
        lemma_has_after_push(acc, first.0, first.1, first.0);
        let next = acc.push(first);
        assert(dict_set(acc, first.0, first.1) == next);
        assert forall|i: int| 0 <= i < rest.len() implies plain_text((#[trigger] rest[i]).0)
            && plain(rest[i].1) && !dict_has(next, rest[i].0) by {
            assert(rest[i] == d[i + 1]);
            lemma_has_after_push(acc, first.0, first.1, rest[i].0);
        }
        assert forall|i: int, j: int| 0 <= i < j < rest.len() implies rest[i].0 != rest[j].0 by {
            assert(rest[i] == d[i + 1]);
            assert(rest[j] == d[j + 1]);
        }
        lemma_plain_deep_members(scope, rest, next);
        assert(next + rest =~= acc + d);
    }
}

/// A value of literals comes back unchanged when it is escaped, unescaped
/// and interpolated, whatever the inserts, the files and the time.
pub proof fn lemma_escape_round_trip(scope: Scope, v: Json)
    requires
        plain(v),
    ensures
        deep_interpolate(scope, unescape_json(escape_json(v))) == Ok::<Json, InterpError>(v),
{
    lemma_plain_recode(v, true);
    lemma_plain_recode(v, false);
    lemma_plain_deep(scope, v);
}

} // verus!
