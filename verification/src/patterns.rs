//! The two commands that choose by pattern: `goto_map` picks a target by the
//! first arm that matches a text, `replace_map` rewrites every text of a
//! value by the first arm that matches it.

use crate::error::ExecError;
use crate::interp::{interpolate, interpolate_chars, scope_of, with_inserts, InterpError, Scope};
use crate::model::{Clock, ProgramLoadContext};
use crate::text::{chars_of, find_from, same_chars, string_of};
use crate::value::{
    dict_set, lemma_dict_view, lemma_list_view, list_view, nat_text, push_nat, push_rendered,
    render, Json, Object, Value,
};
use crate::wildcard::{
    captures_of, wildcard_captures_chars, wildcard_match_chars, wildcard_matches,
};
use vstd::prelude::*;

verus! {

/// The most passes that `replace_map` makes over one text before it gives up.
pub const REPEAT_LIMIT: usize = 1000;

/// The arm that `entry` is: its first member, where it is an object that has one.
pub open spec fn arm_of(entry: Json) -> Option<(Seq<char>, Json)> {
    match entry {
        Json::Dict(d) => if d.len() > 0 {
            Some(d[0])
        } else {
            None
        },
        _ => None,
    }
}

/// The text that `v` is where it is a string; the empty text else.
pub open spec fn text_or_empty(v: Json) -> Seq<char> {
    match v {
        Json::Text(s) => s,
        _ => Seq::empty(),
    }
}

/// The text of the value of `s`.
pub open spec fn text_value(scope: Scope, s: Seq<char>) -> Result<Seq<char>, ExecError> {
    match interpolate(scope, s) {
        Ok(v) => Ok(render(v)),
        Err(e) => Err(ExecError::Interpolation(e)),
    }
}

/// The target of the first arm at or after `from` whose key is `NULL`.
pub open spec fn null_target(scope: Scope, maps: Seq<Json>, from: int) -> Result<
    Seq<char>,
    ExecError,
>
    decreases maps.len() - from,
{
    if from < 0 || from >= maps.len() {
        Err(ExecError::NoNullArm)
    } else {
        match arm_of(maps[from]) {
            None => Err(ExecError::BadArm),
            Some((k, v)) => match text_value(scope, k) {
                Err(e) => Err(e),
                Ok(key) => if key == "NULL"@ {
                    text_value(scope, text_or_empty(v))
                } else {
                    null_target(scope, maps, from + 1)
                },
            },
        }
    }
}

/// The target of the first arm at or after `from` whose key matches `text`.
pub open spec fn matching_target(scope: Scope, maps: Seq<Json>, text: Seq<char>, from: int) -> Result<
    Seq<char>,
    ExecError,
>
    decreases maps.len() - from,
{
    if from < 0 || from >= maps.len() {
        Err(ExecError::NoMatch)
    } else {
        match arm_of(maps[from]) {
            None => Err(ExecError::BadArm),
            Some((k, v)) => match text_value(scope, k) {
                Err(e) => Err(e),
                Ok(key) => match text_value(scope, text_or_empty(v)) {
                    Err(e) => Err(e),
                    Ok(target) => if wildcard_matches(key, text) {
                        Ok(target)
                    } else {
                        matching_target(scope, maps, text, from + 1)
                    },
                },
            },
        }
    }
}

/// The target that a `goto_map` picks: that of the first arm whose key
/// matches the value of `text`; where `text` has no value, that of the first
/// arm whose key is `NULL`.
pub open spec fn goto_target(scope: Scope, text: Seq<char>, maps: Seq<Json>) -> Result<
    Seq<char>,
    ExecError,
> {
    match interpolate(scope, text) {
        Err(_) => null_target(scope, maps, 0),
        Ok(v) => matching_target(scope, maps, render(v), 0),
    }
}

/// The model of a result that is a string.
pub open spec fn string_result(r: Result<String, ExecError>) -> Result<Seq<char>, ExecError> {
    match r {
        Ok(s) => Ok(s@),
        Err(e) => Err(e),
    }
}

/// The model of a result that is text.
pub open spec fn text_result(r: Result<Vec<char>, ExecError>) -> Result<Seq<char>, ExecError> {
    match r {
        Ok(s) => Ok(s@),
        Err(e) => Err(e),
    }
}

/// The model of a result that is a value.
pub open spec fn json_result(r: Result<Value, ExecError>) -> Result<Json, ExecError> {
    match r {
        Ok(v) => Ok(v@),
        Err(e) => Err(e),
    }
}

fn text_value_chars(
    inserts: &Object,
    s: &Vec<char>,
    ctx: &ProgramLoadContext,
    clock: &Clock,
) -> (r: Result<Vec<char>, ExecError>)
    ensures
        text_result(r) == text_value(scope_of(*inserts, *ctx, *clock), s@),
{
    match interpolate_chars(inserts, s, ctx, clock) {
        Ok(v) => {
            let mut out: Vec<char> = Vec::new();
            push_rendered(&mut out, &v);
            Ok(out)
        },
        Err(e) => Err(ExecError::Interpolation(e)),
    }
}

/// The key and the value text of the arm that `entry` is.
fn arm_chars(entry: &Value) -> (r: Option<(Vec<char>, Vec<char>)>)
    ensures
        match r {
            Some((k, v)) => arm_of(entry@) == Some((k@, arm_of(entry@)->Some_0.1)) && text_or_empty(
                arm_of(entry@)->Some_0.1,
            ) == v@,
            None => arm_of(entry@) is None,
        },
{
    match entry {
        Value::Object(m) => {
            proof {
                lemma_dict_view(m.entries@);
            }
            if m.entries.len() > 0 {
                let k = chars_of(m.entries[0].0.as_str());
                let v = match &m.entries[0].1 {
                    Value::String(s) => chars_of(s.as_str()),
                    _ => Vec::new(),
                };
                Some((k, v))
            } else {
                None
            }
        },
        _ => None,
    }
}

/// The target that a `goto_map` with the text `text` and the arms
/// `target_maps` picks, at the time `clock`.
pub fn goto_map_target_at(
    inserts: &Object,
    text: &str,
    target_maps: &Vec<Value>,
    ctx: &ProgramLoadContext,
    clock: &Clock,
) -> (r: Result<String, ExecError>)
    ensures
        string_result(r) == goto_target(
            scope_of(*inserts, *ctx, *clock),
            text@,
            list_view(target_maps@),
        ),
{
    let ghost scope = scope_of(*inserts, *ctx, *clock);
    let ghost maps = list_view(target_maps@);
    proof {
        lemma_list_view(target_maps@);
    }
    let t = chars_of(text);
    let null_key = chars_of("NULL");
    match interpolate_chars(inserts, &t, ctx, clock) {
        Err(_) => {
            let mut i: usize = 0;
            while i < target_maps.len()
                invariant
                    i <= target_maps.len(),
                    scope == scope_of(*inserts, *ctx, *clock),
                    maps == list_view(target_maps@),
                    maps.len() == target_maps@.len(),
                    forall|k: int| 0 <= k < maps.len() ==> maps[k] == target_maps@[k]@,
                    null_key@ == "NULL"@,
                    goto_target(scope, text@, maps) == null_target(scope, maps, 0),
                    null_target(scope, maps, 0) == null_target(scope, maps, i as int),
                decreases target_maps.len() - i,
            {
                let (k, v) = match arm_chars(&target_maps[i]) {
                    Some(arm) => arm,
                    None => {
                        return Err(ExecError::BadArm);
                    },
                };
                let key = match text_value_chars(inserts, &k, ctx, clock) {
                    Ok(key) => key,
                    Err(e) => {
                        return Err(e);
                    },
                };
                if same_chars(&key, &null_key) {
                    return match text_value_chars(inserts, &v, ctx, clock) {
                        Ok(target) => Ok(string_of(&target)),
                        Err(e) => Err(e),
                    };
                }
                i += 1;
            }
            Err(ExecError::NoNullArm)
        },
        Ok(value) => {
            let mut wanted: Vec<char> = Vec::new();
            push_rendered(&mut wanted, &value);
            let mut i: usize = 0;
            while i < target_maps.len()
                invariant
                    i <= target_maps.len(),
                    scope == scope_of(*inserts, *ctx, *clock),
                    maps == list_view(target_maps@),
                    maps.len() == target_maps@.len(),
                    forall|k: int| 0 <= k < maps.len() ==> maps[k] == target_maps@[k]@,
                    goto_target(scope, text@, maps) == matching_target(scope, maps, wanted@, 0),
                    matching_target(scope, maps, wanted@, 0) == matching_target(
                        scope,
                        maps,
                        wanted@,
                        i as int,
                    ),
                decreases target_maps.len() - i,
            {
                let (k, v) = match arm_chars(&target_maps[i]) {
                    Some(arm) => arm,
                    None => {
                        return Err(ExecError::BadArm);
                    },
                };
                let key = match text_value_chars(inserts, &k, ctx, clock) {
                    Ok(key) => key,
                    Err(e) => {
                        return Err(e);
                    },
                };
                let target = match text_value_chars(inserts, &v, ctx, clock) {
                    Ok(target) => target,
                    Err(e) => {
                        return Err(e);
                    },
                };
                if wildcard_match_chars(&key, &wanted) {
                    return Ok(string_of(&target));
                }
                i += 1;
            }
            Err(ExecError::NoMatch)
        },
    }
}

/// `inserts` with the captures from place `from` on bound to their
/// numbers: the first capture to `1`, the next to `2`, and so on.
pub open spec fn bind_captures(
    inserts: Seq<(Seq<char>, Json)>,
    captures: Seq<Seq<char>>,
    from: int,
) -> Seq<(Seq<char>, Json)>
    decreases captures.len() - from,
{
    if from < 0 || from >= captures.len() {
        inserts
    } else {
        bind_captures(
            dict_set(inserts, nat_text((from + 1) as nat), Json::Text(captures[from])),
            captures,
            from + 1,
        )
    }
}

/// What the first arm at or after `from` whose key matches `current` makes
/// of it: the text of the arm's value, in which `{1}`, `{2}`, ... stand for
/// what the stars of the key matched. `current` itself where no arm matches.
pub open spec fn first_replacement(scope: Scope, maps: Seq<Json>, current: Seq<char>, from: int) -> Result<
    Seq<char>,
    ExecError,
>
    decreases maps.len() - from,
{
    if from < 0 || from >= maps.len() {
        Ok(current)
    } else {
        match arm_of(maps[from]) {
            None => Err(ExecError::BadArm),
            Some((k, v)) => match text_value(scope, k) {
                Err(e) => Err(e),
                Ok(key) => if wildcard_matches(key, current) {
                    text_value(
                        with_inserts(scope, bind_captures(scope.inserts, captures_of(key, current), 0)),
                        text_or_empty(v),
                    )
                } else {
                    first_replacement(scope, maps, current, from + 1)
                },
            },
        }
    }
}

/// One pass over `text`: it is interpolated, then replaced by the first arm that matches.
pub open spec fn replace_once(scope: Scope, maps: Seq<Json>, text: Seq<char>) -> Result<
    Seq<char>,
    ExecError,
> {
    match text_value(scope, text) {
        Err(e) => Err(e),
        Ok(current) => first_replacement(scope, maps, current, 0),
    }
}

/// `text` after one pass, or, where `repeat` holds, after as many passes as
/// it takes until a pass changes nothing, `passes` at most.
pub open spec fn replace_text(
    scope: Scope,
    maps: Seq<Json>,
    text: Seq<char>,
    repeat: bool,
    passes: nat,
) -> Result<Seq<char>, ExecError>
    decreases passes,
{
    match replace_once(scope, maps, text) {
        Err(e) => Err(e),
        Ok(next) => if !repeat || next == text {
            Ok(next)
        } else if passes == 0 {
            Err(ExecError::Interpolation(InterpError::TooManyPasses))
        } else {
            replace_text(scope, maps, next, repeat, (passes - 1) as nat)
        },
    }
}

/// Whether `key` is the key of the arm for texts without a value: it is
/// `NULL`, or holds a brace and has the value `NULL`.
pub open spec fn is_null_key(scope: Scope, key: Seq<char>) -> bool {
    key == "NULL"@ || (key.contains('{') && text_value(scope, key) == Ok::<Seq<char>, ExecError>(
        "NULL"@,
    ))
}

/// The value of the first member of `d` at or after `from` whose key is a null key.
pub open spec fn null_member(scope: Scope, d: Seq<(Seq<char>, Json)>, from: int) -> Option<Json>
    decreases d.len() - from,
{
    if from < 0 || from >= d.len() {
        None
    } else if is_null_key(scope, d[from].0) {
        Some(d[from].1)
    } else {
        null_member(scope, d, from + 1)
    }
}

/// The value that stands in for a text without a value: that of the first
/// null key among the arms at or after `from`.
pub open spec fn null_value(scope: Scope, maps: Seq<Json>, from: int) -> Option<Json>
    decreases maps.len() - from,
{
    if from < 0 || from >= maps.len() {
        None
    } else {
        match maps[from] {
            Json::Dict(d) => match null_member(scope, d, 0) {
                Some(v) => Some(v),
                None => null_value(scope, maps, from + 1),
            },
            _ => null_value(scope, maps, from + 1),
        }
    }
}

/// `r`, or the stand-in `null` where `r` is a failure.
pub open spec fn or_null(r: Result<Json, ExecError>, null: Option<Json>) -> Result<Json, ExecError> {
    match r {
        Ok(v) => Ok(v),
        Err(_) => match null {
            Some(v) => Ok(v),
            None => Err(ExecError::NoNullArm),
        },
    }
}

/// `item` with every string and every key of it rewritten by the arms
/// `maps`. What fails to be rewritten becomes the stand-in of the arms,
/// and the whole fails where there is none.
pub open spec fn replace_json(scope: Scope, maps: Seq<Json>, item: Json, repeat: bool) -> Result<
    Json,
    ExecError,
>
    decreases item,
{
    or_null(
        match item {
            Json::Text(s) => match replace_text(scope, maps, s, repeat, REPEAT_LIMIT as nat) {
                Ok(t) => Ok(Json::Text(t)),
                Err(e) => Err(e),
            },
            Json::List(a) => match replace_list(scope, maps, a, repeat, Seq::empty()) {
                Ok(b) => Ok(Json::List(b)),
                Err(e) => Err(e),
            },
            Json::Dict(d) => match replace_members(scope, maps, d, repeat, Seq::empty()) {
                Ok(m) => Ok(Json::Dict(m)),
                Err(e) => Err(e),
            },
            _ => Ok(item),
        },
        null_value(scope, maps, 0),
    )
}

/// `acc` followed by the items of `a`, each rewritten; the first failure.
pub open spec fn replace_list(
    scope: Scope,
    maps: Seq<Json>,
    a: Seq<Json>,
    repeat: bool,
    acc: Seq<Json>,
) -> Result<Seq<Json>, ExecError>
    decreases a,
{
    if a.len() == 0 {
        Ok(acc)
    } else {
        match replace_json(scope, maps, a[0], repeat) {
            Err(e) => Err(e),
            Ok(v) => replace_list(scope, maps, a.skip(1), repeat, acc.push(v)),
        }
    }
}

/// `acc` with the members of `d` inserted one by one, keys and values rewritten; the first failure.
pub open spec fn replace_members(
    scope: Scope,
    maps: Seq<Json>,
    d: Seq<(Seq<char>, Json)>,
    repeat: bool,
    acc: Seq<(Seq<char>, Json)>,
) -> Result<Seq<(Seq<char>, Json)>, ExecError>
    decreases d,
{
    if d.len() == 0 {
        Ok(acc)
    } else {
        match replace_text(scope, maps, d[0].0, repeat, REPEAT_LIMIT as nat) {
            Err(e) => Err(e),
            Ok(key) => match replace_json(scope, maps, d[0].1, repeat) {
                Err(e) => Err(e),
                Ok(v) => replace_members(scope, maps, d.skip(1), repeat, dict_set(acc, key, v)),
            },
        }
    }
}

/// `inserts` with `captures` bound to their numbers.
fn with_captures(inserts: &Object, captures: &Vec<String>) -> (extra: Object)
    ensures
        extra@ == bind_captures(inserts@, crate::model::texts_of(captures@), 0),
{
    let ghost caps = crate::model::texts_of(captures@);
    let mut extra = inserts.clone();
    let mut i: usize = 0;
    while i < captures.len()
        invariant
            i <= captures.len(),
            caps == crate::model::texts_of(captures@),
            bind_captures(inserts@, caps, 0) == bind_captures(extra@, caps, i as int),
        decreases captures.len() - i,
    {
        let mut name: Vec<char> = Vec::new();
        push_nat(&mut name, (i + 1) as u64);
        extra.insert(string_of(&name), Value::String(captures[i].clone()));
        i += 1;
    }
    extra
}

fn first_replacement_chars(
    inserts: &Object,
    maps: &Vec<Value>,
    current: &Vec<char>,
    ctx: &ProgramLoadContext,
    clock: &Clock,
) -> (r: Result<Vec<char>, ExecError>)
    ensures
        text_result(r) == first_replacement(
            scope_of(*inserts, *ctx, *clock),
            list_view(maps@),
            current@,
            0,
        ),
{
    let ghost scope = scope_of(*inserts, *ctx, *clock);
    let ghost arms = list_view(maps@);
    proof {
        lemma_list_view(maps@);
    }
    let mut i: usize = 0;
    while i < maps.len()
        invariant
            i <= maps.len(),
            scope == scope_of(*inserts, *ctx, *clock),
            arms == list_view(maps@),
            arms.len() == maps@.len(),
            forall|k: int| 0 <= k < arms.len() ==> arms[k] == maps@[k]@,
            first_replacement(scope, arms, current@, 0) == first_replacement(
                scope,
                arms,
                current@,
                i as int,
            ),
        decreases maps.len() - i,
    {
        let (k, v) = match arm_chars(&maps[i]) {
            Some(arm) => arm,
            None => {
                return Err(ExecError::BadArm);
            },
        };
        let key = match text_value_chars(inserts, &k, ctx, clock) {
            Ok(key) => key,
            Err(e) => {
                return Err(e);
            },
        };
        if wildcard_match_chars(&key, current) {
            let captures = wildcard_captures_chars(&key, current);
            let extra = with_captures(inserts, &captures);
            assert(scope_of(extra, *ctx, *clock) == with_inserts(scope, extra@));
            return text_value_chars(&extra, &v, ctx, clock);
        }
        i += 1;
    }
    let mut out: Vec<char> = Vec::new();
    crate::text::append_chars(&mut out, current);
    Ok(out)
}

fn replace_text_chars(
    inserts: &Object,
    maps: &Vec<Value>,
    text: Vec<char>,
    repeat: bool,
    ctx: &ProgramLoadContext,
    clock: &Clock,
) -> (r: Result<Vec<char>, ExecError>)
    ensures
        text_result(r) == replace_text(
            scope_of(*inserts, *ctx, *clock),
            list_view(maps@),
            text@,
            repeat,
            REPEAT_LIMIT as nat,
        ),
{
    let ghost scope = scope_of(*inserts, *ctx, *clock);
    let ghost arms = list_view(maps@);
    let mut cur: Vec<char> = Vec::new();
    crate::text::append_chars(&mut cur, &text);
    let mut passes: usize = REPEAT_LIMIT;
    loop
        invariant
            scope == scope_of(*inserts, *ctx, *clock),
            arms == list_view(maps@),
            replace_text(scope, arms, cur@, repeat, passes as nat) == replace_text(
                scope,
                arms,
                text@,
                repeat,
                REPEAT_LIMIT as nat,
            ),
        decreases passes,
    {
        let current = match text_value_chars(inserts, &cur, ctx, clock) {
            Ok(c) => c,
            Err(e) => {
                return Err(e);
            },
        };
        let next = match first_replacement_chars(inserts, maps, &current, ctx, clock) {
            Ok(n) => n,
            Err(e) => {
                return Err(e);
            },
        };
        if !repeat || same_chars(&next, &cur) {
            return Ok(next);
        }
        if passes == 0 {
            return Err(ExecError::Interpolation(InterpError::TooManyPasses));
        }
        cur = next;
        passes -= 1;
    }
}

fn is_null_key_chars(inserts: &Object, key: &Vec<char>, ctx: &ProgramLoadContext, clock: &Clock) -> (r:
    bool)
    ensures
        r == is_null_key(scope_of(*inserts, *ctx, *clock), key@),
{
    let null_key = chars_of("NULL");
    if same_chars(key, &null_key) {
        return true;
    }
    let p = find_from(key, '{', 0);
    if p < key.len() {
        assert(key@.contains('{'));
        match text_value_chars(inserts, key, ctx, clock) {
            Ok(t) => same_chars(&t, &null_key),
            Err(_) => false,
        }
    } else {
        assert(!key@.contains('{'));
        false
    }
}

/// The value that stands in for a text without a value.
fn null_value_of(inserts: &Object, maps: &Vec<Value>, ctx: &ProgramLoadContext, clock: &Clock) -> (r:
    Option<Value>)
    ensures
        match r {
            Some(v) => null_value(scope_of(*inserts, *ctx, *clock), list_view(maps@), 0) == Some(
                v@,
            ),
            None => null_value(scope_of(*inserts, *ctx, *clock), list_view(maps@), 0) is None,
        },
{
    let ghost scope = scope_of(*inserts, *ctx, *clock);
    let ghost arms = list_view(maps@);
    proof {
        lemma_list_view(maps@);
    }
    let mut i: usize = 0;
    while i < maps.len()
        invariant
            i <= maps.len(),
            scope == scope_of(*inserts, *ctx, *clock),
            arms == list_view(maps@),
            arms.len() == maps@.len(),
            forall|k: int| 0 <= k < arms.len() ==> arms[k] == maps@[k]@,
            null_value(scope, arms, 0) == null_value(scope, arms, i as int),
        decreases maps.len() - i,
    {
        match &maps[i] {
            Value::Object(m) => {
                let ghost d = m@;
                proof {
                    lemma_dict_view(m.entries@);
                }
                let mut j: usize = 0;
                while j < m.entries.len()
                    invariant
                        j <= m.entries.len(),
                        i < maps.len(),
                        scope == scope_of(*inserts, *ctx, *clock),
                        arms == list_view(maps@),
                        arms.len() == maps@.len(),
                        arms[i as int] == Json::Dict(d),
                        d == m@,
                        d.len() == m.entries@.len(),
                        forall|k: int|
                            0 <= k < d.len() ==> d[k] == (m.entries@[k].0@, m.entries@[k].1@),
                        null_member(scope, d, 0) == null_member(scope, d, j as int),
                        null_value(scope, arms, 0) == null_value(scope, arms, i as int),
                    decreases m.entries.len() - j,
                {
                    let key = chars_of(m.entries[j].0.as_str());
                    if is_null_key_chars(inserts, &key, ctx, clock) {
                        return Some(m.entries[j].1.clone());
                    }
                    j += 1;
                }
            },
            _ => {},
        }
        i += 1;
    }
    None
}

/// `item` rewritten by the arms `maps`, at the time `clock`; see `replace_json`.
pub fn replace_map_at(
    item: &Value,
    maps: &Vec<Value>,
    inserts: &Object,
    ctx: &ProgramLoadContext,
    clock: &Clock,
    repeat_until_done: bool,
) -> (r: Result<Value, ExecError>)
    ensures
        json_result(r) == replace_json(
            scope_of(*inserts, *ctx, *clock),
            list_view(maps@),
            item@,
            repeat_until_done,
        ),
    decreases item,
{
    let ghost scope = scope_of(*inserts, *ctx, *clock);
    let ghost arms = list_view(maps@);
    let null = null_value_of(inserts, maps, ctx, clock);
    let result: Result<Value, ExecError> = match item {
        Value::String(s) => {
            let text = chars_of(s.as_str());
            match replace_text_chars(inserts, maps, text, repeat_until_done, ctx, clock) {
                Ok(t) => Ok(Value::String(string_of(&t))),
                Err(e) => Err(e),
            }
        },
        Value::Array(a) => {
            let ghost items = list_view(a@);
            let mut out: Vec<Value> = Vec::new();
            let mut failed: Option<ExecError> = None;
            let mut i: usize = 0;
            proof {
                lemma_list_view(a@);
                lemma_list_view(out@);
                assert(items.skip(0) == items);
                assert(list_view(out@) == Seq::<Json>::empty());
            }
            while i < a.len() && failed.is_none()
                invariant
                    i <= a.len(),
                    item is Array && item->Array_0 == *a,
                    scope == scope_of(*inserts, *ctx, *clock),
                    arms == list_view(maps@),
                    items == list_view(a@),
                    items.len() == a@.len(),
                    forall|k: int| 0 <= k < items.len() ==> items[k] == a@[k]@,
                    match failed {
                        Some(e) => replace_list(scope, arms, items, repeat_until_done, Seq::empty())
                            == Err::<Seq<Json>, ExecError>(e),
                        None => replace_list(scope, arms, items, repeat_until_done, Seq::empty())
                            == replace_list(
                            scope,
                            arms,
                            items.skip(i as int),
                            repeat_until_done,
                            list_view(out@),
                        ),
                    },
                decreases a.len() - i, failed.is_none() as int,
            {
                let ghost rest = items.skip(i as int);
                assert(rest[0] == items[i as int]);
                assert(rest.skip(1) == items.skip(i + 1));
                assert(decreases_to!(*a => a[i as int]));
                match replace_map_at(&a[i], maps, inserts, ctx, clock, repeat_until_done) {
                    Ok(v) => {
                        let ghost before = out@;
                        out.push(v);
                        proof {
                            lemma_list_view(before);
                            lemma_list_view(out@);
                            assert(list_view(out@) =~= list_view(before).push(v@));
                        }
                        i += 1;
                    },
                    Err(e) => {
                        failed = Some(e);
                    },
                }
            }
            match failed {
                Some(e) => Err(e),
                None => {
                    assert(items.skip(items.len() as int).len() == 0);
                    Ok(Value::Array(out))
                },
            }
        },
        Value::Object(m) => {
            let ghost d = m@;
            let mut out = Object::new();
            let mut failed: Option<ExecError> = None;
            let mut i: usize = 0;
            proof {
                lemma_dict_view(m.entries@);
                assert(d.skip(0) == d);
            }
            while i < m.entries.len() && failed.is_none()
                invariant
                    i <= m.entries.len(),
                    item is Object && item->Object_0 == *m,
                    scope == scope_of(*inserts, *ctx, *clock),
                    arms == list_view(maps@),
                    d == m@,
                    d.len() == m.entries@.len(),
                    forall|k: int| 0 <= k < d.len() ==> d[k] == (m.entries@[k].0@, m.entries@[k].1@),
                    match failed {
                        Some(e) => replace_members(scope, arms, d, repeat_until_done, Seq::empty())
                            == Err::<Seq<(Seq<char>, Json)>, ExecError>(e),
                        None => replace_members(scope, arms, d, repeat_until_done, Seq::empty())
                            == replace_members(
                            scope,
                            arms,
                            d.skip(i as int),
                            repeat_until_done,
                            out@,
                        ),
                    },
                decreases m.entries.len() - i, failed.is_none() as int,
            {
                let ghost rest = d.skip(i as int);
                assert(rest[0] == d[i as int]);
                assert(rest.skip(1) == d.skip(i + 1));
                let key_text = chars_of(m.entries[i].0.as_str());
                match replace_text_chars(inserts, maps, key_text, repeat_until_done, ctx, clock) {
                    Err(e) => {
                        failed = Some(e);
                    },
                    Ok(key) => {
                        assert(decreases_to!(m.entries => m.entries[i as int]));
                        match replace_map_at(
                            &m.entries[i].1,
                            maps,
                            inserts,
                            ctx,
                            clock,
                            repeat_until_done,
                        ) {
                            Err(e) => {
                                failed = Some(e);
                            },
                            Ok(v) => {
                                out.insert(string_of(&key), v);
                                i += 1;
                            },
                        }
                    },
                }
            }
            match failed {
                Some(e) => Err(e),
                None => {
                    assert(d.skip(d.len() as int).len() == 0);
                    Ok(Value::Object(out))
                },
            }
        },
        Value::Null => Ok(Value::Null),
        Value::Bool(b) => Ok(Value::Bool(*b)),
        Value::Number(n) => Ok(Value::Number(n.clone())),
    };
    match result {
        Ok(v) => Ok(v),
        Err(_) => match null {
            Some(v) => Ok(v),
            None => Err(ExecError::NoNullArm),
        },
    }
}

} // verus!
