//! The interpolation engine: `{key}` groups in text are replaced by the
//! values that the inserts, the clock and the inserts directory give them.

use crate::model::{
    is_hour_minute, is_hour_minute_second, Clock, DirFile, FileView, ProgramLoadContext,
};
use crate::text::{
    append_chars, chars_of, count_char, count_of, find_from, first_from, last_before, replace_all,
    replace_chars, rfind, same_chars, slice_chars, string_of, trim, trim_chars,
};
use crate::value::{
    dict_get, dict_has, dict_position, dict_set, int_text, lemma_dict_view, lemma_list_view,
    list_view, push_rendered, render, render_all, Json, Number, Object, Value,
};
use vstd::prelude::*;

verus! {

/// What opens a group.
pub const INSERT_START: char = '{';

/// What closes a group.
pub const INSERT_STOP: char = '}';

/// What makes the brace behind it a literal brace.
pub const ESCAPE: char = '\\';

/// The most groups that one text may have replaced before interpolation gives up.
pub const PASS_LIMIT: usize = 100000;

/// Why a text has no value.
#[derive(Clone, Copy, Debug, PartialEq, Eq, Structural)]
pub enum InterpError {
    /// A group `{}` without a key.
    EmptyKey,
    /// No insert, reserved key or file has this name.
    UnknownKey,
    /// An `ARG` key that the program was not started with.
    MissingArgument,
    /// The opening and closing braces do not pair up.
    UnevenBraces,
    /// A `null` or an object cannot be spliced into text.
    UnsupportedType,
    /// The file of the inserts directory could not be read or parsed.
    UnreadableFile,
    /// More than `PASS_LIMIT` groups were replaced in one text.
    TooManyPasses,
}

/// An escaped opening brace, `\{`.
pub open spec fn escaped_start() -> Seq<char> {
    seq!['\\', '{']
}

/// An escaped closing brace, `\}`.
pub open spec fn escaped_stop() -> Seq<char> {
    seq!['\\', '}']
}

/// What stands for an escaped opening brace while groups are replaced.
pub open spec fn hidden_start() -> Seq<char> {
    seq!['.', '\u{3020}']
}

/// What stands for an escaped closing brace while groups are replaced.
pub open spec fn hidden_stop() -> Seq<char> {
    seq!['\u{3020}', '.']
}

/// `s` with its escaped braces hidden.
pub open spec fn hide_escapes(s: Seq<char>) -> Seq<char> {
    replace_all(replace_all(s, escaped_start(), hidden_start()), escaped_stop(), hidden_stop())
}

/// `s` with its hidden braces back as escaped braces.
pub open spec fn show_escapes(s: Seq<char>) -> Seq<char> {
    replace_all(replace_all(s, hidden_start(), escaped_start()), hidden_stop(), escaped_stop())
}

/// `s` with a backslash put before every brace.
pub open spec fn escape_text(s: Seq<char>) -> Seq<char> {
    replace_all(replace_all(s, seq!['{'], escaped_start()), seq!['}'], escaped_stop())
}

/// `s` with the backslash taken off every escaped brace.
pub open spec fn unescape_text(s: Seq<char>) -> Seq<char> {
    replace_all(replace_all(s, escaped_start(), seq!['{']), escaped_stop(), seq!['}'])
}

/// Escaping where `escaping` holds, else unescaping.
pub open spec fn recode_text(s: Seq<char>, escaping: bool) -> Seq<char> {
    if escaping {
        escape_text(s)
    } else {
        unescape_text(s)
    }
}

/// `v` with every string and every key of it escaped or unescaped. Members
/// whose keys become equal are merged as by successive insertion.
pub open spec fn recode_json(v: Json, escaping: bool) -> Json
    decreases v,
{
    match v {
        Json::Text(s) => Json::Text(recode_text(s, escaping)),
        Json::List(a) => Json::List(recode_list(a, escaping)),
        Json::Dict(d) => Json::Dict(recode_members(d, escaping)),
        _ => v,
    }
}

/// The items of `a`, each escaped or unescaped.
pub open spec fn recode_list(a: Seq<Json>, escaping: bool) -> Seq<Json>
    decreases a,
{
    if a.len() == 0 {
        Seq::empty()
    } else {
        recode_list(a.take(a.len() - 1), escaping).push(recode_json(a[a.len() - 1], escaping))
    }
}

/// The members of `d`, keys and values escaped or unescaped, inserted one by one.
pub open spec fn recode_members(d: Seq<(Seq<char>, Json)>, escaping: bool) -> Seq<
    (Seq<char>, Json),
>
    decreases d,
{
    if d.len() == 0 {
        Seq::empty()
    } else {
        dict_set(
            recode_members(d.take(d.len() - 1), escaping),
            recode_text(d[d.len() - 1].0, escaping),
            recode_json(d[d.len() - 1].1, escaping),
        )
    }
}

/// `v` with a backslash put before every brace of its strings and keys.
pub open spec fn escape_json(v: Json) -> Json {
    recode_json(v, true)
}

/// `v` with the backslash taken off every escaped brace of its strings and keys.
pub open spec fn unescape_json(v: Json) -> Json {
    recode_json(v, false)
}

/// The depth of braces at position `i` of `s`: the opening braces before `i`
/// less the closing braces up to and including `i`.
pub open spec fn brace_level(s: Seq<char>, i: int) -> int {
    count_of(s.take(i), '{') - count_of(s.take(i + 1), '}')
}

/// `s` is one group: it opens with a brace that only its last character closes.
pub open spec fn is_simple_insert(s: Seq<char>) -> bool {
    &&& s.len() >= 2
    &&& s[0] == '{'
    &&& s[s.len() - 1] == '}'
    &&& forall|i: int|
        0 <= i < s.len() ==> ((#[trigger] brace_level(s, i) == 0) <==> (i == 0 || i == s.len() - 1))
}

/// The key of `s` where `s` is one group.
pub open spec fn simple_key(s: Seq<char>) -> Option<Seq<char>> {
    if is_simple_insert(s) {
        Some(s.subrange(1, s.len() - 1))
    } else {
        None
    }
}

fn pair_of(a: char, b: char) -> (r: Vec<char>)
    ensures
        r@ == seq![a, b],
{
    let mut r: Vec<char> = Vec::new();
    r.push(a);
    r.push(b);
    assert(r@ =~= seq![a, b]);
    r
}

fn single(a: char) -> (r: Vec<char>)
    ensures
        r@ == seq![a],
{
    let mut r: Vec<char> = Vec::new();
    r.push(a);
    assert(r@ =~= seq![a]);
    r
}

/// Hides the escaped braces of `s`.
pub fn hide_escapes_chars(s: &Vec<char>) -> (r: Vec<char>)
    ensures
        r@ == hide_escapes(s@),
{
    let a = replace_chars(s, &pair_of('\\', '{'), &pair_of('.', '\u{3020}'));
    replace_chars(&a, &pair_of('\\', '}'), &pair_of('\u{3020}', '.'))
}

/// Brings the hidden braces of `s` back as escaped braces.
pub fn show_escapes_chars(s: &Vec<char>) -> (r: Vec<char>)
    ensures
        r@ == show_escapes(s@),
{
    let a = replace_chars(s, &pair_of('.', '\u{3020}'), &pair_of('\\', '{'));
    replace_chars(&a, &pair_of('\u{3020}', '.'), &pair_of('\\', '}'))
}

/// Escapes or unescapes the braces of `s`.
pub fn recode_chars(s: &Vec<char>, escaping: bool) -> (r: Vec<char>)
    ensures
        r@ == recode_text(s@, escaping),
{
    if escaping {
        let a = replace_chars(s, &single('{'), &pair_of('\\', '{'));
        replace_chars(&a, &single('}'), &pair_of('\\', '}'))
    } else {
        let a = replace_chars(s, &pair_of('\\', '{'), &single('{'));
        replace_chars(&a, &pair_of('\\', '}'), &single('}'))
    }
}

/// Escapes or unescapes the braces of `s`.
pub fn recode_string(s: &str, escaping: bool) -> (r: String)
    ensures
        r@ == recode_text(s@, escaping),
{
    let c = chars_of(s);
    let r = recode_chars(&c, escaping);
    string_of(&r)
}

/// Escapes or unescapes every string and key of `v`.
pub fn recode_value(v: &Value, escaping: bool) -> (r: Value)
    ensures
        r@ == recode_json(v@, escaping),
    decreases v,
{
    match v {
        Value::String(s) => Value::String(recode_string(s.as_str(), escaping)),
        Value::Array(a) => {
            let ghost items = list_view(a@);
            let mut out: Vec<Value> = Vec::new();
            let mut i: usize = 0;
            proof {
                lemma_list_view(a@);
                lemma_list_view(out@);
                assert(items.take(0) == Seq::<Json>::empty());
            }
            while i < a.len()
                invariant
                    i <= a.len(),
                    v is Array && v->Array_0 == *a,
                    items == list_view(a@),
                    items.len() == a@.len(),
                    forall|k: int| 0 <= k < items.len() ==> items[k] == a@[k]@,
                    list_view(out@) == recode_list(items.take(i as int), escaping),
                decreases a.len() - i,
            {
                assert(decreases_to!(*a => a[i as int]));
                let item = recode_value(&a[i], escaping);
                let ghost before = out@;
                out.push(item);
                proof {
                    assert(out@.take(out@.len() - 1) == before);
                    assert(items.take(i + 1).take(i as int) == items.take(i as int));
                }
                i += 1;
            }
            assert(items.take(items.len() as int) == items);
            Value::Array(out)
        },
        Value::Object(m) => {
            let ghost d = m@;
            let mut out = Object::new();
            let mut i: usize = 0;
            proof {
                lemma_dict_view(m.entries@);
                assert(d.take(0) == Seq::<(Seq<char>, Json)>::empty());
            }
            while i < m.entries.len()
                invariant
                    i <= m.entries.len(),
                    v is Object && v->Object_0 == *m,
                    d == m@,
                    d.len() == m.entries@.len(),
                    forall|k: int| 0 <= k < d.len() ==> d[k] == (m.entries@[k].0@, m.entries@[k].1@),
                    out@ == recode_members(d.take(i as int), escaping),
                decreases m.entries.len() - i,
            {
                assert(decreases_to!(m.entries => m.entries[i as int]));
                let key = recode_string(m.entries[i].0.as_str(), escaping);
                let item = recode_value(&m.entries[i].1, escaping);
                out.insert(key, item);
                proof {
                    assert(d.take(i + 1).take(i as int) == d.take(i as int));
                }
                i += 1;
            }
            assert(d.take(d.len() as int) == d);
            Value::Object(out)
        },
        Value::Null => Value::Null,
        Value::Bool(b) => Value::Bool(*b),
        Value::Number(n) => Value::Number(n.clone()),
    }
}

/// `value` with a backslash put before every brace of its strings and keys.
pub fn recursive_escape(value: Value) -> (r: Value)
    ensures
        r@ == escape_json(value@),
{
    recode_value(&value, true)
}

/// `value` with the backslash taken off every escaped brace of its strings and keys.
pub fn recursive_unescape(value: Value) -> (r: Value)
    ensures
        r@ == unescape_json(value@),
{
    recode_value(&value, false)
}

/// The key of `s` where `s` is one group.
pub fn simple_key_chars(s: &Vec<char>) -> (r: Option<Vec<char>>)
    ensures
        match r {
            Some(k) => simple_key(s@) == Some(k@),
            None => simple_key(s@) is None,
        },
{
    let n = s.len();
    if n < 2 || s[0] != '{' || s[n - 1] != '}' {
        return None;
    }
    let mut opens: usize = 0;
    let mut closes: usize = 0;
    let mut i: usize = 0;
    while i < n
        invariant
            i <= n,
            n == s.len(),
            opens == count_of(s@.take(i as int), '{'),
            closes == count_of(s@.take(i as int), '}'),
            opens <= i,
            closes <= i,
            forall|k: int|
                0 <= k < i ==> ((#[trigger] brace_level(s@, k) == 0) <==> (k == 0 || k == n - 1)),
        decreases n - i,
    {
        assert(s@.take(i + 1).drop_last() == s@.take(i as int));
        if s[i] == '}' {
            closes += 1;
        }
        if (opens == closes) != (i == 0 || i == n - 1) {
            assert(!((brace_level(s@, i as int) == 0) <==> (i == 0 || i == n - 1)));
            return None;
        }
        if s[i] == '{' {
            opens += 1;
        }
        i += 1;
    }
    Some(slice_chars(s, 1, n - 1))
}

/// The key of `content` where `content` is one group `{key}`: it begins with
/// an opening brace that only its last character closes.
pub fn get_simple_insertkey(content: &str) -> (r: Option<String>)
    ensures
        match r {
            Some(k) => simple_key(content@) == Some(k@),
            None => simple_key(content@) is None,
        },
{
    let s = chars_of(content);
    match simple_key_chars(&s) {
        Some(k) => Some(string_of(&k)),
        None => None,
    }
}

} // verus!

verus! {

/// All that a lookup depends on: the inserts, the files of the inserts
/// directory where one is configured, and the time of day as text.
pub struct Scope {
    pub inserts: Seq<(Seq<char>, Json)>,
    pub has_dir: bool,
    pub files: Seq<FileView>,
    pub hour_minute: Seq<char>,
    pub hour_minute_second: Seq<char>,
}

/// The scope that the inserts `inserts`, `ctx` and `clock` make.
pub open spec fn scope_with(
    inserts: Seq<(Seq<char>, Json)>,
    ctx: ProgramLoadContext,
    clock: Clock,
) -> Scope {
    Scope {
        inserts,
        has_dir: ctx.inserts_dir is Some,
        files: crate::model::files_view(ctx.inserts_dir_files@),
        hour_minute: clock.hour_minute@,
        hour_minute_second: clock.hour_minute_second@,
    }
}

/// The scope that `inserts`, `ctx` and `clock` make.
pub open spec fn scope_of(inserts: Object, ctx: ProgramLoadContext, clock: Clock) -> Scope {
    scope_with(inserts@, ctx, clock)
}

/// `scope` with other inserts.
pub open spec fn with_inserts(scope: Scope, inserts: Seq<(Seq<char>, Json)>) -> Scope {
    Scope { inserts, ..scope }
}

/// The model of an interpolation result.
pub open spec fn value_result(r: Result<Value, InterpError>) -> Result<Json, InterpError> {
    match r {
        Ok(v) => Ok(v@),
        Err(e) => Err(e),
    }
}

/// The model of a result that is text.
pub open spec fn chars_result(r: Result<Vec<char>, InterpError>) -> Result<
    Seq<char>,
    InterpError,
> {
    match r {
        Ok(v) => Ok(v@),
        Err(e) => Err(e),
    }
}

/// A decimal digit.
pub open spec fn is_digit(c: char) -> bool {
    '0' <= c && c <= '9'
}

/// `key` is `ARG` followed by decimal digits only: a program argument.
pub open spec fn is_argument_key(key: Seq<char>) -> bool {
    &&& key.len() >= 3
    &&& key[0] == 'A'
    &&& key[1] == 'R'
    &&& key[2] == 'G'
    &&& forall|i: int| 3 <= i < key.len() ==> is_digit(#[trigger] key[i])
}

/// The position of the first file of `files` at or after `from` named `name`, or `files.len()`.
pub open spec fn file_position(files: Seq<FileView>, name: Seq<char>, from: int) -> int
    decreases files.len() - from,
{
    if from < 0 || from >= files.len() {
        files.len() as int
    } else if files[from].name == name {
        from
    } else {
        file_position(files, name, from + 1)
    }
}

/// What the inserts directory gives for `key`: the value of `<key>.json5`,
/// else the trimmed text of the file `<key>`, with every brace escaped.
pub open spec fn resolve_file(files: Seq<FileView>, key: Seq<char>) -> Result<Json, InterpError> {
    let j = file_position(files, key + crate::model::json5_suffix(), 0);
    let p = file_position(files, key, 0);
    if j < files.len() {
        match files[j].parsed {
            Some(v) => if files[j].text is Some {
                Ok(escape_json(v))
            } else {
                Err(InterpError::UnreadableFile)
            },
            None => Err(InterpError::UnreadableFile),
        }
    } else if p < files.len() {
        match files[p].text {
            Some(t) => Ok(escape_json(Json::Text(trim(t)))),
            None => Err(InterpError::UnreadableFile),
        }
    } else {
        Err(InterpError::UnknownKey)
    }
}

/// The value that `key` stands for in `scope`.
pub open spec fn resolve(scope: Scope, key: Seq<char>) -> Result<Json, InterpError> {
    if key == "HH:MM"@ {
        Ok(Json::Text(scope.hour_minute))
    } else if key == "HH:MM:SS"@ {
        Ok(Json::Text(scope.hour_minute_second))
    } else if key.len() == 0 {
        Err(InterpError::EmptyKey)
    } else if dict_has(scope.inserts, key) {
        Ok(scope.inserts[dict_position(scope.inserts, key)].1)
    } else if is_argument_key(key) {
        Err(InterpError::MissingArgument)
    } else if scope.has_dir {
        resolve_file(scope.files, key)
    } else {
        Err(InterpError::UnknownKey)
    }
}

/// The text that `v` is spliced into a text as: none for `null`, a truth
/// value or an object.
pub open spec fn splice_text(v: Json) -> Option<Seq<char>> {
    match v {
        Json::Text(s) => Some(s),
        Json::Int(i) => Some(int_text(i)),
        Json::Real(t) => Some(t),
        Json::List(a) => Some(render_all(a)),
        _ => None,
    }
}

/// `s`, whose escaped braces are hidden, with its groups replaced one by
/// one, each time the innermost group that opens last, until no opening brace
/// is left or `passes` groups were replaced.
pub open spec fn expand(scope: Scope, s: Seq<char>, passes: nat) -> Result<Seq<char>, InterpError>
    decreases passes,
{
    let from = last_before(s, '{', s.len() as int);
    let to = first_from(s, '}', from + 1);
    if from < 0 {
        Ok(s)
    } else if passes == 0 {
        Err(InterpError::TooManyPasses)
    } else if count_of(s, '{') != count_of(s, '}') || to >= s.len() {
        Err(InterpError::UnevenBraces)
    } else {
        match resolve(scope, show_escapes(s.subrange(from + 1, to))) {
            Err(e) => Err(e),
            Ok(v) => match splice_text(v) {
                None => Err(InterpError::UnsupportedType),
                Some(t) => expand(
                    scope,
                    hide_escapes(s.take(from) + t + s.skip(to + 1)),
                    (passes - 1) as nat,
                ),
            },
        }
    }
}

/// The value of `content` in `scope`. A text that is one group `{key}` gives
/// the value of the key that `key` interpolates to, whatever its type; any
/// other text gives the text with its groups replaced.
pub open spec fn interpolate(scope: Scope, content: Seq<char>) -> Result<Json, InterpError>
    decreases content.len(),
{
    let s = hide_escapes(content);
    match simple_key(s) {
        Some(key) => {
            proof {
                lemma_hide_escapes_len(content);
            }
            match interpolate(scope, key) {
                Err(e) => Err(e),
                Ok(inner) => resolve(scope, render(inner)),
            }
        },
        None => match expand(scope, s, PASS_LIMIT as nat) {
            Err(e) => Err(e),
            Ok(t) => Ok(Json::Text(show_escapes(t))),
        },
    }
}

/// Hiding escaped braces keeps the length of a text.
pub proof fn lemma_hide_escapes_len(s: Seq<char>)
    ensures
        hide_escapes(s).len() == s.len(),
{
    crate::text::lemma_replace_same_len(s, escaped_start(), hidden_start());
    crate::text::lemma_replace_same_len(
        replace_all(s, escaped_start(), hidden_start()),
        escaped_stop(),
        hidden_stop(),
    );
}

/// The two formats in which the time of day is a key.
pub open spec fn is_time_format(format: Seq<char>) -> bool {
    format == "%H:%M"@ || format == "%H:%M:%S"@
}

/// `chrono::Local::now`, then `DateTime::format` with `format` and
/// `to_string`. A format of hours, minutes and seconds alone is asked for,
/// which chrono can always write. Of the result only its form is claimed,
/// as chrono documents `%H`, `%M` and `%S`: each is a number of two digits,
/// the hour up to 23, the minute up to 59, the second up to 60. Which time
/// it is, is not claimed: it is the time.
#[verifier::external_body]
fn local_time(format: &str) -> (text: String)
    requires
        is_time_format(format@),
    ensures
        format@ == "%H:%M"@ ==> is_hour_minute(text@),
        format@ == "%H:%M:%S"@ ==> is_hour_minute_second(text@),
{
    chrono::Local::now().format(format).to_string()
}

/// The time of day in both forms, read now: hours and minutes, and hours,
/// minutes and seconds. The two are read one after the other.
pub(crate) fn read_clock() -> (clock: Clock)
    ensures
        clock.is_time_of_day(),
{
    let hour_minute = local_time("%H:%M");
    let hour_minute_second = local_time("%H:%M:%S");
    Clock { hour_minute, hour_minute_second }
}

/// Whether `key` is `ARG` followed by decimal digits only.
pub fn is_argument_key_chars(key: &Vec<char>) -> (r: bool)
    ensures
        r == is_argument_key(key@),
{
    if key.len() < 3 || key[0] != 'A' || key[1] != 'R' || key[2] != 'G' {
        return false;
    }
    let mut i: usize = 3;
    while i < key.len()
        invariant
            3 <= i <= key.len(),
            forall|k: int| 3 <= k < i ==> is_digit(#[trigger] key@[k]),
        decreases key.len() - i,
    {
        if !('0' <= key[i] && key[i] <= '9') {
            return false;
        }
        i += 1;
    }
    true
}

fn find_file(files: &Vec<DirFile>, name: &Vec<char>) -> (r: usize)
    ensures
        r == file_position(crate::model::files_view(files@), name@, 0),
        r <= files.len(),
{
    let wanted = string_of(name);
    let ghost fv = crate::model::files_view(files@);
    let mut i: usize = 0;
    while i < files.len()
        invariant
            i <= files.len(),
            wanted@ == name@,
            fv == crate::model::files_view(files@),
            file_position(fv, name@, 0) == file_position(fv, name@, i as int),
        decreases files.len() - i,
    {
        if files[i].name == wanted {
            return i;
        }
        i += 1;
    }
    i
}

fn resolve_file_chars(files: &Vec<DirFile>, key: &Vec<char>) -> (r: Result<Value, InterpError>)
    ensures
        value_result(r) == resolve_file(crate::model::files_view(files@), key@),
{
    let mut json_name: Vec<char> = Vec::new();
    append_chars(&mut json_name, key);
    json_name.push('.');
    json_name.push('j');
    json_name.push('s');
    json_name.push('o');
    json_name.push('n');
    json_name.push('5');
    assert(json_name@ =~= key@ + crate::model::json5_suffix());
    let j = find_file(files, &json_name);
    if j < files.len() {
        return match &files[j].parsed {
            Some(v) => {
                if files[j].text.is_some() {
                    Ok(recode_value(v, true))
                } else {
                    Err(InterpError::UnreadableFile)
                }
            },
            None => Err(InterpError::UnreadableFile),
        };
    }
    let p = find_file(files, key);
    if p < files.len() {
        return match &files[p].text {
            Some(t) => {
                let c = chars_of(t.as_str());
                let trimmed = trim_chars(&c);
                let text = Value::String(string_of(&trimmed));
                Ok(recode_value(&text, true))
            },
            None => Err(InterpError::UnreadableFile),
        };
    }
    Err(InterpError::UnknownKey)
}

/// The value that `key` stands for.
pub fn resolve_chars(
    inserts: &Object,
    key: &Vec<char>,
    ctx: &ProgramLoadContext,
    clock: &Clock,
) -> (r: Result<Value, InterpError>)
    ensures
        value_result(r) == resolve(scope_of(*inserts, *ctx, *clock), key@),
{
    let hm = chars_of("HH:MM");
    let hms = chars_of("HH:MM:SS");
    if same_chars(key, &hm) {
        return Ok(Value::String(clock.hour_minute.clone()));
    }
    if same_chars(key, &hms) {
        return Ok(Value::String(clock.hour_minute_second.clone()));
    }
    if key.len() == 0 {
        return Err(InterpError::EmptyKey);
    }
    let name = string_of(key);
    match inserts.get(name.as_str()) {
        Some(v) => {
            return Ok(v.clone());
        },
        None => {},
    }
    if is_argument_key_chars(key) {
        return Err(InterpError::MissingArgument);
    }
    if ctx.inserts_dir.is_some() {
        return resolve_file_chars(&ctx.inserts_dir_files, key);
    }
    Err(InterpError::UnknownKey)
}

/// The value that `insertkey` stands for at the time `clock`.
pub fn get_interpdata_at(
    inserts: &Object,
    insertkey: &str,
    ctx: &ProgramLoadContext,
    clock: &Clock,
) -> (r: Result<Value, InterpError>)
    ensures
        value_result(r) == resolve(scope_of(*inserts, *ctx, *clock), insertkey@),
{
    let key = chars_of(insertkey);
    resolve_chars(inserts, &key, ctx, clock)
}

/// The value that `insertkey` stands for now: the time of day for `HH:MM`
/// and `HH:MM:SS`, else the insert of that name, else what the inserts
/// directory holds under that name.
pub fn get_interpdata(inserts: &Object, insertkey: &str, ctx: &ProgramLoadContext) -> (r: Result<
    Value,
    InterpError,
>)
    ensures
        exists|clock: Clock|
            clock.is_time_of_day() && value_result(r) == resolve(scope_of(*inserts, *ctx, clock), insertkey@),
{
    let clock = read_clock();
    get_interpdata_at(inserts, insertkey, ctx, &clock)
}

/// Binds `key` to `value` in `inserts`.
pub fn set_interpdata(inserts: &mut Object, key: &str, value: Value)
    ensures
        final(inserts)@ == dict_set(old(inserts)@, key@, value@),
{
    inserts.insert(key.to_owned(), value);
}

/// Removes `key` from `inserts`.
pub fn delete_interpdata(inserts: &mut Object, key: &str)
    ensures
        final(inserts)@ == crate::value::dict_remove(old(inserts)@, key@),
{
    inserts.remove(key);
}

/// The text that `v` is spliced into a text as.
fn splice_chars(v: &Value) -> (r: Option<Vec<char>>)
    ensures
        match r {
            Some(t) => splice_text(v@) == Some(t@),
            None => splice_text(v@) is None,
        },
{
    match v {
        Value::String(_) | Value::Number(_) | Value::Array(_) => {
            let mut out: Vec<char> = Vec::new();
            push_rendered(&mut out, v);
            Some(out)
        },
        _ => None,
    }
}

fn expand_chars(
    inserts: &Object,
    ctx: &ProgramLoadContext,
    clock: &Clock,
    text: Vec<char>,
) -> (r: Result<Vec<char>, InterpError>)
    ensures
        chars_result(r) == expand(scope_of(*inserts, *ctx, *clock), text@, PASS_LIMIT as nat),
{
    let ghost scope = scope_of(*inserts, *ctx, *clock);
    let mut s = text;
    let mut passes: usize = PASS_LIMIT;
    loop
        invariant
            scope == scope_of(*inserts, *ctx, *clock),
            expand(scope, s@, passes as nat) == expand(scope, text@, PASS_LIMIT as nat),
        decreases passes,
    {
        let from = match rfind(&s, '{') {
            None => {
                return Ok(s);
            },
            Some(f) => f,
        };
        if passes == 0 {
            return Err(InterpError::TooManyPasses);
        }
        if count_char(&s, '{') != count_char(&s, '}') {
            return Err(InterpError::UnevenBraces);
        }
        let to = find_from(&s, '}', from + 1);
        if to >= s.len() {
            return Err(InterpError::UnevenBraces);
        }
        let inner = slice_chars(&s, from + 1, to);
        let key = show_escapes_chars(&inner);
        let value = match resolve_chars(inserts, &key, ctx, clock) {
            Ok(v) => v,
            Err(e) => {
                return Err(e);
            },
        };
        let spliced = match splice_chars(&value) {
            Some(t) => t,
            None => {
                return Err(InterpError::UnsupportedType);
            },
        };
        let mut next = slice_chars(&s, 0, from);
        append_chars(&mut next, &spliced);
        let tail = slice_chars(&s, to + 1, s.len());
        append_chars(&mut next, &tail);
        assert(next@ == s@.take(from as int) + spliced@ + s@.skip(to + 1));
        s = hide_escapes_chars(&next);
        passes -= 1;
    }
}

/// The value of `content`; see `interpolate`.
pub fn interpolate_chars(
    inserts: &Object,
    content: &Vec<char>,
    ctx: &ProgramLoadContext,
    clock: &Clock,
) -> (r: Result<Value, InterpError>)
    ensures
        value_result(r) == interpolate(scope_of(*inserts, *ctx, *clock), content@),
    decreases content@.len(),
{
    let s = hide_escapes_chars(content);
    proof {
        lemma_hide_escapes_len(content@);
    }
    match simple_key_chars(&s) {
        Some(key) => {
            let inner = match interpolate_chars(inserts, &key, ctx, clock) {
                Ok(v) => v,
                Err(e) => {
                    return Err(e);
                },
            };
            let mut name: Vec<char> = Vec::new();
            push_rendered(&mut name, &inner);
            resolve_chars(inserts, &name, ctx, clock)
        },
        None => {
            let t = match expand_chars(inserts, ctx, clock, s) {
                Ok(t) => t,
                Err(e) => {
                    return Err(e);
                },
            };
            let shown = show_escapes_chars(&t);
            Ok(Value::String(string_of(&shown)))
        },
    }
}

/// The value of `content` at the time `clock`. A text that is one group
/// `{key}` gives the value of that key, whatever its type; any other text
/// gives the text with its groups replaced, innermost first.
pub fn interpolate_inserts_at(
    inserts: &Object,
    content: &str,
    ctx: &ProgramLoadContext,
    clock: &Clock,
) -> (r: Result<Value, InterpError>)
    ensures
        value_result(r) == interpolate(scope_of(*inserts, *ctx, *clock), content@),
{
    let c = chars_of(content);
    interpolate_chars(inserts, &c, ctx, clock)
}

/// The value of `content` now.
pub fn interpolate_inserts(inserts: &Object, content: &str, ctx: &ProgramLoadContext) -> (r:
    Result<Value, InterpError>)
    ensures
        exists|clock: Clock|
            clock.is_time_of_day() && value_result(r) == interpolate(scope_of(*inserts, *ctx, clock), content@),
{
    let clock = read_clock();
    interpolate_inserts_at(inserts, content, ctx, &clock)
}

} // verus!

verus! {

/// The value of the text `s`, or `s` itself where it has none.
pub open spec fn interpolate_or_keep(scope: Scope, s: Seq<char>) -> Json {
    match interpolate(scope, s) {
        Ok(v) => v,
        Err(_) => Json::Text(s),
    }
}

/// The string that `d` binds `name` to, if it binds it to a string.
pub open spec fn text_field(d: Seq<(Seq<char>, Json)>, name: Seq<char>) -> Option<Seq<char>> {
    match dict_get(d, name) {
        Some(Json::Text(c)) => Some(c),
        _ => None,
    }
}

/// A command whose fields are patterns: they are evaluated when it runs.
pub open spec fn is_pattern_command(c: Seq<char>) -> bool {
    c == "goto_map"@ || c == "replace_map"@
}

/// A command that holds a list of tasks.
pub open spec fn is_container_command(c: Seq<char>) -> bool {
    c == "for"@ || c == "serial"@ || c == "parallel_wait"@ || c == "parallel_race"@
}

/// `v`, or the value of its key where `v` is a string that is one group.
pub open spec fn resolve_reference(scope: Scope, v: Json) -> Result<Json, InterpError> {
    match v {
        Json::Text(s) => match simple_key(s) {
            Some(key) => resolve(scope, key),
            None => Ok(v),
        },
        _ => Ok(v),
    }
}

/// `acc` followed by the items of `a`, each with its reference resolved; the first failure.
pub open spec fn resolve_references(scope: Scope, a: Seq<Json>, acc: Seq<Json>) -> Result<
    Seq<Json>,
    InterpError,
>
    decreases a.len(),
{
    if a.len() == 0 {
        Ok(acc)
    } else {
        match resolve_reference(scope, a[0]) {
            Err(e) => Err(e),
            Ok(v) => resolve_references(scope, a.skip(1), acc.push(v)),
        }
    }
}

/// The `tasks` field of a container command after interpolation: a reference
/// to a list is resolved, and so is each reference in a list.
pub open spec fn resolve_tasks(scope: Scope, t: Json) -> Result<Json, InterpError> {
    match t {
        Json::Text(_) => resolve_reference(scope, t),
        Json::List(a) => match resolve_references(scope, a, Seq::empty()) {
            Err(e) => Err(e),
            Ok(b) => Ok(Json::List(b)),
        },
        _ => Ok(t),
    }
}

/// `v` interpolated throughout: strings become their values (or stay where
/// they have none), lists and objects are walked, keys become the texts of
/// their values. A `goto_map` or `replace_map` task is left as it is; of a
/// `for`, `serial`, `parallel_wait` or `parallel_race` task only the `tasks`
/// field is resolved.
pub open spec fn deep_interpolate(scope: Scope, v: Json) -> Result<Json, InterpError>
    decreases v,
{
    match v {
        Json::Text(s) => Ok(interpolate_or_keep(scope, s)),
        Json::List(a) => match deep_interpolate_list(scope, a, Seq::empty()) {
            Err(e) => Err(e),
            Ok(b) => Ok(Json::List(b)),
        },
        Json::Dict(d) => match text_field(d, "cmd"@) {
            Some(c) if is_pattern_command(c) => Ok(v),
            Some(c) if is_container_command(c) => match dict_get(d, "tasks"@) {
                None => Ok(v),
                Some(t) => match resolve_tasks(scope, t) {
                    Err(e) => Err(e),
                    Ok(r) => Ok(Json::Dict(dict_set(d, "tasks"@, r))),
                },
            },
            _ => match deep_interpolate_members(scope, d, Seq::empty()) {
                Err(e) => Err(e),
                Ok(m) => Ok(Json::Dict(m)),
            },
        },
        _ => Ok(v),
    }
}

/// `acc` followed by the items of `a` interpolated; the first failure.
pub open spec fn deep_interpolate_list(scope: Scope, a: Seq<Json>, acc: Seq<Json>) -> Result<
    Seq<Json>,
    InterpError,
>
    decreases a,
{
    if a.len() == 0 {
        Ok(acc)
    } else {
        match deep_interpolate(scope, a[0]) {
            Err(e) => Err(e),
            Ok(v) => deep_interpolate_list(scope, a.skip(1), acc.push(v)),
        }
    }
}

/// `acc` with the members of `d` inserted one by one, keys and values
/// interpolated; the first failure.
pub open spec fn deep_interpolate_members(
    scope: Scope,
    d: Seq<(Seq<char>, Json)>,
    acc: Seq<(Seq<char>, Json)>,
) -> Result<Seq<(Seq<char>, Json)>, InterpError>
    decreases d,
{
    if d.len() == 0 {
        Ok(acc)
    } else {
        match deep_interpolate(scope, d[0].1) {
            Err(e) => Err(e),
            Ok(v) => deep_interpolate_members(
                scope,
                d.skip(1),
                dict_set(acc, render(interpolate_or_keep(scope, d[0].0)), v),
            ),
        }
    }
}

fn interpolate_or_keep_chars(
    inserts: &Object,
    s: &str,
    ctx: &ProgramLoadContext,
    clock: &Clock,
) -> (r: Value)
    ensures
        r@ == interpolate_or_keep(scope_of(*inserts, *ctx, *clock), s@),
{
    match interpolate_inserts_at(inserts, s, ctx, clock) {
        Ok(v) => v,
        Err(_) => Value::String(s.to_owned()),
    }
}

fn resolve_reference_value(
    inserts: &Object,
    v: &Value,
    ctx: &ProgramLoadContext,
    clock: &Clock,
) -> (r: Result<Value, InterpError>)
    ensures
        value_result(r) == resolve_reference(scope_of(*inserts, *ctx, *clock), v@),
{
    match v {
        Value::String(s) => {
            let c = chars_of(s.as_str());
            match simple_key_chars(&c) {
                Some(key) => resolve_chars(inserts, &key, ctx, clock),
                None => Ok(v.clone()),
            }
        },
        _ => Ok(v.clone()),
    }
}

fn resolve_tasks_value(
    inserts: &Object,
    t: &Value,
    ctx: &ProgramLoadContext,
    clock: &Clock,
) -> (r: Result<Value, InterpError>)
    ensures
        value_result(r) == resolve_tasks(scope_of(*inserts, *ctx, *clock), t@),
{
    match t {
        Value::String(_) => resolve_reference_value(inserts, t, ctx, clock),
        Value::Array(a) => {
            let ghost scope = scope_of(*inserts, *ctx, *clock);
            let ghost items = list_view(a@);
            let mut out: Vec<Value> = Vec::new();
            let mut i: usize = 0;
            proof {
                lemma_list_view(a@);
                lemma_list_view(out@);
                assert(items.skip(0) == items);
                assert(list_view(out@) == Seq::<Json>::empty());
            }
            while i < a.len()
                invariant
                    i <= a.len(),
                    scope == scope_of(*inserts, *ctx, *clock),
                    t@ == Json::List(items),
                    items == list_view(a@),
                    items.len() == a@.len(),
                    forall|k: int| 0 <= k < items.len() ==> items[k] == a@[k]@,
                    resolve_references(scope, items, Seq::empty()) == resolve_references(
                        scope,
                        items.skip(i as int),
                        list_view(out@),
                    ),
                decreases a.len() - i,
            {
                let ghost rest = items.skip(i as int);
                assert(rest[0] == items[i as int]);
                assert(rest.skip(1) == items.skip(i + 1));
                let item = match resolve_reference_value(inserts, &a[i], ctx, clock) {
                    Ok(v) => v,
                    Err(e) => {
                        return Err(e);
                    },
                };
                let ghost before = out@;
                out.push(item);
                proof {
                    lemma_list_view(before);
                    lemma_list_view(out@);
                    assert(list_view(out@) =~= list_view(before).push(item@));
                }
                i += 1;
            }
            assert(items.skip(items.len() as int).len() == 0);
            Ok(Value::Array(out))
        },
        _ => Ok(t.clone()),
    }
}

/// `v` interpolated throughout; see `deep_interpolate`.
pub fn deep_interpolate_value(
    inserts: &Object,
    v: &Value,
    ctx: &ProgramLoadContext,
    clock: &Clock,
) -> (r: Result<Value, InterpError>)
    ensures
        value_result(r) == deep_interpolate(scope_of(*inserts, *ctx, *clock), v@),
    decreases v,
{
    let ghost scope = scope_of(*inserts, *ctx, *clock);
    match v {
        Value::String(s) => Ok(interpolate_or_keep_chars(inserts, s.as_str(), ctx, clock)),
        Value::Array(a) => {
            let ghost items = list_view(a@);
            let mut out: Vec<Value> = Vec::new();
            let mut i: usize = 0;
            proof {
                lemma_list_view(a@);
                lemma_list_view(out@);
                assert(items.skip(0) == items);
                assert(list_view(out@) == Seq::<Json>::empty());
            }
            while i < a.len()
                invariant
                    i <= a.len(),
                    v is Array && v->Array_0 == *a,
                    scope == scope_of(*inserts, *ctx, *clock),
                    items == list_view(a@),
                    items.len() == a@.len(),
                    forall|k: int| 0 <= k < items.len() ==> items[k] == a@[k]@,
                    deep_interpolate_list(scope, items, Seq::empty()) == deep_interpolate_list(
                        scope,
                        items.skip(i as int),
                        list_view(out@),
                    ),
                decreases a.len() - i,
            {
                let ghost rest = items.skip(i as int);
                assert(rest[0] == items[i as int]);
                assert(rest.skip(1) == items.skip(i + 1));
                assert(decreases_to!(*a => a[i as int]));
                let item = match deep_interpolate_value(inserts, &a[i], ctx, clock) {
                    Ok(x) => x,
                    Err(e) => {
                        return Err(e);
                    },
                };
                let ghost before = out@;
                out.push(item);
                proof {
                    lemma_list_view(before);
                    lemma_list_view(out@);
                    assert(list_view(out@) =~= list_view(before).push(item@));
                }
                i += 1;
            }
            assert(items.skip(items.len() as int).len() == 0);
            Ok(Value::Array(out))
        },
        Value::Object(m) => {
            let ghost d = m@;
            let cmd: Option<&str> = match m.get("cmd") {
                Some(Value::String(c)) => Some(c.as_str()),
                _ => None,
            };
            assert(match cmd {
                Some(c) => text_field(d, "cmd"@) == Some(c@),
                None => text_field(d, "cmd"@) is None,
            });
            match cmd {
                Some(c) => {
                    if crate::text::same_text(c, "goto_map") || crate::text::same_text(
                        c,
                        "replace_map",
                    ) {
                        return Ok(v.clone());
                    }
                    if crate::text::same_text(c, "for") || crate::text::same_text(c, "serial")
                        || crate::text::same_text(c, "parallel_wait") || crate::text::same_text(
                        c,
                        "parallel_race",
                    ) {
                        return match m.get("tasks") {
                            None => Ok(v.clone()),
                            Some(t) => {
                                let resolved = match resolve_tasks_value(inserts, t, ctx, clock) {
                                    Ok(x) => x,
                                    Err(e) => {
                                        return Err(e);
                                    },
                                };
                                let mut out = m.clone();
                                out.insert("tasks".to_owned(), resolved);
                                Ok(Value::Object(out))
                            },
                        };
                    }
                },
                None => {},
            }
            let mut out = Object::new();
            let mut i: usize = 0;
            proof {
                lemma_dict_view(m.entries@);
                assert(d.skip(0) == d);
            }
            assert(deep_interpolate(scope, v@) == match deep_interpolate_members(
                scope,
                d,
                Seq::empty(),
            ) {
                Err(e) => Err::<Json, InterpError>(e),
                Ok(m) => Ok(Json::Dict(m)),
            });
            while i < m.entries.len()
                invariant
                    i <= m.entries.len(),
                    v is Object && v->Object_0 == *m,
                    scope == scope_of(*inserts, *ctx, *clock),
                    deep_interpolate(scope, v@) == match deep_interpolate_members(
                        scope,
                        d,
                        Seq::empty(),
                    ) {
                        Err(e) => Err::<Json, InterpError>(e),
                        Ok(m) => Ok(Json::Dict(m)),
                    },
                    d == m@,
                    d.len() == m.entries@.len(),
                    forall|k: int| 0 <= k < d.len() ==> d[k] == (m.entries@[k].0@, m.entries@[k].1@),
                    deep_interpolate_members(scope, d, Seq::empty()) == deep_interpolate_members(
                        scope,
                        d.skip(i as int),
                        out@,
                    ),
                decreases m.entries.len() - i,
            {
                let ghost rest = d.skip(i as int);
                assert(rest[0] == d[i as int]);
                assert(rest.skip(1) == d.skip(i + 1));
                let key_value = interpolate_or_keep_chars(
                    inserts,
                    m.entries[i].0.as_str(),
                    ctx,
                    clock,
                );
                let key = crate::value::value_to_string(&key_value);
                assert(decreases_to!(m.entries => m.entries[i as int]));
                let item = match deep_interpolate_value(inserts, &m.entries[i].1, ctx, clock) {
                    Ok(x) => x,
                    Err(e) => {
                        return Err(e);
                    },
                };
                out.insert(key, item);
                i += 1;
            }
            assert(d.skip(d.len() as int).len() == 0);
            Ok(Value::Object(out))
        },
        Value::Null => Ok(Value::Null),
        Value::Bool(b) => Ok(Value::Bool(*b)),
        Value::Number(n) => Ok(Value::Number(n.clone())),
    }
}

/// `value` interpolated throughout at the time `clock`.
pub fn recursive_interpolate_at(
    inserts: &Object,
    value: Value,
    ctx: &ProgramLoadContext,
    clock: &Clock,
) -> (r: Result<Value, InterpError>)
    ensures
        value_result(r) == deep_interpolate(scope_of(*inserts, *ctx, *clock), value@),
{
    deep_interpolate_value(inserts, &value, ctx, clock)
}

/// `value` interpolated throughout, now. A string that has no value stays as it
/// is; the only failures are those of a `tasks` reference of a container command.
pub fn recursive_interpolate(inserts: &Object, value: Value, ctx: &ProgramLoadContext) -> (r:
    Result<Value, InterpError>)
    ensures
        exists|clock: Clock|
            clock.is_time_of_day() && value_result(r) == deep_interpolate(scope_of(*inserts, *ctx, clock), value@),
{
    let clock = read_clock();
    recursive_interpolate_at(inserts, value, ctx, &clock)
}

} // verus!

verus! {

/// Where the scan for keys stands: the keys found, the key being read, the
/// depth of open braces, and whether the last character was a backslash.
pub struct KeyScan {
    pub keys: Seq<Seq<char>>,
    pub current: Seq<char>,
    pub depth: nat,
    pub in_key: bool,
    pub escaped: bool,
}

/// The scan after one more character.
pub open spec fn scan_step(st: KeyScan, ch: char) -> KeyScan {
    let grown = if st.in_key {
        st.current.push(ch)
    } else {
        st.current
    };
    if st.escaped {
        KeyScan { escaped: false, current: grown, ..st }
    } else if ch == '\\' {
        KeyScan { escaped: true, ..st }
    } else if ch == '{' && st.depth == 0 {
        KeyScan { depth: 1, in_key: true, current: Seq::empty(), ..st }
    } else if ch == '{' {
        KeyScan { depth: st.depth + 1, current: grown, ..st }
    } else if ch == '}' && st.depth == 1 && st.in_key {
        KeyScan { keys: st.keys.push(st.current), in_key: false, depth: 0, ..st }
    } else if ch == '}' {
        KeyScan {
            depth: if st.depth > 0 {
                (st.depth - 1) as nat
            } else {
                0
            },
            current: grown,
            ..st
        }
    } else {
        KeyScan { current: grown, ..st }
    }
}

/// The scan after all of `s`.
pub open spec fn scan_keys(s: Seq<char>) -> KeyScan
    decreases s.len(),
{
    if s.len() == 0 {
        KeyScan { keys: Seq::empty(), current: Seq::empty(), depth: 0, in_key: false, escaped: false }
    } else {
        scan_step(scan_keys(s.take(s.len() - 1)), s[s.len() - 1])
    }
}

/// The keys of the outermost groups of `s`, in order. A character after a
/// backslash opens and closes nothing; a key keeps the braces nested in it.
pub open spec fn keys_in_text(s: Seq<char>) -> Seq<Seq<char>> {
    scan_keys(s).keys
}

/// The keys of the outermost groups of every string and key of `v`, in order.
pub open spec fn keys_in_json(v: Json) -> Seq<Seq<char>>
    decreases v,
{
    match v {
        Json::Text(s) => keys_in_text(s),
        Json::List(a) => keys_in_list(a),
        Json::Dict(d) => keys_in_members(d),
        _ => Seq::empty(),
    }
}

/// The keys of the outermost groups in the items of `a`, in order.
pub open spec fn keys_in_list(a: Seq<Json>) -> Seq<Seq<char>>
    decreases a,
{
    if a.len() == 0 {
        Seq::empty()
    } else {
        keys_in_list(a.take(a.len() - 1)) + keys_in_json(a[a.len() - 1])
    }
}

/// The keys of the outermost groups in the keys and values of `d`, in order.
pub open spec fn keys_in_members(d: Seq<(Seq<char>, Json)>) -> Seq<Seq<char>>
    decreases d,
{
    if d.len() == 0 {
        Seq::empty()
    } else {
        keys_in_members(d.take(d.len() - 1)) + keys_in_text(d[d.len() - 1].0) + keys_in_json(
            d[d.len() - 1].1,
        )
    }
}

/// Appends to `keys` the keys of the outermost groups of `s`.
fn push_keys_of_chars(keys: &mut Vec<String>, s: &Vec<char>)
    ensures
        crate::model::texts_of(final(keys)@) == crate::model::texts_of(old(keys)@) + keys_in_text(
            s@,
        ),
{
    let ghost start = crate::model::texts_of(keys@);
    let mut depth: usize = 0;
    let mut current: Vec<char> = Vec::new();
    let mut in_key = false;
    let mut escaped = false;
    let mut i: usize = 0;
    assert(s@.take(0) == Seq::<char>::empty());
    assert(start + scan_keys(s@.take(0)).keys == start);
    while i < s.len()
        invariant
            i <= s.len(),
            depth <= i,
            depth == scan_keys(s@.take(i as int)).depth,
            current@ == scan_keys(s@.take(i as int)).current,
            in_key == scan_keys(s@.take(i as int)).in_key,
            escaped == scan_keys(s@.take(i as int)).escaped,
            crate::model::texts_of(keys@) == start + scan_keys(s@.take(i as int)).keys,
        decreases s.len() - i,
    {
        let ch = s[i];
        let ghost st = scan_keys(s@.take(i as int));
        assert(s@.take(i + 1).take(i as int) == s@.take(i as int));
        assert(scan_keys(s@.take(i + 1)) == scan_step(st, ch));
        if escaped {
            escaped = false;
            if in_key {
                current.push(ch);
            }
        } else if ch == '\\' {
            escaped = true;
        } else if ch == '{' && depth == 0 {
            depth = 1;
            in_key = true;
            current = Vec::new();
        } else if ch == '{' {
            depth += 1;
            if in_key {
                current.push(ch);
            }
        } else if ch == '}' && depth == 1 && in_key {
            let ghost before = keys@;
            keys.push(string_of(&current));
            assert(crate::model::texts_of(keys@) =~= crate::model::texts_of(before).push(
                current@,
            ));
            assert(start + st.keys.push(current@) =~= (start + st.keys).push(current@));
            in_key = false;
            depth = 0;
        } else if ch == '}' {
            if depth > 0 {
                depth -= 1;
            }
            if in_key {
                current.push(ch);
            }
        } else {
            if in_key {
                current.push(ch);
            }
        }
        i += 1;
    }
    assert(s@.take(s.len() as int) == s@);
}

/// Appends to `keys` the keys of the outermost groups of every string and key of `v`.
fn push_keys_of_value(keys: &mut Vec<String>, v: &Value)
    ensures
        crate::model::texts_of(final(keys)@) == crate::model::texts_of(old(keys)@) + keys_in_json(
            v@,
        ),
    decreases v,
{
    let ghost start = crate::model::texts_of(keys@);
    match v {
        Value::String(s) => {
            let c = chars_of(s.as_str());
            push_keys_of_chars(keys, &c);
        },
        Value::Array(a) => {
            let ghost items = list_view(a@);
            let mut i: usize = 0;
            proof {
                lemma_list_view(a@);
                assert(items.take(0) == Seq::<Json>::empty());
                assert(start + keys_in_list(items.take(0)) == start);
            }
            while i < a.len()
                invariant
                    i <= a.len(),
                    v is Array && v->Array_0 == *a,
                    items == list_view(a@),
                    items.len() == a@.len(),
                    forall|k: int| 0 <= k < items.len() ==> items[k] == a@[k]@,
                    crate::model::texts_of(keys@) == start + keys_in_list(items.take(i as int)),
                decreases a.len() - i,
            {
                assert(decreases_to!(*a => a[i as int]));
                push_keys_of_value(keys, &a[i]);
                proof {
                    assert(items.take(i + 1).take(i as int) == items.take(i as int));
                    assert(start + keys_in_list(items.take(i as int)) + keys_in_json(
                        items[i as int],
                    ) =~= start + keys_in_list(items.take(i + 1)));
                }
                i += 1;
            }
            assert(items.take(items.len() as int) == items);
        },
        Value::Object(m) => {
            let ghost d = m@;
            let mut i: usize = 0;
            proof {
                lemma_dict_view(m.entries@);
                assert(d.take(0) == Seq::<(Seq<char>, Json)>::empty());
                assert(start + keys_in_members(d.take(0)) == start);
            }
            while i < m.entries.len()
                invariant
                    i <= m.entries.len(),
                    v is Object && v->Object_0 == *m,
                    d == m@,
                    d.len() == m.entries@.len(),
                    forall|k: int| 0 <= k < d.len() ==> d[k] == (m.entries@[k].0@, m.entries@[k].1@),
                    crate::model::texts_of(keys@) == start + keys_in_members(d.take(i as int)),
                decreases m.entries.len() - i,
            {
                let c = chars_of(m.entries[i].0.as_str());
                push_keys_of_chars(keys, &c);
                assert(decreases_to!(m.entries => m.entries[i as int]));
                push_keys_of_value(keys, &m.entries[i].1);
                proof {
                    assert(d.take(i + 1).take(i as int) == d.take(i as int));
                    assert(start + keys_in_members(d.take(i as int)) + keys_in_text(d[i as int].0)
                        + keys_in_json(d[i as int].1) =~= start + keys_in_members(d.take(i + 1)));
                }
                i += 1;
            }
            assert(d.take(d.len() as int) == d);
        },
        _ => {
            assert(start + keys_in_json(v@) == start);
        },
    }
}

/// The keys of the outermost groups of `s`, in order.
pub fn extract_from_str(s: &str) -> (keys: Vec<String>)
    ensures
        crate::model::texts_of(keys@) == keys_in_text(s@),
{
    let mut keys: Vec<String> = Vec::new();
    let c = chars_of(s);
    assert(crate::model::texts_of(keys@) =~= Seq::<Seq<char>>::empty());
    push_keys_of_chars(&mut keys, &c);
    assert(Seq::<Seq<char>>::empty() + keys_in_text(s@) == keys_in_text(s@));
    keys
}

/// The keys of the outermost groups in every string and key of `value`, in order.
pub fn extract_insert_keys(value: &Value) -> (keys: Vec<String>)
    ensures
        crate::model::texts_of(keys@) == keys_in_json(value@),
{
    let mut keys: Vec<String> = Vec::new();
    assert(crate::model::texts_of(keys@) =~= Seq::<Seq<char>>::empty());
    push_keys_of_value(&mut keys, value);
    assert(Seq::<Seq<char>>::empty() + keys_in_json(value@) == keys_in_json(value@));
    keys
}

} // verus!
