//! The checks that the analyzer makes on single fields, and the
//! diagnostics that it words.

use crate::interp::{
    extract_from_str, is_simple_insert, keys_in_text, resolve, resolve_chars, scope_with,
    simple_key, simple_key_chars, text_field, Scope,
};
use crate::model::{Clock, ProgramLoadContext, Task};
use crate::text::{append_chars, chars_of, string_of};
use crate::value::{dict_get, Json, Number, Object, Value};
use vstd::prelude::*;

verus! {

/// A finding of the analyzer: what is wrong, and the label and the line of
/// the task that it was found in.
#[derive(Debug)]
pub struct Diagnostic {
    pub message: String,
    pub label: Option<String>,
    pub line: Option<i64>,
}

/// The model of a `Diagnostic`.
pub struct Finding {
    pub message: Seq<char>,
    pub label: Option<Seq<char>>,
    pub line: Option<int>,
}

impl View for Diagnostic {
    type V = Finding;

    open spec fn view(&self) -> Finding {
        Finding {
            message: self.message@,
            label: match self.label {
                Some(l) => Some(l@),
                None => None,
            },
            line: match self.line {
                Some(i) => Some(i as int),
                None => None,
            },
        }
    }
}

/// The models of `diags`, in order.
pub open spec fn findings(diags: Seq<Diagnostic>) -> Seq<Finding> {
    Seq::new(diags.len(), |i: int| diags[i]@)
}

/// The finding `message` in `task`.
pub open spec fn finding(task: Seq<(Seq<char>, Json)>, message: Seq<char>) -> Finding {
    Finding {
        message,
        label: text_field(task, "traceback_label"@),
        line: match dict_get(task, "line"@) {
            Some(Json::Int(i)) => Some(i),
            _ => None,
        },
    }
}

/// The one finding `message` in `task`.
pub open spec fn one(task: Seq<(Seq<char>, Json)>, message: Seq<char>) -> Seq<Finding> {
    seq![finding(task, message)]
}

/// No finding.
pub open spec fn none() -> Seq<Finding> {
    Seq::empty()
}

/// `a`, `b` and `c` one after another.
pub fn concat3(a: &str, b: &str, c: &str) -> (r: String)
    ensures
        r@ == a@ + b@ + c@,
{
    let mut out = chars_of(a);
    let y = chars_of(b);
    append_chars(&mut out, &y);
    let z = chars_of(c);
    append_chars(&mut out, &z);
    string_of(&out)
}

/// The diagnostic `message` in `task`.
pub fn diag(task: &Task, message: String) -> (d: Diagnostic)
    ensures
        d@ == finding(task@, message@),
{
    Diagnostic {
        message,
        label: match task.get("traceback_label") {
            Some(Value::String(s)) => Some(s.clone()),
            _ => None,
        },
        line: match task.get("line") {
            Some(Value::Number(Number::Int(i))) => Some(*i),
            _ => None,
        },
    }
}

/// Adds the diagnostic `message` in `task` to `diags`.
pub fn report(diags: &mut Vec<Diagnostic>, task: &Task, message: String)
    ensures
        findings(final(diags)@) == findings(old(diags)@) + one(task@, message@),
{
    let d = diag(task, message);
    diags.push(d);
    assert(findings(diags@) =~= findings(old(diags)@) + one(task@, message@));
}

/// What a scan of the braces of a text found.
#[derive(Clone, Copy, Debug, PartialEq, Eq, Structural)]
pub struct BraceScan {
    pub balanced: bool,
    pub has_unescaped: bool,
}

/// Where the scan of braces stands.
pub struct BraceState {
    pub depth: nat,
    pub escaped: bool,
    pub has_unescaped: bool,
    pub balanced: bool,
}

/// The scan after one more character: a character behind a backslash
/// counts for nothing, an opening brace opens, a closing brace closes what
/// is open and unbalances the text where nothing is.
pub open spec fn brace_step(st: BraceState, ch: char) -> BraceState {
    if st.escaped {
        BraceState { escaped: false, ..st }
    } else if ch == '\\' {
        BraceState { escaped: true, ..st }
    } else if ch == '{' {
        BraceState { has_unescaped: true, depth: st.depth + 1, ..st }
    } else if ch == '}' {
        if st.depth == 0 {
            BraceState { has_unescaped: true, balanced: false, ..st }
        } else {
            BraceState { has_unescaped: true, depth: (st.depth - 1) as nat, ..st }
        }
    } else {
        st
    }
}

/// The scan after all of `s`.
pub open spec fn brace_state(s: Seq<char>) -> BraceState
    decreases s.len(),
{
    if s.len() == 0 {
        BraceState { depth: 0, escaped: false, has_unescaped: false, balanced: true }
    } else {
        brace_step(brace_state(s.take(s.len() - 1)), s[s.len() - 1])
    }
}

/// Whether the unescaped braces of `s` pair up.
pub open spec fn braces_balanced(s: Seq<char>) -> bool {
    brace_state(s).balanced && brace_state(s).depth == 0
}

/// Whether `s` has an unescaped brace.
pub open spec fn has_unescaped_brace(s: Seq<char>) -> bool {
    brace_state(s).has_unescaped
}

/// Whether `s` is a literal: a text without an unescaped brace.
pub open spec fn is_literal(s: Seq<char>) -> bool {
    braces_balanced(s) && !has_unescaped_brace(s)
}

/// Scans the braces of `s`.
pub fn scan_braces(s: &str) -> (r: BraceScan)
    ensures
        r.balanced == braces_balanced(s@),
        r.has_unescaped == has_unescaped_brace(s@),
{
    let c = chars_of(s);
    let mut depth: usize = 0;
    let mut escaped = false;
    let mut has_unescaped = false;
    let mut balanced = true;
    let mut i: usize = 0;
    assert(c@.take(0) == Seq::<char>::empty());
    while i < c.len()
        invariant
            i <= c.len(),
            depth <= i,
            depth == brace_state(c@.take(i as int)).depth,
            escaped == brace_state(c@.take(i as int)).escaped,
            has_unescaped == brace_state(c@.take(i as int)).has_unescaped,
            balanced == brace_state(c@.take(i as int)).balanced,
        decreases c.len() - i,
    {
        assert(c@.take(i + 1).take(i as int) == c@.take(i as int));
        let ch = c[i];
        if escaped {
            escaped = false;
        } else if ch == '\\' {
            escaped = true;
        } else if ch == '{' {
            has_unescaped = true;
            depth += 1;
        } else if ch == '}' {
            has_unescaped = true;
            if depth == 0 {
                balanced = false;
            } else {
                depth -= 1;
            }
        }
        i += 1;
    }
    assert(c@.take(c.len() as int) == c@);
    BraceScan { balanced: balanced && depth == 0, has_unescaped }
}

/// Whether `s` is a text without an unescaped brace.
pub fn is_literal_no_braces(s: &str) -> (r: bool)
    ensures
        r == is_literal(s@),
{
    let scan = scan_braces(s);
    scan.balanced && !scan.has_unescaped
}

/// Whether one of `keys` at or after `from` is empty.
pub open spec fn has_empty_key(keys: Seq<Seq<char>>, from: int) -> bool
    decreases keys.len() - from,
{
    if from < 0 || from >= keys.len() {
        false
    } else {
        keys[from].len() == 0 || has_empty_key(keys, from + 1)
    }
}

/// What is wrong with the braces of the text `s` of the field `field`.
pub open spec fn brace_findings(task: Seq<(Seq<char>, Json)>, field: Seq<char>, s: Seq<char>) -> Seq<
    Finding,
> {
    (if braces_balanced(s) {
        none()
    } else {
        one(task, "Field '"@ + field + "' has malformed interpolation (uneven braces)"@)
    }) + (if has_empty_key(keys_in_text(s), 0) {
        one(task, "Field '"@ + field + "' contains an empty interpolation key"@)
    } else {
        none()
    })
}

/// Reports what is wrong with the braces of the text `s` of the field `field`.
pub fn ensure_balanced_interpolation(task: &Task, field: &str, s: &str, diags: &mut Vec<Diagnostic>)
    ensures
        findings(final(diags)@) == findings(old(diags)@) + brace_findings(task@, field@, s@),
{
    let scan = scan_braces(s);
    if !scan.balanced {
        report(diags, task, concat3("Field '", field, "' has malformed interpolation (uneven braces)"));
    }
    let ghost mid = findings(diags@);
    let keys = extract_from_str(s);
    let ghost texts = crate::model::texts_of(keys@);
    let mut found = false;
    let mut i: usize = 0;
    while i < keys.len() && !found
        invariant
            i <= keys.len(),
            texts == crate::model::texts_of(keys@),
            found ==> has_empty_key(texts, 0),
            !found ==> has_empty_key(texts, 0) == has_empty_key(texts, i as int),
        decreases keys.len() - i, !found as int,
    {
        if keys[i].as_str().unicode_len() == 0 {
            found = true;
        } else {
            i += 1;
        }
    }
    if found {
        report(diags, task, concat3("Field '", field, "' contains an empty interpolation key"));
    }
    assert(findings(diags@) =~= findings(old(diags)@) + brace_findings(task@, field@, s@));
}

/// Whether `v` is a string that is one group.
pub open spec fn is_simple_value(v: Json) -> bool {
    match v {
        Json::Text(s) => is_simple_insert(s),
        _ => false,
    }
}

/// `key` begins with `ARG`.
pub open spec fn begins_with_arg(key: Seq<char>) -> bool {
    key.len() >= 3 && key[0] == 'A' && key[1] == 'R' && key[2] == 'G'
}

/// The value that `v` stands for before the program runs: that of its key,
/// where `v` is one group whose key is no argument and has a value.
pub open spec fn static_value(scope: Scope, v: Json) -> Option<Json> {
    match v {
        Json::Text(s) => match simple_key(s) {
            Some(key) => if begins_with_arg(key) {
                None
            } else {
                match resolve(scope, key) {
                    Ok(r) => Some(r),
                    Err(_) => None,
                }
            },
            None => None,
        },
        _ => None,
    }
}

/// The list that `v` is before the program runs, where it is known.
pub open spec fn static_list(scope: Scope, v: Option<Json>) -> Option<Seq<Json>> {
    match v {
        Some(Json::List(a)) => Some(a),
        Some(x) => match static_value(scope, x) {
            Some(Json::List(a)) => Some(a),
            _ => None,
        },
        None => None,
    }
}

/// What the analyzer looks values up in: the inserts that the program
/// begins with and the inserts directory. The time of day is some text.
pub open spec fn analysis_scope(default_inserts: Seq<(Seq<char>, Json)>, ctx: ProgramLoadContext) -> Scope {
    Scope {
        inserts: default_inserts,
        has_dir: ctx.inserts_dir is Some,
        files: crate::model::files_view(ctx.inserts_dir_files@),
        hour_minute: Seq::empty(),
        hour_minute_second: Seq::empty(),
    }
}

/// All that the checks of the analyzer look values up in.
pub struct Statics {
    pub inserts: Object,
    pub clock: Clock,
}

impl Statics {
    /// The statics of a program that begins with `default_inserts`.
    pub fn new(default_inserts: Object) -> (s: Statics)
        ensures
            s.inserts@ == default_inserts@,
            s.clock.hour_minute@.len() == 0,
            s.clock.hour_minute_second@.len() == 0,
    {
        Statics {
            inserts: default_inserts,
            clock: Clock { hour_minute: String::new(), hour_minute_second: String::new() },
        }
    }

    /// The scope that the statics make in `ctx`.
    pub open spec fn scope(&self, ctx: ProgramLoadContext) -> Scope {
        scope_with(self.inserts@, ctx, self.clock)
    }
}

/// Whether `v` is a string that is one group.
pub fn is_simple_interpolation(v: &Value) -> (r: bool)
    ensures
        r == is_simple_value(v@),
{
    match v {
        Value::String(s) => {
            let c = chars_of(s.as_str());
            simple_key_chars(&c).is_some()
        },
        _ => false,
    }
}

/// The value that `v` stands for before the program runs.
pub fn resolve_simple_value(v: &Value, statics: &Statics, ctx: &ProgramLoadContext) -> (r: Option<
    Value,
>)
    ensures
        match r {
            Some(x) => static_value(statics.scope(*ctx), v@) == Some(x@),
            None => static_value(statics.scope(*ctx), v@) is None,
        },
{
    match v {
        Value::String(s) => {
            let c = chars_of(s.as_str());
            match simple_key_chars(&c) {
                Some(key) => {
                    if key.len() >= 3 && key[0] == 'A' && key[1] == 'R' && key[2] == 'G' {
                        None
                    } else {
                        match resolve_chars(&statics.inserts, &key, ctx, &statics.clock) {
                            Ok(x) => Some(x),
                            Err(_) => None,
                        }
                    }
                },
                None => None,
            }
        },
        _ => None,
    }
}

/// The list that `v` is before the program runs, where it is known.
pub fn get_static_array(v: Option<&Value>, statics: &Statics, ctx: &ProgramLoadContext) -> (r:
    Option<Vec<Value>>)
    ensures
        match r {
            Some(a) => static_list(
                statics.scope(*ctx),
                match v {
                    Some(x) => Some(x@),
                    None => None,
                },
            ) == Some(crate::value::list_view(a@)),
            None => static_list(
                statics.scope(*ctx),
                match v {
                    Some(x) => Some(x@),
                    None => None,
                },
            ) is None,
        },
{
    match v {
        Some(Value::Array(a)) => {
            assert(crate::value::list_view(a@).subrange(0, a@.len() as int)
                == crate::value::list_view(a@)) by {
                crate::value::lemma_list_view(a@);
            }
            Some(crate::lists::copy_range(a, 0, a.len()))
        },
        Some(x) => match resolve_simple_value(x, statics, ctx) {
            Some(Value::Array(a)) => Some(a),
            _ => None,
        },
        None => None,
    }
}

} // verus!
