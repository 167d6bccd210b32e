//! The `chat` command: how a task and the completion arguments of the
//! program make the arguments of one completion, and what is stored of its
//! answer.

use crate::chat::{message, ChatArgs};

use crate::error::ExecError;
use crate::fields::{as_string, item_field, item_or_null, str_field};
use crate::interp::{
    interpolate, interpolate_chars, is_digit, resolve, resolve_chars, scope_of, simple_key,
    simple_key_chars, InterpError, Scope,
};
use crate::lists::rendered;
use crate::model::{Clock, ProgramLoadContext, Task};
use crate::state::{output_of, with_insert, with_output, State};
use crate::text::{chars_of, same_text, string_of, trim, trim_chars};
use crate::value::{
    dict_get, dict_remove, dict_set, lemma_dict_view, lemma_list_view, list_view, push_rendered,
    render, Json, Number, Object, Value,
};
use vstd::prelude::*;

verus! {

/// How often the messages of a chat may be a reference to a reference.
pub const MESSAGE_DEPTH: usize = 64;

/// The number that the digit `c` stands for.
pub open spec fn digit_value(c: char) -> nat {
    if is_digit(c) {
        (c as int - '0' as int) as nat
    } else {
        0
    }
}

/// The number that the digits `s` stand for.
pub open spec fn digits_value(s: Seq<char>) -> nat
    decreases s.len(),
{
    if s.len() == 0 {
        0
    } else {
        10 * digits_value(s.take(s.len() - 1)) + digit_value(s[s.len() - 1])
    }
}

/// Every character of `s` from `from` on is a digit.
pub open spec fn all_digits(s: Seq<char>, from: int) -> bool {
    forall|i: int| from <= i < s.len() ==> is_digit(#[trigger] s[i])
}

/// The integer that the text `s` is: digits behind an optional sign, if
/// the number fits in 64 bits.
pub open spec fn parsed_int(s: Seq<char>) -> Option<int> {
    let signed = s.len() > 0 && (s[0] == '-' || s[0] == '+');
    let body = if signed {
        s.skip(1)
    } else {
        s
    };
    let value = if signed && s[0] == '-' {
        -(digits_value(body) as int)
    } else {
        digits_value(body) as int
    };
    if body.len() > 0 && all_digits(body, 0) && i64::MIN <= value <= i64::MAX {
        Some(value)
    } else {
        None
    }
}

/// More digits make no smaller number.
pub proof fn lemma_digits_grow(s: Seq<char>, i: int)
    requires
        0 <= i <= s.len(),
    ensures
        digits_value(s.take(i)) <= digits_value(s),
    decreases s.len() - i,
{
    if i < s.len() {
        lemma_digits_grow(s, i + 1);
        assert(s.take(i + 1).take(i) == s.take(i));
    } else {
        assert(s.take(i) == s);
    }
}

fn digit_of_char(c: char) -> (d: u128)
    requires
        is_digit(c),
    ensures
        d == digit_value(c),
        d <= 9,
{
    if c == '0' {
        0
    } else if c == '1' {
        1
    } else if c == '2' {
        2
    } else if c == '3' {
        3
    } else if c == '4' {
        4
    } else if c == '5' {
        5
    } else if c == '6' {
        6
    } else if c == '7' {
        7
    } else if c == '8' {
        8
    } else {
        9
    }
}

/// The integer that the text `s` is.
pub fn parse_i64(s: &str) -> (r: Option<i64>)
    ensures
        match r {
            Some(i) => parsed_int(s@) == Some(i as int),
            None => parsed_int(s@) is None,
        },
{
    let c = chars_of(s);
    let signed = c.len() > 0 && (c[0] == '-' || c[0] == '+');
    let negative = signed && c[0] == '-';
    let start: usize = if signed {
        1
    } else {
        0
    };
    let ghost body = if signed {
        c@.skip(1)
    } else {
        c@
    };
    if c.len() == start {
        return None;
    }
    let mut k: usize = start;
    while k < c.len()
        invariant
            start <= k <= c.len(),
            c@ == s@,
            signed == (c@.len() > 0 && (c@[0] == '-' || c@[0] == '+')),
            body == if signed {
                c@.skip(1)
            } else {
                c@
            },
            body.len() == c.len() - start,
            forall|q: int| 0 <= q < body.len() ==> body[q] == c@[q + start],
            forall|q: int| 0 <= q < k - start ==> is_digit(#[trigger] body[q]),
        decreases c.len() - k,
    {
        if !('0' <= c[k] && c[k] <= '9') {
            assert(!is_digit(body[k - start]));
            return None;
        }
        k += 1;
    }
    let limit: u128 = 9223372036854775808u128;
    let mut acc: u128 = 0;
    let mut i: usize = start;
    assert(body.take(0) == Seq::<char>::empty());
    while i < c.len()
        invariant
            start <= i <= c.len(),
            c@ == s@,
            signed == (c@.len() > 0 && (c@[0] == '-' || c@[0] == '+')),
            body == if signed {
                c@.skip(1)
            } else {
                c@
            },
            body.len() == c.len() - start,
            forall|q: int| 0 <= q < body.len() ==> body[q] == c@[q + start],
            all_digits(body, 0),
            acc == digits_value(body.take(i - start)),
            acc <= limit,
            limit == 9223372036854775808u128,
        decreases c.len() - i,
    {
        assert(is_digit(body[i - start]));
        let d: u128 = digit_of_char(c[i]);
        assert(body.take(i - start + 1).take(i - start) == body.take(i - start));
        acc = acc * 10 + d;
        if acc > limit {
            proof {
                lemma_digits_grow(body, i - start + 1);
            }
            return None;
        }
        i += 1;
    }
    assert(body.take(body.len() as int) == body);
    if negative {
        if acc == limit {
            Some(i64::MIN)
        } else {
            Some(-(acc as i64))
        }
    } else if acc == limit {
        None
    } else {
        Some(acc as i64)
    }
}

/// A chat completion that is planned: its arguments, the insert that its
/// answer is stored as, and the voice that speaks it.
#[derive(Debug)]
pub struct ChatPlan {
    pub args: ChatArgs,
    pub output_name: String,
    pub voice_path: Option<String>,
    pub voice_speaker: Option<i64>,
}

/// The model of a `ChatPlan`.
pub struct ChatPlanView {
    pub messages: Seq<Seq<(Seq<char>, Json)>>,
    pub completion_args: Seq<(Seq<char>, Json)>,
    pub start_str: Seq<char>,
    pub stop_str: Seq<char>,
    pub hide_start_str: Seq<char>,
    pub hide_stop_str: Seq<char>,
    pub n_outputs: int,
    pub shown: bool,
    pub choices_list: Option<Seq<Seq<char>>>,
    pub extra_body: Seq<(Seq<char>, Json)>,
    pub api_url: Seq<char>,
    pub api_key: Seq<char>,
    pub output_name: Seq<char>,
    pub voice_path: Option<Seq<char>>,
    pub voice_speaker: Option<int>,
}

/// The members of the messages `messages`, in order.
pub open spec fn objects_view(messages: Seq<Object>) -> Seq<Seq<(Seq<char>, Json)>> {
    Seq::new(messages.len(), |i: int| messages[i]@)
}

impl View for ChatPlan {
    type V = ChatPlanView;

    open spec fn view(&self) -> ChatPlanView {
        ChatPlanView {
            messages: objects_view(self.args.messages@),
            completion_args: self.args.completion_args@,
            start_str: self.args.start_str@,
            stop_str: self.args.stop_str@,
            hide_start_str: self.args.hide_start_str@,
            hide_stop_str: self.args.hide_stop_str@,
            n_outputs: self.args.n_outputs as int,
            shown: self.args.shown,
            choices_list: match self.args.choices_list {
                Some(c) => Some(crate::model::texts_of(c@)),
                None => None,
            },
            extra_body: self.args.extra_body@,
            api_url: self.args.api_url@,
            api_key: self.args.api_key@,
            output_name: self.output_name@,
            voice_path: match self.voice_path {
                Some(p) => Some(p@),
                None => None,
            },
            voice_speaker: match self.voice_speaker {
                Some(i) => Some(i as int),
                None => None,
            },
        }
    }
}

/// Whether `key` is a field of the task that is no setting of the completion.
pub open spec fn is_task_key(key: Seq<char>) -> bool {
    key == "cmd"@ || key == "messages"@ || key == "output_name"@
}

/// `acc` with the members of `d` from `from` on bound one by one; where
/// `settings_only` holds, but for the fields of the task that are no settings.
pub open spec fn merge_members(
    acc: Seq<(Seq<char>, Json)>,
    d: Seq<(Seq<char>, Json)>,
    from: int,
    settings_only: bool,
) -> Seq<(Seq<char>, Json)>
    decreases d.len() - from,
{
    if from < 0 || from >= d.len() {
        acc
    } else if settings_only && is_task_key(d[from].0) {
        merge_members(acc, d, from + 1, settings_only)
    } else {
        merge_members(dict_set(acc, d[from].0, d[from].1), d, from + 1, settings_only)
    }
}

/// The object that `d` binds `key` to; an empty one where it binds it to none.
pub open spec fn object_setting(d: Seq<(Seq<char>, Json)>, key: Seq<char>) -> Seq<(Seq<char>, Json)> {
    match dict_get(d, key) {
        Some(Json::Dict(m)) => m,
        _ => Seq::empty(),
    }
}

/// The completion arguments of the program with those of the task over
/// them: the extra body of the task is merged into that of the program,
/// then every setting of the task replaces that of the program.
pub open spec fn merged_completion(completion: Seq<(Seq<char>, Json)>, task: Seq<(Seq<char>, Json)>) -> Seq<
    (Seq<char>, Json),
> {
    let first = match dict_get(task, "extra_body"@) {
        Some(Json::Dict(extra)) => dict_set(
            completion,
            "extra_body"@,
            Json::Dict(merge_members(object_setting(completion, "extra_body"@), extra, 0, false)),
        ),
        _ => completion,
    };
    merge_members(first, task, 0, true)
}

/// The text that `d` binds `key` to, or `default`.
pub open spec fn text_setting(d: Seq<(Seq<char>, Json)>, key: Seq<char>, default: Seq<char>) -> Seq<
    char,
> {
    match dict_get(d, key) {
        Some(Json::Text(s)) => s,
        _ => default,
    }
}

/// The text that `d` binds `key` to, if it binds it to one.
pub open spec fn optional_text(d: Seq<(Seq<char>, Json)>, key: Seq<char>) -> Option<Seq<char>> {
    match dict_get(d, key) {
        Some(Json::Text(s)) => Some(s),
        _ => None,
    }
}

/// The number of outputs that `d` asks for: 1 where it says nothing that is a number.
pub open spec fn n_outputs_of(d: Seq<(Seq<char>, Json)>) -> int {
    match dict_get(d, "n_outputs"@) {
        Some(Json::Int(i)) => i,
        Some(Json::Text(s)) => match parsed_int(s) {
            Some(i) => i,
            None => 1,
        },
        _ => 1,
    }
}

/// Whether `d` asks for the answer to be shown: it does unless it says `false`.
pub open spec fn shown_of(d: Seq<(Seq<char>, Json)>) -> bool {
    match dict_get(d, "shown"@) {
        Some(Json::Bool(b)) => b,
        Some(Json::Text(s)) => s != "false"@,
        _ => true,
    }
}

/// `d` without the settings that are no arguments of the completion itself.
pub open spec fn without_settings(d: Seq<(Seq<char>, Json)>) -> Seq<(Seq<char>, Json)> {
    let a = dict_remove(d, "start_str"@);
    let b = dict_remove(a, "stop_str"@);
    let c = dict_remove(b, "hide_start_str"@);
    let e = dict_remove(c, "hide_stop_str"@);
    let f = dict_remove(e, "n_outputs"@);
    let g = dict_remove(f, "shown"@);
    let h = dict_remove(g, "choices_list"@);
    let i = dict_remove(h, "voice_path"@);
    let j = dict_remove(i, "voice_speaker"@);
    let k = dict_remove(j, "api_url"@);
    let l = dict_remove(k, "api_key"@);
    let m = dict_remove(l, "extra_body"@);
    let n = dict_remove(m, "line"@);
    dict_remove(n, "traceback_label"@)
}

/// `acc` followed by the messages of `a`: of each object its role, `user`
/// where it has none, and its content, interpolated and trimmed. What is no
/// object is left out.
pub open spec fn message_list(scope: Scope, a: Seq<Json>, acc: Seq<Seq<(Seq<char>, Json)>>) -> Result<
    Seq<Seq<(Seq<char>, Json)>>,
    ExecError,
>
    decreases a.len(),
{
    if a.len() == 0 {
        Ok(acc)
    } else {
        match a[0] {
            Json::Dict(m) => match interpolate(
                scope,
                text_setting(m, "content"@, Seq::empty()),
            ) {
                Err(e) => Err(ExecError::Interpolation(e)),
                Ok(v) => message_list(
                    scope,
                    a.skip(1),
                    acc.push(message(text_setting(m, "role"@, "user"@), trim(render(v)))),
                ),
            },
            _ => message_list(scope, a.skip(1), acc),
        }
    }
}

/// The messages that `v` gives: those of a list, or of the list that a
/// reference leads to in `depth` steps at most.
pub open spec fn resolve_messages(scope: Scope, v: Json, depth: nat) -> Result<
    Seq<Seq<(Seq<char>, Json)>>,
    ExecError,
>
    decreases depth,
{
    let key = match v {
        Json::Text(s) => simple_key(s),
        _ => None,
    };
    match key {
        Some(k) => if depth == 0 {
            Err(ExecError::Interpolation(InterpError::TooManyPasses))
        } else {
            match resolve(scope, k) {
                Err(e) => Err(ExecError::Interpolation(e)),
                Ok(val) => resolve_messages(scope, val, (depth - 1) as nat),
            }
        },
        None => match v {
            Json::List(a) => message_list(scope, a, Seq::empty()),
            _ => Err(ExecError::MessagesNotList),
        },
    }
}

/// The plan of the `chat` that `task` asks for, with the completion
/// arguments `completion` of the program.
pub open spec fn planned_chat(
    scope: Scope,
    task: Seq<(Seq<char>, Json)>,
    completion: Seq<(Seq<char>, Json)>,
) -> Result<ChatPlanView, ExecError> {
    match str_field(task, "output_name"@) {
        Err(e) => Err(e),
        Ok(output_name) => {
            let merged = merged_completion(completion, task);
            match resolve_messages(scope, item_field(task, "messages"@), MESSAGE_DEPTH as nat) {
                Err(e) => Err(e),
                Ok(messages) => Ok(
                    ChatPlanView {
                        messages,
                        completion_args: without_settings(merged),
                        start_str: text_setting(merged, "start_str"@, Seq::empty()),
                        stop_str: text_setting(merged, "stop_str"@, Seq::empty()),
                        hide_start_str: text_setting(merged, "hide_start_str"@, Seq::empty()),
                        hide_stop_str: text_setting(merged, "hide_stop_str"@, Seq::empty()),
                        n_outputs: n_outputs_of(merged),
                        shown: shown_of(merged),
                        choices_list: match dict_get(merged, "choices_list"@) {
                            Some(Json::List(a)) => Some(rendered(a)),
                            _ => None,
                        },
                        extra_body: object_setting(merged, "extra_body"@),
                        api_url: text_setting(merged, "api_url"@, "http://0.0.0.0:8080"@),
                        api_key: text_setting(merged, "api_key"@, "unused"@),
                        output_name,
                        voice_path: optional_text(merged, "voice_path"@),
                        voice_speaker: match dict_get(merged, "voice_speaker"@) {
                            Some(Json::Int(i)) => Some(i),
                            _ => None,
                        },
                    },
                ),
            }
        },
    }
}

fn merge_into(acc: &mut Object, d: &Object, settings_only: bool)
    ensures
        final(acc)@ == merge_members(old(acc)@, d@, 0, settings_only),
{
    proof {
        lemma_dict_view(d.entries@);
    }
    let mut i: usize = 0;
    while i < d.entries.len()
        invariant
            i <= d.entries.len(),
            d@.len() == d.entries@.len(),
            forall|k: int| 0 <= k < d@.len() ==> d@[k] == (d.entries@[k].0@, d.entries@[k].1@),
            merge_members(old(acc)@, d@, 0, settings_only) == merge_members(
                acc@,
                d@,
                i as int,
                settings_only,
            ),
        decreases d.entries.len() - i,
    {
        let key = d.entries[i].0.as_str();
        let task_key = same_text(key, "cmd") || same_text(key, "messages") || same_text(
            key,
            "output_name",
        );
        if !(settings_only && task_key) {
            acc.insert(d.entries[i].0.clone(), d.entries[i].1.clone());
        }
        i += 1;
    }
}

fn text_of_setting(d: &Object, key: &str, default: &str) -> (r: String)
    ensures
        r@ == text_setting(d@, key@, default@),
{
    match d.get(key) {
        Some(Value::String(s)) => s.clone(),
        _ => default.to_owned(),
    }
}

fn object_of_setting(d: &Object, key: &str) -> (r: Object)
    ensures
        r@ == object_setting(d@, key@),
{
    match d.get(key) {
        Some(Value::Object(m)) => m.clone(),
        _ => Object::new(),
    }
}

fn messages_of_list(
    a: &Vec<Value>,
    inserts: &Object,
    ctx: &ProgramLoadContext,
    clock: &Clock,
) -> (r: Result<Vec<Object>, ExecError>)
    ensures
        match r {
            Ok(m) => message_list(scope_of(*inserts, *ctx, *clock), list_view(a@), Seq::empty())
                == Ok::<Seq<Seq<(Seq<char>, Json)>>, ExecError>(objects_view(m@)),
            Err(e) => message_list(scope_of(*inserts, *ctx, *clock), list_view(a@), Seq::empty())
                == Err::<Seq<Seq<(Seq<char>, Json)>>, ExecError>(e),
        },
{
    let ghost scope = scope_of(*inserts, *ctx, *clock);
    let ghost items = list_view(a@);
    proof {
        lemma_list_view(a@);
    }
    let mut out: Vec<Object> = Vec::new();
    let mut i: usize = 0;
    assert(items.skip(0) == items);
    assert(objects_view(out@) =~= Seq::<Seq<(Seq<char>, Json)>>::empty());
    while i < a.len()
        invariant
            i <= a.len(),
            scope == scope_of(*inserts, *ctx, *clock),
            items == list_view(a@),
            items.len() == a@.len(),
            forall|k: int| 0 <= k < items.len() ==> items[k] == a@[k]@,
            message_list(scope, items, Seq::empty()) == message_list(
                scope,
                items.skip(i as int),
                objects_view(out@),
            ),
        decreases a.len() - i,
    {
        let ghost rest = items.skip(i as int);
        assert(rest[0] == items[i as int]);
        assert(rest.skip(1) == items.skip(i + 1));
        match &a[i] {
            Value::Object(m) => {
                let role = text_of_setting(m, "role", "user");
                let content = text_of_setting(m, "content", "");
                assert(content@ == text_setting(m@, "content"@, Seq::empty())) by {
                    reveal_strlit("");
                    assert(""@ =~= Seq::<char>::empty());
                }
                let c = chars_of(content.as_str());
                let value = match interpolate_chars(inserts, &c, ctx, clock) {
                    Ok(v) => v,
                    Err(e) => {
                        return Err(ExecError::Interpolation(e));
                    },
                };
                let mut text: Vec<char> = Vec::new();
                push_rendered(&mut text, &value);
                let trimmed = trim_chars(&text);
                let ghost before = out@;
                out.push(crate::chat::map_message(role.as_str(), string_of(&trimmed).as_str()));
                assert(objects_view(out@) =~= objects_view(before).push(
                    message(role@, trim(render(value@))),
                ));
            },
            _ => {},
        }
        i += 1;
    }
    assert(items.skip(items.len() as int).len() == 0);
    Ok(out)
}

/// The messages that `messages` gives.
pub fn interpolate_messages(
    messages: &Value,
    inserts: &Object,
    ctx: &ProgramLoadContext,
    clock: &Clock,
) -> (r: Result<Vec<Object>, ExecError>)
    ensures
        match r {
            Ok(m) => resolve_messages(
                scope_of(*inserts, *ctx, *clock),
                messages@,
                MESSAGE_DEPTH as nat,
            ) == Ok::<Seq<Seq<(Seq<char>, Json)>>, ExecError>(objects_view(m@)),
            Err(e) => resolve_messages(
                scope_of(*inserts, *ctx, *clock),
                messages@,
                MESSAGE_DEPTH as nat,
            ) == Err::<Seq<Seq<(Seq<char>, Json)>>, ExecError>(e),
        },
{
    let ghost scope = scope_of(*inserts, *ctx, *clock);
    let mut current = messages.clone();
    let mut depth: usize = MESSAGE_DEPTH;
    loop
        invariant
            scope == scope_of(*inserts, *ctx, *clock),
            resolve_messages(scope, messages@, MESSAGE_DEPTH as nat) == resolve_messages(
                scope,
                current@,
                depth as nat,
            ),
        decreases depth,
    {
        let key = match &current {
            Value::String(s) => {
                let c = chars_of(s.as_str());
                simple_key_chars(&c)
            },
            _ => None,
        };
        match key {
            Some(k) => {
                if depth == 0 {
                    return Err(ExecError::Interpolation(InterpError::TooManyPasses));
                }
                match resolve_chars(inserts, &k, ctx, clock) {
                    Err(e) => {
                        return Err(ExecError::Interpolation(e));
                    },
                    Ok(val) => {
                        current = val;
                        depth -= 1;
                    },
                }
            },
            None => {
                return match &current {
                    Value::Array(a) => messages_of_list(a, inserts, ctx, clock),
                    _ => Err(ExecError::MessagesNotList),
                };
            },
        }
    }
}

/// Plans the `chat` that `task` asks for; see `planned_chat`.
pub fn plan_chat(
    task: &Task,
    completion_args: &Object,
    snapshot: &Object,
    ctx: &ProgramLoadContext,
    clock: &Clock,
) -> (r: Result<ChatPlan, ExecError>)
    ensures
        match r {
            Ok(p) => planned_chat(scope_of(*snapshot, *ctx, *clock), task@, completion_args@)
                == Ok::<ChatPlanView, ExecError>(p@),
            Err(e) => planned_chat(scope_of(*snapshot, *ctx, *clock), task@, completion_args@)
                == Err::<ChatPlanView, ExecError>(e),
        },
{
    let messages = item_or_null(task, "messages");
    let output_name = as_string(task, "output_name")?;
    let mut merged = completion_args.clone();
    match task.get("extra_body") {
        Some(Value::Object(extra)) => {
            let mut combined = object_of_setting(&merged, "extra_body");
            merge_into(&mut combined, extra, false);
            merged.insert("extra_body".to_owned(), Value::Object(combined));
        },
        _ => {},
    }
    merge_into(&mut merged, task, true);
    assert(merged@ == merged_completion(completion_args@, task@));
    let start_str = text_of_setting(&merged, "start_str", "");
    let stop_str = text_of_setting(&merged, "stop_str", "");
    let hide_start_str = text_of_setting(&merged, "hide_start_str", "");
    let hide_stop_str = text_of_setting(&merged, "hide_stop_str", "");
    proof {
        reveal_strlit("");
        assert(""@ =~= Seq::<char>::empty());
    }
    let n_outputs = match merged.get("n_outputs") {
        Some(Value::Number(Number::Int(i))) => *i,
        Some(Value::String(s)) => match parse_i64(s.as_str()) {
            Some(i) => i,
            None => 1,
        },
        _ => 1,
    };
    let shown = match merged.get("shown") {
        Some(Value::Bool(b)) => *b,
        Some(Value::String(s)) => !same_text(s.as_str(), "false"),
        _ => true,
    };
    let choices_list = match merged.get("choices_list") {
        Some(Value::Array(a)) => Some(crate::engine::render_all_items(a)),
        _ => None,
    };
    let voice_path = match merged.get("voice_path") {
        Some(Value::String(p)) => Some(p.clone()),
        _ => None,
    };
    let voice_speaker = match merged.get("voice_speaker") {
        Some(Value::Number(Number::Int(i))) => Some(*i),
        _ => None,
    };
    let api_url = text_of_setting(&merged, "api_url", "http://0.0.0.0:8080");
    let api_key = text_of_setting(&merged, "api_key", "unused");
    let extra_body = object_of_setting(&merged, "extra_body");
    let messages = interpolate_messages(&messages, snapshot, ctx, clock)?;
    let mut completion = merged.clone();
    completion.remove("start_str");
    completion.remove("stop_str");
    completion.remove("hide_start_str");
    completion.remove("hide_stop_str");
    completion.remove("n_outputs");
    completion.remove("shown");
    completion.remove("choices_list");
    completion.remove("voice_path");
    completion.remove("voice_speaker");
    completion.remove("api_url");
    completion.remove("api_key");
    completion.remove("extra_body");
    completion.remove("line");
    completion.remove("traceback_label");
    Ok(
        ChatPlan {
            args: ChatArgs {
                messages,
                completion_args: completion,
                start_str,
                stop_str,
                hide_start_str,
                hide_stop_str,
                n_outputs,
                shown,
                choices_list,
                extra_body,
                api_url,
                api_key,
            },
            output_name,
            voice_path,
            voice_speaker,
        },
    )
}

/// The texts `outputs` as a list of strings.
pub open spec fn text_values(outputs: Seq<Seq<char>>) -> Seq<Json> {
    Seq::new(outputs.len(), |i: int| Json::Text(outputs[i]))
}

/// The state after the answer of a `chat`: a single output is stored as a
/// string, any other number of outputs as a list, and what was shown is
/// appended to the output.
pub open spec fn chat_stored(
    st: Seq<(Seq<char>, Json)>,
    output_name: Seq<char>,
    outputs: Seq<Seq<char>>,
    visual_output: Seq<char>,
) -> Seq<(Seq<char>, Json)> {
    let stored = with_insert(
        st,
        output_name,
        if outputs.len() == 1 {
            Json::Text(outputs[0])
        } else {
            Json::List(text_values(outputs))
        },
    );
    if visual_output.len() > 0 {
        with_output(stored, output_of(stored) + visual_output)
    } else {
        stored
    }
}

/// Stores the answer of a `chat`.
pub fn finish_chat(state: &mut State, output_name: &str, outputs: &Vec<String>, visual_output: &str)
    ensures
        final(state)@ == chat_stored(
            old(state)@,
            output_name@,
            crate::model::texts_of(outputs@),
            visual_output@,
        ),
{
    if outputs.len() == 1 {
        state.set_insert(output_name, Value::String(outputs[0].clone()));
    } else {
        let mut list: Vec<Value> = Vec::new();
        let mut i: usize = 0;
        while i < outputs.len()
            invariant
                i <= outputs.len(),
                list@.len() == i,
                forall|k: int| 0 <= k < i ==> list@[k]@ == Json::Text(outputs@[k]@),
            decreases outputs.len() - i,
        {
            list.push(Value::String(outputs[i].clone()));
            i += 1;
        }
        proof {
            lemma_list_view(list@);
            assert(list_view(list@) =~= text_values(crate::model::texts_of(outputs@)));
        }
        state.set_insert(output_name, Value::Array(list));
    }
    if visual_output.unicode_len() > 0 {
        state.append_output(visual_output);
    }
}

} // verus!
