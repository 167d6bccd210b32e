//! The record of a run in words: for each thing that happened, the entry
//! that is written for it, beginning with the time that it was given.

use crate::model::texts_of;
use crate::preview::{preview_of, preview_value, PREVIEW_LONG, PREVIEW_SHORT};
use crate::text::{append_chars, chars_of, join_all, same_chars, same_text, string_of};
use crate::value::{
    dict_get, int_text, json_text, lemma_dict_view, lemma_list_view, list_view, push_int,
    push_json, Json, Number, Object, Value,
};
use vstd::prelude::*;

verus! {

/// What field `key` says: a string as it is, any other value as JSON,
/// nothing where the field is missing.
pub open spec fn field_text(f: Seq<(Seq<char>, Json)>, key: Seq<char>) -> Seq<char> {
    match dict_get(f, key) {
        Some(Json::Text(s)) => s,
        Some(v) => json_text(v),
        None => Seq::empty(),
    }
}

/// The whole number in field `key`, or `default`.
pub open spec fn field_int(f: Seq<(Seq<char>, Json)>, key: Seq<char>, default: int) -> int {
    match dict_get(f, key) {
        Some(Json::Int(i)) => i,
        _ => default,
    }
}

/// The truth value in field `key`, or `default`.
pub open spec fn field_flag(f: Seq<(Seq<char>, Json)>, key: Seq<char>, default: bool) -> bool {
    match dict_get(f, key) {
        Some(Json::Bool(b)) => b,
        _ => default,
    }
}

/// A short preview of field `key` as JSON; an empty string in quotes where
/// the field is missing.
pub open spec fn field_quoted(f: Seq<(Seq<char>, Json)>, key: Seq<char>) -> Seq<char> {
    match dict_get(f, key) {
        Some(v) => preview_of(json_text(v), PREVIEW_SHORT as nat),
        None => "\"\""@,
    }
}

/// A truth value in words.
pub open spec fn flag_text(b: bool) -> Seq<char> {
    if b {
        "true"@
    } else {
        "false"@
    }
}

/// The time `ts` as an entry begins with it.
pub open spec fn stamp(ts: Seq<char>) -> Seq<char> {
    seq!['['] + ts + "] "@
}

/// Where a result went: an arrow and the name of the insert, where the
/// entry names one.
pub open spec fn arrow(f: Seq<(Seq<char>, Json)>) -> Seq<char> {
    if field_text(f, "output_name"@).len() == 0 {
        Seq::empty()
    } else {
        " -> "@ + field_text(f, "output_name"@)
    }
}

/// What a task is called in its entry: its label, else the path that it
/// runs at, else `task`.
pub open spec fn task_name(f: Seq<(Seq<char>, Json)>) -> Seq<char> {
    if dict_get(f, "label"@) is Some {
        field_text(f, "label"@)
    } else if dict_get(f, "runtime_label"@) is Some {
        field_text(f, "runtime_label"@)
    } else {
        "task"@
    }
}

/// An entry that says `words` and no more.
pub open spec fn plain_line(ts: Seq<char>, words: Seq<char>) -> Seq<char> {
    stamp(ts) + words
}

/// The entry for the start of a program.
pub open spec fn program_start_line(f: Seq<(Seq<char>, Json)>, ts: Seq<char>) -> Seq<char> {
    stamp(ts) + "Program start: "@ + field_text(f, "program"@) + " (order_len="@ + int_text(
        field_int(f, "order_len"@, 0),
    ) + ", agent_mode="@ + flag_text(field_flag(f, "agent_mode"@, false)) + ")"@
}

/// The entry for the start of a task: what the task is called and, where
/// there is one, a preview of its fields.
pub open spec fn task_start_line(f: Seq<(Seq<char>, Json)>, ts: Seq<char>) -> Seq<char> {
    if field_text(f, "preview"@).len() == 0 {
        stamp(ts) + "Order Item "@ + task_name(f) + "."@
    } else {
        stamp(ts) + "Order Item "@ + task_name(f) + ": "@ + field_text(f, "preview"@)
    }
}

/// The entry for a line that the user typed.
pub open spec fn user_input_line(f: Seq<(Seq<char>, Json)>, ts: Seq<char>) -> Seq<char> {
    stamp(ts) + "User entered "@ + field_quoted(f, "value"@) + arrow(f) + "."@
}

/// The entry for a choice, made by the user or by chance as `words` say.
pub open spec fn choice_line(f: Seq<(Seq<char>, Json)>, ts: Seq<char>, words: Seq<char>) -> Seq<char> {
    stamp(ts) + words + field_quoted(f, "choice"@) + " (index "@ + int_text(
        field_int(f, "index"@, -1),
    ) + ")"@ + arrow(f) + "."@
}

/// The entry for a `goto`.
pub open spec fn goto_line(f: Seq<(Seq<char>, Json)>, ts: Seq<char>) -> Seq<char> {
    stamp(ts) + "goto -> "@ + field_text(f, "target"@) + "."@
}

/// The entry for a `goto_map`: the text that was looked up, or that it had
/// no value, and where the run goes on.
pub open spec fn goto_map_line(f: Seq<(Seq<char>, Json)>, ts: Seq<char>) -> Seq<char> {
    if field_flag(f, "interpolation_error"@, false) {
        stamp(ts) + "goto_map value could not be resolved (NULL), proceeding to "@ + field_text(
            f,
            "target"@,
        ) + "."@
    } else {
        stamp(ts) + "goto_map value is "@ + field_text(f, "value"@) + ", proceeding to "@
            + field_text(f, "target"@) + "."@
    }
}

/// The entry for a `replace_map`.
pub open spec fn replace_map_line(f: Seq<(Seq<char>, Json)>, ts: Seq<char>) -> Seq<char> {
    if field_text(f, "item_preview"@).len() == 0 {
        stamp(ts) + "replace_map -> "@ + field_text(f, "output_name"@) + " (repeat_until_done="@
            + flag_text(field_flag(f, "repeat_until_done"@, false)) + ", maps="@ + int_text(
            field_int(f, "maps"@, 0),
        ) + ")."@
    } else {
        stamp(ts) + "replace_map -> "@ + field_text(f, "output_name"@) + " (repeat_until_done="@
            + flag_text(field_flag(f, "repeat_until_done"@, false)) + ", maps="@ + int_text(
            field_int(f, "maps"@, 0),
        ) + ", item="@ + field_text(f, "item_preview"@) + ")."@
    }
}

/// The entry for a round of a `for`.
pub open spec fn for_line(f: Seq<(Seq<char>, Json)>, ts: Seq<char>) -> Seq<char> {
    stamp(ts) + "For loop starting iteration "@ + int_text(field_int(f, "iteration"@, 0)) + "."@
}

/// The entry for the command `event`, which deleted inserts: how many, and
/// a preview of their keys where the entry names them.
pub open spec fn delete_line(f: Seq<(Seq<char>, Json)>, ts: Seq<char>, event: Seq<char>) -> Seq<char> {
    if keys_preview(f).len() == 0 {
        stamp(ts) + event + ": "@ + int_text(field_int(f, "count"@, 0)) + " keys."@
    } else {
        stamp(ts) + event + ": "@ + int_text(field_int(f, "count"@, 0)) + " keys "@ + keys_preview(
            f,
        ) + "."@
    }
}

/// The entry for a `math`: what was asked, what it came to after
/// interpolation where that differs, and the result.
pub open spec fn math_line(f: Seq<(Seq<char>, Json)>, ts: Seq<char>) -> Seq<char> {
    if field_text(f, "expression"@).len() != 0 && field_text(f, "expression"@) != field_text(
        f,
        "input"@,
    ) {
        stamp(ts) + "Math: "@ + field_text(f, "input"@) + " => "@ + field_text(f, "expression"@)
            + " => "@ + field_text(f, "result"@) + "."@
    } else {
        stamp(ts) + "Math: "@ + field_text(f, "input"@) + " => "@ + field_text(f, "result"@)
            + "."@
    }
}

/// The entry for a `write`.
pub open spec fn write_line(f: Seq<(Seq<char>, Json)>, ts: Seq<char>) -> Seq<char> {
    stamp(ts) + "write: '"@ + field_text(f, "path"@) + "' ("@ + int_text(
        field_int(f, "bytes"@, 0),
    ) + " bytes)."@
}

/// The entry for a `speak`.
pub open spec fn speak_line(f: Seq<(Seq<char>, Json)>, ts: Seq<char>) -> Seq<char> {
    stamp(ts) + "speak: voice_path='"@ + field_text(f, "voice_path"@) + "' text_len="@ + int_text(
        field_int(f, "text_len"@, 0),
    ) + "."@
}

/// The entry for the start of a chat.
pub open spec fn chat_start_line(f: Seq<(Seq<char>, Json)>, ts: Seq<char>) -> Seq<char> {
    stamp(ts) + "Chat start: "@ + field_text(f, "output_name"@) + " (messages="@ + int_text(
        field_int(f, "messages"@, 0),
    ) + ")."@
}

/// The entry for a chat that failed.
pub open spec fn chat_error_line(f: Seq<(Seq<char>, Json)>, ts: Seq<char>) -> Seq<char> {
    stamp(ts) + "Chat error: "@ + field_text(f, "output_name"@) + " ("@ + field_text(
        f,
        "error"@,
    ) + ")."@
}

/// The entry for a chat that ended.
pub open spec fn chat_done_line(f: Seq<(Seq<char>, Json)>, ts: Seq<char>) -> Seq<char> {
    stamp(ts) + "Chat done: "@ + field_text(f, "output_name"@) + " (outputs="@ + int_text(
        field_int(f, "outputs"@, 0),
    ) + ", visual_len="@ + int_text(field_int(f, "visual_len"@, 0)) + ")."@
}

/// The entry for a state that was saved to a slot or loaded from one, as
/// `words` say.
pub open spec fn slot_line(f: Seq<(Seq<char>, Json)>, ts: Seq<char>, words: Seq<char>) -> Seq<char> {
    stamp(ts) + words + int_text(field_int(f, "slot"@, 0)) + " ('"@ + field_text(f, "label"@)
        + "')."@
}

/// The first line of the entry for `event` with the fields `f` at the time
/// `ts`; nothing for an event that is not recorded, and for the end of a
/// program that ended well.
pub open spec fn first_line(event: Seq<char>, f: Seq<(Seq<char>, Json)>, ts: Seq<char>) -> Option<
    Seq<char>,
> {
    if event == "program_end"@ {
        if field_flag(f, "success"@, true) {
            None
        } else {
            Some(plain_line(ts, "Program ended with error."@))
        }
    } else if event == "program_start"@ {
        Some(program_start_line(f, ts))
    } else if event == "program_complete"@ {
        Some(plain_line(ts, "Reached end of order list."@))
    } else if event == "program_terminated"@ {
        Some(plain_line(ts, "Terminated by user."@))
    } else if event == "task_start"@ {
        Some(task_start_line(f, ts))
    } else if event == "user_input"@ {
        Some(user_input_line(f, ts))
    } else if event == "user_choice"@ {
        Some(choice_line(f, ts, "User selected "@))
    } else if event == "random_choice"@ {
        Some(choice_line(f, ts, "Random choice "@))
    } else if event == "goto"@ {
        Some(goto_line(f, ts))
    } else if event == "goto_map"@ {
        Some(goto_map_line(f, ts))
    } else if event == "replace_map"@ {
        Some(replace_map_line(f, ts))
    } else if event == "for_iteration"@ {
        Some(for_line(f, ts))
    } else if event == "delete"@ {
        Some(delete_line(f, ts, "delete"@))
    } else if event == "delete_except"@ {
        Some(delete_line(f, ts, "delete_except"@))
    } else if event == "math"@ {
        Some(math_line(f, ts))
    } else if event == "write"@ {
        Some(write_line(f, ts))
    } else if event == "speak"@ {
        Some(speak_line(f, ts))
    } else if event == "chat_start"@ {
        Some(chat_start_line(f, ts))
    } else if event == "chat_error"@ {
        Some(chat_error_line(f, ts))
    } else if event == "chat_done"@ {
        Some(chat_done_line(f, ts))
    } else if event == "menu_save"@ {
        Some(slot_line(f, ts, "Saved slot "@))
    } else if event == "menu_load"@ {
        Some(slot_line(f, ts, "Loaded slot "@))
    } else if event == "menu_reload"@ {
        Some(plain_line(ts, "Reloaded and restarted program."@))
    } else if event == "menu_quit"@ {
        Some(plain_line(ts, "Quit requested from menu."@))
    } else {
        None
    }
}

/// A long preview of the keys that an entry names; nothing where it names none.
pub open spec fn keys_preview(f: Seq<(Seq<char>, Json)>) -> Seq<char> {
    match dict_get(f, "keys"@) {
        Some(v) => preview_of(json_text(v), PREVIEW_LONG as nat),
        None => Seq::empty(),
    }
}

/// The upper-case form of `s`, as `str::to_uppercase` gives it.
pub uninterp spec fn uppercased(s: Seq<char>) -> Seq<char>;

/// `str::to_uppercase`: the upper-case form of `s`.
#[verifier::external_body]
fn to_upper(s: &str) -> (r: String)
    ensures
        r@ == uppercased(s@),
{
    s.to_uppercase()
}

/// The line above a transcript.
pub open spec fn transcript_head() -> Seq<char> {
    "----------------------------MESSAGES--------------------------"@
}

/// The line below a transcript.
pub open spec fn transcript_foot() -> Seq<char> {
    "--------------------------------------------------------------"@
}

/// Who a message is from: its `role`, or `user`.
pub open spec fn role_of(m: Seq<(Seq<char>, Json)>) -> Seq<char> {
    match dict_get(m, "role"@) {
        Some(Json::Text(s)) => s,
        _ => "user"@,
    }
}

/// What a message says: its `content`, where that is a string.
pub open spec fn content_of(m: Seq<(Seq<char>, Json)>) -> Seq<char> {
    match dict_get(m, "content"@) {
        Some(Json::Text(s)) => s,
        _ => Seq::empty(),
    }
}

/// The lines of the messages of `msgs` from place `from` on: for each
/// message that is an object, who it is from in upper case and what it
/// says, and an empty line behind it unless it is the last of `msgs` and
/// nothing follows, as `follows` says.
pub open spec fn message_lines(msgs: Seq<Json>, from: int, follows: bool) -> Seq<Seq<char>>
    decreases msgs.len() - from,
{
    if from < 0 || from >= msgs.len() {
        Seq::empty()
    } else {
        (match msgs[from] {
            Json::Dict(m) => if from + 1 < msgs.len() || follows {
                seq![uppercased(role_of(m)) + seq!['\n'] + content_of(m), Seq::empty()]
            } else {
                seq![uppercased(role_of(m)) + seq!['\n'] + content_of(m)]
            },
            _ => Seq::empty(),
        }) + message_lines(msgs, from + 1, follows)
    }
}

/// The lines of a transcript: the messages, where `messages` is a list,
/// and the answer, where `assistant` is a string, between two rules.
pub open spec fn transcript_lines(messages: Json, assistant: Option<Json>) -> Seq<Seq<char>> {
    seq![transcript_head()] + (match messages {
        Json::List(a) => message_lines(a, 0, assistant is Some),
        _ => Seq::empty(),
    }) + (match assistant {
        Some(Json::Text(raw)) => seq!["ASSISTANT\n"@ + raw],
        _ => Seq::empty(),
    }) + seq![transcript_foot()]
}

/// A transcript of a chat as one text.
pub open spec fn transcript(messages: Json, assistant: Option<Json>) -> Seq<char> {
    join_all(transcript_lines(messages, assistant), seq!['\n'])
}

/// The lines that say what each name of a round of a `for` was set to.
pub open spec fn binding_lines(items: Seq<(Seq<char>, Json)>) -> Seq<Seq<char>> {
    Seq::new(
        items.len(),
        |i: int|
            "  For loop: "@ + items[i].0 + " set to "@ + preview_of(
                json_text(items[i].1),
                PREVIEW_SHORT as nat,
            ) + "."@,
    )
}

/// The lines of the entry for `event` behind its first line: what a round
/// of a `for` bound, and the transcript of a chat that failed or ended.
pub open spec fn more_lines(event: Seq<char>, f: Seq<(Seq<char>, Json)>) -> Seq<Seq<char>> {
    if event == "for_iteration"@ {
        match dict_get(f, "items"@) {
            Some(Json::Dict(items)) => binding_lines(items),
            _ => Seq::empty(),
        }
    } else if event == "chat_error"@ {
        match dict_get(f, "messages"@) {
            Some(m) => seq![transcript(m, None)],
            None => Seq::empty(),
        }
    } else if event == "chat_done"@ {
        match dict_get(f, "messages"@) {
            Some(m) => seq![transcript(m, dict_get(f, "assistant_raw"@))],
            None => if dict_get(f, "assistant_raw"@) is Some {
                seq![transcript(Json::Null, dict_get(f, "assistant_raw"@))]
            } else {
                Seq::empty()
            },
        }
    } else {
        Seq::empty()
    }
}

/// The entry for `event` with the fields `f` at the time `ts`: its lines
/// one below the other; nothing for an event that is not recorded.
pub open spec fn event_text(event: Seq<char>, f: Seq<(Seq<char>, Json)>, ts: Seq<char>) -> Option<
    Seq<char>,
> {
    match first_line(event, f, ts) {
        Some(l) => Some(join_all(seq![l] + more_lines(event, f), seq!['\n'])),
        None => None,
    }
}

/// The texts of `parts` with `between` between neighbours.
pub fn join_texts(parts: &Vec<String>, between: &str) -> (r: String)
    ensures
        r@ == join_all(texts_of(parts@), between@),
{
    let ghost texts = texts_of(parts@);
    let sep = chars_of(between);
    let mut out: Vec<char> = Vec::new();
    let mut i: usize = 0;
    assert(texts.take(0) =~= Seq::<Seq<char>>::empty());
    while i < parts.len()
        invariant
            i <= parts.len(),
            sep@ == between@,
            texts == texts_of(parts@),
            out@ == join_all(texts.take(i as int), between@),
        decreases parts.len() - i,
    {
        let ghost before = out@;
        if i > 0 {
            append_chars(&mut out, &sep);
        }
        append_chars(&mut out, &chars_of(parts[i].as_str()));
        proof {
            let next = texts.take(i + 1);
            assert(next.drop_last() =~= texts.take(i as int));
            assert(next.last() == parts[i as int]@);
            if i == 0 {
                assert(before =~= Seq::<char>::empty());
                assert(out@ =~= next[0]);
            } else {
                assert(out@ =~= before + between@ + next.last());
            }
        }
        i += 1;
    }
    assert(texts.take(texts.len() as int) =~= texts);
    string_of(&out)
}

/// Adds `s` to `out`.
fn put(out: &mut Vec<char>, s: &str)
    ensures
        final(out)@ == old(out)@ + s@,
{
    append_chars(out, &chars_of(s));
}

/// Adds what field `key` says to `out`.
fn put_field(out: &mut Vec<char>, fields: &Object, key: &str)
    ensures
        final(out)@ == old(out)@ + field_text(fields@, key@),
{
    match fields.get(key) {
        Some(Value::String(s)) => {
            append_chars(out, &chars_of(s.as_str()));
        },
        Some(v) => {
            push_json(out, v);
        },
        None => {
            assert(out@ =~= old(out)@ + Seq::<char>::empty());
        },
    }
}

/// Adds the whole number in field `key`, or `default`, to `out`.
fn put_int(out: &mut Vec<char>, fields: &Object, key: &str, default: i64)
    ensures
        final(out)@ == old(out)@ + int_text(field_int(fields@, key@, default as int)),
{
    match fields.get(key) {
        Some(Value::Number(Number::Int(i))) => {
            push_int(out, *i);
        },
        _ => {
            push_int(out, default);
        },
    }
}

/// The truth value in field `key`, or `default`.
fn flag(fields: &Object, key: &str, default: bool) -> (r: bool)
    ensures
        r == field_flag(fields@, key@, default),
{
    match fields.get(key) {
        Some(Value::Bool(b)) => *b,
        _ => default,
    }
}

/// Adds the truth value in field `key`, or `default`, to `out`.
fn put_flag(out: &mut Vec<char>, fields: &Object, key: &str, default: bool)
    ensures
        final(out)@ == old(out)@ + flag_text(field_flag(fields@, key@, default)),
{
    if flag(fields, key, default) {
        put(out, "true");
    } else {
        put(out, "false");
    }
}

/// Adds a short preview of field `key` to `out`.
fn put_quoted(out: &mut Vec<char>, fields: &Object, key: &str)
    ensures
        final(out)@ == old(out)@ + field_quoted(fields@, key@),
{
    match fields.get(key) {
        Some(v) => {
            let p = preview_value(v, PREVIEW_SHORT);
            append_chars(out, &chars_of(p.as_str()));
        },
        None => {
            put(out, "\"\"");
        },
    }
}

/// What field `key` says.
fn text_of_field(fields: &Object, key: &str) -> (r: Vec<char>)
    ensures
        r@ == field_text(fields@, key@),
{
    let mut out: Vec<char> = Vec::new();
    put_field(&mut out, fields, key);
    assert(out@ =~= field_text(fields@, key@));
    out
}

/// Adds the arrow to the insert that the entry names to `out`.
fn put_arrow(out: &mut Vec<char>, fields: &Object)
    ensures
        final(out)@ == old(out)@ + arrow(fields@),
{
    let name = text_of_field(fields, "output_name");
    if name.len() == 0 {
        assert(out@ =~= old(out)@ + Seq::<char>::empty());
    } else {
        let ghost before = out@;
        put(out, " -> ");
        append_chars(out, &name);
        assert(out@ =~= before + (" -> "@ + name@));
    }
}

/// Adds what the task of the entry is called to `out`.
fn put_task_name(out: &mut Vec<char>, fields: &Object)
    ensures
        final(out)@ == old(out)@ + task_name(fields@),
{
    if fields.contains_key("label") {
        put_field(out, fields, "label");
    } else if fields.contains_key("runtime_label") {
        put_field(out, fields, "runtime_label");
    } else {
        put(out, "task");
    }
}

/// The beginning of an entry at the time `ts`.
fn stamped(ts: &str) -> (out: Vec<char>)
    ensures
        out@ == stamp(ts@),
{
    let mut out: Vec<char> = Vec::new();
    out.push('[');
    append_chars(&mut out, &chars_of(ts));
    put(&mut out, "] ");
    assert(out@ =~= stamp(ts@));
    out
}

/// Writes an entry that says `words` and no more.
fn write_plain(ts: &str, words: &str) -> (r: String)
    ensures
        r@ == plain_line(ts@, words@),
{
    let mut out = stamped(ts);
    put(&mut out, words);
    string_of(&out)
}

/// Writes the entry for the start of a program.
fn write_program_start(fields: &Object, ts: &str) -> (r: String)
    ensures
        r@ == program_start_line(fields@, ts@),
{
    let mut out = stamped(ts);
    put(&mut out, "Program start: ");
    put_field(&mut out, fields, "program");
    put(&mut out, " (order_len=");
    put_int(&mut out, fields, "order_len", 0);
    put(&mut out, ", agent_mode=");
    put_flag(&mut out, fields, "agent_mode", false);
    put(&mut out, ")");
    string_of(&out)
}

/// Writes the entry for the start of a task.
fn write_task_start(fields: &Object, ts: &str) -> (r: String)
    ensures
        r@ == task_start_line(fields@, ts@),
{
    let preview = text_of_field(fields, "preview");
    let mut out = stamped(ts);
    put(&mut out, "Order Item ");
    put_task_name(&mut out, fields);
    if preview.len() == 0 {
        put(&mut out, ".");
    } else {
        put(&mut out, ": ");
        append_chars(&mut out, &preview);
    }
    string_of(&out)
}

/// Writes the entry for a line that the user typed.
fn write_user_input(fields: &Object, ts: &str) -> (r: String)
    ensures
        r@ == user_input_line(fields@, ts@),
{
    let mut out = stamped(ts);
    put(&mut out, "User entered ");
    put_quoted(&mut out, fields, "value");
    put_arrow(&mut out, fields);
    put(&mut out, ".");
    string_of(&out)
}

/// Writes the entry for a choice.
fn write_choice(fields: &Object, ts: &str, words: &str) -> (r: String)
    ensures
        r@ == choice_line(fields@, ts@, words@),
{
    let mut out = stamped(ts);
    put(&mut out, words);
    put_quoted(&mut out, fields, "choice");
    put(&mut out, " (index ");
    put_int(&mut out, fields, "index", -1);
    put(&mut out, ")");
    put_arrow(&mut out, fields);
    put(&mut out, ".");
    string_of(&out)
}

/// Writes the entry for a `goto`.
fn write_goto(fields: &Object, ts: &str) -> (r: String)
    ensures
        r@ == goto_line(fields@, ts@),
{
    let mut out = stamped(ts);
    put(&mut out, "goto -> ");
    put_field(&mut out, fields, "target");
    put(&mut out, ".");
    string_of(&out)
}

/// Writes the entry for a `goto_map`.
fn write_goto_map(fields: &Object, ts: &str) -> (r: String)
    ensures
        r@ == goto_map_line(fields@, ts@),
{
    let mut out = stamped(ts);
    if flag(fields, "interpolation_error", false) {
        put(&mut out, "goto_map value could not be resolved (NULL), proceeding to ");
        put_field(&mut out, fields, "target");
        put(&mut out, ".");
    } else {
        put(&mut out, "goto_map value is ");
        put_field(&mut out, fields, "value");
        put(&mut out, ", proceeding to ");
        put_field(&mut out, fields, "target");
        put(&mut out, ".");
    }
    string_of(&out)
}

/// Writes the entry for a `replace_map`.
fn write_replace_map(fields: &Object, ts: &str) -> (r: String)
    ensures
        r@ == replace_map_line(fields@, ts@),
{
    let item = text_of_field(fields, "item_preview");
    let mut out = stamped(ts);
    put(&mut out, "replace_map -> ");
    put_field(&mut out, fields, "output_name");
    put(&mut out, " (repeat_until_done=");
    put_flag(&mut out, fields, "repeat_until_done", false);
    put(&mut out, ", maps=");
    put_int(&mut out, fields, "maps", 0);
    if item.len() == 0 {
        put(&mut out, ").");
    } else {
        put(&mut out, ", item=");
        append_chars(&mut out, &item);
        put(&mut out, ").");
    }
    string_of(&out)
}

/// Writes the entry for a round of a `for`.
fn write_for(fields: &Object, ts: &str) -> (r: String)
    ensures
        r@ == for_line(fields@, ts@),
{
    let mut out = stamped(ts);
    put(&mut out, "For loop starting iteration ");
    put_int(&mut out, fields, "iteration", 0);
    put(&mut out, ".");
    string_of(&out)
}

/// A long preview of the keys that the entry names.
fn keys_of(fields: &Object) -> (r: Vec<char>)
    ensures
        r@ == keys_preview(fields@),
{
    match fields.get("keys") {
        Some(v) => chars_of(preview_value(v, PREVIEW_LONG).as_str()),
        None => Vec::new(),
    }
}

/// Writes the entry for the command `event`, which deleted inserts.
fn write_delete(fields: &Object, ts: &str, event: &str) -> (r: String)
    ensures
        r@ == delete_line(fields@, ts@, event@),
{
    let keys = keys_of(fields);
    let mut out = stamped(ts);
    put(&mut out, event);
    put(&mut out, ": ");
    put_int(&mut out, fields, "count", 0);
    if keys.len() == 0 {
        put(&mut out, " keys.");
    } else {
        put(&mut out, " keys ");
        append_chars(&mut out, &keys);
        put(&mut out, ".");
    }
    string_of(&out)
}

/// Writes the entry for a `math`.
fn write_math(fields: &Object, ts: &str) -> (r: String)
    ensures
        r@ == math_line(fields@, ts@),
{
    let input = text_of_field(fields, "input");
    let expression = text_of_field(fields, "expression");
    let mut out = stamped(ts);
    put(&mut out, "Math: ");
    append_chars(&mut out, &input);
    put(&mut out, " => ");
    if expression.len() != 0 && !same_chars(&expression, &input) {
        append_chars(&mut out, &expression);
        put(&mut out, " => ");
    }
    put_field(&mut out, fields, "result");
    put(&mut out, ".");
    string_of(&out)
}

/// Writes the entry for a `write`.
fn write_write(fields: &Object, ts: &str) -> (r: String)
    ensures
        r@ == write_line(fields@, ts@),
{
    let mut out = stamped(ts);
    put(&mut out, "write: '");
    put_field(&mut out, fields, "path");
    put(&mut out, "' (");
    put_int(&mut out, fields, "bytes", 0);
    put(&mut out, " bytes).");
    string_of(&out)
}

/// Writes the entry for a `speak`.
fn write_speak(fields: &Object, ts: &str) -> (r: String)
    ensures
        r@ == speak_line(fields@, ts@),
{
    let mut out = stamped(ts);
    put(&mut out, "speak: voice_path='");
    put_field(&mut out, fields, "voice_path");
    put(&mut out, "' text_len=");
    put_int(&mut out, fields, "text_len", 0);
    put(&mut out, ".");
    string_of(&out)
}

/// Writes the entry for the start of a chat.
fn write_chat_start(fields: &Object, ts: &str) -> (r: String)
    ensures
        r@ == chat_start_line(fields@, ts@),
{
    let mut out = stamped(ts);
    put(&mut out, "Chat start: ");
    put_field(&mut out, fields, "output_name");
    put(&mut out, " (messages=");
    put_int(&mut out, fields, "messages", 0);
    put(&mut out, ").");
    string_of(&out)
}

/// Writes the entry for a chat that failed.
fn write_chat_error(fields: &Object, ts: &str) -> (r: String)
    ensures
        r@ == chat_error_line(fields@, ts@),
{
    let mut out = stamped(ts);
    put(&mut out, "Chat error: ");
    put_field(&mut out, fields, "output_name");
    put(&mut out, " (");
    put_field(&mut out, fields, "error");
    put(&mut out, ").");
    string_of(&out)
}

/// Writes the entry for a chat that ended.
fn write_chat_done(fields: &Object, ts: &str) -> (r: String)
    ensures
        r@ == chat_done_line(fields@, ts@),
{
    let mut out = stamped(ts);
    put(&mut out, "Chat done: ");
    put_field(&mut out, fields, "output_name");
    put(&mut out, " (outputs=");
    put_int(&mut out, fields, "outputs", 0);
    put(&mut out, ", visual_len=");
    put_int(&mut out, fields, "visual_len", 0);
    put(&mut out, ").");
    string_of(&out)
}

/// Writes the entry for a state that was saved or loaded.
fn write_slot(fields: &Object, ts: &str, words: &str) -> (r: String)
    ensures
        r@ == slot_line(fields@, ts@, words@),
{
    let mut out = stamped(ts);
    put(&mut out, words);
    put_int(&mut out, fields, "slot", 0);
    put(&mut out, " ('");
    put_field(&mut out, fields, "label");
    put(&mut out, "').");
    string_of(&out)
}

/// The first line of the entry for `event`.
fn write_first_line(event: &str, fields: &Object, ts: &str) -> (r: Option<String>)
    ensures
        match r {
            Some(l) => first_line(event@, fields@, ts@) == Some(l@),
            None => first_line(event@, fields@, ts@) is None,
        },
{
    if same_text(event, "program_end") {
        if flag(fields, "success", true) {
            None
        } else {
            Some(write_plain(ts, "Program ended with error."))
        }
    } else if same_text(event, "program_start") {
        Some(write_program_start(fields, ts))
    } else if same_text(event, "program_complete") {
        Some(write_plain(ts, "Reached end of order list."))
    } else if same_text(event, "program_terminated") {
        Some(write_plain(ts, "Terminated by user."))
    } else if same_text(event, "task_start") {
        Some(write_task_start(fields, ts))
    } else if same_text(event, "user_input") {
        Some(write_user_input(fields, ts))
    } else if same_text(event, "user_choice") {
        Some(write_choice(fields, ts, "User selected "))
    } else if same_text(event, "random_choice") {
        Some(write_choice(fields, ts, "Random choice "))
    } else if same_text(event, "goto") {
        Some(write_goto(fields, ts))
    } else if same_text(event, "goto_map") {
        Some(write_goto_map(fields, ts))
    } else if same_text(event, "replace_map") {
        Some(write_replace_map(fields, ts))
    } else if same_text(event, "for_iteration") {
        Some(write_for(fields, ts))
    } else if same_text(event, "delete") {
        Some(write_delete(fields, ts, "delete"))
    } else if same_text(event, "delete_except") {
        Some(write_delete(fields, ts, "delete_except"))
    } else if same_text(event, "math") {
        Some(write_math(fields, ts))
    } else if same_text(event, "write") {
        Some(write_write(fields, ts))
    } else if same_text(event, "speak") {
        Some(write_speak(fields, ts))
    } else if same_text(event, "chat_start") {
        Some(write_chat_start(fields, ts))
    } else if same_text(event, "chat_error") {
        Some(write_chat_error(fields, ts))
    } else if same_text(event, "chat_done") {
        Some(write_chat_done(fields, ts))
    } else if same_text(event, "menu_save") {
        Some(write_slot(fields, ts, "Saved slot "))
    } else if same_text(event, "menu_load") {
        Some(write_slot(fields, ts, "Loaded slot "))
    } else if same_text(event, "menu_reload") {
        Some(write_plain(ts, "Reloaded and restarted program."))
    } else if same_text(event, "menu_quit") {
        Some(write_plain(ts, "Quit requested from menu."))
    } else {
        None
    }
}

/// The lines of a transcript, added to `lines`.
fn push_transcript_lines(lines: &mut Vec<String>, messages: &Value, assistant: Option<&Value>)
    ensures
        texts_of(final(lines)@) == texts_of(old(lines)@) + transcript_lines(
            messages@,
            match assistant {
                Some(v) => Some(v@),
                None => None,
            },
        ),
{
    let ghost base = texts_of(lines@);
    let ghost reply = match assistant {
        Some(v) => Some(v@),
        None => None,
    };
    let follows = assistant.is_some();
    lines.push("----------------------------MESSAGES--------------------------".to_owned());
    assert(texts_of(lines@) =~= base + seq![transcript_head()]);
    let ghost said: Seq<Seq<char>> = Seq::empty();
    match messages {
        Value::Array(a) => {
            let ghost msgs = list_view(a@);
            proof {
                lemma_list_view(a@);
            }
            let mut i: usize = 0;
            let ghost mut done: Seq<Seq<char>> = Seq::empty();
            assert(base + seq![transcript_head()] + done =~= base + seq![transcript_head()]);
            while i < a.len()
                invariant
                    i <= a.len(),
                    msgs == list_view(a@),
                    msgs.len() == a@.len(),
                    forall|k: int| 0 <= k < msgs.len() ==> msgs[k] == a@[k]@,
                    texts_of(lines@) == base + seq![transcript_head()] + done,
                    message_lines(msgs, 0, follows) == done + message_lines(msgs, i as int, follows),
                decreases a.len() - i,
            {
                let ghost before = texts_of(lines@);
                let ghost piece: Seq<Seq<char>> = match msgs[i as int] {
                    Json::Dict(m) => if i + 1 < msgs.len() || follows {
                        seq![uppercased(role_of(m)) + seq!['\n'] + content_of(m), Seq::empty()]
                    } else {
                        seq![uppercased(role_of(m)) + seq!['\n'] + content_of(m)]
                    },
                    _ => Seq::empty(),
                };
                match &a[i] {
                    Value::Object(m) => {
                        let role = match m.get("role") {
                            Some(Value::String(r)) => to_upper(r.as_str()),
                            _ => to_upper("user"),
                        };
                        let mut entry = chars_of(role.as_str());
                        entry.push('\n');
                        match m.get("content") {
                            Some(Value::String(c)) => {
                                append_chars(&mut entry, &chars_of(c.as_str()));
                            },
                            _ => {},
                        }
                        assert(entry@ =~= uppercased(role_of(m@)) + seq!['\n'] + content_of(m@));
                        lines.push(string_of(&entry));
                        if i + 1 < a.len() || follows {
                            lines.push(String::new());
                        }
                    },
                    _ => {},
                }
                proof {
                    assert(texts_of(lines@) =~= before + piece);
                    assert(base + seq![transcript_head()] + done + piece =~= base + seq![
                        transcript_head(),
                    ] + (done + piece));
                    assert(done + (piece + message_lines(msgs, i + 1, follows)) =~= (done + piece)
                        + message_lines(msgs, i + 1, follows));
                    done = done + piece;
                }
                i += 1;
            }
            proof {
                assert(message_lines(msgs, a.len() as int, follows) =~= Seq::<Seq<char>>::empty());
                assert(done + Seq::<Seq<char>>::empty() =~= done);
                assert(messages@ == Json::List(msgs));
                said = done;
            }
        },
        _ => {
            assert(!(messages@ is List));
            assert(base + seq![transcript_head()] + Seq::<Seq<char>>::empty() =~= base + seq![
                transcript_head(),
            ]);
        },
    }
    assert(texts_of(lines@) == base + seq![transcript_head()] + said);
    assert(said == match messages@ {
        Json::List(a) => message_lines(a, 0, reply is Some),
        _ => Seq::<Seq<char>>::empty(),
    });
    let ghost middle = texts_of(lines@);
    let ghost answer: Seq<Seq<char>> = match reply {
        Some(Json::Text(raw)) => seq!["ASSISTANT\n"@ + raw],
        _ => Seq::empty(),
    };
    match assistant {
        Some(Value::String(raw)) => {
            let mut entry = chars_of("ASSISTANT\n");
            append_chars(&mut entry, &chars_of(raw.as_str()));
            lines.push(string_of(&entry));
        },
        _ => {},
    }
    assert(texts_of(lines@) =~= middle + answer);
    lines.push("--------------------------------------------------------------".to_owned());
    assert(texts_of(lines@) =~= middle + answer + seq![transcript_foot()]);
    assert(base + transcript_lines(messages@, reply) =~= base + seq![transcript_head()] + said
        + answer + seq![transcript_foot()]);
}

/// A transcript of a chat: the messages and, where there is one, the answer.
pub fn format_chat_transcript(messages: &Value, assistant: Option<&Value>) -> (r: String)
    ensures
        r@ == transcript(
            messages@,
            match assistant {
                Some(v) => Some(v@),
                None => None,
            },
        ),
{
    let mut lines: Vec<String> = Vec::new();
    push_transcript_lines(&mut lines, messages, assistant);
    assert(texts_of(lines@) =~= transcript_lines(
        messages@,
        match assistant {
            Some(v) => Some(v@),
            None => None,
        },
    ));
    proof {
        reveal_strlit("\n");
        assert("\n"@ =~= seq!['\n']);
    }
    join_texts(&lines, "\n")
}

/// The lines that say what each name of a round of a `for` was set to,
/// added to `lines`.
fn push_binding_lines(lines: &mut Vec<String>, items: &Object)
    ensures
        texts_of(final(lines)@) == texts_of(old(lines)@) + binding_lines(items@),
{
    let ghost base = texts_of(lines@);
    let ghost all = binding_lines(items@);
    proof {
        lemma_dict_view(items.entries@);
    }
    let mut i: usize = 0;
    assert(base + all.take(0) =~= base);
    while i < items.entries.len()
        invariant
            i <= items.entries.len(),
            all == binding_lines(items@),
            items@.len() == items.entries@.len(),
            forall|k: int|
                0 <= k < items@.len() ==> items@[k] == (
                    #[trigger] items.entries@[k].0@,
                    items.entries@[k].1@,
                ),
            texts_of(lines@) == base + all.take(i as int),
        decreases items.entries.len() - i,
    {
        let ghost before = texts_of(lines@);
        let mut out = chars_of("  For loop: ");
        put(&mut out, items.entries[i].0.as_str());
        put(&mut out, " set to ");
        put(&mut out, preview_value(&items.entries[i].1, PREVIEW_SHORT).as_str());
        put(&mut out, ".");
        assert(items@[i as int] == (items.entries@[i as int].0@, items.entries@[i as int].1@));
        assert(out@ == all[i as int]);
        lines.push(string_of(&out));
        assert(texts_of(lines@) =~= before + seq![all[i as int]]);
        assert(base + all.take(i + 1) =~= base + all.take(i as int) + seq![all[i as int]]);
        i += 1;
    }
    assert(all.take(all.len() as int) =~= all);
}

/// The entry that is written for `event` with the fields `fields` at the
/// time `ts`; nothing for an event that is not recorded.
pub fn format_pretty_event(event: &str, fields: &Object, ts: &str) -> (r: Option<String>)
    ensures
        match r {
            Some(t) => event_text(event@, fields@, ts@) == Some(t@),
            None => event_text(event@, fields@, ts@) is None,
        },
{
    let first = match write_first_line(event, fields, ts) {
        Some(l) => l,
        None => {
            return None;
        },
    };
    let ghost head = first@;
    let mut lines: Vec<String> = Vec::new();
    lines.push(first);
    assert(texts_of(lines@) =~= seq![head]);
    if same_text(event, "for_iteration") {
        match fields.get("items") {
            Some(Value::Object(items)) => {
                push_binding_lines(&mut lines, items);
            },
            _ => {
                assert(seq![head] + Seq::<Seq<char>>::empty() =~= seq![head]);
            },
        }
    } else if same_text(event, "chat_error") {
        match fields.get("messages") {
            Some(m) => {
                let t = format_chat_transcript(m, None);
                lines.push(t);
                assert(texts_of(lines@) =~= seq![head] + seq![transcript(m@, None)]);
            },
            None => {
                assert(seq![head] + Seq::<Seq<char>>::empty() =~= seq![head]);
            },
        }
    } else if same_text(event, "chat_done") {
        let assistant = fields.get("assistant_raw");
        let ghost reply = dict_get(fields@, "assistant_raw"@);
        match fields.get("messages") {
            Some(m) => {
                let t = format_chat_transcript(m, assistant);
                lines.push(t);
                assert(texts_of(lines@) =~= seq![head] + seq![transcript(m@, reply)]);
            },
            None => {
                if assistant.is_some() {
                    let t = format_chat_transcript(&Value::Null, assistant);
                    lines.push(t);
                    assert(texts_of(lines@) =~= seq![head] + seq![transcript(Json::Null, reply)]);
                } else {
                    assert(seq![head] + Seq::<Seq<char>>::empty() =~= seq![head]);
                }
            },
        }
    } else {
        assert(seq![head] + Seq::<Seq<char>>::empty() =~= seq![head]);
    }
    assert(texts_of(lines@) == seq![head] + more_lines(event@, fields@));
    proof {
        reveal_strlit("\n");
        assert("\n"@ =~= seq!['\n']);
    }
    Some(join_texts(&lines, "\n"))
}

} // verus!
