//! Short forms of texts and values for the record of a run.

use crate::interp::text_field;
use crate::model::Task;
use crate::text::{append_chars, chars_of, slice_chars, string_of};
use crate::value::{dict_get, int_text, json_text, lemma_dict_view, push_int, Json, Number, Value};
use vstd::prelude::*;

verus! {

/// The most characters of a short preview.
pub const PREVIEW_SHORT: usize = 80;

/// The most characters of a long preview.
pub const PREVIEW_LONG: usize = 140;

/// `text` in `max_len` characters at most: as it is where it fits, else
/// its beginning and its end with `[...]` between them.
pub open spec fn preview_of(text: Seq<char>, max_len: nat) -> Seq<char> {
    if text.len() <= max_len {
        text
    } else {
        let room = if max_len >= 5 {
            (max_len - 5) as nat
        } else {
            0
        };
        let head = room / 2;
        let tail = (room - head) as nat;
        text.take(head as int) + "[...]"@ + text.skip(text.len() - tail)
    }
}

/// `text` in `max_len` characters at most.
pub fn preview_text(text: &str, max_len: usize) -> (r: String)
    ensures
        r@ == preview_of(text@, max_len as nat),
{
    let c = chars_of(text);
    if c.len() <= max_len {
        return string_of(&c);
    }
    let room: usize = if max_len >= 5 {
        max_len - 5
    } else {
        0
    };
    let head = room / 2;
    let tail = room - head;
    let mut out = slice_chars(&c, 0, head);
    append_chars(&mut out, &chars_of("[...]"));
    append_chars(&mut out, &slice_chars(&c, c.len() - tail, c.len()));
    string_of(&out)
}

/// `value` as JSON in `max_len` characters at most.
pub fn preview_value(value: &Value, max_len: usize) -> (r: String)
    ensures
        r@ == preview_of(json_text(value@), max_len as nat),
{
    let raw = crate::value::to_json_string(value);
    preview_text(raw.as_str(), max_len)
}

/// The fields of the members of `d` from `from` on as `key=value`, with a
/// comma and a space between them; the label of the task is left out.
pub open spec fn fields_preview(d: Seq<(Seq<char>, Json)>, from: int, any: bool) -> Seq<char>
    decreases d.len() - from,
{
    if from < 0 || from >= d.len() {
        Seq::empty()
    } else if d[from].0 == "traceback_label"@ {
        fields_preview(d, from + 1, any)
    } else {
        (if any {
            ", "@
        } else {
            Seq::empty()
        }) + d[from].0 + seq!['='] + preview_of(json_text(d[from].1), PREVIEW_LONG as nat)
            + fields_preview(d, from + 1, true)
    }
}

/// The fields of `task` in short.
pub fn task_preview(task: &Task) -> (r: String)
    ensures
        r@ == fields_preview(task@, 0, false),
{
    proof {
        lemma_dict_view(task.entries@);
    }
    let mut out: Vec<char> = Vec::new();
    let mut any = false;
    let mut i: usize = 0;
    while i < task.entries.len()
        invariant
            i <= task.entries.len(),
            task@.len() == task.entries@.len(),
            forall|k: int|
                0 <= k < task@.len() ==> task@[k] == (task.entries@[k].0@, task.entries@[k].1@),
            fields_preview(task@, 0, false) == out@ + fields_preview(task@, i as int, any),
        decreases task.entries.len() - i,
    {
        if !crate::text::same_text(task.entries[i].0.as_str(), "traceback_label") {
            let ghost before = out@;
            if any {
                append_chars(&mut out, &chars_of(", "));
            }
            append_chars(&mut out, &chars_of(task.entries[i].0.as_str()));
            out.push('=');
            let p = preview_value(&task.entries[i].1, PREVIEW_LONG);
            append_chars(&mut out, &chars_of(p.as_str()));
            proof {
                let piece = (if any {
                    ", "@
                } else {
                    Seq::empty()
                }) + task@[i as int].0 + seq!['='] + preview_of(
                    json_text(task@[i as int].1),
                    PREVIEW_LONG as nat,
                );
                assert(out@ =~= before + piece);
                assert(before + (piece + fields_preview(task@, i + 1, true)) =~= before + piece
                    + fields_preview(task@, i + 1, true));
            }
            any = true;
        }
        i += 1;
    }
    assert(out@ + Seq::<char>::empty() =~= out@);
    string_of(&out)
}

/// The label of `task` in the record: its command and its line, else the
/// label that it runs under, else its command.
pub open spec fn log_label(task: Seq<(Seq<char>, Json)>, runtime_label: Seq<char>) -> Seq<char> {
    let cmd = match text_field(task, "cmd"@) {
        Some(c) => c,
        None => "task"@,
    };
    match dict_get(task, "line"@) {
        Some(Json::Int(line)) => cmd + seq![':'] + int_text(line),
        _ => if runtime_label.len() == 0 {
            cmd
        } else {
            runtime_label
        },
    }
}

/// The label of `task` in the record.
pub fn task_log_label(task: &Task, runtime_label: &str) -> (r: String)
    ensures
        r@ == log_label(task@, runtime_label@),
{
    let mut cmd = match task.get("cmd") {
        Some(Value::String(c)) => chars_of(c.as_str()),
        _ => chars_of("task"),
    };
    match task.get("line") {
        Some(Value::Number(Number::Int(line))) => {
            cmd.push(':');
            push_int(&mut cmd, *line);
            string_of(&cmd)
        },
        _ => {
            if runtime_label.unicode_len() == 0 {
                string_of(&cmd)
            } else {
                runtime_label.to_owned()
            }
        },
    }
}

} // verus!
