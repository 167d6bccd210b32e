//! What is handed to the voice: text comes in as it streams, and goes out
//! line by line, a line being what ends in a line feed or in the end of a
//! sentence.

use crate::text::{
    append_chars, chars_of, find_from, first_from, occurs_at_index, slice_chars, string_of, trim,
    trim_chars,
};
use crate::value::{dict_get, Json, Number, Value};
use vstd::prelude::*;

verus! {

/// A character that ends a sentence.
pub open spec fn ends_sentence(c: char) -> bool {
    c == '.' || c == '!' || c == '?'
}

/// The place behind the last character among the first `upto` of `s` that
/// ends a sentence; 0 where none does.
pub open spec fn sentence_end(s: Seq<char>, upto: int) -> int
    decreases upto,
{
    if upto <= 0 || upto > s.len() {
        0
    } else if ends_sentence(s[upto - 1]) {
        upto
    } else {
        sentence_end(s, upto - 1)
    }
}

/// The place behind the last character of `text` that ends a sentence.
pub fn last_sentence_end(text: &Vec<char>) -> (r: Option<usize>)
    ensures
        match r {
            Some(i) => i == sentence_end(text@, text@.len() as int) && 0 < i <= text.len(),
            None => sentence_end(text@, text@.len() as int) == 0,
        },
{
    let mut i: usize = text.len();
    while i > 0
        invariant
            i <= text.len(),
            sentence_end(text@, text@.len() as int) == sentence_end(text@, i as int),
        decreases i,
    {
        let c = text[i - 1];
        if c == '.' || c == '!' || c == '?' {
            return Some(i);
        }
        i -= 1;
    }
    None
}

/// `acc` with the text `line` behind it, trimmed, unless nothing is left of it.
pub open spec fn with_line(acc: Seq<Seq<char>>, line: Seq<char>) -> Seq<Seq<char>> {
    if trim(line).len() > 0 {
        acc.push(trim(line))
    } else {
        acc
    }
}

/// What is said and what is held back when the lines of `buf` that end in
/// a line feed are said.
pub open spec fn said_lines(buf: Seq<char>, acc: Seq<Seq<char>>) -> (Seq<Seq<char>>, Seq<char>)
    decreases buf.len(),
{
    let end = first_from(buf, '\n', 0);
    if end < 0 || end >= buf.len() {
        (acc, buf)
    } else {
        said_lines(buf.skip(end + 1), with_line(acc, buf.take(end)))
    }
}

/// What is said and what is held back of the text `buf`: its full lines
/// are said, then all of the rest where `force` holds, else the rest up to
/// the end of its last sentence.
pub open spec fn said(buf: Seq<char>, force: bool) -> (Seq<Seq<char>>, Seq<char>) {
    let (lines, rest) = said_lines(buf, Seq::empty());
    if force {
        (with_line(lines, rest), Seq::empty())
    } else {
        let end = sentence_end(rest, rest.len() as int);
        if end > 0 {
            (with_line(lines, rest.take(end)), rest.skip(end))
        } else {
            (lines, rest)
        }
    }
}

/// Text on its way to the voice.
pub struct SentenceBuffer {
    pub buffer: Vec<char>,
}

impl View for SentenceBuffer {
    type V = Seq<char>;

    open spec fn view(&self) -> Seq<char> {
        self.buffer@
    }
}

fn push_line(lines: &mut Vec<String>, line: &Vec<char>)
    ensures
        crate::model::texts_of(final(lines)@) == with_line(
            crate::model::texts_of(old(lines)@),
            line@,
        ),
{
    let t = trim_chars(line);
    if t.len() > 0 {
        let ghost before = lines@;
        lines.push(string_of(&t));
        assert(crate::model::texts_of(lines@) =~= crate::model::texts_of(before).push(t@));
    }
}

impl SentenceBuffer {
    /// A buffer that holds nothing.
    pub fn new() -> (b: SentenceBuffer)
        ensures
            b@ == Seq::<char>::empty(),
    {
        SentenceBuffer { buffer: Vec::new() }
    }

    fn flush(&mut self, force: bool) -> (lines: Vec<String>)
        ensures
            crate::model::texts_of(lines@) == said(old(self)@, force).0,
            final(self)@ == said(old(self)@, force).1,
    {
        let mut lines: Vec<String> = Vec::new();
        let mut start: usize = 0;
        let ghost whole = self.buffer@;
        assert(whole.skip(0) == whole);
        assert(crate::model::texts_of(lines@) =~= Seq::<Seq<char>>::empty());
        loop
            invariant
                start <= self.buffer.len(),
                self.buffer@ == whole,
                said_lines(whole, Seq::empty()) == said_lines(
                    whole.skip(start as int),
                    crate::model::texts_of(lines@),
                ),
            ensures
                start <= self.buffer.len(),
                self.buffer@ == whole,
                said_lines(whole, Seq::empty()) == (
                    crate::model::texts_of(lines@),
                    whole.skip(start as int),
                ),
            decreases self.buffer.len() - start,
        {
            let end = find_from(&self.buffer, '\n', start);
            let ghost rest = whole.skip(start as int);
            proof {
                crate::parser::lemma_first_from_skip(whole, '\n', start as int, start as int);
            }
            if end >= self.buffer.len() {
                break ;
            }
            let line = slice_chars(&self.buffer, start, end);
            assert(line@ == rest.take(end - start));
            assert(rest.skip(end - start + 1) == whole.skip(end + 1));
            push_line(&mut lines, &line);
            start = end + 1;
        }
        let rest = slice_chars(&self.buffer, start, self.buffer.len());
        assert(rest@ == whole.skip(start as int));
        if force {
            push_line(&mut lines, &rest);
            self.buffer = Vec::new();
            return lines;
        }
        match last_sentence_end(&rest) {
            Some(end) => {
                let line = slice_chars(&rest, 0, end);
                assert(line@ == rest@.take(end as int));
                push_line(&mut lines, &line);
                self.buffer = slice_chars(&rest, end, rest.len());
            },
            None => {
                self.buffer = rest;
            },
        }
        lines
    }

    /// Takes in `text` and returns the lines that are ready to be said.
    pub fn write(&mut self, text: &str) -> (lines: Vec<String>)
        ensures
            crate::model::texts_of(lines@) == said(old(self)@ + text@, false).0,
            final(self)@ == said(old(self)@ + text@, false).1,
    {
        append_chars(&mut self.buffer, &chars_of(text));
        self.flush(false)
    }

    /// Returns all that is left to be said.
    pub fn finish(&mut self) -> (lines: Vec<String>)
        ensures
            crate::model::texts_of(lines@) == said(old(self)@, true).0,
            final(self)@ == Seq::<char>::empty(),
    {
        self.flush(true)
    }
}

/// Whether `s` ends with `suffix`.
pub open spec fn ends_with(s: Seq<char>, suffix: Seq<char>) -> bool {
    suffix.len() <= s.len() && s.skip(s.len() - suffix.len()) == suffix
}

/// Where the settings of the voice at `voice_path` may stand, the first
/// place first: beside a voice whose name ends in `.onnx`, in a file of
/// the same name with `.json` behind it; and for any voice in a file with
/// `.onnx.json` behind its name.
pub open spec fn config_paths(voice_path: Seq<char>) -> Seq<Seq<char>> {
    if ends_with(voice_path, ".onnx"@) {
        seq![voice_path + ".json"@, voice_path + ".onnx.json"@]
    } else {
        seq![voice_path + ".onnx.json"@]
    }
}

/// Where the settings of the voice at `voice_path` may stand, the first place first.
pub fn voice_config_paths(voice_path: &str) -> (paths: Vec<String>)
    ensures
        crate::model::texts_of(paths@) == config_paths(voice_path@),
{
    let path = chars_of(voice_path);
    let suffix = chars_of(".onnx");
    let mut paths: Vec<String> = Vec::new();
    let ends = suffix.len() <= path.len() && occurs_at_index(
        &path,
        path.len() - suffix.len(),
        &suffix,
    );
    proof {
        if suffix.len() <= path.len() {
            assert(path@.skip(path.len() - suffix.len()) =~= path@.subrange(
                path.len() - suffix.len(),
                path.len() as int,
            ));
        }
    }
    if ends {
        let mut first = chars_of(voice_path);
        append_chars(&mut first, &chars_of(".json"));
        paths.push(string_of(&first));
    }
    let mut second = chars_of(voice_path);
    append_chars(&mut second, &chars_of(".onnx.json"));
    paths.push(string_of(&second));
    assert(crate::model::texts_of(paths@) =~= config_paths(voice_path@));
    paths
}

/// The sound that a voice gives: how many samples a second, on how many channels.
#[derive(Clone, Copy, Debug, PartialEq, Eq, Structural)]
pub struct AudioSettings {
    pub rate: i64,
    pub channels: i64,
}

/// The part of the settings of a voice that speaks of its sound: the
/// object `audio` in them, or the settings themselves where there is none.
pub open spec fn audio_part(config: Json) -> Json {
    match config {
        Json::Dict(d) => match dict_get(d, "audio"@) {
            Some(Json::Dict(a)) => Json::Dict(a),
            _ => config,
        },
        _ => config,
    }
}

/// The whole number that `audio` binds `key` to, or `default`.
pub open spec fn setting(audio: Json, key: Seq<char>, default: int) -> int {
    match audio {
        Json::Dict(a) => match dict_get(a, key) {
            Some(Json::Int(i)) => i,
            _ => default,
        },
        _ => default,
    }
}

/// The sound of a voice with the settings `config`: what they say of
/// `sample_rate` and `channels`; 22050 samples a second on one channel
/// where they say nothing, and where there are no settings.
pub open spec fn audio_of(config: Option<Json>) -> AudioSettings {
    match config {
        Some(c) => AudioSettings {
            rate: setting(audio_part(c), "sample_rate"@, 22050) as i64,
            channels: setting(audio_part(c), "channels"@, 1) as i64,
        },
        None => AudioSettings { rate: 22050, channels: 1 },
    }
}

/// The whole number that `audio` binds `key` to, or `default`.
fn setting_of(audio: &Value, key: &str, default: i64) -> (r: i64)
    ensures
        r == setting(audio@, key@, default as int),
{
    match audio {
        Value::Object(a) => match a.get(key) {
            Some(Value::Number(Number::Int(i))) => *i,
            _ => default,
        },
        _ => default,
    }
}

/// The sound of a voice with the settings `config`.
pub fn audio_settings(config: Option<&Value>) -> (r: AudioSettings)
    ensures
        r == audio_of(
            match config {
                Some(c) => Some(c@),
                None => None,
            },
        ),
{
    match config {
        Some(c) => {
            let audio = match c {
                Value::Object(d) => match d.get("audio") {
                    Some(Value::Object(a)) => {
                        assert(audio_part(c@) == Json::Dict(a@));
                        d.get("audio").unwrap()
                    },
                    _ => c,
                },
                _ => c,
            };
            assert(audio@ == audio_part(c@));
            AudioSettings {
                rate: setting_of(audio, "sample_rate", 22050),
                channels: setting_of(audio, "channels", 1),
            }
        },
        None => AudioSettings { rate: 22050, channels: 1 },
    }
}

} // verus!
