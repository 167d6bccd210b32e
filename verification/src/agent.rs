//! Talking to an agent through files: what is written for it to read, and
//! how what it wrote back is understood.

use crate::text::{append_chars, chars_of, same_chars, slice_chars, string_of, trim, trim_chars};
use crate::ui::{build_choice_keys, choice_key};
use crate::value::{dict_view, lemma_dict_view, Json, Object, Value};
use vstd::prelude::*;

verus! {

/// The side of the run that an agent sees: the output so far, and the
/// files through which it is asked and answers.
pub struct AgentIo {
    pub output: String,
    pub input_path: String,
    pub output_path: String,
}

impl AgentIo {
    /// The side that an agent sees of a run that has shown nothing yet.
    pub fn new(input: String, output: String) -> (a: AgentIo)
        ensures
            a.output@ == Seq::<char>::empty(),
            a.input_path == input,
            a.output_path == output,
    {
        AgentIo { output: String::new(), input_path: input, output_path: output }
    }

    /// Appends `text` to the output.
    pub fn write(&mut self, text: String)
        ensures
            final(self).output@ == old(self).output@ + text@,
            final(self).input_path == old(self).input_path,
            final(self).output_path == old(self).output_path,
    {
        let mut out = chars_of(self.output.as_str());
        append_chars(&mut out, &chars_of(text.as_str()));
        self.output = string_of(&out);
    }

    /// Empties the output.
    pub fn clear(&mut self)
        ensures
            final(self).output@ == Seq::<char>::empty(),
            final(self).input_path == old(self).input_path,
            final(self).output_path == old(self).output_path,
    {
        self.output = String::new();
    }

    /// Replaces the output.
    pub fn set_output(&mut self, text: String)
        ensures
            final(self).output == text,
            final(self).input_path == old(self).input_path,
            final(self).output_path == old(self).output_path,
    {
        self.output = text;
    }
}

/// What asks the agent for a line of text.
pub open spec fn input_request(output: Seq<char>, prompt: Seq<char>) -> Json {
    Json::Dict(
        seq![
            ("type"@, Json::Text("user_input"@)),
            ("output"@, Json::Text(output)),
            ("prompt"@, Json::Text(prompt)),
        ],
    )
}

/// The choices `options` under their keys.
pub open spec fn keyed_choices(options: Seq<Seq<char>>) -> Seq<(Seq<char>, Json)> {
    Seq::new(
        options.len(),
        |i: int| (choice_key(options.len(), i as nat), Json::Text(options[i])),
    )
}

/// What asks the agent to choose one of `options`.
pub open spec fn choice_request(
    output: Seq<char>,
    description: Option<Seq<char>>,
    options: Seq<Seq<char>>,
) -> Json {
    Json::Dict(
        seq![
            ("type"@, Json::Text("user_choice"@)),
            ("output"@, Json::Text(output)),
            (
                "prompt"@,
                match description {
                    Some(d) => Json::Text(d),
                    None => Json::Null,
                },
            ),
            ("choices"@, Json::Dict(keyed_choices(options))),
        ],
    )
}

fn member(key: &str, value: Value) -> (r: (String, Value))
    ensures
        r.0@ == key@,
        r.1@ == value@,
{
    (key.to_owned(), value)
}

/// What asks the agent for a line of text.
pub fn agent_input_request(output: &str, prompt: &str) -> (r: Value)
    ensures
        r@ == input_request(output@, prompt@),
{
    let mut entries: Vec<(String, Value)> = Vec::new();
    entries.push(member("type", Value::String("user_input".to_owned())));
    entries.push(member("output", Value::String(output.to_owned())));
    entries.push(member("prompt", Value::String(prompt.to_owned())));
    proof {
        lemma_dict_view(entries@);
        assert(dict_view(entries@) =~= input_request(output@, prompt@)->Dict_0);
    }
    Value::Object(Object { entries })
}

/// What asks the agent to choose one of `options`.
pub fn agent_choice_request(output: &str, description: Option<&str>, options: &Vec<String>) -> (r:
    Value)
    ensures
        r@ == choice_request(
            output@,
            match description {
                Some(d) => Some(d@),
                None => None,
            },
            crate::model::texts_of(options@),
        ),
{
    let keys = build_choice_keys(options.len());
    let mut choices: Vec<(String, Value)> = Vec::new();
    let mut i: usize = 0;
    while i < options.len()
        invariant
            i <= options.len(),
            keys@.len() == options.len(),
            forall|k: int|
                0 <= k < options.len() ==> (#[trigger] keys@[k])@ == choice_key(
                    options.len() as nat,
                    k as nat,
                ),
            choices@.len() == i,
            forall|k: int|
                0 <= k < i ==> (#[trigger] choices@[k]).0@ == choice_key(
                    options.len() as nat,
                    k as nat,
                ) && choices@[k].1@ == Json::Text(options@[k]@),
        decreases options.len() - i,
    {
        choices.push((keys[i].clone(), Value::String(options[i].clone())));
        i += 1;
    }
    proof {
        lemma_dict_view(choices@);
        assert(dict_view(choices@) =~= keyed_choices(crate::model::texts_of(options@)));
    }
    let mut entries: Vec<(String, Value)> = Vec::new();
    entries.push(member("type", Value::String("user_choice".to_owned())));
    entries.push(member("output", Value::String(output.to_owned())));
    entries.push(
        member(
            "prompt",
            match description {
                Some(d) => Value::String(d.to_owned()),
                None => Value::Null,
            },
        ),
    );
    entries.push(member("choices", Value::Object(Object { entries: choices })));
    proof {
        lemma_dict_view(entries@);
        assert(dict_view(entries@) =~= choice_request(
            output@,
            match description {
                Some(d) => Some(d@),
                None => None,
            },
            crate::model::texts_of(options@),
        )->Dict_0);
    }
    Value::Object(Object { entries })
}

/// `s` without the line feeds at its end.
pub open spec fn without_trailing_feeds(s: Seq<char>) -> Seq<char>
    decreases s.len(),
{
    if s.len() > 0 && s[s.len() - 1] == '\n' {
        without_trailing_feeds(s.take(s.len() - 1))
    } else {
        s
    }
}

/// The line that the agent answered with: `data` without the line feeds at its end.
pub fn agent_answer(data: &str) -> (r: String)
    ensures
        r@ == without_trailing_feeds(data@),
{
    let c = chars_of(data);
    let mut end: usize = c.len();
    assert(c@.take(end as int) == c@);
    while end > 0 && c[end - 1] == '\n'
        invariant
            end <= c.len(),
            without_trailing_feeds(c@) == without_trailing_feeds(c@.take(end as int)),
        decreases end,
    {
        assert(c@.take(end as int).take(end - 1) == c@.take(end - 1));
        end -= 1;
    }
    let r = slice_chars(&c, 0, end);
    assert(r@ == c@.take(end as int));
    string_of(&r)
}

/// The place of the first text of `list` at or after `from` that is `x`, or `list.len()`.
pub open spec fn text_position(list: Seq<Seq<char>>, x: Seq<char>, from: int) -> int
    decreases list.len() - from,
{
    if from < 0 || from >= list.len() {
        list.len() as int
    } else if list[from] == x {
        from
    } else {
        text_position(list, x, from + 1)
    }
}

/// The keys of `n` choices, in order.
pub open spec fn choice_keys(n: nat) -> Seq<Seq<char>> {
    Seq::new(n, |i: int| choice_key(n, i as nat))
}

/// The choice that the answer `data` of the agent means: the one whose key
/// the answer is, else the one that the answer is; white space around the
/// answer does not count.
pub open spec fn chosen_option(options: Seq<Seq<char>>, data: Seq<char>) -> Option<int> {
    let answer = trim(data);
    let by_key = text_position(choice_keys(options.len()), answer, 0);
    let by_text = text_position(options, answer, 0);
    if by_key < options.len() {
        Some(by_key)
    } else if by_text < options.len() {
        Some(by_text)
    } else {
        None
    }
}

fn position_of(list: &Vec<String>, x: &Vec<char>) -> (r: usize)
    ensures
        r == text_position(crate::model::texts_of(list@), x@, 0),
        r <= list.len(),
{
    let ghost texts = crate::model::texts_of(list@);
    let mut i: usize = 0;
    while i < list.len()
        invariant
            i <= list.len(),
            texts == crate::model::texts_of(list@),
            text_position(texts, x@, 0) == text_position(texts, x@, i as int),
        decreases list.len() - i,
    {
        let c = chars_of(list[i].as_str());
        if same_chars(&c, x) {
            return i;
        }
        i += 1;
    }
    i
}

/// The choice that the answer `data` of the agent means, if it means one.
pub fn agent_choice(options: &Vec<String>, data: &str) -> (r: Option<usize>)
    ensures
        match r {
            Some(i) => chosen_option(crate::model::texts_of(options@), data@) == Some(i as int)
                && i < options.len(),
            None => chosen_option(crate::model::texts_of(options@), data@) is None,
        },
{
    let answer = trim_chars(&chars_of(data));
    let keys = build_choice_keys(options.len());
    assert(crate::model::texts_of(keys@) =~= choice_keys(options.len() as nat));
    let by_key = position_of(&keys, &answer);
    if by_key < options.len() {
        return Some(by_key);
    }
    let by_text = position_of(options, &answer);
    if by_text < options.len() {
        return Some(by_text);
    }
    None
}

} // verus!
