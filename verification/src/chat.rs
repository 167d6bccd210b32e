//! The part of a chat completion that is no input or output: the request
//! is put together, the answer is taken apart as it streams in, and the
//! outputs are cut out of it.

use crate::filter::{
    inverted_step, output_step, InvertedFilter, InvertedState, OutputFilter, OutputState,
};
use crate::text::{
    append_chars, chars_of, occurs_at, occurs_at_index, same_text, slice_chars, string_of, trim,
    trim_chars,
};
use crate::value::{
    dict_get, dict_remove, dict_set, json_text, lemma_dict_view, lemma_list_view, list_view, Json,
    Object, Value,
};

use vstd::prelude::*;

verus! {

/// All that a chat completion is asked with.
#[derive(Debug)]
pub struct ChatArgs {
    pub messages: Vec<Object>,
    pub completion_args: Object,
    pub start_str: String,
    pub stop_str: String,
    pub hide_start_str: String,
    pub hide_stop_str: String,
    pub n_outputs: i64,
    pub shown: bool,
    pub choices_list: Option<Vec<String>>,
    pub extra_body: Object,
    pub api_url: String,
    pub api_key: String,
}

/// Why a completion cannot be asked for, or its answer not be used.
#[derive(Clone, Copy, Debug, PartialEq, Eq, Structural)]
pub enum ChatError {
    /// Only one of the start and the stop marker is set.
    UnpairedMarkers,
    /// Choices are asked for together with markers.
    ChoicesWithMarkers,
    /// Choices are asked for together with more than one output.
    ChoicesWithOutputs,
    /// The answer ended because it ran out of context.
    ContextOverflow,
    /// The answer to a choice is no JSON.
    InvalidChoice,
    /// The answer to a choice holds no `choice` string.
    MissingChoice,
}

/// What a chat completion gave.
#[derive(Debug)]
pub struct ChatResult {
    pub outputs: Vec<String>,
    pub visual_output: String,
    pub raw: String,
}

/// Why `args` cannot be asked with, if they cannot.
pub open spec fn args_fault(args: ChatArgs) -> Option<ChatError> {
    if (args.start_str@.len() > 0) != (args.stop_str@.len() > 0) {
        Some(ChatError::UnpairedMarkers)
    } else if args.choices_list is Some && args.start_str@.len() > 0 {
        Some(ChatError::ChoicesWithMarkers)
    } else if args.choices_list is Some && args.n_outputs != 1 {
        Some(ChatError::ChoicesWithOutputs)
    } else {
        None
    }
}

/// Checks that the markers come as a pair and that choices come alone.
pub fn check_chat_args(args: &ChatArgs) -> (r: Result<(), ChatError>)
    ensures
        match r {
            Ok(_) => args_fault(*args) is None,
            Err(e) => args_fault(*args) == Some(e),
        },
{
    let has_start = args.start_str.as_str().unicode_len() > 0;
    let has_stop = args.stop_str.as_str().unicode_len() > 0;
    if has_start != has_stop {
        return Err(ChatError::UnpairedMarkers);
    }
    if args.choices_list.is_some() {
        if has_start {
            return Err(ChatError::ChoicesWithMarkers);
        }
        if args.n_outputs != 1 {
            return Err(ChatError::ChoicesWithOutputs);
        }
    }
    Ok(())
}

/// `s` without the slashes at its end.
pub open spec fn without_trailing_slashes(s: Seq<char>) -> Seq<char>
    decreases s.len(),
{
    if s.len() > 0 && s[s.len() - 1] == '/' {
        without_trailing_slashes(s.take(s.len() - 1))
    } else {
        s
    }
}

/// The address that completions are asked at: `api_url` without the
/// slashes at its end, then `/chat/completions`, behind `/v1` where the
/// address does not end in it already.
pub open spec fn completions_url(api_url: Seq<char>) -> Seq<char> {
    let base = without_trailing_slashes(api_url);
    if occurs_at(base, base.len() - 3, seq!['/', 'v', '1']) {
        base + "/chat/completions"@
    } else {
        base + "/v1/chat/completions"@
    }
}

/// The address that completions are asked at.
pub fn normalize_api_url(api_url: &str) -> (r: String)
    ensures
        r@ == completions_url(api_url@),
{
    let c = chars_of(api_url);
    let mut end: usize = c.len();
    assert(c@.take(end as int) == c@);
    while end > 0 && c[end - 1] == '/'
        invariant
            end <= c.len(),
            without_trailing_slashes(c@) == without_trailing_slashes(c@.take(end as int)),
        decreases end,
    {
        assert(c@.take(end as int).take(end - 1) == c@.take(end - 1));
        end -= 1;
    }
    let mut base = slice_chars(&c, 0, end);
    assert(base@ == c@.take(end as int));
    let mut v1: Vec<char> = Vec::new();
    v1.push('/');
    v1.push('v');
    v1.push('1');
    assert(v1@ =~= seq!['/', 'v', '1']);
    let ends_in_v1 = base.len() >= 3 && occurs_at_index(&base, base.len() - 3, &v1);
    if ends_in_v1 {
        append_chars(&mut base, &chars_of("/chat/completions"));
    } else {
        append_chars(&mut base, &chars_of("/v1/chat/completions"));
    }
    string_of(&base)
}

/// The message of `role` that says `content`.
pub open spec fn message(role: Seq<char>, content: Seq<char>) -> Seq<(Seq<char>, Json)> {
    seq![("role"@, Json::Text(role)), ("content"@, Json::Text(content))]
}

/// The message of `role` that says `content`.
pub fn map_message(role: &str, content: &str) -> (m: Object)
    ensures
        m@ == message(role@, content@),
{
    let mut entries: Vec<(String, Value)> = Vec::new();
    entries.push(("role".to_owned(), Value::String(role.to_owned())));
    entries.push(("content".to_owned(), Value::String(content.to_owned())));
    let m = Object { entries };
    proof {
        lemma_dict_view(m.entries@);
        assert(m@ =~= message(role@, content@));
    }
    m
}

/// The texts of `choices` as a list of strings.
pub open spec fn choice_values(choices: Seq<Seq<char>>) -> Seq<Json> {
    Seq::new(choices.len(), |i: int| Json::Text(choices[i]))
}

/// The JSON schema of an answer that is one of `choices`.
pub open spec fn choice_schema(choices: Seq<Seq<char>>) -> Json {
    Json::Dict(
        seq![
            ("type"@, Json::Text("object"@)),
            (
                "properties"@,
                Json::Dict(
                    seq![("choice"@, Json::Dict(seq![("enum"@, Json::List(choice_values(choices)))]))],
                ),
            ),
            ("required"@, Json::List(seq![Json::Text("choice"@)])),
            ("additionalProperties"@, Json::Bool(false)),
        ],
    )
}

/// What asks for an answer that keeps to the schema of `choices`.
pub open spec fn choice_prompt(choices: Seq<Seq<char>>) -> Seq<char> {
    "Respond only with a valid JSON object conforming to this schema: "@ + json_text(
        choice_schema(choices),
    ) + ". Do not add any additional text."@
}

/// The messages `messages` as a list of objects.
pub open spec fn message_values(messages: Seq<Object>) -> Seq<Json> {
    Seq::new(messages.len(), |i: int| Json::Dict(messages[i]@))
}

/// `d` with what is bound to `max_completion_tokens` bound to `max_tokens` instead.
pub open spec fn with_max_tokens(d: Seq<(Seq<char>, Json)>) -> Seq<(Seq<char>, Json)> {
    match dict_get(d, "max_completion_tokens"@) {
        Some(v) => dict_set(dict_remove(d, "max_completion_tokens"@), "max_tokens"@, v),
        None => d,
    }
}

/// The request that `args` make: the completion arguments, with the
/// messages, `stream` set, the extra body where there is one, and
/// `max_tokens` for `max_completion_tokens`. Where choices are asked for, a
/// last message asks for an answer of the schema, and the schema is the
/// format of the response.
pub open spec fn request_of(args: ChatArgs) -> Seq<(Seq<char>, Json)> {
    let with_messages = dict_set(
        args.completion_args@,
        "messages"@,
        Json::List(message_values(args.messages@)),
    );
    let streamed = dict_set(with_messages, "stream"@, Json::Bool(true));
    let extended = if args.extra_body@.len() > 0 {
        dict_set(streamed, "extra_body"@, Json::Dict(args.extra_body@))
    } else {
        streamed
    };
    let renamed = with_max_tokens(extended);
    match args.choices_list {
        None => renamed,
        Some(choices) => {
            let texts = crate::model::texts_of(choices@);
            dict_set(
                dict_set(
                    renamed,
                    "messages"@,
                    Json::List(
                        message_values(args.messages@).push(
                            Json::Dict(message("user"@, choice_prompt(texts))),
                        ),
                    ),
                ),
                "response_format"@,
                Json::Dict(
                    seq![
                        ("type"@, Json::Text("json_schema"@)),
                        ("json_schema"@, choice_schema(texts)),
                    ],
                ),
            )
        },
    }
}

fn member(key: &str, value: Value) -> (r: (String, Value))
    ensures
        r.0@ == key@,
        r.1@ == value@,
{
    (key.to_owned(), value)
}

fn object_of(entries: Vec<(String, Value)>) -> (r: Value)
    ensures
        r@ == Json::Dict(crate::value::dict_view(entries@)),
{
    Value::Object(Object { entries })
}

fn schema_of(choices: &Vec<String>) -> (r: Value)
    ensures
        r@ == choice_schema(crate::model::texts_of(choices@)),
{
    let ghost texts = crate::model::texts_of(choices@);
    let mut values: Vec<Value> = Vec::new();
    let mut i: usize = 0;
    while i < choices.len()
        invariant
            i <= choices.len(),
            values@.len() == i,
            forall|k: int| 0 <= k < i ==> values@[k]@ == Json::Text(choices@[k]@),
        decreases choices.len() - i,
    {
        values.push(Value::String(choices[i].clone()));
        i += 1;
    }
    proof {
        lemma_list_view(values@);
        assert(list_view(values@) =~= choice_values(texts));
    }
    let mut inner: Vec<(String, Value)> = Vec::new();
    inner.push(member("enum", Value::Array(values)));
    proof {
        lemma_dict_view(inner@);
        assert(crate::value::dict_view(inner@) =~= seq![
            ("enum"@, Json::List(choice_values(texts))),
        ]);
    }
    let mut properties: Vec<(String, Value)> = Vec::new();
    properties.push(member("choice", object_of(inner)));
    proof {
        lemma_dict_view(properties@);
        assert(crate::value::dict_view(properties@) =~= seq![
            ("choice"@, Json::Dict(seq![("enum"@, Json::List(choice_values(texts)))])),
        ]);
    }
    let mut required: Vec<Value> = Vec::new();
    required.push(Value::String("choice".to_owned()));
    proof {
        lemma_list_view(required@);
        assert(list_view(required@) =~= seq![Json::Text("choice"@)]);
    }
    let mut schema: Vec<(String, Value)> = Vec::new();
    schema.push(member("type", Value::String("object".to_owned())));
    schema.push(member("properties", object_of(properties)));
    schema.push(member("required", Value::Array(required)));
    schema.push(member("additionalProperties", Value::Bool(false)));
    proof {
        lemma_dict_view(schema@);
        assert(crate::value::dict_view(schema@) =~= choice_schema(texts)->Dict_0);
    }
    object_of(schema)
}

fn messages_as_values(messages: &Vec<Object>) -> (r: Vec<Value>)
    ensures
        list_view(r@) == message_values(messages@),
{
    let mut out: Vec<Value> = Vec::new();
    let mut i: usize = 0;
    while i < messages.len()
        invariant
            i <= messages.len(),
            out@.len() == i,
            forall|k: int| 0 <= k < i ==> out@[k]@ == Json::Dict(messages@[k]@),
        decreases messages.len() - i,
    {
        out.push(Value::Object(messages[i].clone()));
        i += 1;
    }
    proof {
        lemma_list_view(out@);
        assert(list_view(out@) =~= message_values(messages@));
    }
    out
}

/// The request that `args` make; see `request_of`.
pub fn build_request(args: &ChatArgs) -> (request: Object)
    ensures
        request@ == request_of(*args),
{
    let mut request = args.completion_args.clone();
    request.insert("messages".to_owned(), Value::Array(messages_as_values(&args.messages)));
    request.insert("stream".to_owned(), Value::Bool(true));
    if args.extra_body.len() > 0 {
        request.insert("extra_body".to_owned(), Value::Object(args.extra_body.clone()));
    }
    let renamed = match request.get("max_completion_tokens") {
        Some(v) => Some(v.clone()),
        None => None,
    };
    match renamed {
        Some(v) => {
            request.remove("max_completion_tokens");
            request.insert("max_tokens".to_owned(), v);
        },
        None => {},
    }
    assert(request@ == with_max_tokens(
        if args.extra_body@.len() > 0 {
            dict_set(
                dict_set(
                    dict_set(
                        args.completion_args@,
                        "messages"@,
                        Json::List(message_values(args.messages@)),
                    ),
                    "stream"@,
                    Json::Bool(true),
                ),
                "extra_body"@,
                Json::Dict(args.extra_body@),
            )
        } else {
            dict_set(
                dict_set(
                    args.completion_args@,
                    "messages"@,
                    Json::List(message_values(args.messages@)),
                ),
                "stream"@,
                Json::Bool(true),
            )
        },
    ));
    match &args.choices_list {
        None => {},
        Some(choices) => {
            let schema = schema_of(choices);
            let mut prompt = chars_of(
                "Respond only with a valid JSON object conforming to this schema: ",
            );
            crate::value::push_json(&mut prompt, &schema);
            append_chars(&mut prompt, &chars_of(". Do not add any additional text."));
            assert(prompt@ == choice_prompt(crate::model::texts_of(choices@)));
            let mut messages = messages_as_values(&args.messages);
            let ghost before = messages@;
            let asked = Value::Object(map_message("user", string_of(&prompt).as_str()));
            assert(asked@ == Json::Dict(
                message("user"@, choice_prompt(crate::model::texts_of(choices@))),
            ));
            messages.push(asked);
            proof {
                assert(messages@.take(messages@.len() - 1) == before);
                assert(messages@[messages@.len() - 1] == asked);
                assert(list_view(messages@) == list_view(before).push(asked@));
                assert(list_view(messages@) == message_values(args.messages@).push(
                    Json::Dict(message("user"@, choice_prompt(crate::model::texts_of(choices@)))),
                ));
            }
            request.insert("messages".to_owned(), Value::Array(messages));
            let mut format: Vec<(String, Value)> = Vec::new();
            format.push(member("type", Value::String("json_schema".to_owned())));
            format.push(member("json_schema", schema));
            proof {
                lemma_dict_view(format@);
                assert(crate::value::dict_view(format@) =~= seq![
                    ("type"@, Json::Text("json_schema"@)),
                    ("json_schema"@, choice_schema(crate::model::texts_of(choices@))),
                ]);
            }
            request.insert("response_format".to_owned(), object_of(format));
        },
    }
    request
}

/// What `v` binds `key` to, where `v` is an object.
pub open spec fn value_get(v: Json, key: Seq<char>) -> Option<Json> {
    match v {
        Json::Dict(d) => dict_get(d, key),
        _ => None,
    }
}

/// The first choice of the chunk `chunk` of an answer.
pub open spec fn first_choice(chunk: Json) -> Option<Json> {
    match value_get(chunk, "choices"@) {
        Some(Json::List(a)) => if a.len() > 0 {
            Some(a[0])
        } else {
            None
        },
        _ => None,
    }
}

/// The text that the chunk `chunk` adds to the answer.
pub open spec fn delta_of(chunk: Json) -> Seq<char> {
    match first_choice(chunk) {
        Some(c) => match value_get(c, "delta"@) {
            Some(d) => match value_get(d, "content"@) {
                Some(Json::Text(t)) => t,
                _ => Seq::empty(),
            },
            None => Seq::empty(),
        },
        None => Seq::empty(),
    }
}

/// Whether the chunk `chunk` says that the answer ran out of context.
pub open spec fn ran_out(chunk: Json) -> bool {
    match first_choice(chunk) {
        Some(c) => value_get(c, "finish_reason"@) == Some(Json::Text("length"@)),
        None => false,
    }
}

/// An answer as it streams in.
pub struct ChatStream {
    pub output_filter: OutputFilter,
    pub hide_filter: InvertedFilter,
    pub raw: Vec<char>,
    pub visual_output: Vec<char>,
    pub ran_out_of_context: bool,
    pub shown: bool,
}

/// The model of a `ChatStream`.
pub struct StreamState {
    pub output: OutputState,
    pub hide: InvertedState,
    pub raw: Seq<char>,
    pub visual: Seq<char>,
    pub overflow: bool,
    pub shown: bool,
}

impl View for ChatStream {
    type V = StreamState;

    open spec fn view(&self) -> StreamState {
        StreamState {
            output: self.output_filter@,
            hide: self.hide_filter@,
            raw: self.raw@,
            visual: self.visual_output@,
            overflow: self.ran_out_of_context,
            shown: self.shown,
        }
    }
}

/// The stream after the chunk `chunk`, and the text to show for it. The
/// text of the chunk goes through the filter of the outputs, what that lets
/// through goes through the filter that hides, and what is left is shown
/// where the stream shows at all.
pub open spec fn stream_step(s: StreamState, chunk: Json) -> (StreamState, Seq<char>) {
    let overflow = s.overflow || ran_out(chunk);
    let delta = delta_of(chunk);
    if delta.len() == 0 {
        (StreamState { overflow, ..s }, Seq::empty())
    } else {
        let (output, fragment) = output_step(s.output, delta);
        let (hide, visual) = inverted_step(s.hide, fragment);
        let emitted = if s.shown {
            visual
        } else {
            Seq::empty()
        };
        (
            StreamState { output, hide, raw: s.raw + delta, visual: s.visual + emitted, overflow, ..s },
            emitted,
        )
    }
}

fn get_in<'a>(v: &'a Value, key: &str) -> (r: Option<&'a Value>)
    ensures
        match r {
            Some(x) => value_get(v@, key@) == Some(x@),
            None => value_get(v@, key@) is None,
        },
{
    match v {
        Value::Object(m) => m.get(key),
        _ => None,
    }
}

fn first_choice_of(chunk: &Value) -> (r: Option<&Value>)
    ensures
        match r {
            Some(x) => first_choice(chunk@) == Some(x@),
            None => first_choice(chunk@) is None,
        },
{
    match get_in(chunk, "choices") {
        Some(Value::Array(a)) => {
            proof {
                lemma_list_view(a@);
            }
            if a.len() > 0 {
                Some(&a[0])
            } else {
                None
            }
        },
        _ => None,
    }
}

/// Whether `data` is the event that ends an answer.
pub fn is_done_marker(data: &str) -> (r: bool)
    ensures
        r == (data@ == "[DONE]"@),
{
    same_text(data, "[DONE]")
}

impl ChatStream {
    /// The stream of an answer to `args`, of which nothing has come in.
    pub fn new(args: &ChatArgs) -> (s: ChatStream)
        ensures
            s@ == (StreamState {
                output: OutputState {
                    start: args.start_str@,
                    stop: args.stop_str@,
                    enumerate: args.n_outputs > 1,
                    buffer: Seq::empty(),
                    shown: false,
                    outputs: Seq::empty(),
                },
                hide: InvertedState {
                    start: args.hide_start_str@,
                    stop: args.hide_stop_str@,
                    buffer: Seq::empty(),
                    shown: true,
                },
                raw: Seq::empty(),
                visual: Seq::empty(),
                overflow: false,
                shown: args.shown,
            }),
    {
        ChatStream {
            output_filter: OutputFilter::new(
                args.start_str.as_str(),
                args.stop_str.as_str(),
                args.n_outputs > 1,
            ),
            hide_filter: InvertedFilter::new(args.hide_start_str.as_str(), args.hide_stop_str.as_str()),
            raw: Vec::new(),
            visual_output: Vec::new(),
            ran_out_of_context: false,
            shown: args.shown,
        }
    }

    /// Takes in the chunk `chunk` of the answer and returns the text to show for it.
    pub fn feed(&mut self, chunk: &Value) -> (emitted: String)
        ensures
            final(self)@ == stream_step(old(self)@, chunk@).0,
            emitted@ == stream_step(old(self)@, chunk@).1,
    {
        let choice = first_choice_of(chunk);
        let delta: Vec<char> = match choice {
            Some(c) => match get_in(c, "delta") {
                Some(d) => match get_in(d, "content") {
                    Some(Value::String(t)) => chars_of(t.as_str()),
                    _ => Vec::new(),
                },
                None => Vec::new(),
            },
            None => Vec::new(),
        };
        let out_of_context = match choice {
            Some(c) => match get_in(c, "finish_reason") {
                Some(Value::String(r)) => same_text(r.as_str(), "length"),
                _ => false,
            },
            None => false,
        };
        if out_of_context {
            self.ran_out_of_context = true;
        }
        if delta.len() == 0 {
            return String::new();
        }
        append_chars(&mut self.raw, &delta);
        let fragment = self.output_filter.update(string_of(&delta).as_str());
        let visual = self.hide_filter.update(fragment.as_str());
        if self.shown {
            let v = chars_of(visual.as_str());
            append_chars(&mut self.visual_output, &v);
            visual
        } else {
            assert(self.visual_output@ + Seq::<char>::empty() == self.visual_output@);
            String::new()
        }
    }
}

/// The model of a `ChatResult`.
pub struct ChatResultView {
    pub outputs: Seq<Seq<char>>,
    pub visual_output: Seq<char>,
    pub raw: Seq<char>,
}

impl View for ChatResult {
    type V = ChatResultView;

    open spec fn view(&self) -> ChatResultView {
        ChatResultView {
            outputs: crate::model::texts_of(self.outputs@),
            visual_output: self.visual_output@,
            raw: self.raw@,
        }
    }
}

/// The texts of `outputs`, each without the white space around it.
pub open spec fn trimmed(outputs: Seq<Seq<char>>) -> Seq<Seq<char>> {
    Seq::new(outputs.len(), |i: int| trim(outputs[i]))
}

/// What the answer `s` comes to once it has ended. An answer that ran out
/// of context is a failure. Where a choice was asked for, the one output is
/// the `choice` of the answer, which `parsed` is where the answer is JSON;
/// else the outputs are those that the filter cut out, trimmed.
pub open spec fn result_of(s: StreamState, choices: bool, parsed: Option<Json>) -> Result<
    ChatResultView,
    ChatError,
> {
    if s.overflow {
        Err(ChatError::ContextOverflow)
    } else if choices {
        match parsed {
            None => Err(ChatError::InvalidChoice),
            Some(v) => match value_get(v, "choice"@) {
                Some(Json::Text(c)) => Ok(
                    ChatResultView { outputs: seq![c], visual_output: s.visual, raw: s.raw },
                ),
                _ => Err(ChatError::MissingChoice),
            },
        }
    } else {
        Ok(
            ChatResultView {
                outputs: trimmed(s.output.outputs),
                visual_output: s.visual,
                raw: s.raw,
            },
        )
    }
}

impl ChatStream {
    /// The answer so far, as it came in.
    pub fn raw_text(&self) -> (r: String)
        ensures
            r@ == self@.raw,
    {
        string_of(&self.raw)
    }

    /// What the answer comes to once it has ended; see `result_of`.
    pub fn finish(&self, choices: bool, parsed: Option<&Value>) -> (r: Result<ChatResult, ChatError>)
        ensures
            match r {
                Ok(c) => result_of(
                    self@,
                    choices,
                    match parsed {
                        Some(v) => Some(v@),
                        None => None,
                    },
                ) == Ok::<ChatResultView, ChatError>(c@),
                Err(e) => result_of(
                    self@,
                    choices,
                    match parsed {
                        Some(v) => Some(v@),
                        None => None,
                    },
                ) == Err::<ChatResultView, ChatError>(e),
            },
    {
        if self.ran_out_of_context {
            return Err(ChatError::ContextOverflow);
        }
        if choices {
            return match parsed {
                None => Err(ChatError::InvalidChoice),
                Some(v) => match get_in(v, "choice") {
                    Some(Value::String(c)) => {
                        let mut outputs: Vec<String> = Vec::new();
                        outputs.push(c.clone());
                        assert(crate::model::texts_of(outputs@) =~= seq![c@]);
                        Ok(
                            ChatResult {
                                outputs,
                                visual_output: string_of(&self.visual_output),
                                raw: string_of(&self.raw),
                            },
                        )
                    },
                    _ => Err(ChatError::MissingChoice),
                },
            };
        }
        let mut outputs: Vec<String> = Vec::new();
        let mut i: usize = 0;
        while i < self.output_filter.outputs.len()
            invariant
                i <= self.output_filter.outputs.len(),
                outputs@.len() == i,
                forall|k: int| 0 <= k < i ==> outputs@[k]@ == trim(self.output_filter.outputs@[k]@),
            decreases self.output_filter.outputs.len() - i,
        {
            let t = trim_chars(&self.output_filter.outputs[i]);
            outputs.push(string_of(&t));
            i += 1;
        }
        assert(crate::model::texts_of(outputs@) =~= trimmed(self@.output.outputs));
        Ok(
            ChatResult {
                outputs,
                visual_output: string_of(&self.visual_output),
                raw: string_of(&self.raw),
            },
        )
    }
}

/// Whether a completion that gave `count` outputs where `n_outputs` were
/// asked for is to be asked again.
pub fn needs_retry(count: usize, n_outputs: i64) -> (r: bool)
    ensures
        r == (count < n_outputs),
{
    n_outputs > 0 && (count as u128) < (n_outputs as u128)
}

} // verus!
