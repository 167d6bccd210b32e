//! Loading a program: every `cmd` member of its text gets the number of its
//! line beside it, and the value that the text parses to is taken apart
//! into the parts of a program.

use crate::model::{LoadError, Program, Task};
use crate::text::{append_chars, chars_of, find_from, first_from, slice_chars, string_of};
use crate::value::{
    dict_get, dict_has, dict_remove, dict_set, lemma_dict_view, nat_text, push_nat, Json, Object,
    Value,
};
use vstd::prelude::*;

verus! {

/// The pattern of a `cmd` member with a string value: the key bare or in
/// quotes, the value in quotes, and the comma or closing brace behind it.
pub fn cmd_pattern() -> (p: &'static str)
    ensures
        p@ == cmd_pattern_text(),
{
    r#"(?P<key>\bcmd\b|"cmd"|'cmd')\s*:\s*(?P<val>"([^"\\]|\\.)*"|'([^'\\]|\\.)*')(?P<trail>\s*(?:,|\}))"#
}

/// The text of `cmd_pattern`.
pub open spec fn cmd_pattern_text() -> Seq<char> {
    r#"(?P<key>\bcmd\b|"cmd"|'cmd')\s*:\s*(?P<val>"([^"\\]|\\.)*"|'([^'\\]|\\.)*')(?P<trail>\s*(?:,|\}))"#@
}

/// A member with the number of its line behind it: the key, a colon, the
/// value, `, line:` and the number, and what trailed the member.
pub open spec fn numbered_member_text(
    key: Seq<char>,
    val: Seq<char>,
    trail: Seq<char>,
    line_no: nat,
) -> Seq<char> {
    key + seq![':'] + val + ", line:"@ + nat_text(line_no) + trail
}

/// A member with the number of its line behind it.
pub fn numbered_member(key: &str, val: &str, trail: &str, line_no: usize) -> (r: String)
    ensures
        r@ == numbered_member_text(key@, val@, trail@, line_no as nat),
{
    let mut out = chars_of(key);
    out.push(':');
    append_chars(&mut out, &chars_of(val));
    append_chars(&mut out, &chars_of(", line:"));
    push_nat(&mut out, line_no as u64);
    append_chars(&mut out, &chars_of(trail));
    assert(out@ =~= numbered_member_text(key@, val@, trail@, line_no as nat));
    string_of(&out)
}

/// What `regex::Regex::replace_all` makes of `line` for the regular
/// expression `pattern`, where every match is replaced by the member that
/// `numbered_member` makes of its groups `key`, `val` and `trail` and of
/// `line_no`; nothing where `pattern` is no regular expression.
pub uninterp spec fn members_numbered(pattern: Seq<char>, line: Seq<char>, line_no: nat) -> Option<
    Seq<char>,
>;

/// `regex::Regex::new` and `regex::Regex::replace_all`: `line` with every
/// match of `pattern` replaced by what `numbered_member` makes of the groups
/// `key`, `val` and `trail` of the match, a group that took no part counting
/// as empty. The result is a function of the three arguments; nothing else
/// is claimed of it.
#[verifier::external_body]
fn number_members(pattern: &str, line: &str, line_no: usize) -> (r: Option<String>)
    ensures
        match r {
            Some(t) => members_numbered(pattern@, line@, line_no as nat) == Some(t@),
            None => members_numbered(pattern@, line@, line_no as nat) is None,
        },
{
    let re = regex::Regex::new(pattern).ok()?;
    let replaced = re.replace_all(line, |caps: &regex::Captures| {
        let key = caps.name("key").map_or("", |m| m.as_str());
        let val = caps.name("val").map_or("", |m| m.as_str());
        let trail = caps.name("trail").map_or("", |m| m.as_str());
        numbered_member(key, val, trail, line_no)
    });
    Some(replaced.into_owned())
}

/// `l` without the carriage return at its end.
pub open spec fn without_return(l: Seq<char>) -> Seq<char> {
    if l.len() > 0 && l[l.len() - 1] == '\r' {
        l.take(l.len() - 1)
    } else {
        l
    }
}

/// The lines of `s`: what stands between line feeds, without the carriage
/// return before a line feed. A line feed at the very end begins no line.
pub open spec fn lines_of(s: Seq<char>) -> Seq<Seq<char>>
    decreases s.len(),
{
    if s.len() == 0 {
        Seq::empty()
    } else {
        let end = first_from(s, '\n', 0);
        if end >= s.len() {
            seq![s]
        } else {
            proof {
                lemma_first_from(s, '\n', 0);
            }
            seq![without_return(s.take(end))] + lines_of(s.skip(end + 1))
        }
    }
}

/// `first_from` finds a place in the text.
pub proof fn lemma_first_from(s: Seq<char>, c: char, from: int)
    requires
        0 <= from <= s.len(),
    ensures
        from <= first_from(s, c, from) <= s.len(),
    decreases s.len() - from,
{
    if from < s.len() && s[from] != c {
        lemma_first_from(s, c, from + 1);
    }
}

/// `first_from` on the rest of a text is `first_from` on the text, moved.
pub proof fn lemma_first_from_skip(s: Seq<char>, c: char, start: int, from: int)
    requires
        0 <= start <= from <= s.len(),
    ensures
        first_from(s.skip(start), c, from - start) == first_from(s, c, from) - start,
    decreases s.len() - from,
{
    if from < s.len() && s[from] != c {
        lemma_first_from_skip(s, c, start, from + 1);
    }
}

/// The lines of `text`.
pub fn split_lines(text: &str) -> (lines: Vec<String>)
    ensures
        crate::model::texts_of(lines@) == lines_of(text@),
{
    let s = chars_of(text);
    let mut lines: Vec<String> = Vec::new();
    let mut start: usize = 0;
    assert(s@.skip(0) == s@);
    assert(crate::model::texts_of(lines@) =~= Seq::<Seq<char>>::empty());
    while start < s.len()
        invariant
            start <= s.len(),
            s@ == text@,
            lines_of(s@) == crate::model::texts_of(lines@) + lines_of(s@.skip(start as int)),
        decreases s.len() - start,
    {
        let end = find_from(&s, '\n', start);
        let ghost rest = s@.skip(start as int);
        let ghost before = lines@;
        proof {
            lemma_first_from_skip(s@, '\n', start as int, start as int);
        }
        if end >= s.len() {
            let line = slice_chars(&s, start, s.len());
            assert(line@ == rest);
            lines.push(string_of(&line));
            assert(crate::model::texts_of(lines@) =~= crate::model::texts_of(before).push(rest));
            assert(crate::model::texts_of(before) + seq![rest] =~= crate::model::texts_of(
                before,
            ).push(rest));
            start = s.len();
            assert(s@.skip(s.len() as int).len() == 0);
            assert(lines_of(s@.skip(s.len() as int)) =~= Seq::<Seq<char>>::empty());
            assert(crate::model::texts_of(lines@) + Seq::<Seq<char>>::empty()
                =~= crate::model::texts_of(lines@));
        } else {
            let cut = if end > start && s[end - 1] == '\r' {
                end - 1
            } else {
                end
            };
            let line = slice_chars(&s, start, cut);
            proof {
                assert(rest.take(end - start) == s@.subrange(start as int, end as int));
                assert(line@ =~= without_return(rest.take(end - start)));
                assert(rest.skip(end - start + 1) == s@.skip(end + 1));
            }
            lines.push(string_of(&line));
            proof {
                assert(crate::model::texts_of(lines@) =~= crate::model::texts_of(before).push(
                    line@,
                ));
                assert(crate::model::texts_of(before) + (seq![line@] + lines_of(s@.skip(end + 1)))
                    =~= crate::model::texts_of(lines@) + lines_of(s@.skip(end + 1)));
            }
            start = end + 1;
        }
    }
    proof {
        assert(s@.skip(s.len() as int).len() == 0);
        assert(lines_of(s@.skip(start as int)) =~= Seq::<Seq<char>>::empty());
        assert(crate::model::texts_of(lines@) + Seq::<Seq<char>>::empty() =~= crate::model::texts_of(
            lines@,
        ));
    }
    lines
}

/// The lines `lines`, each with a line feed behind it.
pub open spec fn joined_lines(lines: Seq<Seq<char>>) -> Seq<char>
    decreases lines.len(),
{
    if lines.len() == 0 {
        Seq::empty()
    } else {
        joined_lines(lines.take(lines.len() - 1)) + lines[lines.len() - 1] + seq!['\n']
    }
}

/// The lines `lines`, each with a line feed behind it.
pub fn join_lines(lines: &Vec<String>) -> (text: String)
    ensures
        text@ == joined_lines(crate::model::texts_of(lines@)),
{
    let ghost texts = crate::model::texts_of(lines@);
    let mut out: Vec<char> = Vec::new();
    let mut i: usize = 0;
    assert(texts.take(0) =~= Seq::<Seq<char>>::empty());
    while i < lines.len()
        invariant
            i <= lines.len(),
            texts == crate::model::texts_of(lines@),
            out@ == joined_lines(texts.take(i as int)),
        decreases lines.len() - i,
    {
        assert(texts.take(i + 1).take(i as int) == texts.take(i as int));
        append_chars(&mut out, &chars_of(lines[i].as_str()));
        out.push('\n');
        assert(out@ =~= joined_lines(texts.take(i as int)) + texts[i as int] + seq!['\n']);
        i += 1;
    }
    assert(texts.take(texts.len() as int) == texts);
    string_of(&out)
}

/// The lines `lines` from number `from` on, each with its `cmd` members
/// numbered; nothing where a line cannot be numbered.
pub open spec fn numbered_lines(lines: Seq<Seq<char>>, from: int, acc: Seq<Seq<char>>) -> Option<
    Seq<Seq<char>>,
>
    decreases lines.len() - from,
{
    if from < 0 || from >= lines.len() {
        Some(acc)
    } else {
        match members_numbered(cmd_pattern_text(), lines[from], (from + 1) as nat) {
            None => None,
            Some(t) => numbered_lines(lines, from + 1, acc.push(t)),
        }
    }
}

/// The text `input` of a program with the number of its line put beside
/// every `cmd` member: `"cmd": "print",` on line 7 becomes `"cmd":"print",
/// line:7,`. The text in and out goes line by line, each line ending in a
/// line feed.
pub fn add_line_numbers(input: &str) -> (r: Option<String>)
    ensures
        match r {
            Some(t) => match numbered_lines(lines_of(input@), 0, Seq::empty()) {
                Some(lines) => t@ == joined_lines(lines),
                None => false,
            },
            None => numbered_lines(lines_of(input@), 0, Seq::empty()) is None,
        },
{
    let lines = split_lines(input);
    let ghost texts = crate::model::texts_of(lines@);
    let mut numbered: Vec<String> = Vec::new();
    let mut i: usize = 0;
    assert(crate::model::texts_of(numbered@) =~= Seq::<Seq<char>>::empty());
    while i < lines.len()
        invariant
            i <= lines.len(),
            texts == crate::model::texts_of(lines@),
            texts == lines_of(input@),
            numbered_lines(texts, 0, Seq::empty()) == numbered_lines(
                texts,
                i as int,
                crate::model::texts_of(numbered@),
            ),
        decreases lines.len() - i,
    {
        match number_members(cmd_pattern(), lines[i].as_str(), i + 1) {
            None => {
                return None;
            },
            Some(t) => {
                let ghost before = numbered@;
                numbered.push(t);
                assert(crate::model::texts_of(numbered@) =~= crate::model::texts_of(before).push(
                    t@,
                ));
            },
        }
        i += 1;
    }
    Some(join_lines(&numbered))
}

/// The root of a program with the old name `tasks` of the named tasks
/// renamed, where it has no `named_tasks`.
pub open spec fn renamed_root(root: Seq<(Seq<char>, Json)>) -> Seq<(Seq<char>, Json)> {
    if !dict_has(root, "named_tasks"@) && dict_has(root, "tasks"@) {
        dict_set(dict_remove(root, "tasks"@), "named_tasks"@, dict_get(root, "tasks"@)->Some_0)
    } else {
        root
    }
}

/// The members of the objects of `d`; nothing where a value of `d` is no object.
pub open spec fn named_tasks_of(d: Seq<(Seq<char>, Json)>) -> Option<
    Seq<(Seq<char>, Seq<(Seq<char>, Json)>)>,
> {
    if forall|i: int| 0 <= i < d.len() ==> (#[trigger] d[i]).1 is Dict {
        Some(Seq::new(d.len(), |i: int| (d[i].0, d[i].1->Dict_0)))
    } else {
        None
    }
}

/// The parts of a program, as models.
pub struct ProgramView {
    pub default_state: Seq<(Seq<char>, Json)>,
    pub order: Seq<Seq<(Seq<char>, Json)>>,
    pub named_tasks: Seq<(Seq<char>, Seq<(Seq<char>, Json)>)>,
    pub save_states: Seq<(Seq<char>, Json)>,
    pub completion_args: Seq<(Seq<char>, Json)>,
}

impl View for Program {
    type V = ProgramView;

    open spec fn view(&self) -> ProgramView {
        ProgramView {
            default_state: self.default_state@,
            order: crate::fields::tasks_view(self.order@),
            named_tasks: crate::engine::named_view(self.named_tasks@),
            save_states: self.save_states@,
            completion_args: self.completion_args@,
        }
    }
}

/// The program that the value `root` is: an object with a `default_state`
/// object, an `order` list of tasks, a `named_tasks` object of tasks (or, by
/// its old name, `tasks`), a `save_states` object, and, where it has them,
/// `completion_args`.
pub open spec fn program_of(root: Json) -> Result<ProgramView, LoadError> {
    match root {
        Json::Dict(raw) => {
            let d = renamed_root(raw);
            match dict_get(d, "default_state"@) {
                Some(Json::Dict(default_state)) => match dict_get(d, "order"@) {
                    Some(Json::List(order)) => match crate::fields::as_tasks(order) {
                        None => Err(LoadError::TaskNotAnObject),
                        Some(tasks) => match dict_get(d, "named_tasks"@) {
                            Some(Json::Dict(named)) => match named_tasks_of(named) {
                                None => Err(LoadError::TaskNotAnObject),
                                Some(named_tasks) => match dict_get(d, "save_states"@) {
                                    Some(Json::Dict(save_states)) => Ok(
                                        ProgramView {
                                            default_state,
                                            order: tasks,
                                            named_tasks,
                                            save_states,
                                            completion_args: match dict_get(
                                                d,
                                                "completion_args"@,
                                            ) {
                                                Some(Json::Dict(c)) => c,
                                                _ => Seq::empty(),
                                            },
                                        },
                                    ),
                                    _ => Err(LoadError::MissingSaveStates),
                                },
                            },
                            _ => Err(LoadError::MissingNamedTasks),
                        },
                    },
                    _ => Err(LoadError::MissingOrder),
                },
                _ => Err(LoadError::MissingDefaultState),
            }
        },
        _ => Err(LoadError::RootNotAnObject),
    }
}

fn named_tasks_from(d: &Object) -> (r: Option<Vec<(String, Task)>>)
    ensures
        match r {
            Some(n) => named_tasks_of(d@) == Some(crate::engine::named_view(n@)),
            None => named_tasks_of(d@) is None,
        },
{
    proof {
        lemma_dict_view(d.entries@);
    }
    let mut out: Vec<(String, Task)> = Vec::new();
    let mut i: usize = 0;
    while i < d.entries.len()
        invariant
            i <= d.entries.len(),
            d@.len() == d.entries@.len(),
            forall|k: int| 0 <= k < d@.len() ==> d@[k] == (d.entries@[k].0@, d.entries@[k].1@),
            out@.len() == i,
            forall|k: int|
                0 <= k < i ==> (#[trigger] d@[k]).1 is Dict && out@[k].0@ == d@[k].0 && out@[k].1@
                    == d@[k].1->Dict_0,
        decreases d.entries.len() - i,
    {
        match &d.entries[i].1 {
            Value::Object(t) => {
                out.push((d.entries[i].0.clone(), t.clone()));
            },
            _ => {
                assert(!(d@[i as int].1 is Dict));
                return None;
            },
        }
        i += 1;
    }
    assert(crate::engine::named_view(out@) =~= named_tasks_of(d@)->Some_0);
    Some(out)
}

/// Takes the value `root` that the text of a program parsed to apart into
/// the parts of the program.
pub fn program_from_value(root: Value) -> (r: Result<Program, LoadError>)
    ensures
        match r {
            Ok(p) => program_of(root@) == Ok::<ProgramView, LoadError>(p@),
            Err(e) => program_of(root@) == Err::<ProgramView, LoadError>(e),
        },
{
    let mut d = match root {
        Value::Object(m) => m,
        _ => {
            return Err(LoadError::RootNotAnObject);
        },
    };
    if !d.contains_key("named_tasks") {
        let tasks = match d.get("tasks") {
            Some(t) => Some(t.clone()),
            None => None,
        };
        match tasks {
            Some(t) => {
                d.remove("tasks");
                d.insert("named_tasks".to_owned(), t);
            },
            None => {},
        }
    }
    assert(d@ == renamed_root(root@->Dict_0));
    let default_state = match d.get("default_state") {
        Some(Value::Object(m)) => m.clone(),
        _ => {
            return Err(LoadError::MissingDefaultState);
        },
    };
    let order = match d.get("order") {
        Some(Value::Array(a)) => match crate::fields::tasks_of(a) {
            Ok(t) => t,
            Err(_) => {
                return Err(LoadError::TaskNotAnObject);
            },
        },
        _ => {
            return Err(LoadError::MissingOrder);
        },
    };
    let named_tasks = match d.get("named_tasks") {
        Some(Value::Object(m)) => match named_tasks_from(m) {
            Some(n) => n,
            None => {
                return Err(LoadError::TaskNotAnObject);
            },
        },
        _ => {
            return Err(LoadError::MissingNamedTasks);
        },
    };
    let save_states = match d.get("save_states") {
        Some(Value::Object(m)) => m.clone(),
        _ => {
            return Err(LoadError::MissingSaveStates);
        },
    };
    let completion_args = match d.get("completion_args") {
        Some(Value::Object(m)) => m.clone(),
        _ => Object::new(),
    };
    Ok(Program { default_state, order, named_tasks, save_states, completion_args })
}

} // verus!
