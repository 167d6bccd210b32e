//! The program, its tasks, and the context it was loaded in.

use crate::text::{chars_of, occurs_at, occurs_at_index, slice_chars, string_of};
use crate::value::{Json, Object, Value};
use vstd::prelude::*;

verus! {

/// A task: an object with a `cmd` string and the fields of that command.
pub type Task = Object;

/// A program: the state it begins in, the tasks it runs in order, the tasks it
/// can call by name, the states that were saved, and the arguments of its completions.
pub struct Program {
    pub default_state: Object,
    pub order: Vec<Task>,
    pub named_tasks: Vec<(String, Task)>,
    pub save_states: Object,
    pub completion_args: Object,
}

/// One file of the inserts directory, as it was read: its name, its text
/// where it could be read, and its value where its text is valid JSON5.
pub struct DirFile {
    pub name: String,
    pub text: Option<String>,
    pub parsed: Option<Value>,
}

/// A directory as it was found on disk.
pub struct DirListing {
    pub path: String,
    pub is_dir: bool,
    pub files: Vec<DirFile>,
}

/// Where a program was loaded from, and the inserts directory as it was read.
pub struct ProgramLoadContext {
    pub program_path: String,
    pub program_dir: String,
    pub inserts_dir: Option<String>,
    pub inserts_dir_keys: Vec<String>,
    pub inserts_dir_files: Vec<DirFile>,
}

/// How a run talks to the world: through the terminal or, in agent mode,
/// through two files; and where it keeps its record and its history.
#[derive(Clone, Debug)]
pub struct RuntimeOptions {
    pub agent_mode: bool,
    pub agent_input: String,
    pub agent_output: String,
    pub log_path: Option<String>,
    pub history_path: Option<String>,
}

/// The local time of day as text, read once for a whole evaluation.
pub struct Clock {
    pub hour_minute: String,
    pub hour_minute_second: String,
}

/// The two digits that write `n`, a number below 100.
pub open spec fn two_digits(n: int) -> Seq<char> {
    seq![crate::value::digit_char(n / 10), crate::value::digit_char(n % 10)]
}

/// The hour `h` and the minute `m` as a text: two digits each, a colon between them.
pub open spec fn hour_minute_text(h: int, m: int) -> Seq<char> {
    two_digits(h) + seq![':'] + two_digits(m)
}

/// The hour `h`, the minute `m` and the second `s` as a text.
pub open spec fn hour_minute_second_text(h: int, m: int, s: int) -> Seq<char> {
    two_digits(h) + seq![':'] + two_digits(m) + seq![':'] + two_digits(s)
}

/// A time of day in hours and minutes.
pub open spec fn is_hour_minute(t: Seq<char>) -> bool {
    exists|h: int, m: int|
        0 <= h <= 23 && 0 <= m <= 59 && t == #[trigger] hour_minute_text(h, m)
}

/// A time of day in hours, minutes and seconds. A minute that a leap
/// second lengthens has a second 60.
pub open spec fn is_hour_minute_second(t: Seq<char>) -> bool {
    exists|h: int, m: int, s: int|
        0 <= h <= 23 && 0 <= m <= 59 && 0 <= s <= 60 && t == #[trigger] hour_minute_second_text(
            h,
            m,
            s,
        )
}

impl Clock {
    /// Both texts are times of day, each in its form.
    pub open spec fn is_time_of_day(&self) -> bool {
        is_hour_minute(self.hour_minute@) && is_hour_minute_second(self.hour_minute_second@)
    }
}

/// Why a program cannot be loaded.
#[derive(Clone, Copy, Debug, PartialEq, Eq, Structural)]
pub enum LoadError {
    NoParentDirectory,
    InsertsDirNotADirectory,
    RootNotAnObject,
    MissingDefaultState,
    MissingOrder,
    MissingNamedTasks,
    MissingSaveStates,
    TaskNotAnObject,
}

/// The model of a `DirFile`.
pub struct FileView {
    pub name: Seq<char>,
    pub text: Option<Seq<char>>,
    pub parsed: Option<Json>,
}

impl View for DirFile {
    type V = FileView;

    open spec fn view(&self) -> FileView {
        FileView {
            name: self.name@,
            text: match self.text {
                Some(t) => Some(t@),
                None => None,
            },
            parsed: match self.parsed {
                Some(v) => Some(v@),
                None => None,
            },
        }
    }
}

/// The models of `files`, in order.
pub open spec fn files_view(files: Seq<DirFile>) -> Seq<FileView> {
    Seq::new(files.len(), |i: int| files[i]@)
}

/// The suffix that marks a file of the inserts directory as JSON5.
pub open spec fn json5_suffix() -> Seq<char> {
    seq!['.', 'j', 's', 'o', 'n', '5']
}

/// `s` with every trailing repetition of `suffix` taken off.
pub open spec fn strip_suffixes(s: Seq<char>, suffix: Seq<char>) -> Seq<char>
    decreases s.len(),
{
    if suffix.len() > 0 && occurs_at(s, s.len() - suffix.len(), suffix) {
        strip_suffixes(s.take(s.len() - suffix.len()), suffix)
    } else {
        s
    }
}

/// The key that a file named `name` contributes: its stem where the name
/// ends in `.json5`, else the name.
pub open spec fn key_of_file(name: Seq<char>) -> Seq<char> {
    strip_suffixes(name, json5_suffix())
}

/// The keys that `files` contribute, in order.
pub open spec fn keys_of_files(files: Seq<FileView>) -> Seq<Seq<char>> {
    Seq::new(files.len(), |i: int| key_of_file(files[i].name))
}

/// The texts of `keys`, in order.
pub open spec fn texts_of(keys: Seq<String>) -> Seq<Seq<char>> {
    Seq::new(keys.len(), |i: int| keys[i]@)
}

fn json5_suffix_chars() -> (r: Vec<char>)
    ensures
        r@ == json5_suffix(),
{
    let mut r: Vec<char> = Vec::new();
    r.push('.');
    r.push('j');
    r.push('s');
    r.push('o');
    r.push('n');
    r.push('5');
    assert(r@ =~= json5_suffix());
    r
}

/// The key that a file named `name` contributes.
pub fn insert_key_of_file(name: &str) -> (key: String)
    ensures
        key@ == key_of_file(name@),
{
    let s = chars_of(name);
    let suffix = json5_suffix_chars();
    let mut end: usize = s.len();
    assert(s@.take(end as int) == s@);
    while end >= suffix.len() && occurs_at_index(&s, end - suffix.len(), &suffix)
        invariant
            end <= s.len(),
            suffix@ == json5_suffix(),
            strip_suffixes(s@, suffix@) == strip_suffixes(s@.take(end as int), suffix@),
        decreases end,
    {
        let ghost t = s@.take(end as int);
        assert(t.subrange(end - suffix.len(), end as int) == s@.subrange(
            end - suffix.len(),
            end as int,
        ));
        assert(t.take(t.len() - suffix.len()) == s@.take(end - suffix.len()));
        end -= suffix.len();
    }
    proof {
        let t = s@.take(end as int);
        if end >= suffix.len() {
            assert(t.subrange(end - suffix.len(), end as int) == s@.subrange(
                end - suffix.len(),
                end as int,
            ));
        }
    }
    let r = slice_chars(&s, 0, end);
    string_of(&r)
}

impl ProgramLoadContext {
    /// The context of the program at `program_path`, whose parent directory is
    /// `program_dir`, with the inserts directory as it was found.
    pub fn new(
        program_path: String,
        program_dir: Option<String>,
        inserts_dir: Option<DirListing>,
    ) -> (r: Result<ProgramLoadContext, LoadError>)
        ensures
            match r {
                Ok(c) => {
                    &&& program_dir is Some
                    &&& c.program_path == program_path
                    &&& c.program_dir == program_dir->0
                    &&& match inserts_dir {
                        Some(d) => d.is_dir && c.inserts_dir == Some(d.path)
                            && c.inserts_dir_files == d.files && texts_of(c.inserts_dir_keys@)
                            == keys_of_files(files_view(d.files@)),
                        None => c.inserts_dir is None && c.inserts_dir_keys@.len() == 0
                            && c.inserts_dir_files@.len() == 0,
                    }
                },
                Err(e) => if program_dir is None {
                    e == LoadError::NoParentDirectory
                } else {
                    e == LoadError::InsertsDirNotADirectory && inserts_dir is Some
                        && !inserts_dir->0.is_dir
                },
            },
    {
        let program_dir = match program_dir {
            Some(d) => d,
            None => {
                return Err(LoadError::NoParentDirectory);
            },
        };
        match inserts_dir {
            Some(d) => {
                if !d.is_dir {
                    return Err(LoadError::InsertsDirNotADirectory);
                }
                let keys = collect_insert_keys(&d.files);
                Ok(
                    ProgramLoadContext {
                        program_path,
                        program_dir,
                        inserts_dir: Some(d.path),
                        inserts_dir_keys: keys,
                        inserts_dir_files: d.files,
                    },
                )
            },
            None => Ok(
                ProgramLoadContext {
                    program_path,
                    program_dir,
                    inserts_dir: None,
                    inserts_dir_keys: Vec::new(),
                    inserts_dir_files: Vec::new(),
                },
            ),
        }
    }
}

/// The keys that the files of an inserts directory contribute, in order.
pub fn collect_insert_keys(files: &Vec<DirFile>) -> (keys: Vec<String>)
    ensures
        texts_of(keys@) == keys_of_files(files_view(files@)),
{
    let mut keys: Vec<String> = Vec::new();
    let mut i: usize = 0;
    while i < files.len()
        invariant
            i <= files.len(),
            keys@.len() == i,
            forall|k: int| 0 <= k < i ==> keys@[k]@ == key_of_file(files@[k].name@),
        decreases files.len() - i,
    {
        keys.push(insert_key_of_file(files[i].name.as_str()));
        i += 1;
    }
    assert(texts_of(keys@) =~= keys_of_files(files_view(files@)));
    keys
}

} // verus!
