//! What running a task leaves for the caller to do.

use crate::fields::tasks_view;
use crate::model::Task;
use crate::value::{list_view, Json, Value};
use vstd::prelude::*;

verus! {

/// How a task ends: the run goes on with the next task, or behind a label.
#[derive(Debug)]
pub enum TaskOutcome {
    Next,
    Goto(String),
}

/// The model of a `TaskOutcome`.
pub enum Outcome {
    Next,
    Goto(Seq<char>),
}

impl View for TaskOutcome {
    type V = Outcome;

    open spec fn view(&self) -> Outcome {
        match self {
            TaskOutcome::Next => Outcome::Next,
            TaskOutcome::Goto(t) => Outcome::Goto(t@),
        }
    }
}

/// A position in a list as a task gives it: an integer, an expression that
/// is yet to be evaluated, or something that is neither.
#[derive(Debug)]
pub enum IndexArg {
    Int(i64),
    Expr(String),
    Invalid,
}

/// The model of an `IndexArg`.
pub enum IndexArgView {
    Int(int),
    Expr(Seq<char>),
    Invalid,
}

impl View for IndexArg {
    type V = IndexArgView;

    open spec fn view(&self) -> IndexArgView {
        match self {
            IndexArg::Int(i) => IndexArgView::Int(*i as int),
            IndexArg::Expr(e) => IndexArgView::Expr(e@),
            IndexArg::Invalid => IndexArgView::Invalid,
        }
    }
}

/// The position that the value `v` gives.
pub open spec fn index_arg(v: Json) -> IndexArgView {
    match v {
        Json::Text(s) => IndexArgView::Expr(s),
        Json::Int(i) => IndexArgView::Int(i),
        _ => IndexArgView::Invalid,
    }
}

/// The position that `v` gives.
pub fn index_arg_of(v: &Value) -> (r: IndexArg)
    ensures
        r@ == index_arg(v@),
{
    match v {
        Value::String(s) => IndexArg::Expr(s.clone()),
        Value::Number(crate::value::Number::Int(i)) => IndexArg::Int(*i),
        _ => IndexArg::Invalid,
    }
}

/// What is left to do once the library has done its part of a task. `Done`
/// says that nothing is; every other action names what only the caller can
/// do, with the values it needs, already checked and interpolated.
#[derive(Debug)]
pub enum Action {
    /// The task is over.
    Done(TaskOutcome),
    /// Show `text`, which has been appended to the output.
    Print(String),
    /// Clear what is shown; the output has been emptied.
    Clear,
    /// Wait for the seconds that `seconds` gives: a number, or an expression.
    Sleep(Value),
    /// Write `content` to the file at `path`.
    Write { path: String, content: String },
    /// Show the inserts and wait until they are dismissed.
    ShowInserts,
    /// Ask for a line of text, then call `finish_user_input`.
    UserInput { prompt: String, output_name: String },
    /// Ask for one of `options`, then call `finish_user_choice`.
    UserChoice { list: Vec<Value>, options: Vec<String>, description: String, output_name: String },
    /// Wait until the insert `name` is there.
    AwaitInsert { name: String },
    /// Run the named task `task`.
    RunTask { name: String, task: Task },
    /// Run `tasks` side by side and wait for all of them.
    ParallelWait { tasks: Vec<Task> },
    /// Run `tasks` side by side until the first of them ends.
    ParallelRace { tasks: Vec<Task> },
    /// Run `tasks` one after the other.
    Serial { tasks: Vec<Task> },
    /// Run `tasks` once for each of the `len` places of `lists`, with the
    /// item of each list at that place bound to the name of the list.
    For { names: Vec<String>, lists: Vec<Vec<Value>>, tasks: Vec<Task>, len: usize },
    /// Evaluate `input`, then call `finish_math`.
    Math { input: String, output_name: String },
    /// Evaluate `index`, then call `finish_list_index`.
    ListIndex { list: Vec<Value>, index: String, store_as: Result<String, crate::error::ExecError> },
    /// Evaluate the bounds that are expressions, then call `finish_list_slice`.
    ListSlice {
        list: Vec<Value>,
        from_index: IndexArg,
        to_index: IndexArg,
        store_as: Result<String, crate::error::ExecError>,
    },
    /// Pick one item of `list`: call `finish_random_choice`.
    RandomChoice { list: Vec<Value>, output_name: String },
    /// Speak `text` with the voice at `voice_path`; stop speaking where `text` is empty.
    Speak { text: String, voice_path: String, voice_speaker: Option<i64> },
    /// Ask for the completion that is planned, then call `finish_chat`.
    Chat(crate::chat_plan::ChatPlan),
}

/// The model of an `Action`.
pub enum ActionView {
    Done(Outcome),
    Print(Seq<char>),
    Clear,
    Sleep(Json),
    Write { path: Seq<char>, content: Seq<char> },
    ShowInserts,
    UserInput { prompt: Seq<char>, output_name: Seq<char> },
    UserChoice {
        list: Seq<Json>,
        options: Seq<Seq<char>>,
        description: Seq<char>,
        output_name: Seq<char>,
    },
    AwaitInsert { name: Seq<char> },
    RunTask { name: Seq<char>, task: Seq<(Seq<char>, Json)> },
    ParallelWait { tasks: Seq<Seq<(Seq<char>, Json)>> },
    ParallelRace { tasks: Seq<Seq<(Seq<char>, Json)>> },
    Serial { tasks: Seq<Seq<(Seq<char>, Json)>> },
    For {
        names: Seq<Seq<char>>,
        lists: Seq<Seq<Json>>,
        tasks: Seq<Seq<(Seq<char>, Json)>>,
        len: nat,
    },
    Math { input: Seq<char>, output_name: Seq<char> },
    ListIndex {
        list: Seq<Json>,
        index: Seq<char>,
        store_as: Result<Seq<char>, crate::error::ExecError>,
    },
    ListSlice {
        list: Seq<Json>,
        from_index: IndexArgView,
        to_index: IndexArgView,
        store_as: Result<Seq<char>, crate::error::ExecError>,
    },
    RandomChoice { list: Seq<Json>, output_name: Seq<char> },
    Speak { text: Seq<char>, voice_path: Seq<char>, voice_speaker: Option<int> },
    Chat(crate::chat_plan::ChatPlanView),
}

/// The models of `lists`, in order.
pub open spec fn lists_view(lists: Seq<Vec<Value>>) -> Seq<Seq<Json>> {
    Seq::new(lists.len(), |i: int| list_view(lists[i]@))
}

/// The model of a name that may have failed to be read.
pub open spec fn name_view(r: Result<String, crate::error::ExecError>) -> Result<
    Seq<char>,
    crate::error::ExecError,
> {
    match r {
        Ok(s) => Ok(s@),
        Err(e) => Err(e),
    }
}

impl View for Action {
    type V = ActionView;

    open spec fn view(&self) -> ActionView {
        match self {
            Action::Done(o) => ActionView::Done(o@),
            Action::Print(t) => ActionView::Print(t@),
            Action::Clear => ActionView::Clear,
            Action::Sleep(v) => ActionView::Sleep(v@),
            Action::Write { path, content } => ActionView::Write { path: path@, content: content@ },
            Action::ShowInserts => ActionView::ShowInserts,
            Action::UserInput { prompt, output_name } => ActionView::UserInput {
                prompt: prompt@,
                output_name: output_name@,
            },
            Action::UserChoice { list, options, description, output_name } => ActionView::UserChoice {
                list: list_view(list@),
                options: crate::model::texts_of(options@),
                description: description@,
                output_name: output_name@,
            },
            Action::AwaitInsert { name } => ActionView::AwaitInsert { name: name@ },
            Action::RunTask { name, task } => ActionView::RunTask { name: name@, task: task@ },
            Action::ParallelWait { tasks } => ActionView::ParallelWait { tasks: tasks_view(tasks@) },
            Action::ParallelRace { tasks } => ActionView::ParallelRace { tasks: tasks_view(tasks@) },
            Action::Serial { tasks } => ActionView::Serial { tasks: tasks_view(tasks@) },
            Action::For { names, lists, tasks, len } => ActionView::For {
                names: crate::model::texts_of(names@),
                lists: lists_view(lists@),
                tasks: tasks_view(tasks@),
                len: *len as nat,
            },
            Action::Math { input, output_name } => ActionView::Math {
                input: input@,
                output_name: output_name@,
            },
            Action::ListIndex { list, index, store_as } => ActionView::ListIndex {
                list: list_view(list@),
                index: index@,
                store_as: name_view(*store_as),
            },
            Action::ListSlice { list, from_index, to_index, store_as } => ActionView::ListSlice {
                list: list_view(list@),
                from_index: from_index@,
                to_index: to_index@,
                store_as: name_view(*store_as),
            },
            Action::RandomChoice { list, output_name } => ActionView::RandomChoice {
                list: list_view(list@),
                output_name: output_name@,
            },
            Action::Speak { text, voice_path, voice_speaker } => ActionView::Speak {
                text: text@,
                voice_path: voice_path@,
                voice_speaker: match voice_speaker {
                    Some(i) => Some(*i as int),
                    None => None,
                },
            },
            Action::Chat(p) => ActionView::Chat(p@),
        }
    }
}

} // verus!
