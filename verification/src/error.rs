//! Why a task cannot run.

use crate::interp::InterpError;
use vstd::prelude::*;

verus! {

/// Why a task cannot be carried out.
#[derive(Clone, Copy, Debug, PartialEq, Eq, Structural)]
pub enum ExecError {
    /// The task has no `cmd` string.
    MissingCmd,
    /// The `cmd` names no command.
    UnknownCommand,
    /// A field that must be a string is missing or is none.
    FieldNotString,
    /// A field that must be a list is missing or is none.
    FieldNotArray,
    /// A field that must be an object is missing or is none.
    FieldNotObject,
    /// A list of tasks holds something that is no object.
    TasksNotObjects,
    /// `list_concat` met an item that is no list.
    ConcatNotLists,
    /// An index is neither an integer nor an expression.
    IndexNotInt,
    /// Index 0: positions count from 1.
    IndexZero,
    IndexOutOfBounds,
    /// The lower bound of a slice is 0.
    SliceLowerZero,
    SliceOutOfBounds,
    ChoiceOutOfBounds,
    /// `random_choice` on an empty list.
    EmptyChoice,
    /// `run_task` names no task of the program.
    UnknownTask,
    /// A `goto` names no label of its own list of tasks.
    LabelNotFound,
    /// The lists of one `for` differ in length.
    ListsDiffer,
    /// A value of `for.name_list_map` is no list.
    ForNotList,
    /// An arm of a map is no object, or an object without a member.
    BadArm,
    /// The text of a `goto_map` has no value and no arm is `NULL`.
    NoNullArm,
    /// No arm of a `goto_map` matches.
    NoMatch,
    /// `chat.messages` is no list.
    MessagesNotList,
    /// A cursor of the state points before the first task of its list.
    BadCursor,
    /// Interpolation failed.
    Interpolation(InterpError),
}

} // verus!
