//! The task record and its mathematical view.

use vstd::prelude::*;

verus! {

/// One to-do item. The `removed` flag is a soft delete: a removed task is
/// hidden from listings but keeps its slot, so the positions of the tasks
/// after it never shift.
#[derive(Debug, Clone, PartialEq, Eq)]
pub struct Task {
    pub id: String,
    pub description: String,
    pub done: bool,
    pub creation_date: String,
    pub removed: bool,
}

/// The mathematical value of a task: its text fields as character
/// sequences, and the two flags.
pub struct TaskView {
    pub id: Seq<char>,
    pub description: Seq<char>,
    pub done: bool,
    pub creation_date: Seq<char>,
    pub removed: bool,
}

impl View for Task {
    type V = TaskView;

    open spec fn view(&self) -> TaskView {
        TaskView {
            id: self.id@,
            description: self.description@,
            done: self.done,
            creation_date: self.creation_date@,
            removed: self.removed,
        }
    }
}

/// The views of all tasks in a list, in order.
pub open spec fn views(s: Seq<Task>) -> Seq<TaskView> {
    s.map_values(|t: Task| t@)
}

impl Task {
    /// A fresh task: not done, not removed.
    pub fn new(id: String, description: String, creation_date: String) -> (t: Task)
        ensures
            t@ == (TaskView {
                id: id@,
                description: description@,
                done: false,
                creation_date: creation_date@,
                removed: false,
            }),
    {
        Task { id, description, done: false, creation_date, removed: false }
    }
}

/// The position given to an operation does not address any task.
#[derive(Clone, Copy, PartialEq, Eq, Debug)]
pub struct NotFoundError;

/// The description offered for a new task is empty or all whitespace.
#[derive(Clone, Copy, PartialEq, Eq, Debug)]
pub struct ValidationError;

} // verus!
