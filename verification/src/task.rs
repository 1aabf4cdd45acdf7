//! The task entity and its mathematical view.

use vstd::prelude::*;

verus! {

/// One to-do item. `id` is assigned by the collection and is never
/// user-supplied; `title` is required; the three text fields are optional
/// and free-form; `complete` starts out `false`.
#[derive(Clone, Debug, PartialEq)]
pub struct Task {
    pub id: u32,
    pub title: String,
    pub description: Option<String>,
    pub class: Option<String>,
    pub due_date: Option<String>,
    pub complete: bool,
}

/// The mathematical value of a task: the same record over sequences of
/// characters.
pub struct TaskView {
    pub id: u32,
    pub title: Seq<char>,
    pub description: Option<Seq<char>>,
    pub class: Option<Seq<char>>,
    pub due_date: Option<Seq<char>>,
    pub complete: bool,
}

pub open spec fn opt_view(o: Option<String>) -> Option<Seq<char>> {
    match o {
        Some(s) => Some(s@),
        None => None,
    }
}

impl View for Task {
    type V = TaskView;

    open spec fn view(&self) -> TaskView {
        TaskView {
            id: self.id,
            title: self.title@,
            description: opt_view(self.description),
            class: opt_view(self.class),
            due_date: opt_view(self.due_date),
            complete: self.complete,
        }
    }
}

/// The view of a whole collection, in insertion order.
pub open spec fn tasks_view(ts: Seq<Task>) -> Seq<TaskView> {
    ts.map(|_i: int, t: Task| t@)
}

} // verus!
