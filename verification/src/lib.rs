//! A small task-tracking library: an ordered collection of tasks with
//! create / edit / complete / delete / clear / list operations, and a
//! JSON codec for the on-disk store document.

use vstd::prelude::*;

pub mod collection;
pub mod json;
pub mod laws;
pub mod parse;
pub mod roundtrip;
pub mod ser;
pub mod task;

pub use collection::{
    clear_tasks, delete_task, edit_task, list_tasks, mark_task_complete, max_task_id, new_task,
};
pub use parse::parse_tasks;
pub use ser::serialize_tasks;
pub use task::Task;

verus! {

} // verus!
