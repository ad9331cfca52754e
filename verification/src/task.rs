//! Tasks: a numbered description with a completion flag.

use vstd::prelude::*;

verus! {

/// A task, open or done.
#[derive(Debug)]
pub struct Task {
    pub id: u32,
    pub description: String,
    pub done: bool,
}

impl Task {
    /// Makes an open task with the given number and description.
    pub fn new(id: u32, description: String) -> (task: Self)
        ensures
            task.id == id,
            task.description == description,
            !task.done,
    {
        Task { id, description, done: false }
    }
}

} // verus!
