//! The task record and its mathematical view.
use vstd::prelude::*;

verus! {

/// A task record as plain values.
pub struct TaskView {
    pub description: Seq<char>,
    pub completed: bool,
    pub category: Seq<char>,
}

/// One to-do entry.
pub struct TodoItem {
    pub description: String,
    pub completed: bool,
    pub category: String,
}

impl View for TodoItem {
    type V = TaskView;

    open spec fn view(&self) -> TaskView {
        TaskView {
            description: self.description@,
            completed: self.completed,
            category: self.category@,
        }
    }
}

/// The views of a sequence of records.
pub open spec fn views(s: Seq<TodoItem>) -> Seq<TaskView> {
    s.map_values(|t: TodoItem| t@)
}

impl TodoItem {
    /// A record holding the given values as they are.
    pub fn new(description: &str, completed: bool, category: &str) -> (r: TodoItem)
        ensures
            r@ == (TaskView { description: description@, completed, category: category@ }),
    {
        TodoItem {
            description: description.to_string(),
            completed,
            category: category.to_string(),
        }
    }

    /// An equal copy of this record.
    pub fn duplicate(&self) -> (r: TodoItem)
        ensures
            r@ == self@,
    {
        TodoItem {
            description: self.description.clone(),
            completed: self.completed,
            category: self.category.clone(),
        }
    }
}

} // verus!
