//! The state behind the to-do window and its transitions: each message
//! changes the state and says whether the records must be written out.
use vstd::prelude::*;

use crate::record::TodoItem;
use crate::store::{
    filter_view, flipped, has_category, new_record, shown_positions,
    sorted_by_category, stable_perm, string_views, strictly_sorted, TaskStore,
};
use crate::text::trimmed;

verus! {

/// A choice of the category filter: a category, or all of them.
#[derive(Debug, Clone, PartialEq, Eq)]
pub struct FilterCategory(pub Option<String>);

/// The label shown for the choice of all categories.
pub open spec fn all_label() -> Seq<char> {
    seq!['A', 'l', 'l']
}

impl FilterCategory {
    /// The text shown for this choice: the category, or `All`.
    pub fn label(&self) -> (r: String)
        ensures
            r@ == match self.0 {
                Some(c) => c@,
                None => all_label(),
            },
    {
        match &self.0 {
            Some(c) => c.clone(),
            None => {
                proof {
                    reveal_strlit("All");
                    assert("All"@ =~= all_label());
                }
                "All".to_string()
            },
        }
    }
}

/// The mark shown beside a record: checked when it is completed.
pub fn completion_mark(completed: bool) -> (r: &'static str)
    ensures
        r@ == (if completed {
            "[x]"@
        } else {
            "[ ]"@
        }),
{
    if completed {
        "[x]"
    } else {
        "[ ]"
    }
}

/// An action of the user.
#[derive(Debug, Clone)]
pub enum Message {
    TodoInputChanged(String),
    CategoryInputChanged(String),
    AddTodo,
    ToggleTodoCompleted(usize),
    ToggleShowCompleted,
    SortByCategory,
    FilterCategoryChanged(FilterCategory),
}

/// The state of the to-do window.
pub struct ProductivityApp {
    pub todo_input: String,
    pub category_input: String,
    pub store: TaskStore,
    pub show_completed: bool,
    pub sort_by_category: bool,
    pub filter_category: Option<String>,
}

/// The two input fields are the same in both states.
pub open spec fn same_inputs(a: ProductivityApp, b: ProductivityApp) -> bool {
    a.todo_input@ == b.todo_input@ && a.category_input@ == b.category_input@
}

/// The view settings are the same in both states.
pub open spec fn same_settings(a: ProductivityApp, b: ProductivityApp) -> bool {
    a.show_completed == b.show_completed && a.sort_by_category == b.sort_by_category
        && filter_view(&a.filter_category) == filter_view(&b.filter_category)
}

/// The categories named by the choices after the first.
pub open spec fn filter_names(s: Seq<FilterCategory>) -> Seq<Seq<char>> {
    s.drop_first().map_values(
        |f: FilterCategory|
            match f.0 {
                Some(c) => c@,
                None => Seq::empty(),
            },
    )
}

impl ProductivityApp {
    /// The window title.
    pub fn title(&self) -> (r: String)
        ensures
            r@ == "Productivity GUI - To-Do & Calendar"@,
    {
        "Productivity GUI - To-Do & Calendar".to_string()
    }

    /// The label of the button that shows or hides completed records.
    pub fn show_completed_label(&self) -> (r: &'static str)
        ensures
            r@ == (if self.show_completed {
                "Hide Completed"@
            } else {
                "Show Completed"@
            }),
    {
        if self.show_completed {
            "Hide Completed"
        } else {
            "Show Completed"
        }
    }

    /// The label of the button that sorts by category or undoes that.
    pub fn sort_label(&self) -> (r: &'static str)
        ensures
            r@ == (if self.sort_by_category {
                "Unsort"@
            } else {
                "Sort by Category"@
            }),
    {
        if self.sort_by_category {
            "Unsort"
        } else {
            "Sort by Category"
        }
    }

    /// The starting state over the loaded records: empty inputs, completed
    /// records hidden, insertion order, no category filter.
    pub fn new(todos: Vec<TodoItem>) -> (r: ProductivityApp)
        ensures
            r.store@ == crate::record::views(todos@),
            r.todo_input@.len() == 0,
            r.category_input@.len() == 0,
            !r.show_completed,
            !r.sort_by_category,
            r.filter_category.is_none(),
    {
        ProductivityApp {
            todo_input: String::new(),
            category_input: String::new(),
            store: TaskStore::from_records(todos),
            show_completed: false,
            sort_by_category: false,
            filter_category: None,
        }
    }

    /// The categories to choose from: those of the records, without
    /// repeats, in ascending order.
    pub fn categories(&self) -> (r: Vec<String>)
        ensures
            strictly_sorted(string_views(r@)),
            forall|c: Seq<char>| string_views(r@).contains(c) <==> has_category(self.store@, c),
    {
        self.store.distinct_categories()
    }

    /// The category filter's choices: all categories first, then each
    /// category of `categories`, in its order.
    pub fn filter_categories(&self) -> (r: Vec<FilterCategory>)
        ensures
            r@.len() >= 1,
            r@[0].0.is_none(),
            forall|k: int| 1 <= k < r@.len() ==> (#[trigger] r@[k]).0.is_some(),
            strictly_sorted(filter_names(r@)),
            forall|c: Seq<char>| filter_names(r@).contains(c) <==> has_category(self.store@, c),
    {
        let cats = self.categories();
        let mut r: Vec<FilterCategory> = Vec::new();
        r.push(FilterCategory(None));
        let mut i: usize = 0;
        while i < cats.len()
            invariant
                i <= cats@.len(),
                r@.len() == i + 1,
                r@[0].0.is_none(),
                forall|k: int| 1 <= k < r@.len() ==> (#[trigger] r@[k]).0.is_some(),
                filter_names(r@) =~= string_views(cats@).take(i as int),
            decreases cats@.len() - i,
        {
            r.push(FilterCategory(Some(cats[i].clone())));
            i = i + 1;
        }
        assert(string_views(cats@).take(cats@.len() as int) =~= string_views(cats@));
        r
    }

    /// The positions of the records shown under the current settings.
    pub fn visible_todos(&self) -> (r: Vec<usize>)
        ensures
            r@.map_values(|k: usize| k as int) == shown_positions(
                self.store@,
                self.store@.len() as int,
                self.show_completed,
                filter_view(&self.filter_category),
            ),
    {
        self.store.filtered_view(self.show_completed, &self.filter_category)
    }

    /// Applies one message. The result says whether the records changed in a
    /// way that must be written out: adding or toggling a record. Sorting is
    /// a way of viewing the list and is deliberately not written out; the
    /// sorted order reaches the file with the next add or toggle.
    pub fn update(&mut self, message: Message) -> (save: bool)
        ensures
            match message {
                Message::TodoInputChanged(s) => final(self).todo_input@ == s@
                    && final(self).category_input@ == old(self).category_input@
                    && final(self).store@ == old(self).store@
                    && same_settings(*final(self), *old(self)) && !save,
                Message::CategoryInputChanged(s) => final(self).category_input@ == s@
                    && final(self).todo_input@ == old(self).todo_input@
                    && final(self).store@ == old(self).store@
                    && same_settings(*final(self), *old(self)) && !save,
                Message::AddTodo => if trimmed(old(self).todo_input@).len() > 0 {
                    final(self).store@ == old(self).store@.push(
                        new_record(old(self).todo_input@, old(self).category_input@),
                    ) && final(self).todo_input@.len() == 0
                        && final(self).category_input@.len() == 0
                        && same_settings(*final(self), *old(self)) && save
                } else {
                    final(self).store@ == old(self).store@
                        && same_inputs(*final(self), *old(self))
                        && same_settings(*final(self), *old(self)) && !save
                },
                Message::ToggleTodoCompleted(i) => same_inputs(*final(self), *old(self))
                    && same_settings(*final(self), *old(self)) && if i < old(self).store@.len() {
                    final(self).store@ == old(self).store@.update(
                        i as int,
                        flipped(old(self).store@[i as int]),
                    ) && save
                } else {
                    final(self).store@ == old(self).store@ && !save
                },
                Message::ToggleShowCompleted => final(self).show_completed
                    == !old(self).show_completed
                    && final(self).sort_by_category == old(self).sort_by_category
                    && filter_view(&final(self).filter_category) == filter_view(
                    &old(self).filter_category,
                ) && final(self).store@ == old(self).store@
                    && same_inputs(*final(self), *old(self)) && !save,
                Message::SortByCategory => final(self).sort_by_category
                    == !old(self).sort_by_category
                    && final(self).show_completed == old(self).show_completed
                    && filter_view(&final(self).filter_category) == filter_view(
                    &old(self).filter_category,
                ) && same_inputs(*final(self), *old(self)) && !save && (final(self).sort_by_category
                    ==> sorted_by_category(final(self).store@) && exists|p: Seq<int>|
                    stable_perm(p, old(self).store@, final(self).store@)) && (
                !final(self).sort_by_category ==> final(self).store@ == old(self).store@),
                Message::FilterCategoryChanged(f) => filter_view(&final(self).filter_category)
                    == filter_view(&f.0) && final(self).show_completed
                    == old(self).show_completed && final(self).sort_by_category
                    == old(self).sort_by_category && final(self).store@ == old(self).store@
                    && same_inputs(*final(self), *old(self)) && !save,
            },
    {
        match message {
            Message::TodoInputChanged(input) => {
                self.todo_input = input;
                false
            },
            Message::CategoryInputChanged(input) => {
                self.category_input = input;
                false
            },
            Message::AddTodo => {
                match self.store.add(self.todo_input.as_str(), self.category_input.as_str()) {
                    Ok(()) => {
                        self.todo_input = String::new();
                        self.category_input = String::new();
                        true
                    },
                    Err(_) => false,
                }
            },
            Message::ToggleTodoCompleted(idx) => self.store.toggle_completed(idx).is_ok(),
            Message::ToggleShowCompleted => {
                self.show_completed = !self.show_completed;
                false
            },
            Message::SortByCategory => {
                self.sort_by_category = !self.sort_by_category;
                if self.sort_by_category {
                    self.store.sort_by_category();
                }
                false
            },
            Message::FilterCategoryChanged(cat) => {
                self.filter_category = cat.0;
                false
            },
        }
    }
}

} // verus!
