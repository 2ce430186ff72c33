//! The task store: the ordered list of records and its operations.
use vstd::prelude::*;

use crate::record::{views, TaskView, TodoItem};
use crate::text::{
    all_ws, lemma_seq_lt_asym, lemma_seq_lt_irreflexive, lemma_seq_lt_total, lemma_seq_lt_trans,
    lemma_trimmed_all_ws, seq_lt, str_lt, trim, trimmed,
};

verus! {

/// Why a store operation did nothing.
#[derive(Debug, Clone, Copy, PartialEq, Eq, Structural)]
pub enum TaskError {
    /// The description was empty once trimmed.
    RejectedEmpty,
    /// The index named no record.
    IndexOutOfRange,
}

/// The ordered records of the to-do list.
pub struct TaskStore {
    pub todos: Vec<TodoItem>,
}

/// The record that `add` appends for the given input.
pub open spec fn new_record(description: Seq<char>, category: Seq<char>) -> TaskView {
    TaskView { description: trimmed(description), completed: false, category: trimmed(category) }
}

/// `t` with its completion flag flipped.
pub open spec fn flipped(t: TaskView) -> TaskView {
    TaskView { completed: !t.completed, ..t }
}

/// No record's category is ordered after the category of a later record.
pub open spec fn sorted_by_category(s: Seq<TaskView>) -> bool {
    forall|i: int, j: int|
        0 <= i < j < s.len() ==> !seq_lt(#[trigger] s[j].category, #[trigger] s[i].category)
}

/// `p` maps each position of `new` to the position of `old` that it came
/// from, one to one, and records of equal category keep their order.
pub open spec fn stable_perm(p: Seq<int>, old: Seq<TaskView>, new: Seq<TaskView>) -> bool {
    &&& p.len() == old.len() == new.len()
    &&& forall|k: int| 0 <= k < p.len() ==> 0 <= #[trigger] p[k] < old.len()
    &&& forall|k1: int, k2: int|
        0 <= k1 < k2 < p.len() ==> #[trigger] p[k1] != #[trigger] p[k2]
    &&& forall|k: int| 0 <= k < new.len() ==> #[trigger] new[k] == old[p[k]]
    &&& forall|k1: int, k2: int|
        0 <= k1 < k2 < new.len() && (#[trigger] new[k1]).category == (#[trigger] new[k2]).category
            ==> p[k1] < p[k2]
}

/// The record is shown under the given view settings.
pub open spec fn shown(t: TaskView, show_completed: bool, filter: Option<Seq<char>>) -> bool {
    (show_completed || !t.completed) && match filter {
        None => true,
        Some(c) => t.category == c,
    }
}

/// The positions, among the first `n` records, of those that are shown.
pub open spec fn shown_positions(
    s: Seq<TaskView>,
    n: int,
    show_completed: bool,
    filter: Option<Seq<char>>,
) -> Seq<int>
    decreases n,
{
    if n <= 0 {
        Seq::empty()
    } else {
        let rest = shown_positions(s, n - 1, show_completed, filter);
        if shown(s[n - 1], show_completed, filter) {
            rest.push(n - 1)
        } else {
            rest
        }
    }
}

/// The category filter as plain values.
pub open spec fn filter_view(f: &Option<String>) -> Option<Seq<char>> {
    match f {
        None => None,
        Some(c) => Some(c@),
    }
}

/// Each element is ordered strictly before every later one.
pub open spec fn strictly_sorted(s: Seq<Seq<char>>) -> bool {
    forall|i: int, j: int| 0 <= i < j < s.len() ==> seq_lt(#[trigger] s[i], #[trigger] s[j])
}

/// The character sequences of a list of strings.
pub open spec fn string_views(s: Seq<String>) -> Seq<Seq<char>> {
    s.map_values(|x: String| x@)
}

/// The category of some record.
pub open spec fn has_category(s: Seq<TaskView>, c: Seq<char>) -> bool {
    exists|i: int| 0 <= i < s.len() && #[trigger] s[i].category == c
}

impl View for TaskStore {
    type V = Seq<TaskView>;

    open spec fn view(&self) -> Seq<TaskView> {
        views(self.todos@)
    }
}

impl TaskStore {
    /// An empty store.
    pub fn new() -> (r: TaskStore)
        ensures
            r@ == Seq::<TaskView>::empty(),
    {
        let r = TaskStore { todos: Vec::new() };
        assert(r@ =~= Seq::<TaskView>::empty());
        r
    }

    /// A store holding the given records, in their order.
    pub fn from_records(todos: Vec<TodoItem>) -> (r: TaskStore)
        ensures
            r@ == views(todos@),
    {
        TaskStore { todos }
    }

    /// The number of records.
    pub fn len(&self) -> (r: usize)
        ensures
            r == self@.len(),
    {
        self.todos.len()
    }

    /// The record at `index`.
    pub fn get(&self, index: usize) -> (r: &TodoItem)
        requires
            index < self@.len(),
        ensures
            r@ == self@[index as int],
    {
        &self.todos[index]
    }

    /// Appends a record with the trimmed description and category, not
    /// completed; an input whose description is blank is rejected.
    pub fn add(&mut self, description: &str, category: &str) -> (r: Result<(), TaskError>)
        ensures
            trimmed(description@).len() == 0 ==> r == Err::<(), TaskError>(TaskError::RejectedEmpty)
                && final(self)@ == old(self)@,
            trimmed(description@).len() > 0 ==> r == Ok::<(), TaskError>(()) && final(self)@
                == old(self)@.push(new_record(description@, category@)),
            all_ws(description@) ==> final(self)@ == old(self)@,
    {
        proof {
            if all_ws(description@) {
                lemma_trimmed_all_ws(description@);
            }
        }
        let d = trim(description);
        if d.unicode_len() == 0 {
            return Err(TaskError::RejectedEmpty);
        }
        let c = trim(category);
        let item = TodoItem::new(d, false, c);
        self.todos.push(item);
        assert(self@ =~= old(self)@.push(new_record(description@, category@)));
        Ok(())
    }

    /// Flips the completion flag of the record at `index`.
    pub fn toggle_completed(&mut self, index: usize) -> (r: Result<(), TaskError>)
        ensures
            index < old(self)@.len() ==> r == Ok::<(), TaskError>(()) && final(self)@ == old(
                self,
            )@.update(index as int, flipped(old(self)@[index as int])),
            index >= old(self)@.len() ==> r == Err::<(), TaskError>(TaskError::IndexOutOfRange)
                && final(self)@ == old(self)@,
            index < old(self)@.len() ==> final(self)@.len() == old(self)@.len()
                && final(self)@[index as int].completed != old(self)@[index as int].completed
                && final(self)@[index as int].description == old(self)@[index as int].description
                && final(self)@[index as int].category == old(self)@[index as int].category
                && forall|j: int|
                0 <= j < old(self)@.len() && j != index ==> #[trigger] final(self)@[j] == old(
                    self,
                )@[j],
    {
        if index >= self.todos.len() {
            return Err(TaskError::IndexOutOfRange);
        }
        let t = &self.todos[index];
        let item = TodoItem {
            description: t.description.clone(),
            completed: !t.completed,
            category: t.category.clone(),
        };
        self.todos.set(index, item);
        assert(self@ =~= old(self)@.update(index as int, flipped(old(self)@[index as int])));
        Ok(())
    }

    /// Reorders the records by ascending category, keeping the order of
    /// records with equal categories.
    pub fn sort_by_category(&mut self)
        ensures
            sorted_by_category(final(self)@),
            exists|p: Seq<int>| stable_perm(p, old(self)@, final(self)@),
    {
        let ghost old_s = self@;
        let n = self.todos.len();
        let mut res: Vec<TodoItem> = Vec::new();
        let ghost mut p: Seq<int> = Seq::empty();
        let mut i: usize = 0;
        while i < n
            invariant
                n == old_s.len(),
                old_s == views(self.todos@),
                i <= n,
                res@.len() == i,
                p.len() == i,
                forall|k: int| 0 <= k < i ==> 0 <= #[trigger] p[k] < i,
                forall|k1: int, k2: int| 0 <= k1 < k2 < i ==> #[trigger] p[k1] != #[trigger] p[k2],
                forall|k: int| 0 <= k < i ==> #[trigger] views(res@)[k] == old_s[p[k]],
                sorted_by_category(views(res@)),
                forall|k1: int, k2: int|
                    0 <= k1 < k2 < i && (#[trigger] views(res@)[k1]).category == (
                    #[trigger] views(res@)[k2]).category ==> p[k1] < p[k2],
            decreases n - i,
        {
            let x = self.todos[i].duplicate();
            let ghost r0 = views(res@);
            let mut j: usize = 0;
            while j < res.len() && !str_lt(x.category.as_str(), res[j].category.as_str())
                invariant
                    r0 == views(res@),
                    j <= res@.len(),
                    forall|k: int| 0 <= k < j ==> !seq_lt(x@.category, #[trigger] r0[k].category),
                decreases res@.len() - j,
            {
                j = j + 1;
            }
            let ghost xv = x@;
            res.insert(j, x);
            let ghost r1 = views(res@);
            assert(r1 =~= r0.insert(j as int, xv));
            proof {
                let p1 = p.insert(j as int, i as int);
                assert forall|a: int, b: int| 0 <= a < b < r1.len() implies !seq_lt(
                    #[trigger] r1[b].category,
                    #[trigger] r1[a].category,
                ) by {
                    if b == j {
                        assert(!seq_lt(xv.category, r0[a].category));
                        lemma_seq_lt_total(xv.category, r0[a].category);
                        if xv.category != r0[a].category {
                            lemma_seq_lt_asym(r0[a].category, xv.category);
                        } else {
                            lemma_seq_lt_irreflexive(xv.category);
                        }
                    } else if a == j {
                        assert(seq_lt(xv.category, r0[j as int].category));
                        if b == j + 1 {
                            lemma_seq_lt_asym(xv.category, r0[j as int].category);
                        } else {
                            assert(!seq_lt(r0[b - 1].category, r0[j as int].category));
                            if seq_lt(r0[b - 1].category, xv.category) {
                                lemma_seq_lt_trans(
                                    r0[b - 1].category,
                                    xv.category,
                                    r0[j as int].category,
                                );
                            }
                        }
                    } else if a > j {
                        assert(r1[a] == r0[a - 1] && r1[b] == r0[b - 1]);
                    } else if b > j {
                        assert(r1[b] == r0[b - 1]);
                    }
                }
                assert forall|a: int, b: int|
                    0 <= a < b < r1.len() && (#[trigger] r1[a]).category == (
                    #[trigger] r1[b]).category implies p1[a] < p1[b] by {
                    if a == j {
                        if b == j + 1 {
                            lemma_seq_lt_irreflexive(xv.category);
                        } else {
                            if !seq_lt(r0[b - 1].category, r0[j as int].category) {
                                lemma_seq_lt_total(r0[b - 1].category, r0[j as int].category);
                                if seq_lt(r0[j as int].category, r0[b - 1].category) {
                                    lemma_seq_lt_trans(
                                        xv.category,
                                        r0[j as int].category,
                                        r0[b - 1].category,
                                    );
                                }
                            }
                            lemma_seq_lt_irreflexive(xv.category);
                        }
                    } else if a > j {
                        assert(r1[a] == r0[a - 1] && r1[b] == r0[b - 1]);
                    } else if b > j {
                        assert(r1[b] == r0[b - 1]);
                    }
                }
                assert forall|k1: int, k2: int|
                    0 <= k1 < k2 < p1.len() implies #[trigger] p1[k1] != #[trigger] p1[k2] by {
                    if k1 < j && k2 > j {
                        assert(p1[k2] == p[k2 - 1]);
                    }
                }
                assert forall|k: int| 0 <= k < i + 1 implies #[trigger] views(res@)[k]
                    == old_s[p1[k]] by {
                    if k < j {
                        assert(r1[k] == r0[k]);
                    } else if k > j {
                        assert(r1[k] == r0[k - 1]);
                    }
                }
                p = p1;
            }
            i = i + 1;
        }
        self.todos = res;
        assert(stable_perm(p, old_s, self@));
    }

    /// The categories of the records, without repeats, in ascending order.
    pub fn distinct_categories(&self) -> (r: Vec<String>)
        ensures
            strictly_sorted(string_views(r@)),
            forall|c: Seq<char>| string_views(r@).contains(c) <==> has_category(self@, c),
    {
        let mut r: Vec<String> = Vec::new();
        let mut i: usize = 0;
        while i < self.todos.len()
            invariant
                i <= self@.len(),
                strictly_sorted(string_views(r@)),
                forall|c: Seq<char>|
                    string_views(r@).contains(c) <==> exists|k: int|
                        0 <= k < i && #[trigger] self@[k].category == c,
            decreases self@.len() - i,
        {
            let c = self.todos[i].category.clone();
            insert_sorted_unique(&mut r, c);
            assert forall|c: Seq<char>|
                string_views(r@).contains(c) <==> exists|k: int|
                    0 <= k < i + 1 && #[trigger] self@[k].category == c by {
                if c == self@[i as int].category {
                    assert(self@[i as int].category == c);
                }
            }
            i = i + 1;
        }
        r
    }

    /// The positions, in store order, of the records that are shown when
    /// completed records are shown or hidden and the category filter is
    /// absent or given.
    pub fn filtered_view(&self, show_completed: bool, category_filter: &Option<String>) -> (r:
        Vec<usize>)
        ensures
            r@.map_values(|k: usize| k as int) == shown_positions(
                self@,
                self@.len() as int,
                show_completed,
                filter_view(category_filter),
            ),
    {
        let ghost f = filter_view(category_filter);
        let mut r: Vec<usize> = Vec::new();
        let mut i: usize = 0;
        while i < self.todos.len()
            invariant
                i <= self@.len(),
                f == filter_view(category_filter),
                r@.map_values(|k: usize| k as int) == shown_positions(
                    self@,
                    i as int,
                    show_completed,
                    f,
                ),
            decreases self@.len() - i,
        {
            let t = &self.todos[i];
            let keep_done = show_completed || !t.completed;
            let keep_cat = match category_filter {
                None => true,
                Some(c) => t.category.eq(c),
            };
            let ghost r0 = r@;
            assert(self@[i as int] == t@);
            assert(shown(self@[i as int], show_completed, f) == (keep_done && keep_cat));
            if keep_done && keep_cat {
                r.push(i);
                assert(r@.map_values(|k: usize| k as int) =~= r0.map_values(|k: usize| k as int).push(
                    i as int,
                ));
            }
            i = i + 1;
        }
        r
    }
}

/// Inserts `x` into a strictly sorted list unless it is already there.
pub fn insert_sorted_unique(v: &mut Vec<String>, x: String)
    requires
        strictly_sorted(string_views(old(v)@)),
    ensures
        strictly_sorted(string_views(final(v)@)),
        forall|c: Seq<char>|
            string_views(final(v)@).contains(c) <==> (string_views(old(v)@).contains(c) || c
                == x@),
{
    let ghost s0 = string_views(v@);
    let mut j: usize = 0;
    while j < v.len() && str_lt(v[j].as_str(), x.as_str())
        invariant
            v@ == old(v)@,
            s0 == string_views(v@),
            j <= v.len(),
            forall|k: int| 0 <= k < j ==> seq_lt(#[trigger] s0[k], x@),
        decreases v.len() - j,
    {
        j = j + 1;
    }
    if j < v.len() && v[j] == x {
        assert(s0[j as int] == x@);
        assert forall|c: Seq<char>|
            string_views(v@).contains(c) <==> (s0.contains(c) || c == x@) by {
            if c == x@ {
                assert(s0[j as int] == c);
            }
        }
        return;
    }
    proof {
        if j < v.len() {
            lemma_seq_lt_total(s0[j as int], x@);
        }
    }
    let ghost xv = x@;
    v.insert(j, x);
    let ghost s1 = string_views(v@);
    assert(s1 =~= s0.insert(j as int, xv));
    assert forall|a: int, b: int| 0 <= a < b < s1.len() implies seq_lt(
        #[trigger] s1[a],
        #[trigger] s1[b],
    ) by {
        if b == j {
        } else if a == j {
            if b > j + 1 {
                lemma_seq_lt_trans(xv, s0[j as int], s0[b - 1]);
            }
        } else if a > j {
        } else if b > j {
            assert(s1[b] == s0[b - 1]);
        }
    }
    assert forall|c: Seq<char>| s1.contains(c) <==> (s0.contains(c) || c == xv) by {
        if c == xv {
            assert(s1[j as int] == c);
        }
        if s0.contains(c) {
            let k = choose|k: int| 0 <= k < s0.len() && s0[k] == c;
            if k < j {
                assert(s1[k] == c);
            } else {
                assert(s1[k + 1] == c);
            }
        }
        if s1.contains(c) {
            let k = choose|k: int| 0 <= k < s1.len() && s1[k] == c;
            if k < j {
                assert(s0[k] == c);
            } else if k > j {
                assert(s0[k - 1] == c);
            }
        }
    }
}

} // verus!
