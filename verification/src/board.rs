//! The kanban board's state and what it shows: the tasks of each column,
//! the repository filter, the selection, and the actions on offer.
use vstd::prelude::*;
use crate::store::{Task, TaskStatus, TaskView};
use crate::input::InputMode;
use crate::text::{copy_string, lex_lt, str_lt, str_eq, opt_view, lemma_lex_total, lemma_lex_transitive,
    lemma_lex_irreflexive};

verus! {

// ---------------------------------------------------------------------------
// Which tasks a column shows
// ---------------------------------------------------------------------------

/// The views of a list of tasks.
pub open spec fn tasks_view(v: Seq<Task>) -> Seq<TaskView> {
    v.map_values(|t: Task| t@)
}

/// The views of a list of borrowed tasks.
pub open spec fn refs_view(v: Seq<&Task>) -> Seq<TaskView> {
    v.map_values(|t: &Task| t@)
}

/// Whether the repository filter lets a task through.
pub open spec fn passes_filter(t: TaskView, filter: Option<Seq<char>>) -> bool {
    match filter {
        None => true,
        Some(f) => t.repo_path == f,
    }
}

/// The tasks that the filter lets through, in their order.
pub open spec fn filtered(tasks: Seq<TaskView>, filter: Option<Seq<char>>) -> Seq<TaskView>
    decreases tasks.len(),
{
    if tasks.len() == 0 {
        seq![]
    } else {
        let rest = filtered(tasks.drop_last(), filter);
        if passes_filter(tasks.last(), filter) {
            rest.push(tasks.last())
        } else {
            rest
        }
    }
}

/// The tasks of one status that the filter lets through, in their order.
pub open spec fn column_members(tasks: Seq<TaskView>, status: TaskStatus, filter: Option<Seq<char>>) -> Seq<TaskView>
    decreases tasks.len(),
{
    if tasks.len() == 0 {
        seq![]
    } else {
        let rest = column_members(tasks.drop_last(), status, filter);
        let t = tasks.last();
        if t.status == status && passes_filter(t, filter) {
            rest.push(t)
        } else {
            rest
        }
    }
}

/// Where a task goes among tasks ordered newest first: after every task
/// updated no earlier than it.
pub open spec fn recency_pos(sorted: Seq<TaskView>, t: TaskView) -> int
    decreases sorted.len(),
{
    if sorted.len() == 0 || lex_lt(sorted[0].updated_at, t.updated_at) {
        0
    } else {
        1 + recency_pos(sorted.drop_first(), t)
    }
}

/// The tasks ordered by last update, newest first; tasks updated at the
/// same time keep their order.
pub open spec fn newest_first(s: Seq<TaskView>) -> Seq<TaskView>
    decreases s.len(),
{
    if s.len() == 0 {
        seq![]
    } else {
        let sorted = newest_first(s.drop_last());
        sorted.insert(recency_pos(sorted, s.last()), s.last())
    }
}

/// Whether a column shows its tasks newest first: the Done column and the
/// Keep lane.
pub open spec fn sorts_by_recency(status: TaskStatus) -> bool {
    status == TaskStatus::Done || status == TaskStatus::Keep
}

/// What a column shows: its tasks in their order, except for the Done
/// column and the Keep lane, which show the most recently updated first.
pub open spec fn column_view(tasks: Seq<TaskView>, status: TaskStatus, filter: Option<Seq<char>>) -> Seq<TaskView> {
    if sorts_by_recency(status) {
        newest_first(column_members(tasks, status, filter))
    } else {
        column_members(tasks, status, filter)
    }
}

/// The status of each column, left to right.
pub open spec fn column_status(i: int) -> TaskStatus {
    if i == 0 {
        TaskStatus::Backlog
    } else if i == 1 {
        TaskStatus::Running
    } else if i == 2 {
        TaskStatus::Blocked
    } else if i == 3 {
        TaskStatus::Done
    } else {
        TaskStatus::Keep
    }
}

/// The number of columns on show: four, and the Keep lane when it is
/// revealed.
pub open spec fn column_count(show_keep: bool) -> int {
    if show_keep {
        5
    } else {
        4
    }
}

proof fn lemma_recency_pos_skip(sorted: Seq<TaskView>, t: TaskView, k: int)
    requires
        0 <= k < sorted.len(),
    ensures
        recency_pos(sorted.skip(k), t) == if lex_lt(sorted[k].updated_at, t.updated_at) {
            0
        } else {
            1 + recency_pos(sorted.skip(k + 1), t)
        },
{
    assert(sorted.skip(k).drop_first() =~= sorted.skip(k + 1));
    assert(sorted.skip(k)[0] == sorted[k]);
}

proof fn lemma_recency_pos_bound(sorted: Seq<TaskView>, t: TaskView)
    ensures
        0 <= recency_pos(sorted, t) <= sorted.len(),
    decreases sorted.len(),
{
    if sorted.len() > 0 {
        lemma_recency_pos_bound(sorted.drop_first(), t);
    }
}

proof fn lemma_newest_first_len(s: Seq<TaskView>)
    ensures
        newest_first(s).len() == s.len(),
    decreases s.len(),
{
    if s.len() > 0 {
        lemma_newest_first_len(s.drop_last());
        lemma_recency_pos_bound(newest_first(s.drop_last()), s.last());
    }
}

/// The current repository filter as plain text.
pub open spec fn filter_view(f: Option<String>) -> Option<Seq<char>> {
    opt_view(f)
}

} // verus!

verus! {

// ---------------------------------------------------------------------------
// The board
// ---------------------------------------------------------------------------

/// What the board holds between key presses: the tasks as last loaded, the
/// selection, the repository filter, the input mode and the detail pane's
/// scroll state.
pub struct Board {
    pub tasks: Vec<Task>,
    pub selected_column: usize,
    pub selected_row: usize,
    pub should_quit: bool,
    /// Lines scrolled up from the bottom of the detail pane.
    pub detail_scroll: u16,
    pub detail_at_bottom: bool,
    pub input_mode: InputMode,
    pub show_help: bool,
    /// When set, only tasks of this repository are shown.
    pub repo_filter: Option<String>,
    /// Whether the Keep lane is shown (it is hidden at first).
    pub show_keep: bool,
}

/// The status of a column, left to right: Backlog, Running, Blocked, Done,
/// Keep.
pub fn column_at(i: usize) -> (r: TaskStatus)
    ensures
        r == column_status(i as int),
{
    if i == 0 {
        TaskStatus::Backlog
    } else if i == 1 {
        TaskStatus::Running
    } else if i == 2 {
        TaskStatus::Blocked
    } else if i == 3 {
        TaskStatus::Done
    } else {
        TaskStatus::Keep
    }
}

impl Board {
    /// The selected column is one of those on show.
    pub open spec fn wf(&self) -> bool {
        self.selected_column < column_count(self.show_keep)
    }

    /// The number of columns on show.
    pub fn column_count(&self) -> (r: usize)
        ensures
            r == column_count(self.show_keep),
    {
        if self.show_keep {
            5
        } else {
            4
        }
    }

    pub open spec fn task_views(&self) -> Seq<TaskView> {
        tasks_view(self.tasks@)
    }

    pub open spec fn filter(&self) -> Option<Seq<char>> {
        filter_view(self.repo_filter)
    }

    /// What a column of this board shows.
    pub open spec fn column_spec(&self, status: TaskStatus) -> Seq<TaskView> {
        column_view(self.task_views(), status, self.filter())
    }

    /// What the selected column shows.
    pub open spec fn current_column_spec(&self) -> Seq<TaskView> {
        self.column_spec(column_status(self.selected_column as int))
    }

    /// A board showing `tasks`, with the first column selected.
    pub fn new(tasks: Vec<Task>, repo_filter: Option<String>) -> (r: Board)
        ensures
            r.wf(),
            r.tasks@ == tasks@,
            r.repo_filter == repo_filter,
            r.selected_column == 0,
            r.selected_row == 0,
            !r.should_quit,
            !r.show_help,
            r.detail_scroll == 0,
            r.detail_at_bottom,
            r.input_mode is Normal,
            !r.show_keep,
    {
        Board {
            tasks,
            selected_column: 0,
            selected_row: 0,
            should_quit: false,
            detail_scroll: 0,
            detail_at_bottom: true,
            input_mode: InputMode::Normal,
            show_help: false,
            repo_filter,
            show_keep: false,
        }
    }

    fn passes(&self, t: &Task) -> (r: bool)
        ensures
            r == passes_filter(t@, self.filter()),
    {
        match &self.repo_filter {
            None => true,
            Some(f) => str_eq(t.repo_path.as_str(), f.as_str()),
        }
    }

    /// The tasks of one column, in the order shown: the Done column shows
    /// the most recently updated first.
    pub fn tasks_in_column(&self, status: &TaskStatus) -> (r: Vec<&Task>)
        ensures
            refs_view(r@) == self.column_spec(*status),
    {
        let ghost tv = self.task_views();
        let mut out: Vec<&Task> = Vec::new();
        let mut i: usize = 0;
        while i < self.tasks.len()
            invariant
                tv == self.task_views(),
                0 <= i <= self.tasks@.len(),
                refs_view(out@) == column_members(tv.take(i as int), *status, self.filter()),
            decreases self.tasks@.len() - i,
        {
            let t = &self.tasks[i];
            let keep = t.status == *status && self.passes(t);
            if keep {
                out.push(t);
            }
            proof {
                assert(tv.take(i + 1).drop_last() =~= tv.take(i as int));
                assert(tv.take(i + 1).last() == t@);
                assert(refs_view(out@) =~= column_members(tv.take(i + 1), *status, self.filter()));
            }
            i = i + 1;
        }
        proof {
            assert(tv.take(i as int) =~= tv);
        }
        if *status == TaskStatus::Done || *status == TaskStatus::Keep {
            newest_first_refs(out)
        } else {
            out
        }
    }
}

/// Order borrowed tasks newest first (a stable insertion sort on the
/// update time).
fn newest_first_refs<'a>(v: Vec<&'a Task>) -> (r: Vec<&'a Task>)
    ensures
        refs_view(r@) == newest_first(refs_view(v@)),
{
    let ghost vv = refs_view(v@);
    let mut sorted: Vec<&'a Task> = Vec::new();
    let mut i: usize = 0;
    while i < v.len()
        invariant
            vv == refs_view(v@),
            0 <= i <= v@.len(),
            refs_view(sorted@) == newest_first(vv.take(i as int)),
        decreases v@.len() - i,
    {
        let t = v[i];
        let ghost sv = refs_view(sorted@);
        let mut k: usize = 0;
        proof {
            assert(sv.skip(0) =~= sv);
            lemma_newest_first_len(vv.take(i as int));
        }
        while k < sorted.len() && !str_lt(sorted[k].updated_at.as_str(), t.updated_at.as_str())
            invariant
                sv == refs_view(sorted@),
                0 <= k <= sorted@.len(),
                recency_pos(sv, t@) == k + recency_pos(sv.skip(k as int), t@),
            decreases sorted@.len() - k,
        {
            proof {
                lemma_recency_pos_skip(sv, t@, k as int);
            }
            k = k + 1;
        }
        proof {
            if k < sorted@.len() {
                lemma_recency_pos_skip(sv, t@, k as int);
            } else {
                assert(sv.skip(k as int).len() == 0);
            }
        }
        sorted.insert(k, t);
        proof {
            assert(vv.take(i + 1).drop_last() =~= vv.take(i as int));
            assert(vv.take(i + 1).last() == t@);
            assert(refs_view(sorted@) =~= sv.insert(k as int, t@));
        }
        i = i + 1;
    }
    proof {
        assert(vv.take(i as int) =~= vv);
    }
    sorted
}

} // verus!

verus! {

// ---------------------------------------------------------------------------
// Repositories and the filter
// ---------------------------------------------------------------------------

/// Texts in strictly increasing order (so none occurs twice).
pub open spec fn strictly_sorted(s: Seq<Seq<char>>) -> bool {
    forall|i: int, j: int| 0 <= i < j < s.len() ==> lex_lt(#[trigger] s[i], #[trigger] s[j])
}

/// Whether some task belongs to a repository.
pub open spec fn has_repo(tasks: Seq<TaskView>, p: Seq<char>) -> bool {
    exists|i: int| 0 <= i < tasks.len() && (#[trigger] tasks[i]).repo_path == p
}

/// The place of a text in a list: the index of its first occurrence, or the
/// list's length where it does not occur.
pub open spec fn position_of(s: Seq<Seq<char>>, x: Seq<char>) -> int
    decreases s.len(),
{
    if s.len() == 0 || s[0] == x {
        0
    } else {
        1 + position_of(s.drop_first(), x)
    }
}

/// The filter after the next press of the cycling key: none becomes the
/// first repository, each repository the next one, and the last (or one no
/// longer listed) none again.
pub open spec fn next_filter(repos: Seq<Seq<char>>, current: Option<Seq<char>>) -> Option<Seq<char>> {
    match current {
        None => Some(repos[0]),
        Some(c) => {
            let i = position_of(repos, c);
            if i + 1 < repos.len() {
                Some(repos[i + 1])
            } else {
                None
            }
        },
    }
}

proof fn lemma_position_of_skip(s: Seq<Seq<char>>, x: Seq<char>, k: int)
    requires
        0 <= k < s.len(),
    ensures
        position_of(s.skip(k), x) == if s[k] == x {
            0
        } else {
            1 + position_of(s.skip(k + 1), x)
        },
{
    assert(s.skip(k).drop_first() =~= s.skip(k + 1));
    assert(s.skip(k)[0] == s[k]);
}

/// The `&str` views of a list of strings.
pub open spec fn texts_view(v: Seq<String>) -> Seq<Seq<char>> {
    v.map_values(|s: String| s@)
}

impl Board {
    /// The tasks that the repository filter lets through, in their order.
    pub fn filtered_tasks(&self) -> (r: Vec<&Task>)
        ensures
            refs_view(r@) == filtered(self.task_views(), self.filter()),
    {
        let ghost tv = self.task_views();
        let mut out: Vec<&Task> = Vec::new();
        let mut i: usize = 0;
        while i < self.tasks.len()
            invariant
                tv == self.task_views(),
                0 <= i <= self.tasks@.len(),
                refs_view(out@) == filtered(tv.take(i as int), self.filter()),
            decreases self.tasks@.len() - i,
        {
            let t = &self.tasks[i];
            if self.passes(t) {
                out.push(t);
            }
            proof {
                assert(tv.take(i + 1).drop_last() =~= tv.take(i as int));
                assert(tv.take(i + 1).last() == t@);
                assert(refs_view(out@) =~= filtered(tv.take(i + 1), self.filter()));
            }
            i = i + 1;
        }
        proof {
            assert(tv.take(i as int) =~= tv);
        }
        out
    }

    /// The repositories of all tasks (whatever the filter), each once, in
    /// increasing order.
    pub fn unique_repos(&self) -> (r: Vec<String>)
        ensures
            strictly_sorted(texts_view(r@)),
            forall|p: Seq<char>| texts_view(r@).contains(p) <==> has_repo(self.task_views(), p),
            texts_view(r@) == repo_list(self.task_views()),
    {
        let ghost tv = self.task_views();
        let mut repos: Vec<String> = Vec::new();
        let mut i: usize = 0;
        while i < self.tasks.len()
            invariant
                tv == self.task_views(),
                0 <= i <= self.tasks@.len(),
                strictly_sorted(texts_view(repos@)),
                forall|p: Seq<char>| texts_view(repos@).contains(p) <==> has_repo(tv.take(i as int), p),
            decreases self.tasks@.len() - i,
        {
            let p = &self.tasks[i].repo_path;
            let ghost rv = texts_view(repos@);
            let mut k: usize = 0;
            while k < repos.len() && str_lt(repos[k].as_str(), p.as_str())
                invariant
                    rv == texts_view(repos@),
                    0 <= k <= repos@.len(),
                    forall|j: int| 0 <= j < k ==> lex_lt(#[trigger] rv[j], p@),
                decreases repos@.len() - k,
            {
                k = k + 1;
            }
            let present = k < repos.len() && str_eq(repos[k].as_str(), p.as_str());
            if !present {
                repos.insert(k, p.clone());
                proof {
                    let nv = texts_view(repos@);
                    assert(nv =~= rv.insert(k as int, p@));
                    assert forall|a: int, b: int| 0 <= a < b < nv.len() implies lex_lt(
                        #[trigger] nv[a],
                        #[trigger] nv[b],
                    ) by {
                        if b < k {
                        } else if a < k && b == k {
                        } else if a < k {
                            assert(lex_lt(rv[a], rv[b - 1]));
                        } else if a == k {
                            lemma_lex_total(rv[k as int], p@);
                            if b - 1 > k {
                                lemma_lex_transitive(p@, rv[k as int], rv[b - 1]);
                            }
                        } else {
                        }
                    }
                }
            }
            proof {
                let nv = texts_view(repos@);
                let tv1 = tv.take(i + 1);
                assert(tv1[i as int] == tv[i as int]);
                assert forall|q: Seq<char>| nv.contains(q) <==> has_repo(tv1, q) by {
                    if has_repo(tv1, q) {
                        let j = choose|j: int| 0 <= j < tv1.len() && (#[trigger] tv1[j]).repo_path == q;
                        if j < i {
                            assert(tv.take(i as int)[j] == tv1[j]);
                            assert(has_repo(tv.take(i as int), q));
                            assert(rv.contains(q));
                            let m = choose|m: int| 0 <= m < rv.len() && rv[m] == q;
                            if !present {
                                if m < k {
                                    assert(nv[m] == q);
                                } else {
                                    assert(nv[m + 1] == q);
                                }
                            }
                        } else {
                            if present {
                                assert(nv[k as int] == q);
                            } else {
                                assert(nv[k as int] == q);
                            }
                        }
                    }
                    if nv.contains(q) {
                        let m = choose|m: int| 0 <= m < nv.len() && nv[m] == q;
                        if !present && m == k {
                            assert(tv1[i as int].repo_path == q);
                        } else {
                            let m0 = if !present && m > k { m - 1 } else { m };
                            assert(rv[m0] == q);
                            assert(rv.contains(q));
                            assert(has_repo(tv.take(i as int), q));
                            let j = choose|j: int| 0 <= j < i && (#[trigger] tv.take(i as int)[j]).repo_path == q;
                            assert(tv1[j] == tv.take(i as int)[j]);
                        }
                    }
                }
            }
            i = i + 1;
        }
        proof {
            assert(tv.take(i as int) =~= tv);
            lemma_repo_list(texts_view(repos@), tv);
        }
        repos
    }
}

} // verus!

verus! {

/// The list of repositories that the filter cycles through: each repository
/// of a task once, in increasing order.
pub open spec fn is_repo_list(s: Seq<Seq<char>>, tasks: Seq<TaskView>) -> bool {
    &&& strictly_sorted(s)
    &&& forall|p: Seq<char>| s.contains(p) <==> has_repo(tasks, p)
}

/// The row that stays selected in a column of `count` tasks: the same row
/// where it still exists, else the last one (the first if none).
pub open spec fn clamped_row(row: int, count: int) -> int {
    if count == 0 {
        0
    } else if row >= count {
        count - 1
    } else {
        row
    }
}

/// The keys on offer for the selected task (or with none selected), each
/// with what it does.
pub open spec fn actions_for(selected: Option<TaskStatus>) -> Seq<(Seq<char>, Seq<char>)> {
    let tail = seq![("n"@, "new"@), ("f"@, "filter"@), ("?"@, "help"@), ("q"@, "quit"@)];
    match selected {
        None => seq![("n"@, "new task"@), ("f"@, "filter"@), ("?"@, "help"@), ("q"@, "quit"@)],
        Some(TaskStatus::Backlog) => seq![("Enter/s"@, "start"@), ("e"@, "edit"@), ("x"@, "delete"@)]
            + tail,
        Some(TaskStatus::Running) => seq![
            ("Enter"@, "attach"@),
            ("m"@, "send msg"@),
            ("p"@, "prompts"@),
            ("K"@, "kill"@),
            ("D"@, "done"@),
        ] + tail,
        Some(TaskStatus::Blocked) => seq![
            ("Enter"@, "attach"@),
            ("m"@, "send msg"@),
            ("p"@, "prompts"@),
            ("D"@, "done"@),
            ("R"@, "restart"@),
            ("x"@, "delete"@),
        ] + tail,
        Some(TaskStatus::Done) => seq![("Enter"@, "attach"@), ("R"@, "restart"@), ("x"@, "delete"@)]
            + tail,
        Some(TaskStatus::Keep) => seq![("Enter"@, "attach"@), ("R"@, "restart"@), ("x"@, "delete"@)]
            + tail,
    }
}

/// The views of a list of pairs of string slices.
pub open spec fn pairs_view(v: Seq<(&str, &str)>) -> Seq<(Seq<char>, Seq<char>)> {
    v.map_values(|p: (&str, &str)| (p.0@, p.1@))
}

impl Board {
    /// The status of the selected task, if a task is selected.
    pub open spec fn selected_status(&self) -> Option<TaskStatus> {
        let col = self.current_column_spec();
        if self.selected_row < col.len() {
            Some(col[self.selected_row as int].status)
        } else {
            None
        }
    }

    /// Move the filter on to the next repository (see [`next_filter`]) and
    /// select the first row. With no tasks at all nothing changes. Returns
    /// whether anything changed (the detail pane then shows another task).
    pub fn cycle_repo_filter(&mut self) -> (changed: bool)
        ensures
            final(self).tasks == old(self).tasks,
            final(self).selected_column == old(self).selected_column,
            final(self).should_quit == old(self).should_quit,
            final(self).show_help == old(self).show_help,
            final(self).show_keep == old(self).show_keep,
            final(self).input_mode == old(self).input_mode,
            final(self).detail_scroll == old(self).detail_scroll,
            final(self).detail_at_bottom == old(self).detail_at_bottom,
            changed == (old(self).tasks@.len() > 0),
            !changed ==> final(self).repo_filter == old(self).repo_filter
                && final(self).selected_row == old(self).selected_row,
            changed ==> final(self).selected_row == 0 && final(self).filter() == next_filter(
                repo_list(old(self).task_views()),
                old(self).filter(),
            ),
    {
        let repos = self.unique_repos();
        let ghost rv = texts_view(repos@);
        proof {
            if self.tasks@.len() > 0 {
                assert(has_repo(self.task_views(), self.task_views()[0].repo_path));
                assert(rv.contains(self.task_views()[0].repo_path));
            }
            if repos@.len() > 0 {
                assert(rv.contains(rv[0]));
                assert(has_repo(self.task_views(), rv[0]));
            }
            assert(is_repo_list(rv, self.task_views()));
            lemma_repo_list(rv, self.task_views());
        }
        if repos.len() == 0 {
            return false;
        }
        let next: Option<String> = match &self.repo_filter {
            None => Some(copy_string(&repos[0])),
            Some(current) => {
                let mut i: usize = 0;
                proof {
                    assert(rv.skip(0) =~= rv);
                }
                while i < repos.len() && !str_eq(repos[i].as_str(), current.as_str())
                    invariant
                        rv == texts_view(repos@),
                        0 <= i <= repos@.len(),
                        position_of(rv, current@) == i + position_of(rv.skip(i as int), current@),
                    decreases repos@.len() - i,
                {
                    proof {
                        lemma_position_of_skip(rv, current@, i as int);
                    }
                    i = i + 1;
                }
                proof {
                    if i < repos@.len() {
                        lemma_position_of_skip(rv, current@, i as int);
                    } else {
                        assert(rv.skip(i as int).len() == 0);
                    }
                }
                if i < repos.len() && i + 1 < repos.len() {
                    Some(copy_string(&repos[i + 1]))
                } else {
                    None
                }
            },
        };
        self.repo_filter = next;
        self.selected_row = 0;
        proof {
            assert(self.filter() == next_filter(rv, old(self).filter()));
        }
        true
    }

    /// Show all repositories again. Returns whether a filter was set (the
    /// selection then goes back to the first row).
    pub fn clear_repo_filter(&mut self) -> (changed: bool)
        ensures
            final(self).tasks == old(self).tasks,
            final(self).selected_column == old(self).selected_column,
            final(self).should_quit == old(self).should_quit,
            final(self).show_help == old(self).show_help,
            final(self).show_keep == old(self).show_keep,
            final(self).input_mode == old(self).input_mode,
            final(self).detail_scroll == old(self).detail_scroll,
            final(self).detail_at_bottom == old(self).detail_at_bottom,
            final(self).repo_filter is None,
            changed == (old(self).repo_filter is Some),
            final(self).selected_row == if changed {
                0
            } else {
                old(self).selected_row
            },
    {
        if self.repo_filter.is_some() {
            self.repo_filter = None;
            self.selected_row = 0;
            true
        } else {
            false
        }
    }

    /// The tasks of the selected column, in the order shown.
    pub fn current_column_tasks(&self) -> (r: Vec<&Task>)
        requires
            self.wf(),
        ensures
            refs_view(r@) == self.current_column_spec(),
    {
        let status = column_at(self.selected_column);
        self.tasks_in_column(&status)
    }

    /// The selected task, if the selected row holds one.
    pub fn selected_task(&self) -> (r: Option<&Task>)
        requires
            self.wf(),
        ensures
            match r {
                Some(t) => self.selected_row < self.current_column_spec().len() && t@
                    == self.current_column_spec()[self.selected_row as int],
                None => self.selected_row >= self.current_column_spec().len(),
            },
    {
        let col = self.current_column_tasks();
        if self.selected_row < col.len() {
            Some(col[self.selected_row])
        } else {
            None
        }
    }

    /// Keep the selected row within the selected column.
    pub fn clamp_row(&mut self)
        requires
            old(self).wf(),
        ensures
            final(self).tasks == old(self).tasks,
            final(self).selected_column == old(self).selected_column,
            final(self).repo_filter == old(self).repo_filter,
            final(self).should_quit == old(self).should_quit,
            final(self).show_help == old(self).show_help,
            final(self).show_keep == old(self).show_keep,
            final(self).input_mode == old(self).input_mode,
            final(self).detail_scroll == old(self).detail_scroll,
            final(self).detail_at_bottom == old(self).detail_at_bottom,
            final(self).selected_row as int == clamped_row(
                old(self).selected_row as int,
                old(self).current_column_spec().len() as int,
            ),
    {
        let count = self.current_column_tasks().len();
        if count == 0 {
            self.selected_row = 0;
        } else if self.selected_row >= count {
            self.selected_row = count - 1;
        }
    }

    /// The keys on offer for the selected task, each with what it does.
    pub fn available_actions(&self) -> (r: Vec<(&'static str, &'static str)>)
        requires
            self.wf(),
        ensures
            pairs_view(r@) == actions_for(self.selected_status()),
    {
        let mut actions: Vec<(&'static str, &'static str)> = Vec::new();
        match self.selected_task() {
            None => {
                actions.push(("n", "new task"));
                actions.push(("f", "filter"));
                actions.push(("?", "help"));
                actions.push(("q", "quit"));
            },
            Some(task) => {
                match task.status {
                    TaskStatus::Backlog => {
                        actions.push(("Enter/s", "start"));
                        actions.push(("e", "edit"));
                        actions.push(("x", "delete"));
                    },
                    TaskStatus::Running => {
                        actions.push(("Enter", "attach"));
                        actions.push(("m", "send msg"));
                        actions.push(("p", "prompts"));
                        actions.push(("K", "kill"));
                        actions.push(("D", "done"));
                    },
                    TaskStatus::Blocked => {
                        actions.push(("Enter", "attach"));
                        actions.push(("m", "send msg"));
                        actions.push(("p", "prompts"));
                        actions.push(("D", "done"));
                        actions.push(("R", "restart"));
                        actions.push(("x", "delete"));
                    },
                    TaskStatus::Done | TaskStatus::Keep => {
                        actions.push(("Enter", "attach"));
                        actions.push(("R", "restart"));
                        actions.push(("x", "delete"));
                    },
                }
                actions.push(("n", "new"));
                actions.push(("f", "filter"));
                actions.push(("?", "help"));
                actions.push(("q", "quit"));
            },
        }
        proof {
            assert(pairs_view(actions@) =~= actions_for(self.selected_status()));
        }
        actions
    }
}

} // verus!

verus! {

// ---------------------------------------------------------------------------
// Laws of the board
// ---------------------------------------------------------------------------

/// Tasks ordered newest first.
pub open spec fn is_newest_first(s: Seq<TaskView>) -> bool {
    forall|i: int, j: int| 0 <= i < j < s.len() ==> !lex_lt(#[trigger] s[i].updated_at, #[trigger] s[j].updated_at)
}

proof fn lemma_recency_pos_prefix(sorted: Seq<TaskView>, t: TaskView)
    ensures
        0 <= recency_pos(sorted, t) <= sorted.len(),
        forall|i: int| 0 <= i < recency_pos(sorted, t) ==> !lex_lt(#[trigger] sorted[i].updated_at, t.updated_at),
        recency_pos(sorted, t) < sorted.len() ==> lex_lt(sorted[recency_pos(sorted, t)].updated_at, t.updated_at),
    decreases sorted.len(),
{
    if sorted.len() > 0 && !lex_lt(sorted[0].updated_at, t.updated_at) {
        let rest = sorted.drop_first();
        lemma_recency_pos_prefix(rest, t);
        assert forall|i: int| 0 <= i < recency_pos(sorted, t) implies !lex_lt(#[trigger] sorted[i].updated_at, t.updated_at) by {
            if i > 0 {
                assert(sorted[i] == rest[i - 1]);
            }
        }
    }
}

proof fn lemma_newest_first_sorted(s: Seq<TaskView>)
    ensures
        is_newest_first(newest_first(s)),
    decreases s.len(),
{
    if s.len() > 0 {
        let sorted = newest_first(s.drop_last());
        lemma_newest_first_sorted(s.drop_last());
        let t = s.last();
        let k = recency_pos(sorted, t);
        lemma_recency_pos_prefix(sorted, t);
        let r = sorted.insert(k, t);
        assert forall|i: int, j: int| 0 <= i < j < r.len() implies !lex_lt(#[trigger] r[i].updated_at, #[trigger] r[j].updated_at) by {
            if j < k {
                assert(r[i] == sorted[i] && r[j] == sorted[j]);
            } else if j == k {
                assert(r[i] == sorted[i]);
            } else if i == k {
                // sorted[j - 1] is no later than sorted[k], which is earlier than t
                let e = sorted[j - 1];
                lemma_lex_total(sorted[k].updated_at, e.updated_at);
                if j - 1 > k {
                    assert(!lex_lt(sorted[k].updated_at, e.updated_at));
                }
                if e.updated_at != sorted[k].updated_at {
                    lemma_lex_transitive(e.updated_at, sorted[k].updated_at, t.updated_at);
                }
                lemma_lex_total(e.updated_at, t.updated_at);
            } else if i < k {
                assert(r[i] == sorted[i] && r[j] == sorted[j - 1]);
                if i != j - 1 {
                }
            } else {
                assert(r[i] == sorted[i - 1] && r[j] == sorted[j - 1]);
            }
        }
    }
}

/// The Done column and the Keep lane show the most recently updated task
/// first: no task in them was updated later than one above it.
pub proof fn law_done_column_newest_first(tasks: Seq<TaskView>, filter: Option<Seq<char>>)
    ensures
        is_newest_first(column_view(tasks, TaskStatus::Done, filter)),
        is_newest_first(column_view(tasks, TaskStatus::Keep, filter)),
{
    lemma_newest_first_sorted(column_members(tasks, TaskStatus::Done, filter));
    lemma_newest_first_sorted(column_members(tasks, TaskStatus::Keep, filter));
}

/// Cycling the filter walks the repositories in order: from none to the
/// first, from each to the next, and from the last back to none.
pub proof fn law_filter_cycles_in_order(repos: Seq<Seq<char>>, tasks: Seq<TaskView>, i: int)
    requires
        is_repo_list(repos, tasks),
        0 <= i < repos.len(),
    ensures
        next_filter(repos, None) == Some(repos[0]),
        next_filter(repos, Some(repos[i])) == if i + 1 < repos.len() {
            Some(repos[i + 1])
        } else {
            None::<Seq<char>>
        },
{
    assert(position_of(repos, repos[i]) == i) by {
        lemma_position_of_distinct(repos, i);
    }
}

proof fn lemma_position_of_distinct(s: Seq<Seq<char>>, i: int)
    requires
        strictly_sorted(s),
        0 <= i < s.len(),
    ensures
        position_of(s, s[i]) == i,
    decreases i,
{
    if i > 0 {
        assert(lex_lt(s[0], s[i]));
        lemma_lex_irreflexive(s[i]);
        let rest = s.drop_first();
        assert(strictly_sorted(rest)) by {
            assert forall|a: int, b: int| 0 <= a < b < rest.len() implies lex_lt(#[trigger] rest[a], #[trigger] rest[b]) by {
                assert(rest[a] == s[a + 1] && rest[b] == s[b + 1]);
            }
        }
        assert(rest[i - 1] == s[i]);
        lemma_position_of_distinct(rest, i - 1);
    }
}

} // verus!

verus! {

/// The list of repositories that the filter cycles through.
pub open spec fn repo_list(tasks: Seq<TaskView>) -> Seq<Seq<char>> {
    choose|s: Seq<Seq<char>>| is_repo_list(s, tasks)
}

proof fn lemma_sorted_lists_equal(a: Seq<Seq<char>>, b: Seq<Seq<char>>)
    requires
        strictly_sorted(a),
        strictly_sorted(b),
        forall|p: Seq<char>| a.contains(p) <==> b.contains(p),
    ensures
        a == b,
    decreases a.len(),
{
    if a.len() == 0 {
        if b.len() > 0 {
            assert(b.contains(b[0]));
        }
        assert(a =~= b);
    } else {
        assert(a.contains(a[0]));
        let m = choose|m: int| 0 <= m < b.len() && b[m] == a[0];
        assert(b.contains(b[0]));
        let j = choose|j: int| 0 <= j < a.len() && a[j] == b[0];
        if m > 0 && j > 0 {
            assert(lex_lt(b[0], b[m]));
            assert(lex_lt(a[0], a[j]));
            lemma_lex_total(a[0], b[0]);
        }
        assert(a[0] == b[0]);
        let a1 = a.drop_first();
        let b1 = b.drop_first();
        assert(strictly_sorted(a1)) by {
            assert forall|x: int, y: int| 0 <= x < y < a1.len() implies lex_lt(#[trigger] a1[x], #[trigger] a1[y]) by {
                assert(a1[x] == a[x + 1] && a1[y] == a[y + 1]);
            }
        }
        assert(strictly_sorted(b1)) by {
            assert forall|x: int, y: int| 0 <= x < y < b1.len() implies lex_lt(#[trigger] b1[x], #[trigger] b1[y]) by {
                assert(b1[x] == b[x + 1] && b1[y] == b[y + 1]);
            }
        }
        assert forall|p: Seq<char>| a1.contains(p) <==> b1.contains(p) by {
            if a1.contains(p) {
                let x = choose|x: int| 0 <= x < a1.len() && a1[x] == p;
                assert(a[x + 1] == p);
                assert(lex_lt(a[0], a[x + 1]));
                lemma_lex_irreflexive(p);
                assert(b.contains(p));
                let y = choose|y: int| 0 <= y < b.len() && b[y] == p;
                assert(y != 0);
                assert(b1[y - 1] == p);
            }
            if b1.contains(p) {
                let x = choose|x: int| 0 <= x < b1.len() && b1[x] == p;
                assert(b[x + 1] == p);
                assert(lex_lt(b[0], b[x + 1]));
                lemma_lex_irreflexive(p);
                assert(a.contains(p));
                let y = choose|y: int| 0 <= y < a.len() && a[y] == p;
                assert(y != 0);
                assert(a1[y - 1] == p);
            }
        }
        lemma_sorted_lists_equal(a1, b1);
        assert(a =~= seq![a[0]] + a1);
        assert(b =~= seq![b[0]] + b1);
    }
}

/// A list of repositories of the tasks is the one list there is.
pub proof fn lemma_repo_list(s: Seq<Seq<char>>, tasks: Seq<TaskView>)
    requires
        is_repo_list(s, tasks),
    ensures
        repo_list(tasks) == s,
{
    let r = repo_list(tasks);
    assert(is_repo_list(r, tasks));
    lemma_sorted_lists_equal(r, s);
}

} // verus!

verus! {

/// The board as plain values.
pub struct BoardView {
    pub tasks: Seq<TaskView>,
    pub column: int,
    pub row: int,
    pub should_quit: bool,
    pub detail_scroll: int,
    pub detail_at_bottom: bool,
    pub mode: crate::input::ModeView,
    pub show_help: bool,
    pub filter: Option<Seq<char>>,
    pub show_keep: bool,
}

impl View for Board {
    type V = BoardView;

    open spec fn view(&self) -> BoardView {
        BoardView {
            tasks: tasks_view(self.tasks@),
            column: self.selected_column as int,
            row: self.selected_row as int,
            should_quit: self.should_quit,
            detail_scroll: self.detail_scroll as int,
            detail_at_bottom: self.detail_at_bottom,
            mode: self.input_mode@,
            show_help: self.show_help,
            filter: filter_view(self.repo_filter),
            show_keep: self.show_keep,
        }
    }
}

/// What the selected column of a board shows.
pub open spec fn shown_column(v: BoardView) -> Seq<TaskView> {
    column_view(v.tasks, column_status(v.column), v.filter)
}

/// The selected task of a board, if the selected row holds one.
pub open spec fn selected_of(v: BoardView) -> Option<TaskView> {
    let col = shown_column(v);
    if 0 <= v.row < col.len() {
        Some(col[v.row])
    } else {
        None
    }
}

} // verus!

verus! {

proof fn lemma_insert_contains(s: Seq<TaskView>, k: int, t: TaskView, x: TaskView)
    requires
        0 <= k <= s.len(),
    ensures
        s.insert(k, t).contains(x) <==> (s.contains(x) || x == t),
{
    let r = s.insert(k, t);
    if s.contains(x) {
        let i = choose|i: int| 0 <= i < s.len() && s[i] == x;
        if i < k {
            assert(r[i] == x);
        } else {
            assert(r[i + 1] == x);
        }
    }
    if x == t {
        assert(r[k] == t);
    }
    if r.contains(x) {
        let i = choose|i: int| 0 <= i < r.len() && r[i] == x;
        if i < k {
            assert(s[i] == x);
        } else if i > k {
            assert(s[i - 1] == x);
        }
    }
}

proof fn lemma_newest_first_contains(s: Seq<TaskView>, x: TaskView)
    ensures
        newest_first(s).contains(x) <==> s.contains(x),
    decreases s.len(),
{
    if s.len() > 0 {
        let init = s.drop_last();
        lemma_newest_first_contains(init, x);
        let sorted = newest_first(init);
        lemma_recency_pos_bound(sorted, s.last());
        lemma_insert_contains(sorted, recency_pos(sorted, s.last()), s.last(), x);
        if s.contains(x) {
            let i = choose|i: int| 0 <= i < s.len() && s[i] == x;
            if i < s.len() - 1 {
                assert(init[i] == x);
            }
        }
        if init.contains(x) {
            let i = choose|i: int| 0 <= i < init.len() && init[i] == x;
            assert(s[i] == x);
        }
    } else {
        assert(newest_first(s) =~= Seq::<TaskView>::empty());
    }
}

proof fn lemma_column_members_contains(tasks: Seq<TaskView>, status: TaskStatus, filter: Option<Seq<char>>, x: TaskView)
    ensures
        column_members(tasks, status, filter).contains(x) <==> (tasks.contains(x) && x.status == status
            && passes_filter(x, filter)),
    decreases tasks.len(),
{
    if tasks.len() > 0 {
        let init = tasks.drop_last();
        lemma_column_members_contains(init, status, filter, x);
        let rest = column_members(init, status, filter);
        if tasks.contains(x) {
            let i = choose|i: int| 0 <= i < tasks.len() && tasks[i] == x;
            if i < tasks.len() - 1 {
                assert(init[i] == x);
            }
        }
        if init.contains(x) {
            let i = choose|i: int| 0 <= i < init.len() && init[i] == x;
            assert(tasks[i] == x);
        }
        let l = tasks.last();
        if l.status == status && passes_filter(l, filter) {
            let r = rest.push(l);
            if rest.contains(x) {
                let i = choose|i: int| 0 <= i < rest.len() && rest[i] == x;
                assert(r[i] == x);
            }
            assert(r[rest.len() as int] == l);
            if r.contains(x) {
                let i = choose|i: int| 0 <= i < r.len() && r[i] == x;
                if i < rest.len() {
                    assert(rest[i] == x);
                }
            }
        }
    }
}

/// A column shows exactly the tasks of its status that the filter lets
/// through, whatever order it shows them in.
pub proof fn law_column_holds_its_tasks(tasks: Seq<TaskView>, status: TaskStatus, filter: Option<Seq<char>>, x: TaskView)
    ensures
        column_view(tasks, status, filter).contains(x) <==> (tasks.contains(x) && x.status == status
            && passes_filter(x, filter)),
{
    lemma_column_members_contains(tasks, status, filter, x);
    lemma_newest_first_contains(column_members(tasks, status, filter), x);
}

} // verus!

verus! {

proof fn lemma_filtered_contains(tasks: Seq<TaskView>, filter: Option<Seq<char>>, x: TaskView)
    ensures
        filtered(tasks, filter).contains(x) <==> (tasks.contains(x) && passes_filter(x, filter)),
    decreases tasks.len(),
{
    if tasks.len() > 0 {
        let init = tasks.drop_last();
        lemma_filtered_contains(init, filter, x);
        let rest = filtered(init, filter);
        if tasks.contains(x) {
            let i = choose|i: int| 0 <= i < tasks.len() && tasks[i] == x;
            if i < tasks.len() - 1 {
                assert(init[i] == x);
            }
        }
        if init.contains(x) {
            let i = choose|i: int| 0 <= i < init.len() && init[i] == x;
            assert(tasks[i] == x);
        }
        let l = tasks.last();
        if passes_filter(l, filter) {
            let r = rest.push(l);
            if rest.contains(x) {
                let i = choose|i: int| 0 <= i < rest.len() && rest[i] == x;
                assert(r[i] == x);
            }
            assert(r[rest.len() as int] == l);
            if r.contains(x) {
                let i = choose|i: int| 0 <= i < r.len() && r[i] == x;
                if i < rest.len() {
                    assert(rest[i] == x);
                }
            }
        }
    }
}

/// The repository filter is exact: with a filter set, a column (and the
/// filtered list) shows a task exactly when the task has that status (for a
/// column) and its repository path is the filter itself, not one that merely
/// begins with it; with no filter, every task of the status is shown.
pub proof fn law_filter_matches_the_repository_exactly(
    tasks: Seq<TaskView>,
    status: TaskStatus,
    f: Seq<char>,
    x: TaskView,
)
    ensures
        column_view(tasks, status, Some(f)).contains(x) <==> (tasks.contains(x) && x.status == status
            && x.repo_path == f),
        filtered(tasks, Some(f)).contains(x) <==> (tasks.contains(x) && x.repo_path == f),
        column_view(tasks, status, None).contains(x) <==> (tasks.contains(x) && x.status == status),
        filtered(tasks, None).contains(x) <==> tasks.contains(x),
{
    law_column_holds_its_tasks(tasks, status, Some(f), x);
    law_column_holds_its_tasks(tasks, status, None, x);
    lemma_filtered_contains(tasks, Some(f), x);
    lemma_filtered_contains(tasks, None, x);
}

} // verus!
