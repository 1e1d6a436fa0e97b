//! What each key press does on the board. The handlers change the board's
//! own state and return the effects that the caller performs (starting an
//! agent, attaching to a session, showing a notice), in order.
use vstd::prelude::*;
use crate::board::{Board, BoardView, selected_of, shown_column, column_count, next_filter,
    repo_list, tasks_view};
use crate::input::{Key, InputMode, InputField, PendingAction, PendingView, ModeView, task_form,
    task_form_fields};
use crate::store::{Task, TaskStatus, status_label};
use crate::text::{owned, push_str, copy_string, byte_boundary, byte_prefix, prefix_bytes};

verus! {

/// Something for the caller to do after a key press.
pub enum Effect {
    /// The selection changed: show the newly selected task's output.
    CaptureDetail,
    /// Attach to the task's session, resuming its agent first (and giving
    /// the task `resume_status`) where the session is gone.
    Open { task_id: String, resume_status: TaskStatus },
    /// Start a backlog task.
    Start(String),
    /// Restart a blocked or finished task.
    Restart(String),
    /// Reload the tasks.
    Refresh,
    /// Mark a task done.
    MarkDone(String),
    /// Delete a task once its branch has been checked for unmerged work.
    CheckDelete(String),
    /// Send a task to the Keep lane.
    Keep(String),
    /// Delete a task.
    Delete(String),
    /// Kill a task's agent.
    Kill(String),
    /// Create a task from the new-task form (values trimmed).
    Create { title: String, description: String, repo: String },
    /// Save the edit form into a backlog task (values trimmed).
    Edit { task_id: String, title: String, description: String, repo: String },
    /// Send a message to a task's agent.
    Send { task_id: String, message: String },
    /// Show a notice.
    Info(String),
    /// Show a warning.
    Warn(String),
}

/// An effect as plain values.
pub enum EffectView {
    CaptureDetail,
    Open { task_id: Seq<char>, resume_status: TaskStatus },
    Start(Seq<char>),
    Restart(Seq<char>),
    Refresh,
    MarkDone(Seq<char>),
    CheckDelete(Seq<char>),
    Keep(Seq<char>),
    Delete(Seq<char>),
    Kill(Seq<char>),
    Create { title: Seq<char>, description: Seq<char>, repo: Seq<char> },
    Edit { task_id: Seq<char>, title: Seq<char>, description: Seq<char>, repo: Seq<char> },
    Send { task_id: Seq<char>, message: Seq<char> },
    Info(Seq<char>),
    Warn(Seq<char>),
}

impl View for Effect {
    type V = EffectView;

    open spec fn view(&self) -> EffectView {
        match self {
            Effect::CaptureDetail => EffectView::CaptureDetail,
            Effect::Open { task_id, resume_status } => EffectView::Open {
                task_id: task_id@,
                resume_status: *resume_status,
            },
            Effect::Start(id) => EffectView::Start(id@),
            Effect::Restart(id) => EffectView::Restart(id@),
            Effect::Refresh => EffectView::Refresh,
            Effect::MarkDone(id) => EffectView::MarkDone(id@),
            Effect::CheckDelete(id) => EffectView::CheckDelete(id@),
            Effect::Keep(id) => EffectView::Keep(id@),
            Effect::Delete(id) => EffectView::Delete(id@),
            Effect::Kill(id) => EffectView::Kill(id@),
            Effect::Create { title, description, repo } => EffectView::Create {
                title: title@,
                description: description@,
                repo: repo@,
            },
            Effect::Edit { task_id, title, description, repo } => EffectView::Edit {
                task_id: task_id@,
                title: title@,
                description: description@,
                repo: repo@,
            },
            Effect::Send { task_id, message } => EffectView::Send {
                task_id: task_id@,
                message: message@,
            },
            Effect::Info(s) => EffectView::Info(s@),
            Effect::Warn(s) => EffectView::Warn(s@),
        }
    }
}

/// The views of a list of effects.
pub open spec fn effects_view(v: Seq<Effect>) -> Seq<EffectView> {
    v.map_values(|e: Effect| e@)
}

/// Three texts one after another.
fn concat3(a: &str, b: &str, c: &str) -> (r: String)
    ensures
        r@ == a@ + b@ + c@,
{
    let mut s = owned(a);
    push_str(&mut s, b);
    push_str(&mut s, c);
    s
}

/// The part of a path after its last `/` (all of it where it has none).
pub open spec fn last_segment(s: Seq<char>) -> Seq<char>
    decreases s.len(),
{
    if s.len() == 0 {
        s
    } else if s.last() == '/' {
        seq![]
    } else {
        last_segment(s.drop_last()).push(s.last())
    }
}

/// The last component of a `/`-separated path.
pub fn path_last_segment(s: &str) -> (r: String)
    ensures
        r@ == last_segment(s@),
{
    let cs = crate::text::chars_of(s);
    let mut i: usize = cs.len();
    proof {
        assert(s@.take(s@.len() as int) =~= s@);
        assert(s@ + s@.subrange(s@.len() as int, s@.len() as int) =~= s@);
    }
    while i > 0 && cs[i - 1] != '/'
        invariant
            cs@ == s@,
            0 <= i <= cs@.len(),
            last_segment(s@) == last_segment(s@.take(i as int)) + s@.subrange(i as int, s@.len() as int),
        decreases i,
    {
        proof {
            let t = s@.take(i as int);
            assert(t.drop_last() =~= s@.take(i - 1));
            assert(s@.subrange(i - 1, s@.len() as int) =~= seq![t.last()] + s@.subrange(i as int, s@.len() as int));
        }
        i = i - 1;
    }
    proof {
        let t = s@.take(i as int);
        if i > 0 {
            assert(t.last() == '/');
        }
        assert(last_segment(t) =~= Seq::<char>::empty());
    }
    let mut out: Vec<char> = Vec::new();
    let mut j: usize = i;
    while j < cs.len()
        invariant
            cs@ == s@,
            i <= j <= cs@.len(),
            out@ =~= s@.subrange(i as int, j as int),
        decreases cs@.len() - j,
    {
        out.push(cs[j]);
        j = j + 1;
    }
    proof {
        assert(s@.take(s@.len() as int) =~= s@);
        assert(last_segment(s@) =~= out@);
    }
    crate::text::string_of(&out)
}

} // verus!

verus! {

// ---------------------------------------------------------------------------
// Normal mode
// ---------------------------------------------------------------------------

/// Whether an agent of a task in this status can be sent messages.
pub open spec fn can_message(s: TaskStatus) -> bool {
    s == TaskStatus::Running || s == TaskStatus::Blocked
}

/// Starting the selected task: only a backlog task can be started.
pub open spec fn start_effects(sel: Option<crate::store::TaskView>) -> Seq<EffectView> {
    match sel {
        None => seq![],
        Some(t) => if t.status == TaskStatus::Backlog {
            seq![EffectView::Start(t.id)]
        } else {
            seq![EffectView::Warn("Can't start a "@ + status_label(t.status) + " task"@)]
        },
    }
}

/// Whether a task in this status can be restarted: a blocked, finished or
/// kept one.
pub open spec fn can_restart(s: TaskStatus) -> bool {
    s == TaskStatus::Blocked || s == TaskStatus::Done || s == TaskStatus::Keep
}

/// Restarting the selected task: only a blocked, finished or kept task can
/// be restarted.
pub open spec fn restart_effects(sel: Option<crate::store::TaskView>) -> Seq<EffectView> {
    match sel {
        None => seq![],
        Some(t) => if can_restart(t.status) {
            seq![EffectView::Restart(t.id)]
        } else {
            seq![
                EffectView::Warn(
                    "Can only restart Blocked/Done/Keep tasks (this is "@ + status_label(t.status) + ")"@,
                ),
            ]
        },
    }
}

/// Sending the selected task to the Keep lane: from any other lane.
pub open spec fn keep_effects(sel: Option<crate::store::TaskView>) -> Seq<EffectView> {
    match sel {
        Some(t) => if t.status != TaskStatus::Keep {
            seq![EffectView::Keep(t.id)]
        } else {
            seq![]
        },
        None => seq![],
    }
}

/// The notice shown after the filter changed.
pub open spec fn filter_notice(f: Option<Seq<char>>) -> Seq<char> {
    match f {
        Some(r) => "Filter: "@ + last_segment(r),
        None => "Filter: all repos"@,
    }
}

/// The board with another selection.
pub open spec fn select(v: BoardView, column: int, row: int) -> BoardView {
    BoardView { column, row, ..v }
}

/// The board in another input mode.
pub open spec fn with_mode(v: BoardView, mode: ModeView) -> BoardView {
    BoardView { mode, ..v }
}

/// The board and the effects after a key press in normal mode. With the
/// help overlay showing, any key closes it. `k` sends the selected task to
/// the Keep lane and `v` shows or hides that lane (moving the selection to
/// Done if it was on the lane). `cwd` is the directory that a
/// new task defaults to when no filter is set.
pub open spec fn normal_key(v: BoardView, key: Key, cwd: Seq<char>) -> (BoardView, Seq<EffectView>) {
    let sel = selected_of(v);
    if v.show_help {
        (BoardView { show_help: false, ..v }, seq![])
    } else {
        match key {
            Key::Char('q') | Key::Esc => (BoardView { should_quit: true, ..v }, seq![]),
            Key::Char('h') | Key::Left => if v.column > 0 {
                (select(v, v.column - 1, 0), seq![EffectView::CaptureDetail])
            } else {
                (v, seq![])
            },
            Key::Char('l') | Key::Right => if v.column < column_count(v.show_keep) - 1 {
                (select(v, v.column + 1, 0), seq![EffectView::CaptureDetail])
            } else {
                (v, seq![])
            },
            Key::Char('j') | Key::Down => {
                let count = shown_column(v).len();
                if count > 0 && v.row < count - 1 {
                    (select(v, v.column, v.row + 1), seq![EffectView::CaptureDetail])
                } else {
                    (v, seq![])
                }
            },
            Key::Up => if v.row > 0 {
                (select(v, v.column, v.row - 1), seq![EffectView::CaptureDetail])
            } else {
                (v, seq![])
            },
            Key::Tab => (
                select(v, (v.column + 1) % column_count(v.show_keep), 0),
                seq![EffectView::CaptureDetail],
            ),
            Key::BackTab => (
                select(v, if v.column == 0 {
                    column_count(v.show_keep) - 1
                } else {
                    v.column - 1
                }, 0),
                seq![EffectView::CaptureDetail],
            ),
            Key::Char(']') => if !v.detail_at_bottom {
                let s = if v.detail_scroll >= 3 {
                    v.detail_scroll - 3
                } else {
                    0
                };
                (BoardView { detail_scroll: s, detail_at_bottom: s == 0, ..v }, seq![])
            } else {
                (v, seq![])
            },
            Key::Char('[') => (
                BoardView {
                    detail_at_bottom: false,
                    detail_scroll: if v.detail_scroll + 3 <= 0xffff {
                        v.detail_scroll + 3
                    } else {
                        0xffff
                    },
                    ..v
                },
                seq![],
            ),
            Key::Enter => match sel {
                None => (v, seq![]),
                Some(t) => if t.status == TaskStatus::Backlog {
                    (v, start_effects(sel))
                } else {
                    (
                        v,
                        seq![
                            EffectView::Open {
                                task_id: t.id,
                                resume_status: if t.status == TaskStatus::Done || t.status
                                    == TaskStatus::Keep {
                                    TaskStatus::Running
                                } else {
                                    t.status
                                },
                            },
                        ],
                    )
                },
            },
            Key::Char('s') => (v, start_effects(sel)),
            Key::Char('R') => (v, restart_effects(sel)),
            Key::Char('k') => (v, keep_effects(sel)),
            Key::Char('v') => if v.show_keep && v.column == 4 {
                (BoardView { show_keep: false, column: 3, row: 0, ..v }, seq![EffectView::CaptureDetail])
            } else {
                (BoardView { show_keep: !v.show_keep, ..v }, seq![])
            },
            Key::Char('r') => (v, seq![EffectView::Refresh, EffectView::Info("Refreshed"@)]),
            Key::Char('n') => {
                let repo = match v.filter {
                    Some(r) => r,
                    None => cwd,
                };
                (with_mode(v, ModeView::NewTask { fields: task_form(seq![], repo, seq![]), active: 0 }), seq![])
            },
            Key::Char('m') => match sel {
                None => (v, seq![]),
                Some(t) => if can_message(t.status) {
                    (with_mode(v, ModeView::SendMessage { input: seq![], cursor: 0 }), seq![])
                } else {
                    (v, seq![EffectView::Warn("Can only message Running/Blocked tasks"@)])
                },
            },
            Key::Char('p') => match sel {
                None => (v, seq![]),
                Some(t) => if can_message(t.status) {
                    (with_mode(v, ModeView::QuickPrompts), seq![])
                } else {
                    (v, seq![EffectView::Warn("Can only send prompts to Running/Blocked tasks"@)])
                },
            },
            Key::Char('K') => match sel {
                None => (v, seq![]),
                Some(t) => if t.status == TaskStatus::Running {
                    (
                        with_mode(
                            v,
                            ModeView::Confirm {
                                prompt: "Kill task "@ + byte_prefix(t.id, 8) + "? (y/n)"@,
                                action: PendingView::KillTask(t.id),
                            },
                        ),
                        seq![],
                    )
                } else {
                    (v, seq![EffectView::Warn("Task is not running"@)])
                },
            },
            Key::Char('D') => match sel {
                None => (v, seq![]),
                Some(t) => (v, seq![EffectView::MarkDone(t.id)]),
            },
            Key::Char('e') => match sel {
                None => (v, seq![]),
                Some(t) => if t.status == TaskStatus::Backlog {
                    (
                        with_mode(
                            v,
                            ModeView::EditTask {
                                task_id: t.id,
                                fields: task_form(t.title, t.repo_path, t.description),
                                active: 0,
                            },
                        ),
                        seq![],
                    )
                } else {
                    (v, seq![EffectView::Warn("Can only edit Backlog tasks"@)])
                },
            },
            Key::Char('x') => match sel {
                None => (v, seq![]),
                Some(t) => (v, seq![EffectView::CheckDelete(t.id)]),
            },
            Key::Char('?') => (BoardView { show_help: true, ..v }, seq![]),
            Key::Char('f') => if v.tasks.len() > 0 {
                let f = next_filter(repo_list(v.tasks), v.filter);
                (
                    BoardView { filter: f, row: 0, ..v },
                    seq![EffectView::CaptureDetail, EffectView::Info(filter_notice(f))],
                )
            } else {
                (v, seq![EffectView::Info(filter_notice(v.filter))])
            },
            Key::Char('F') => if v.filter is Some {
                (
                    BoardView { filter: None, row: 0, ..v },
                    seq![
                        EffectView::CaptureDetail,
                        EffectView::Info("Filter cleared \u{2014} showing all repos"@),
                    ],
                )
            } else {
                (v, seq![EffectView::Info("Filter cleared \u{2014} showing all repos"@)])
            },
            _ => (v, seq![]),
        }
    }
}

} // verus!

verus! {

/// The view of a task that may be missing.
pub open spec fn opt_task_view(o: Option<Task>) -> Option<crate::store::TaskView> {
    match o {
        Some(t) => Some(t@),
        None => None,
    }
}

fn start_effects_of(sel: &Option<Task>) -> (r: Vec<Effect>)
    ensures
        effects_view(r@) == start_effects(opt_task_view(*sel)),
{
    let mut r: Vec<Effect> = Vec::new();
    match sel {
        None => {},
        Some(t) => {
            if t.status == TaskStatus::Backlog {
                r.push(Effect::Start(copy_string(&t.id)));
            } else {
                r.push(Effect::Warn(concat3("Can't start a ", t.status.label(), " task")));
            }
        },
    }
    proof {
        assert(effects_view(r@) =~= start_effects(opt_task_view(*sel)));
    }
    r
}

fn restart_effects_of(sel: &Option<Task>) -> (r: Vec<Effect>)
    ensures
        effects_view(r@) == restart_effects(opt_task_view(*sel)),
{
    let mut r: Vec<Effect> = Vec::new();
    match sel {
        None => {},
        Some(t) => {
            if t.status == TaskStatus::Blocked || t.status == TaskStatus::Done || t.status == TaskStatus::Keep {
                r.push(Effect::Restart(copy_string(&t.id)));
            } else {
                r.push(
                    Effect::Warn(
                        concat3("Can only restart Blocked/Done/Keep tasks (this is ", t.status.label(), ")"),
                    ),
                );
            }
        },
    }
    proof {
        assert(effects_view(r@) =~= restart_effects(opt_task_view(*sel)));
    }
    r
}

fn filter_notice_text(f: &Option<String>) -> (r: String)
    ensures
        r@ == filter_notice(crate::text::opt_view(*f)),
{
    match f {
        Some(repo) => {
            let mut s = owned("Filter: ");
            push_str(&mut s, path_last_segment(repo.as_str()).as_str());
            s
        },
        None => owned("Filter: all repos"),
    }
}

/// Whether the key can be handled: killing the selected running task shows
/// the first eight bytes of its id, which must end between two characters.
pub open spec fn normal_key_ok(v: BoardView, key: Key) -> bool {
    key == Key::Char('K') && !v.show_help ==> match selected_of(v) {
        Some(t) => t.status == TaskStatus::Running ==> byte_boundary(t.id, 8),
        None => true,
    }
}

/// The keys that move the selection or scroll the detail pane.
pub open spec fn is_nav_key(key: Key) -> bool {
    key == Key::Char('h') || key == Key::Left || key == Key::Char('l') || key == Key::Right || key
        == Key::Char('j') || key == Key::Down || key == Key::Up || key == Key::Tab || key
        == Key::BackTab || key == Key::Char(']') || key == Key::Char('[')
}

/// The keys that act on the selected task.
pub open spec fn is_task_key(key: Key) -> bool {
    key == Key::Enter || key == Key::Char('s') || key == Key::Char('R') || key == Key::Char('m')
        || key == Key::Char('p') || key == Key::Char('K') || key == Key::Char('D') || key
        == Key::Char('e') || key == Key::Char('x') || key == Key::Char('k')
}

impl Board {
    /// Handle a key press in normal mode (see [`normal_key`]).
    pub fn handle_normal_key(&mut self, key: Key, cwd: &str) -> (effects: Vec<Effect>)
        requires
            old(self).wf(),
            crate::input::mode_wf(old(self).input_mode@),
            normal_key_ok(old(self)@, key),
        ensures
            final(self).wf(),
            crate::input::mode_wf(final(self).input_mode@),
            (final(self)@, effects_view(effects@)) == normal_key(old(self)@, key, cwd@),
    {
        if self.show_help {
            self.show_help = false;
            let effects: Vec<Effect> = Vec::new();
            proof {
                assert(effects_view(effects@) =~= Seq::<EffectView>::empty());
            }
            return effects;
        }
        if is_nav(key) {
            self.navigate(key)
        } else if is_task(key) {
            self.act_on_selected(key)
        } else {
            self.other_key(key, cwd)
        }
    }

    fn navigate(&mut self, key: Key) -> (effects: Vec<Effect>)
        requires
            old(self).wf(),
            crate::input::mode_wf(old(self).input_mode@),
            !old(self).show_help,
            is_nav_key(key),
        ensures
            final(self).wf(),
            crate::input::mode_wf(final(self).input_mode@),
            (final(self)@, effects_view(effects@)) == normal_key(old(self)@, key, seq![]),
    {
        let ghost v = self@;
        let mut effects: Vec<Effect> = Vec::new();
        match key {
            Key::Char('h') | Key::Left => {
                if self.selected_column > 0 {
                    self.selected_column = self.selected_column - 1;
                    self.selected_row = 0;
                    effects.push(Effect::CaptureDetail);
                }
            },
            Key::Char('l') | Key::Right => {
                if self.selected_column < self.column_count() - 1 {
                    self.selected_column = self.selected_column + 1;
                    self.selected_row = 0;
                    effects.push(Effect::CaptureDetail);
                }
            },
            Key::Char('j') | Key::Down => {
                let count = self.current_column_tasks().len();
                if count > 0 && self.selected_row < count - 1 {
                    self.selected_row = self.selected_row + 1;
                    effects.push(Effect::CaptureDetail);
                }
            },
            Key::Up => {
                if self.selected_row > 0 {
                    self.selected_row = self.selected_row - 1;
                    effects.push(Effect::CaptureDetail);
                }
            },
            Key::Tab => {
                self.selected_column = (self.selected_column + 1) % self.column_count();
                self.selected_row = 0;
                effects.push(Effect::CaptureDetail);
            },
            Key::BackTab => {
                self.selected_column = if self.selected_column == 0 {
                    self.column_count() - 1
                } else {
                    self.selected_column - 1
                };
                self.selected_row = 0;
                effects.push(Effect::CaptureDetail);
            },
            Key::Char(']') => {
                if !self.detail_at_bottom {
                    self.detail_scroll = if self.detail_scroll >= 3 {
                        self.detail_scroll - 3
                    } else {
                        0
                    };
                    if self.detail_scroll == 0 {
                        self.detail_at_bottom = true;
                    }
                }
            },
            _ => {
                self.detail_at_bottom = false;
                self.detail_scroll = if self.detail_scroll <= 0xffff - 3 {
                    self.detail_scroll + 3
                } else {
                    0xffff
                };
            },
        }
        proof {
            assert(effects_view(effects@) =~= normal_key(v, key, seq![]).1);
            assert(self@ =~= normal_key(v, key, seq![]).0);
        }
        effects
    }

    fn act_on_selected(&mut self, key: Key) -> (effects: Vec<Effect>)
        requires
            old(self).wf(),
            crate::input::mode_wf(old(self).input_mode@),
            !old(self).show_help,
            is_task_key(key),
            normal_key_ok(old(self)@, key),
        ensures
            final(self).wf(),
            crate::input::mode_wf(final(self).input_mode@),
            (final(self)@, effects_view(effects@)) == normal_key(old(self)@, key, seq![]),
    {
        let ghost v = self@;
        let sel: Option<Task> = match self.selected_task() {
            Some(t) => Some(t.copy()),
            None => None,
        };
        assert(opt_task_view(sel) == selected_of(v));
        let mut effects: Vec<Effect> = Vec::new();
        match key {
            Key::Enter => {
                match &sel {
                    None => {},
                    Some(t) => {
                        if t.status == TaskStatus::Backlog {
                            effects = start_effects_of(&sel);
                        } else {
                            let resume_status = if t.status == TaskStatus::Done || t.status == TaskStatus::Keep {
                                TaskStatus::Running
                            } else {
                                t.status
                            };
                            effects.push(Effect::Open { task_id: copy_string(&t.id), resume_status });
                        }
                    },
                }
            },
            Key::Char('s') => {
                effects = start_effects_of(&sel);
            },
            Key::Char('R') => {
                effects = restart_effects_of(&sel);
            },
            Key::Char('m') => {
                match &sel {
                    None => {},
                    Some(t) => {
                        if t.status == TaskStatus::Running || t.status == TaskStatus::Blocked {
                            self.input_mode = InputMode::SendMessage { input: String::new(), cursor_pos: 0 };
                            proof {
                                let e = Seq::<char>::empty();
                                assert(e.take(0) =~= e);
                                crate::text::lemma_char_index(e, 0);
                            }
                        } else {
                            effects.push(Effect::Warn(owned("Can only message Running/Blocked tasks")));
                        }
                    },
                }
            },
            Key::Char('p') => {
                match &sel {
                    None => {},
                    Some(t) => {
                        if t.status == TaskStatus::Running || t.status == TaskStatus::Blocked {
                            self.input_mode = InputMode::QuickPrompts;
                        } else {
                            effects.push(
                                Effect::Warn(owned("Can only send prompts to Running/Blocked tasks")),
                            );
                        }
                    },
                }
            },
            Key::Char('K') => {
                match &sel {
                    None => {},
                    Some(t) => {
                        if t.status == TaskStatus::Running {
                            let prompt = concat3("Kill task ", prefix_bytes(t.id.as_str(), 8), "? (y/n)");
                            self.input_mode = InputMode::Confirm {
                                prompt,
                                action: PendingAction::KillTask(copy_string(&t.id)),
                            };
                        } else {
                            effects.push(Effect::Warn(owned("Task is not running")));
                        }
                    },
                }
            },
            Key::Char('D') => {
                match &sel {
                    None => {},
                    Some(t) => {
                        effects.push(Effect::MarkDone(copy_string(&t.id)));
                    },
                }
            },
            Key::Char('e') => {
                match &sel {
                    None => {},
                    Some(t) => {
                        if t.status == TaskStatus::Backlog {
                            let fields = task_form_fields(
                                copy_string(&t.title),
                                copy_string(&t.repo_path),
                                copy_string(&t.description),
                            );
                            self.input_mode = InputMode::EditTask {
                                task_id: copy_string(&t.id),
                                fields,
                                active_field: 0,
                            };
                        } else {
                            effects.push(Effect::Warn(owned("Can only edit Backlog tasks")));
                        }
                    },
                }
            },
            Key::Char('x') => {
                match &sel {
                    None => {},
                    Some(t) => {
                        effects.push(Effect::CheckDelete(copy_string(&t.id)));
                    },
                }
            },
            _ => {
                match &sel {
                    None => {},
                    Some(t) => {
                        if t.status != TaskStatus::Keep {
                            effects.push(Effect::Keep(copy_string(&t.id)));
                        }
                    },
                }
            },
        }
        proof {
            assert(effects_view(effects@) =~= normal_key(v, key, seq![]).1);
            assert(self@ =~= normal_key(v, key, seq![]).0);
        }
        effects
    }

    fn other_key(&mut self, key: Key, cwd: &str) -> (effects: Vec<Effect>)
        requires
            old(self).wf(),
            crate::input::mode_wf(old(self).input_mode@),
            !old(self).show_help,
            !is_nav_key(key),
            !is_task_key(key),
        ensures
            final(self).wf(),
            crate::input::mode_wf(final(self).input_mode@),
            (final(self)@, effects_view(effects@)) == normal_key(old(self)@, key, cwd@),
    {
        let ghost v = self@;
        let mut effects: Vec<Effect> = Vec::new();
        match key {
            Key::Char('q') | Key::Esc => {
                self.should_quit = true;
            },
            Key::Char('r') => {
                effects.push(Effect::Refresh);
                effects.push(Effect::Info(owned("Refreshed")));
            },
            Key::Char('n') => {
                let repo = match &self.repo_filter {
                    Some(r) => copy_string(r),
                    None => owned(cwd),
                };
                let fields = task_form_fields(String::new(), repo, String::new());
                self.input_mode = InputMode::NewTask { fields, active_field: 0 };
            },
            Key::Char('?') => {
                self.show_help = true;
            },
            Key::Char('v') => {
                if self.show_keep && self.selected_column == 4 {
                    self.show_keep = false;
                    self.selected_column = 3;
                    self.selected_row = 0;
                    effects.push(Effect::CaptureDetail);
                } else {
                    self.show_keep = !self.show_keep;
                }
            },
            Key::Char('f') => {
                let changed = self.cycle_repo_filter();
                if changed {
                    effects.push(Effect::CaptureDetail);
                }
                effects.push(Effect::Info(filter_notice_text(&self.repo_filter)));
            },
            Key::Char('F') => {
                let changed = self.clear_repo_filter();
                if changed {
                    effects.push(Effect::CaptureDetail);
                }
                effects.push(Effect::Info(owned("Filter cleared \u{2014} showing all repos")));
            },
            _ => {},
        }
        proof {
            assert(effects_view(effects@) =~= normal_key(v, key, cwd@).1);
            assert(self@ =~= normal_key(v, key, cwd@).0);
        }
        effects
    }
}

fn is_nav(key: Key) -> (r: bool)
    ensures
        r == is_nav_key(key),
{
    key == Key::Char('h') || key == Key::Left || key == Key::Char('l') || key == Key::Right || key
        == Key::Char('j') || key == Key::Down || key == Key::Up || key == Key::Tab || key
        == Key::BackTab || key == Key::Char(']') || key == Key::Char('[')
}

fn is_task(key: Key) -> (r: bool)
    ensures
        r == is_task_key(key),
{
    key == Key::Enter || key == Key::Char('s') || key == Key::Char('R') || key == Key::Char('m')
        || key == Key::Char('p') || key == Key::Char('K') || key == Key::Char('D') || key
        == Key::Char('e') || key == Key::Char('x') || key == Key::Char('k')
}

} // verus!

verus! {

// ---------------------------------------------------------------------------
// Forms, messages, confirmations and the quick prompt palette
// ---------------------------------------------------------------------------

/// An input box after a key press.
pub open spec fn edit_field(f: crate::input::FieldView, key: Key) -> crate::input::FieldView {
    let e = crate::input::edited(f.value, f.cursor, key);
    crate::input::FieldView { value: e.0, cursor: e.1, ..f }
}

/// The next box of a form (Tab, Down), wrapping round.
pub open spec fn next_field(active: int) -> int {
    (active + 1) % 3
}

/// The previous box of a form (BackTab, Up), wrapping round.
pub open spec fn prev_field(active: int) -> int {
    if active == 0 {
        2
    } else {
        active - 1
    }
}

/// The effect of submitting a task form: its trimmed values, as long as the
/// title is not blank.
pub open spec fn form_submit(task_id: Option<Seq<char>>, fields: Seq<crate::input::FieldView>) -> Seq<EffectView> {
    let title = crate::text::trim(fields[0].value);
    let repo = crate::text::trim(fields[1].value);
    let description = crate::text::trim(fields[2].value);
    match task_id {
        None => seq![EffectView::Create { title, description, repo }],
        Some(id) => seq![EffectView::Edit { task_id: id, title, description, repo }],
    }
}

/// A key press in the new-task or edit-task form: Esc closes it, Tab and
/// the arrows move between boxes, Enter submits it (refused with a blank
/// title), and other keys edit the active box.
pub open spec fn form_key(m: ModeView, key: Key) -> (ModeView, Seq<EffectView>) {
    let (task_id, fields, active) = match m {
        ModeView::EditTask { task_id, fields, active } => (Some(task_id), fields, active),
        ModeView::NewTask { fields, active } => (None, fields, active),
        _ => (None, seq![], 0),
    };
    let with = |fields: Seq<crate::input::FieldView>, active: int| match task_id {
        Some(id) => ModeView::EditTask { task_id: id, fields, active },
        None => ModeView::NewTask { fields, active },
    };
    match key {
        Key::Esc => (ModeView::Normal, seq![]),
        Key::Tab | Key::Down => (with(fields, next_field(active)), seq![]),
        Key::BackTab | Key::Up => (with(fields, prev_field(active)), seq![]),
        Key::Enter => if crate::text::trim(fields[0].value).len() > 0 {
            (ModeView::Normal, form_submit(task_id, fields))
        } else {
            (m, seq![EffectView::Warn("Title cannot be empty"@)])
        },
        _ => (with(fields.update(active, edit_field(fields[active], key)), active), seq![]),
    }
}

/// Sending a message to the selected task's agent: only a running or
/// blocked task takes one.
pub open spec fn send_effects(sel: Option<crate::store::TaskView>, message: Seq<char>) -> Seq<EffectView> {
    match sel {
        Some(t) => if can_message(t.status) {
            seq![EffectView::Send { task_id: t.id, message }]
        } else {
            seq![EffectView::Warn("Select a Running or Blocked task to message"@)]
        },
        None => seq![EffectView::Warn("Select a Running or Blocked task to message"@)],
    }
}

/// A key press while writing a message: Esc drops it, Enter sends it
/// (trimmed; a blank one is dropped), other keys edit it.
pub open spec fn message_key(input: Seq<char>, cursor: int, key: Key, sel: Option<crate::store::TaskView>) -> (ModeView, Seq<EffectView>) {
    match key {
        Key::Esc => (ModeView::Normal, seq![]),
        Key::Enter => if crate::text::trim(input).len() > 0 {
            (ModeView::Normal, send_effects(sel, crate::text::trim(input)))
        } else {
            (ModeView::Normal, seq![])
        },
        _ => {
            let e = crate::input::edited(input, cursor, key);
            (ModeView::SendMessage { input: e.0, cursor: e.1 }, seq![])
        },
    }
}

/// A key press in the confirmation dialog: `y` or `Y` performs the action,
/// any other key cancels it.
pub open spec fn confirm_key(action: PendingView, key: Key) -> (ModeView, Seq<EffectView>) {
    if key == Key::Char('y') || key == Key::Char('Y') {
        (ModeView::Normal, match action {
            PendingView::DeleteTask(id) => seq![EffectView::Delete(id)],
            PendingView::KillTask(id) => seq![EffectView::Kill(id)],
        })
    } else {
        (ModeView::Normal, seq![EffectView::Info("Cancelled"@)])
    }
}

/// A key press in the quick prompt palette: Esc, `q` and `p` close it; a
/// digit or lower-case letter bound to a prompt sends it and closes the
/// palette (one bound to none does nothing); other keys close it.
pub open spec fn quick_prompt_key(key: Key, sel: Option<crate::store::TaskView>) -> (ModeView, Seq<EffectView>) {
    match key {
        Key::Esc | Key::Char('q') | Key::Char('p') => (ModeView::Normal, seq![]),
        Key::Char(c) => if ('0' <= c && c <= '9') || ('a' <= c && c <= 'z') {
            if '1' <= c && c <= '8' {
                let i = c as u32 - 49;
                (
                    ModeView::Normal,
                    send_effects(sel, crate::prompts::quick_prompt_text(i)) + seq![
                        EffectView::Info("\u{26a1} Sent: "@ + crate::prompts::quick_prompt_label(i)),
                    ],
                )
            } else {
                (ModeView::QuickPrompts, seq![])
            }
        } else {
            (ModeView::Normal, seq![])
        },
        _ => (ModeView::Normal, seq![]),
    }
}

} // verus!

verus! {

/// Whether a key press can be applied to the active box of a form.
pub open spec fn form_key_ok(m: ModeView, key: Key) -> bool {
    match m {
        ModeView::NewTask { fields, active } => crate::input::fits_key(fields[active].value, key),
        ModeView::EditTask { fields, active, .. } => crate::input::fits_key(fields[active].value, key),
        _ => true,
    }
}

fn form_mode(task_id: Option<String>, fields: Vec<InputField>, active: usize) -> (r: InputMode)
    ensures
        r@ == match task_id {
            Some(id) => ModeView::EditTask {
                task_id: id@,
                fields: crate::input::fields_view(fields@),
                active: active as int,
            },
            None => ModeView::NewTask { fields: crate::input::fields_view(fields@), active: active as int },
        },
{
    match task_id {
        Some(id) => InputMode::EditTask { task_id: id, fields, active_field: active },
        None => InputMode::NewTask { fields, active_field: active },
    }
}

fn text_of(cs: Vec<char>) -> (r: String)
    ensures
        r@ == cs@,
{
    crate::text::string_of(&cs)
}

impl Board {
    /// Handle a key press in the new-task or edit-task form (see
    /// [`form_key`]).
    pub fn handle_form_key(&mut self, key: Key) -> (effects: Vec<Effect>)
        requires
            old(self).input_mode is NewTask || old(self).input_mode is EditTask,
            crate::input::mode_wf(old(self).input_mode@),
            form_key_ok(old(self).input_mode@, key),
        ensures
            final(self)@ == with_mode(old(self)@, form_key(old(self).input_mode@, key).0),
            effects_view(effects@) == form_key(old(self).input_mode@, key).1,
            crate::input::mode_wf(final(self).input_mode@),
    {
        let ghost v = self@;
        let ghost m = self.input_mode@;
        let mut mode = InputMode::Normal;
        std::mem::swap(&mut self.input_mode, &mut mode);
        let (task_id, mut fields, active): (Option<String>, Vec<InputField>, usize) = match mode {
            InputMode::NewTask { fields, active_field } => (None, fields, active_field),
            InputMode::EditTask { task_id, fields, active_field } => (Some(task_id), fields, active_field),
            _ => (None, Vec::new(), 0),
        };
        let ghost fv = crate::input::fields_view(fields@);
        assert(fv.len() == 3);
        let mut effects: Vec<Effect> = Vec::new();
        match key {
            Key::Esc => {},
            Key::Tab | Key::Down => {
                self.input_mode = form_mode(task_id, fields, (active + 1) % 3);
            },
            Key::BackTab | Key::Up => {
                let prev: usize = if active == 0 {
                    2
                } else {
                    active - 1
                };
                self.input_mode = form_mode(task_id, fields, prev);
            },
            Key::Enter => {
                let title = crate::text::trim_str(fields[0].value.as_str());
                if title.len() > 0 {
                    let repo = crate::text::trim_str(fields[1].value.as_str());
                    let description = crate::text::trim_str(fields[2].value.as_str());
                    match task_id {
                        Some(id) => {
                            effects.push(
                                Effect::Edit {
                                    task_id: id,
                                    title: text_of(title),
                                    description: text_of(description),
                                    repo: text_of(repo),
                                },
                            );
                        },
                        None => {
                            effects.push(
                                Effect::Create {
                                    title: text_of(title),
                                    description: text_of(description),
                                    repo: text_of(repo),
                                },
                            );
                        },
                    }
                } else {
                    self.input_mode = form_mode(task_id, fields, active);
                    effects.push(Effect::Warn(owned("Title cannot be empty")));
                }
            },
            _ => {
                let f = &fields[active];
                let mut value = copy_string(&f.value);
                let mut cursor: usize = f.cursor_pos;
                crate::input::edit_text(&mut value, &mut cursor, key);
                let nf = InputField { label: f.label, value, placeholder: f.placeholder, cursor_pos: cursor };
                fields.set(active, nf);
                proof {
                    assert(crate::input::fields_view(fields@) =~= fv.update(
                        active as int,
                        edit_field(fv[active as int], key),
                    ));
                }
                self.input_mode = form_mode(task_id, fields, active);
            },
        }
        proof {
            assert(effects_view(effects@) =~= form_key(m, key).1);
        }
        effects
    }
}

} // verus!

verus! {

fn send_effects_of(sel: &Option<Task>, message: String) -> (r: Vec<Effect>)
    ensures
        effects_view(r@) == send_effects(opt_task_view(*sel), message@),
{
    let mut r: Vec<Effect> = Vec::new();
    match sel {
        Some(t) => {
            if t.status == TaskStatus::Running || t.status == TaskStatus::Blocked {
                r.push(Effect::Send { task_id: copy_string(&t.id), message });
            } else {
                r.push(Effect::Warn(owned("Select a Running or Blocked task to message")));
            }
        },
        None => {
            r.push(Effect::Warn(owned("Select a Running or Blocked task to message")));
        },
    }
    proof {
        assert(effects_view(r@) =~= send_effects(opt_task_view(*sel), message@));
    }
    r
}

impl Board {
    /// Handle a key press while a message is being written (see
    /// [`message_key`]).
    pub fn handle_send_message_key(&mut self, key: Key) -> (effects: Vec<Effect>)
        requires
            old(self).wf(),
            old(self).input_mode is SendMessage,
            crate::input::mode_wf(old(self).input_mode@),
            crate::input::fits_key(old(self).input_mode->SendMessage_input@, key),
        ensures
            final(self)@ == with_mode(
                old(self)@,
                message_key(
                    old(self).input_mode->SendMessage_input@,
                    old(self).input_mode->SendMessage_cursor_pos as int,
                    key,
                    selected_of(old(self)@),
                ).0,
            ),
            effects_view(effects@) == message_key(
                old(self).input_mode->SendMessage_input@,
                old(self).input_mode->SendMessage_cursor_pos as int,
                key,
                selected_of(old(self)@),
            ).1,
            crate::input::mode_wf(final(self).input_mode@),
    {
        let ghost v = self@;
        let sel: Option<Task> = match self.selected_task() {
            Some(t) => Some(t.copy()),
            None => None,
        };
        assert(opt_task_view(sel) == selected_of(v));
        let mut mode = InputMode::Normal;
        std::mem::swap(&mut self.input_mode, &mut mode);
        let (mut input, mut cursor): (String, usize) = match mode {
            InputMode::SendMessage { input, cursor_pos } => (input, cursor_pos),
            _ => (String::new(), 0),
        };
        let mut effects: Vec<Effect> = Vec::new();
        match key {
            Key::Esc => {},
            Key::Enter => {
                let msg = crate::text::trim_str(input.as_str());
                if msg.len() > 0 {
                    effects = send_effects_of(&sel, text_of(msg));
                }
            },
            _ => {
                crate::input::edit_text(&mut input, &mut cursor, key);
                self.input_mode = InputMode::SendMessage { input, cursor_pos: cursor };
            },
        }
        proof {
            assert(effects_view(effects@) =~= message_key(
                v.mode->SendMessage_input,
                v.mode->SendMessage_cursor,
                key,
                selected_of(v),
            ).1);
        }
        effects
    }

    /// Handle a key press in the confirmation dialog (see [`confirm_key`]).
    pub fn handle_confirm_key(&mut self, key: Key) -> (effects: Vec<Effect>)
        requires
            old(self).input_mode is Confirm,
        ensures
            final(self)@ == with_mode(old(self)@, confirm_key(old(self).input_mode->Confirm_action@, key).0),
            effects_view(effects@) == confirm_key(old(self).input_mode->Confirm_action@, key).1,
    {
        let ghost a = self.input_mode->Confirm_action@;
        let mut mode = InputMode::Normal;
        std::mem::swap(&mut self.input_mode, &mut mode);
        let mut effects: Vec<Effect> = Vec::new();
        if key == Key::Char('y') || key == Key::Char('Y') {
            match mode {
                InputMode::Confirm { action, .. } => match action {
                    PendingAction::DeleteTask(id) => effects.push(Effect::Delete(id)),
                    PendingAction::KillTask(id) => effects.push(Effect::Kill(id)),
                },
                _ => {},
            }
        } else {
            effects.push(Effect::Info(owned("Cancelled")));
        }
        proof {
            assert(effects_view(effects@) =~= confirm_key(a, key).1);
        }
        effects
    }

    /// Handle a key press in the quick prompt palette (see
    /// [`quick_prompt_key`]).
    pub fn handle_quick_prompt_key(&mut self, key: Key) -> (effects: Vec<Effect>)
        requires
            old(self).wf(),
            old(self).input_mode is QuickPrompts,
        ensures
            final(self)@ == with_mode(old(self)@, quick_prompt_key(key, selected_of(old(self)@)).0),
            effects_view(effects@) == quick_prompt_key(key, selected_of(old(self)@)).1,
    {
        let ghost v = self@;
        let sel: Option<Task> = match self.selected_task() {
            Some(t) => Some(t.copy()),
            None => None,
        };
        assert(opt_task_view(sel) == selected_of(v));
        let mut effects: Vec<Effect> = Vec::new();
        match key {
            Key::Esc | Key::Char('q') | Key::Char('p') => {
                self.input_mode = InputMode::Normal;
            },
            Key::Char(c) => {
                if ('0' <= c && c <= '9') || ('a' <= c && c <= 'z') {
                    match crate::prompts::find_quick_prompt(c) {
                        Some(qp) => {
                            self.input_mode = InputMode::Normal;
                            effects = send_effects_of(&sel, owned(qp.prompt));
                            let mut note = owned("\u{26a1} Sent: ");
                            push_str(&mut note, qp.label);
                            effects.push(Effect::Info(note));
                        },
                        None => {},
                    }
                } else {
                    self.input_mode = InputMode::Normal;
                }
            },
            _ => {
                self.input_mode = InputMode::Normal;
            },
        }
        proof {
            assert(effects_view(effects@) =~= quick_prompt_key(key, selected_of(v)).1);
        }
        effects
    }
}

} // verus!

verus! {

/// The board and the effects after a key press, whatever the input mode.
pub open spec fn key_spec(v: BoardView, key: Key, cwd: Seq<char>) -> (BoardView, Seq<EffectView>) {
    match v.mode {
        ModeView::Normal => normal_key(v, key, cwd),
        ModeView::NewTask { .. } | ModeView::EditTask { .. } => {
            let r = form_key(v.mode, key);
            (with_mode(v, r.0), r.1)
        },
        ModeView::SendMessage { input, cursor } => {
            let r = message_key(input, cursor, key, selected_of(v));
            (with_mode(v, r.0), r.1)
        },
        ModeView::Confirm { action, .. } => {
            let r = confirm_key(action, key);
            (with_mode(v, r.0), r.1)
        },
        ModeView::QuickPrompts => {
            let r = quick_prompt_key(key, selected_of(v));
            (with_mode(v, r.0), r.1)
        },
    }
}

/// Whether a key press can be handled in the board's state: typing must
/// leave the text within the address space, and the kill prompt needs the
/// short form of the task's id.
pub open spec fn key_ok(v: BoardView, key: Key) -> bool {
    match v.mode {
        ModeView::Normal => normal_key_ok(v, key),
        ModeView::NewTask { .. } | ModeView::EditTask { .. } => form_key_ok(v.mode, key),
        ModeView::SendMessage { input, .. } => crate::input::fits_key(input, key),
        _ => true,
    }
}

impl Board {
    /// The state that every key press keeps.
    pub open spec fn inv(&self) -> bool {
        self.wf() && crate::input::mode_wf(self.input_mode@)
    }

    /// Handle a key press in whatever mode the board is in (see
    /// [`key_spec`]).
    pub fn handle_key(&mut self, key: Key, cwd: &str) -> (effects: Vec<Effect>)
        requires
            old(self).inv(),
            key_ok(old(self)@, key),
        ensures
            final(self).inv(),
            (final(self)@, effects_view(effects@)) == key_spec(old(self)@, key, cwd@),
    {
        match &self.input_mode {
            InputMode::Normal => self.handle_normal_key(key, cwd),
            InputMode::NewTask { .. } => self.handle_form_key(key),
            InputMode::EditTask { .. } => self.handle_form_key(key),
            InputMode::SendMessage { .. } => self.handle_send_message_key(key),
            InputMode::Confirm { .. } => self.handle_confirm_key(key),
            InputMode::QuickPrompts => self.handle_quick_prompt_key(key),
        }
    }
}

} // verus!

verus! {

/// `m` on a selected running or blocked task opens an empty message box,
/// with the cursor at its start and no notice; on a task in any other
/// status it changes nothing and warns; with no task selected it does
/// nothing. `p` opens the quick prompt palette on the same tasks.
pub proof fn law_message_keys_open_on_running_and_blocked_tasks(v: BoardView, cwd: Seq<char>)
    requires
        !v.show_help,
    ensures
        (selected_of(v) matches Some(t) && (t.status == TaskStatus::Running || t.status == TaskStatus::Blocked))
            ==> normal_key(v, Key::Char('m'), cwd) == (
            BoardView { mode: ModeView::SendMessage { input: seq![], cursor: 0 }, ..v },
            Seq::<EffectView>::empty(),
        ) && normal_key(v, Key::Char('p'), cwd) == (
            BoardView { mode: ModeView::QuickPrompts, ..v },
            Seq::<EffectView>::empty(),
        ),
        (selected_of(v) matches Some(t) && t.status != TaskStatus::Running && t.status != TaskStatus::Blocked)
            ==> normal_key(v, Key::Char('m'), cwd).0 == v && normal_key(v, Key::Char('m'), cwd).1 == seq![
            EffectView::Warn("Can only message Running/Blocked tasks"@),
        ],
        selected_of(v) is None ==> normal_key(v, Key::Char('m'), cwd) == (v, Seq::<EffectView>::empty()),
{
}

} // verus!
