//! What the board tells the user after it acted on a task, and the small
//! decisions around those actions: the defaults of a new task, the
//! confirmation before deleting unmerged work, what the detail pane shows.
use vstd::prelude::*;
use crate::board::Board;
use crate::input::{InputMode, PendingAction, ModeView, PendingView};
use crate::keys::{Effect, EffectView, effects_view, with_mode};
use crate::orchestrator::{CompletionEvent, CompletionReason, DeleteInfo, completion_message};
use crate::store::{Task, TaskStatus};
use crate::text::{owned, push_str, copy_string, byte_boundary, byte_prefix, prefix_bytes, short_id,
    short_id_of, short_len, take_chars, chars_of, first_chars, string_of};

verus! {

fn cat(a: &str, b: &str) -> (r: String)
    ensures
        r@ == a@ + b@,
{
    let mut s = owned(a);
    push_str(&mut s, b);
    s
}

fn cat3(a: &str, b: &str, c: &str) -> (r: String)
    ensures
        r@ == a@ + b@ + c@,
{
    let mut s = owned(a);
    push_str(&mut s, b);
    push_str(&mut s, c);
    s
}

/// The description and the working directory of a task entered in a form:
/// a blank description is the title, and a blank directory the current
/// one.
pub fn task_input_defaults(title: &str, description: &str, repo_path: &str, cwd: &str) -> (r: (
    String,
    String,
))
    ensures
        r.0@ == (if description@.len() == 0 {
            title@
        } else {
            description@
        }),
        r.1@ == (if repo_path@.len() == 0 {
            cwd@
        } else {
            repo_path@
        }),
{
    let d = if description.is_empty() {
        owned(title)
    } else {
        owned(description)
    };
    let r = if repo_path.is_empty() {
        owned(cwd)
    } else {
        owned(repo_path)
    };
    (d, r)
}

/// `Started → <id> on branch <branch>` (`?` for a missing branch).
pub fn started_notice(id: &str, branch: Option<&str>) -> (r: String)
    requires
        byte_boundary(id@, 8),
    ensures
        r@ == "Started \u{2192} "@ + byte_prefix(id@, 8) + " on branch "@ + match branch {
            Some(b) => b@,
            None => "?"@,
        },
{
    let mut s = cat3("Started \u{2192} ", prefix_bytes(id, 8), " on branch ");
    match branch {
        Some(b) => push_str(&mut s, b),
        None => push_str(&mut s, "?"),
    }
    s
}

/// `Restarted task <id>`.
pub fn restarted_notice(id: &str) -> (r: String)
    requires
        byte_boundary(id@, 8),
    ensures
        r@ == "Restarted task "@ + byte_prefix(id@, 8),
{
    cat("Restarted task ", prefix_bytes(id, 8))
}

/// `Killed task <id>`.
pub fn killed_notice(id: &str) -> (r: String)
    requires
        byte_boundary(id@, 8),
    ensures
        r@ == "Killed task "@ + byte_prefix(id@, 8),
{
    cat("Killed task ", prefix_bytes(id, 8))
}

/// `Task <id> marked done`.
pub fn done_notice(id: &str) -> (r: String)
    requires
        byte_boundary(id@, 8),
    ensures
        r@ == "Task "@ + byte_prefix(id@, 8) + " marked done"@,
{
    cat3("Task ", prefix_bytes(id, 8), " marked done")
}

/// `Task <id> sent to Keep`.
pub fn kept_notice(id: &str) -> (r: String)
    requires
        byte_boundary(id@, 8),
    ensures
        r@ == "Task "@ + byte_prefix(id@, 8) + " sent to Keep"@,
{
    cat3("Task ", prefix_bytes(id, 8), " sent to Keep")
}

/// `Deleted task <id> (branch + worktree removed)`.
pub fn deleted_notice(id: &str) -> (r: String)
    requires
        byte_boundary(id@, 8),
    ensures
        r@ == "Deleted task "@ + byte_prefix(id@, 8) + " (branch + worktree removed)"@,
{
    cat3("Deleted task ", prefix_bytes(id, 8), " (branch + worktree removed)")
}

/// `Created task: <title> (<id>)`.
pub fn created_notice(title: &str, id: &str) -> (r: String)
    requires
        byte_boundary(id@, 8),
    ensures
        r@ == "Created task: "@ + title@ + " ("@ + byte_prefix(id@, 8) + ")"@,
{
    let mut s = cat3("Created task: ", title, " (");
    push_str(&mut s, prefix_bytes(id, 8));
    push_str(&mut s, ")");
    s
}

/// `Updated task: <title> (<id>)`, with at most eight bytes of the id.
pub fn updated_notice(title: &str, id: &str) -> (r: String)
    requires
        byte_boundary(id@, short_len(id@)),
    ensures
        r@ == "Updated task: "@ + title@ + " ("@ + short_id_of(id@) + ")"@,
{
    let mut s = cat3("Updated task: ", title, " (");
    push_str(&mut s, short_id(id));
    push_str(&mut s, ")");
    s
}

/// `Agent resumed working — <id>`, with at most eight bytes of the id.
pub fn resumed_notice(id: &str) -> (r: String)
    requires
        byte_boundary(id@, short_len(id@)),
    ensures
        r@ == "Agent resumed working \u{2014} "@ + short_id_of(id@),
{
    cat("Agent resumed working \u{2014} ", short_id(id))
}

/// A message as quoted back to the user: up to forty characters, else its
/// first thirty-nine and an ellipsis.
pub open spec fn quoted_message(m: Seq<char>) -> Seq<char> {
    if m.len() > 40 {
        m.take(39).push('\u{2026}')
    } else {
        m
    }
}

/// `Sent to <id>: <message>`.
pub fn sent_notice(id: &str, message: &str) -> (r: String)
    requires
        byte_boundary(id@, 8),
    ensures
        r@ == "Sent to "@ + byte_prefix(id@, 8) + ": "@ + quoted_message(message@),
{
    let cs = chars_of(message);
    let quoted = if cs.len() > 40 {
        let mut q = first_chars(&cs, 39);
        q.push('\u{2026}');
        string_of(&q)
    } else {
        owned(message)
    };
    let mut s = cat3("Sent to ", prefix_bytes(id, 8), ": ");
    push_str(&mut s, quoted.as_str());
    s
}

/// `Resume failed: <error>`.
pub fn resume_failed_notice(error: &str) -> (r: String)
    ensures
        r@ == "Resume failed: "@ + error@,
{
    cat("Resume failed: ", error)
}

/// The warning shown before deleting a task whose branch has unmerged work.
pub open spec fn unmerged_prompt(branch: Option<Seq<char>>) -> Seq<char> {
    "\u{26a0} Branch '"@ + match branch {
        Some(b) => b,
        None => "unknown"@,
    } + "' has unmerged work! Delete anyway? (y/n)"@
}

impl Board {
    /// After the delete key: delete at once, or, where the task's branch
    /// has unmerged work, ask first.
    pub fn after_delete_check(&mut self, task: &Task, info: &DeleteInfo) -> (effects: Vec<Effect>)
        ensures
            info.has_unmerged_work ==> final(self)@ == with_mode(
                old(self)@,
                ModeView::Confirm {
                    prompt: unmerged_prompt(crate::text::opt_view(task.branch_name)),
                    action: PendingView::DeleteTask(task.id@),
                },
            ) && effects_view(effects@) == Seq::<EffectView>::empty(),
            !info.has_unmerged_work ==> final(self)@ == old(self)@ && effects_view(effects@) == seq![
                EffectView::Delete(task.id@),
            ],
    {
        let mut effects: Vec<Effect> = Vec::new();
        if info.has_unmerged_work {
            let mut prompt = owned("\u{26a0} Branch '");
            match &task.branch_name {
                Some(b) => push_str(&mut prompt, b.as_str()),
                None => push_str(&mut prompt, "unknown"),
            }
            push_str(&mut prompt, "' has unmerged work! Delete anyway? (y/n)");
            self.input_mode = InputMode::Confirm {
                prompt,
                action: PendingAction::DeleteTask(copy_string(&task.id)),
            };
            proof {
                assert(effects_view(effects@) =~= Seq::<EffectView>::empty());
            }
        } else {
            effects.push(Effect::Delete(copy_string(&task.id)));
            proof {
                assert(effects_view(effects@) =~= seq![EffectView::Delete(task.id@)]);
            }
        }
        effects
    }
}

// ---------------------------------------------------------------------------
// The detail pane
// ---------------------------------------------------------------------------

/// What the detail pane shows for the selected task.
#[derive(Debug, PartialEq, Eq)]
pub enum DetailSource {
    /// The last lines of this tmux session.
    Capture(String),
    /// This text.
    Text(String),
}

/// What the detail pane shows as plain values.
pub enum DetailView {
    Capture(Seq<char>),
    Text(Seq<char>),
}

impl View for DetailSource {
    type V = DetailView;

    open spec fn view(&self) -> DetailView {
        match self {
            DetailSource::Capture(s) => DetailView::Capture(s@),
            DetailSource::Text(s) => DetailView::Text(s@),
        }
    }
}

/// The detail pane: nothing without a selected task or a session; the
/// session's output unless the session is known to have ended.
pub open spec fn detail_spec(task: Option<crate::store::TaskView>, alive: Option<bool>) -> DetailView {
    match task {
        None => DetailView::Text(seq![]),
        Some(t) => match t.tmux_session {
            None => DetailView::Text(seq![]),
            Some(s) => if alive == Some(false) {
                DetailView::Text("(session ended)"@)
            } else {
                DetailView::Capture(s)
            },
        },
    }
}

/// What the detail pane shows for a task, given whether its session was
/// last seen alive (`None`: not known).
pub fn detail_source(task: Option<&Task>, alive: Option<bool>) -> (r: DetailSource)
    ensures
        r@ == detail_spec(
            match task {
                Some(t) => Some(t@),
                None => None,
            },
            alive,
        ),
{
    match task {
        None => DetailSource::Text(String::new()),
        Some(t) => match &t.tmux_session {
            None => DetailSource::Text(String::new()),
            Some(s) => {
                if alive == Some(false) {
                    DetailSource::Text(owned("(session ended)"))
                } else {
                    DetailSource::Capture(copy_string(s))
                }
            },
        },
    }
}

// ---------------------------------------------------------------------------
// After a refresh
// ---------------------------------------------------------------------------

/// The notice after a refresh.
pub enum RefreshNotice {
    /// An agent finished or its session died: shown prominently, with the
    /// bell, in the colour of success or failure.
    Completion { message: String, success: bool },
    /// A task went back to work.
    Resumed(String),
}

/// The notice after a refresh found these completions and resumed tasks:
/// the first completion, else the first task that resumed working, else
/// none.
pub fn refresh_notice(events: &Vec<CompletionEvent>, resumed: &Vec<String>) -> (r: Option<RefreshNotice>)
    requires
        events@.len() > 0 ==> byte_boundary(events@[0].task_id@, short_len(events@[0].task_id@)),
        events@.len() == 0 && resumed@.len() > 0 ==> byte_boundary(resumed@[0]@, short_len(resumed@[0]@)),
    ensures
        events@.len() > 0 ==> (r matches Some(RefreshNotice::Completion { message, success })
            && message@ == completion_message(events@[0].task_id@, events@[0].title@, events@[0].reason)
            && success == (events@[0].reason != CompletionReason::SessionDied)),
        events@.len() == 0 && resumed@.len() > 0 ==> (r matches Some(RefreshNotice::Resumed(m)) && m@
            == "Agent resumed working \u{2014} "@ + short_id_of(resumed@[0]@)),
        events@.len() == 0 && resumed@.len() == 0 ==> r is None,
{
    if events.len() > 0 {
        let e = &events[0];
        Some(RefreshNotice::Completion { message: e.message(), success: e.is_success() })
    } else if resumed.len() > 0 {
        Some(RefreshNotice::Resumed(resumed_notice(resumed[0].as_str())))
    } else {
        None
    }
}

} // verus!

verus! {

// ---------------------------------------------------------------------------
// What the board shows of a task
// ---------------------------------------------------------------------------

/// The mark after a task's title in its column: a running task's session
/// alive (`●`) or ended (`○`) where known, a blocked task's warning sign.
pub open spec fn alive_indicator_spec(status: TaskStatus, alive: Option<bool>) -> Seq<char> {
    if status == TaskStatus::Running {
        match alive {
            Some(true) => " \u{25cf}"@,
            Some(false) => " \u{25cb}"@,
            None => ""@,
        }
    } else if status == TaskStatus::Blocked {
        " \u{26a0}"@
    } else {
        ""@
    }
}

/// The mark after a task's title in its column (see
/// [`alive_indicator_spec`]).
pub fn alive_indicator(status: TaskStatus, alive: Option<bool>) -> (r: &'static str)
    ensures
        r@ == alive_indicator_spec(status, alive),
{
    if status == TaskStatus::Running {
        match alive {
            Some(true) => " \u{25cf}",
            Some(false) => " \u{25cb}",
            None => "",
        }
    } else if status == TaskStatus::Blocked {
        " \u{26a0}"
    } else {
        ""
    }
}

/// The session state shown in the detail pane.
pub fn alive_label(alive: Option<bool>) -> (r: &'static str)
    ensures
        r@ == match alive {
            Some(true) => "\u{25cf} alive"@,
            Some(false) => "\u{25cb} dead"@,
            None => ""@,
        },
{
    match alive {
        Some(true) => "\u{25cf} alive",
        Some(false) => "\u{25cb} dead",
        None => "",
    }
}

/// What the preview pane says when there is no output: the task has not
/// started, has no session, or its session printed nothing.
pub fn preview_placeholder(task: &Task) -> (r: &'static str)
    ensures
        r@ == if task.status == TaskStatus::Backlog {
            "Task not started yet."@
        } else if task.tmux_session is None {
            "No session attached."@
        } else {
            "(no output captured)"@
        },
{
    if task.status == TaskStatus::Backlog {
        "Task not started yet."
    } else if task.tmux_session.is_none() {
        "No session attached."
    } else {
        "(no output captured)"
    }
}

/// The first line shown of output that wraps to `total_lines` lines in a
/// pane `height` lines high: the last screenful while following the
/// output, else `scroll_up` lines above it (never above the top).
pub open spec fn preview_scroll_spec(total_lines: int, height: int, at_bottom: bool, scroll_up: int) -> int {
    let over = if total_lines > height {
        total_lines - height
    } else {
        0
    };
    let max_scroll = if over > 0xffff {
        0xffff
    } else {
        over
    };
    if at_bottom {
        max_scroll
    } else if max_scroll > scroll_up {
        max_scroll - scroll_up
    } else {
        0
    }
}

/// The first line shown in the preview pane (see [`preview_scroll_spec`]).
pub fn preview_scroll(total_lines: usize, height: u16, at_bottom: bool, scroll_up: u16) -> (r: u16)
    ensures
        r as int == preview_scroll_spec(total_lines as int, height as int, at_bottom, scroll_up as int),
{
    let over: usize = if total_lines > height as usize {
        total_lines - height as usize
    } else {
        0
    };
    let max_scroll: u16 = if over > 0xffff {
        0xffff
    } else {
        over as u16
    };
    if at_bottom {
        max_scroll
    } else if max_scroll > scroll_up {
        max_scroll - scroll_up
    } else {
        0
    }
}

} // verus!
