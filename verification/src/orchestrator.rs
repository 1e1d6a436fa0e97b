//! The decisions of the task lifecycle: when a running agent has finished,
//! when a blocked one works again, which tasks to restore after a restart,
//! the prompt an agent is started with, and how each lifecycle operation
//! changes a task. Running tmux, Git and the database is left to the caller,
//! which hands the results in.

use vstd::prelude::*;
use crate::agent::{AgentKind, any_pattern_in, active_patterns_of, any_pattern, is_idle_spec, AgentHarness};
use crate::store::{Task, TaskStatus, TaskView};
use crate::text::{
    byte_boundary, chars_of, contains_seq, contains_str, copy_opt_string, copy_string, decimal, decimal_text,
    join, lemma_join_push, lines_of, owned, push_char, push_chars, push_str, short_id, short_id_of, short_len,
    split_lines, str_eq, string_of, trim, trim_chars,
};

verus! {

// ---------------------------------------------------------------------------
// Text helpers
// ---------------------------------------------------------------------------

/// A text cut to `max_len` characters, the last of which becomes `…` when
/// anything is cut.
pub open spec fn truncated(s: Seq<char>, max_len: nat) -> Seq<char> {
    if s.len() <= max_len {
        s
    } else {
        s.take(if max_len == 0 { 0 } else { max_len - 1 }).push('…')
    }
}

/// Truncate a string to `max_len` characters, adding an ellipsis if needed.
pub fn truncate(s: &str, max_len: usize) -> (r: String)
    ensures
        r@ == truncated(s@, max_len as nat),
{
    let cs = chars_of(s);
    if cs.len() <= max_len {
        owned(s)
    } else {
        let keep = if max_len == 0 {
            0
        } else {
            max_len - 1
        };
        let mut out = String::new();
        let mut i: usize = 0;
        while i < keep
            invariant
                i <= keep < cs.len(),
                out@ =~= cs@.take(i as int),
            decreases keep - i,
        {
            push_char(&mut out, cs[i]);
            i = i + 1;
        }
        push_char(&mut out, '…');
        out
    }
}

// ---------------------------------------------------------------------------
// Prompts
// ---------------------------------------------------------------------------

/// Carriage returns made newlines.
pub open spec fn cr_to_lf(s: Seq<char>) -> Seq<char> {
    s.map_values(|c: char| if c == '\r' { '\n' } else { c })
}

/// The lines, trimmed, without the empty ones.
pub open spec fn prompt_lines(lines: Seq<Seq<char>>) -> Seq<Seq<char>>
    decreases lines.len(),
{
    if lines.len() == 0 {
        Seq::empty()
    } else if trim(lines.last()).len() == 0 {
        prompt_lines(lines.drop_last())
    } else {
        prompt_lines(lines.drop_last()).push(trim(lines.last()))
    }
}

/// A text collapsed onto one line: every line trimmed, empty lines dropped,
/// the rest joined by single spaces.
pub open spec fn single_line(s: Seq<char>) -> Seq<char> {
    join(prompt_lines(lines_of(cr_to_lf(s))), " "@)
}

/// Collapse any line terminators (and surrounding whitespace) into single
/// spaces so the prompt is safe to send through `tmux send-keys`.
pub fn sanitize_prompt(s: &str) -> (r: String)
    ensures
        r@ == single_line(s@),
{
    let cs = chars_of(s);
    let mut mapped: Vec<char> = Vec::new();
    let mut i: usize = 0;
    while i < cs.len()
        invariant
            i <= cs.len(),
            mapped@ =~= cr_to_lf(cs@).take(i as int),
        decreases cs.len() - i,
    {
        let c = cs[i];
        mapped.push(if c == '\r' { '\n' } else { c });
        i = i + 1;
    }
    let normalized = string_of(&mapped);
    assert(normalized@ =~= cr_to_lf(s@));
    let lines = split_lines(normalized.as_str());
    let ghost all = lines_of(cr_to_lf(s@));
    let mut out = String::new();
    let mut any = false;
    let mut k: usize = 0;
    proof {
        reveal_strlit(" ");
    }
    while k < lines.len()
        invariant
            k <= lines.len(),
            lines@.len() == all.len(),
            forall|j: int| 0 <= j < lines@.len() ==> #[trigger] lines@[j]@ == all[j],
            out@ == join(prompt_lines(all.take(k as int)), " "@),
            any == (prompt_lines(all.take(k as int)).len() > 0),
        decreases lines.len() - k,
    {
        let t = trim_chars(&lines[k]);
        let ghost words = prompt_lines(all.take(k as int));
        proof {
            assert(all.take(k + 1).drop_last() =~= all.take(k as int));
            assert(all.take(k + 1).last() == all[k as int]);
        }
        if t.len() > 0 {
            if any {
                proof {
                    lemma_join_push(words, " "@, t@);
                }
                push_str(&mut out, " ");
            } else {
                assert(words.push(t@) =~= seq![t@]);
            }
            push_chars(&mut out, &t);
            any = true;
        }
        k = k + 1;
    }
    assert(all.take(k as int) =~= all);
    out
}

/// The prompt an agent is started with: the title, followed by ` — ` and
/// the description when there is one that differs from the title, on one
/// line.
pub open spec fn prompt_for(title: Seq<char>, description: Seq<char>) -> Seq<char> {
    if description.len() == 0 || description == title {
        single_line(title)
    } else {
        single_line(title + " — "@ + description)
    }
}

/// Build the prompt string for the agent from a task's title and
/// description.
pub fn build_prompt(task: &Task) -> (r: String)
    ensures
        r@ == prompt_for(task.title@, task.description@),
{
    if task.description.as_str().is_empty() || task.description == task.title {
        sanitize_prompt(task.title.as_str())
    } else {
        let mut text = copy_string(&task.title);
        push_str(&mut text, " — ");
        push_str(&mut text, task.description.as_str());
        sanitize_prompt(text.as_str())
    }
}

} // verus!

verus! {

// ---------------------------------------------------------------------------
// Completion detection
// ---------------------------------------------------------------------------

/// Why a running task was detected as complete.
#[derive(Clone, Copy, Debug, PartialEq, Eq, Structural)]
pub enum CompletionReason {
    /// The tmux session no longer exists.
    SessionDied,
    /// The agent finished and is sitting at its idle prompt.
    IdlePrompt,
    /// The agent process exited (exit marker or process tree).
    AgentExited,
}

/// A completion detected for one running task.
pub struct CompletionEvent {
    pub task_id: String,
    pub title: String,
    pub reason: CompletionReason,
}

/// The notification text for a completion.
pub open spec fn completion_message(task_id: Seq<char>, title: Seq<char>, reason: CompletionReason) -> Seq<char> {
    let short = short_id_of(task_id);
    let t = truncated(title, 30);
    match reason {
        CompletionReason::SessionDied => "🔔 Session died for task "@ + short + " — "@ + t,
        CompletionReason::IdlePrompt => "🔔 ⚠ Agent done, needs review — "@ + short + " ("@ + t + ")"@,
        CompletionReason::AgentExited => "🔔 ⚠ Agent exited, needs review — "@ + short + " ("@ + t + ")"@,
    }
}

impl CompletionEvent {
    /// Whether this is a finished agent rather than a session that died.
    pub fn is_success(&self) -> (r: bool)
        ensures
            r == (self.reason != CompletionReason::SessionDied),
    {
        !matches!(self.reason, CompletionReason::SessionDied)
    }

    /// Human-readable notification message.
    pub fn message(&self) -> (r: String)
        requires
            byte_boundary(self.task_id@, short_len(self.task_id@)),
        ensures
            r@ == completion_message(self.task_id@, self.title@, self.reason),
    {
        let short = short_id(self.task_id.as_str());
        let title = truncate(self.title.as_str(), 30);
        let mut out = match self.reason {
            CompletionReason::SessionDied => owned("🔔 Session died for task "),
            CompletionReason::IdlePrompt => owned("🔔 ⚠ Agent done, needs review — "),
            CompletionReason::AgentExited => owned("🔔 ⚠ Agent exited, needs review — "),
        };
        push_str(&mut out, short);
        match self.reason {
            CompletionReason::SessionDied => {
                push_str(&mut out, " — ");
                push_str(&mut out, title.as_str());
            },
            _ => {
                push_str(&mut out, " (");
                push_str(&mut out, title.as_str());
                push_str(&mut out, ")");
            },
        }
        out
    }
}

/// The first checks on a running task, before its screen is looked at.
#[derive(Clone, Copy, Debug, PartialEq, Eq, Structural)]
pub enum Precheck {
    /// Nothing to decide now.
    Skip,
    /// The session is gone: the task completed with `SessionDied`.
    SessionDied,
    /// Look at the pane.
    Inspect,
}

/// The first checks on a running task: repository setup still running and
/// tasks without a session are left alone; a dead session is a completion,
/// even during a grace period; a task started or updated moments ago is
/// left alone.
pub open spec fn precheck_spec(task: TaskView, setup_running: bool, session_alive: Option<bool>, in_grace: bool, recently_updated: bool) -> Precheck {
    if setup_running || task.tmux_session is None {
        Precheck::Skip
    } else if session_alive == Some(false) {
        Precheck::SessionDied
    } else if in_grace || recently_updated {
        Precheck::Skip
    } else {
        Precheck::Inspect
    }
}

/// The first checks on a running task. `session_alive` is what the last
/// session check found for its session (`None` when it was not checked).
pub fn completion_precheck(task: &Task, setup_running: bool, session_alive: Option<bool>, in_grace: bool, recently_updated: bool) -> (r: Precheck)
    ensures
        r == precheck_spec(task@, setup_running, session_alive, in_grace, recently_updated),
{
    if setup_running || task.tmux_session.is_none() {
        Precheck::Skip
    } else if session_alive == Some(false) {
        Precheck::SessionDied
    } else if in_grace || recently_updated {
        Precheck::Skip
    } else {
        Precheck::Inspect
    }
}

/// How long after a task's last update completion detection waits, in
/// seconds.
pub const DB_GRACE_PERIOD_SECS: i64 = 30;

/// Whether the task's `updated_at` lies fewer than 30 whole seconds before
/// `now`. A timestamp that does not parse never counts as recent.
pub fn recently_updated(now: (i64, u32), updated_at: &str) -> (r: bool)
    ensures
        r == match crate::store::rfc3339_instant(updated_at@) {
            Some(t) => crate::store::within_seconds(now, t, DB_GRACE_PERIOD_SECS),
            None => false,
        },
{
    match crate::store::parse_rfc3339(updated_at) {
        Some(t) => crate::store::is_within_seconds(now, t, DB_GRACE_PERIOD_SECS),
        None => false,
    }
}

/// What the visible pane of a running task shows.
#[derive(Clone, Copy, Debug, PartialEq, Eq, Structural)]
pub enum ScreenVerdict {
    /// The wrapped agent command printed the exit marker.
    Exited,
    /// The agent waits at its idle prompt.
    Idle,
    /// Neither: check the process tree.
    Unclear,
}

pub open spec fn screen_verdict_spec(k: AgentKind, visible: Seq<char>) -> ScreenVerdict {
    if contains_seq(visible, crate::agent::EXIT_MARKER@) {
        ScreenVerdict::Exited
    } else if is_idle_spec(k, visible) {
        ScreenVerdict::Idle
    } else {
        ScreenVerdict::Unclear
    }
}

/// Read the visible pane of a running task: the exit marker first, then the
/// agent's idle state.
pub fn screen_verdict(k: AgentKind, visible: &str) -> (r: ScreenVerdict)
    ensures
        r == screen_verdict_spec(k, visible@),
{
    if contains_str(visible, crate::agent::EXIT_MARKER) {
        ScreenVerdict::Exited
    } else if k.is_idle(visible) {
        ScreenVerdict::Idle
    } else {
        ScreenVerdict::Unclear
    }
}

/// The reason a running task completed, if it did: a dead session, then the
/// exit marker, then the idle prompt, then (`agent_in_tree`: whether the
/// agent's process was found under the pane, `None` when the pane could not
/// be inspected) an agent process that is gone.
pub open spec fn completion_reason_spec(
    task: TaskView,
    k: AgentKind,
    setup_running: bool,
    session_alive: Option<bool>,
    in_grace: bool,
    recently_updated: bool,
    visible: Seq<char>,
    agent_in_tree: Option<bool>,
) -> Option<CompletionReason> {
    match precheck_spec(task, setup_running, session_alive, in_grace, recently_updated) {
        Precheck::Skip => None,
        Precheck::SessionDied => Some(CompletionReason::SessionDied),
        Precheck::Inspect => match screen_verdict_spec(k, visible) {
            ScreenVerdict::Exited => Some(CompletionReason::AgentExited),
            ScreenVerdict::Idle => Some(CompletionReason::IdlePrompt),
            ScreenVerdict::Unclear => if agent_in_tree == Some(false) {
                Some(CompletionReason::AgentExited)
            } else {
                None
            },
        },
    }
}

/// What the pane and, where the pane was unclear, the process tree say of
/// a task that was inspected: the exit marker or the idle prompt end it,
/// and so does an agent that is no longer in the tree (`agent_in_tree`:
/// `None` when the tree could not be read).
pub fn reason_from_screen(verdict: ScreenVerdict, agent_in_tree: Option<bool>) -> (r: Option<CompletionReason>)
    ensures
        r == match verdict {
            ScreenVerdict::Exited => Some(CompletionReason::AgentExited),
            ScreenVerdict::Idle => Some(CompletionReason::IdlePrompt),
            ScreenVerdict::Unclear => if agent_in_tree == Some(false) {
                Some(CompletionReason::AgentExited)
            } else {
                None
            },
        },
{
    match verdict {
        ScreenVerdict::Exited => Some(CompletionReason::AgentExited),
        ScreenVerdict::Idle => Some(CompletionReason::IdlePrompt),
        ScreenVerdict::Unclear => {
            if agent_in_tree == Some(false) {
                Some(CompletionReason::AgentExited)
            } else {
                None
            }
        },
    }
}

/// A task whose session is known to be gone is reported as such, even
/// during its grace period or just after an update; a task still setting
/// up is never reported.
pub proof fn law_dead_session_is_always_reported(
    task: TaskView,
    k: AgentKind,
    in_grace: bool,
    recently_updated: bool,
    visible: Seq<char>,
    agent_in_tree: Option<bool>,
)
    requires
        task.tmux_session is Some,
    ensures
        completion_reason_spec(task, k, false, Some(false), in_grace, recently_updated, visible, agent_in_tree)
            == Some(CompletionReason::SessionDied),
        completion_reason_spec(task, k, true, Some(false), in_grace, recently_updated, visible, agent_in_tree)
            is None,
{
}

/// The completion event for a task, once its reason is known.
pub fn completion_event(task: &Task, reason: CompletionReason) -> (e: CompletionEvent)
    ensures
        e.task_id@ == task.id@,
        e.title@ == task.title@,
        e.reason == reason,
{
    CompletionEvent { task_id: copy_string(&task.id), title: copy_string(&task.title), reason }
}

// ---------------------------------------------------------------------------
// Blocked → Running resumption
// ---------------------------------------------------------------------------

/// Whether a blocked or done task's pane shows its agent working again: the
/// session is known to be alive and an active pattern is on screen.
pub open spec fn resumes_spec(k: AgentKind, session_alive: Option<bool>, visible: Option<Seq<char>>) -> bool {
    session_alive == Some(true) && match visible {
        Some(v) => any_pattern(v, active_patterns_of(k)),
        None => false,
    }
}

/// Whether a blocked or done task's agent is working again. `visible` is
/// the captured pane (`None` when it could not be captured).
pub fn resumes_working(k: AgentKind, session_alive: Option<bool>, visible: Option<&str>) -> (r: bool)
    ensures
        r == resumes_spec(k, session_alive, match visible { Some(v) => Some(v@), None => None }),
{
    if session_alive != Some(true) {
        return false;
    }
    match visible {
        Some(v) => any_pattern_in(v, &k.active_patterns()),
        None => false,
    }
}

} // verus!

verus! {

// ---------------------------------------------------------------------------
// Session restoration after a reboot or tmux server restart
// ---------------------------------------------------------------------------

/// Result of restoring orphaned tasks.
pub struct RestoreResult {
    /// Tasks that were restored (new tmux session, agent re-launched).
    pub restored: Vec<String>,
    /// Tasks that could not be restored and were moved to Blocked.
    pub failed: Vec<String>,
}

/// The session a Running task is restored into, if it needs restoring:
/// its recorded session when that is gone, the conventional one when none
/// is recorded, nothing when the recorded one is alive or the task is not
/// Running.
pub open spec fn restore_session_spec(task: TaskView, recorded_alive: bool) -> Option<Seq<char>> {
    if task.status != TaskStatus::Running {
        None
    } else {
        match task.tmux_session {
            Some(s) => if recorded_alive {
                None
            } else {
                Some(s)
            },
            None => Some(crate::tmux::session_name_spec(task.id)),
        }
    }
}

/// The session to restore a task into, if it needs restoring.
/// `recorded_alive` tells whether the task's recorded session exists.
pub fn restore_session_for(task: &Task, recorded_alive: bool) -> (r: Option<String>)
    ensures
        crate::text::opt_view(r) == restore_session_spec(task@, recorded_alive),
{
    if task.status != TaskStatus::Running {
        return None;
    }
    match &task.tmux_session {
        Some(s) => if recorded_alive {
            None
        } else {
            Some(copy_string(s))
        },
        None => Some(crate::tmux::session_name(task.id.as_str())),
    }
}

/// "s" unless the count is one.
pub open spec fn plural(n: nat) -> Seq<char> {
    if n == 1 {
        Seq::empty()
    } else {
        "s"@
    }
}

/// The notice shown after restoration, and whether it is a warning: nothing
/// when no task was touched; a warning when every task failed.
pub open spec fn restore_notice_spec(restored: nat, failed: nat) -> Option<(Seq<char>, bool)> {
    if restored == 0 && failed == 0 {
        None
    } else if failed == 0 {
        Some(("🔄 Restored "@ + decimal(restored) + " interrupted task"@ + plural(restored), false))
    } else if restored == 0 {
        Some(("⚠ "@ + decimal(failed) + " task"@ + plural(failed) + " could not be restored (moved to Blocked)"@, true))
    } else {
        Some((
            "🔄 Restored "@ + decimal(restored) + " task"@ + plural(restored) + ", "@ + decimal(failed)
                + " failed (moved to Blocked)"@,
            false,
        ))
    }
}

fn push_plural(out: &mut String, n: usize)
    ensures
        final(out)@ == old(out)@ + plural(n as nat),
{
    if n != 1 {
        push_str(out, "s");
    } else {
        assert(old(out)@ + Seq::<char>::empty() =~= old(out)@);
    }
}

/// The notice shown after restoring interrupted tasks.
pub fn restore_notice(restored: usize, failed: usize) -> (r: Option<(String, bool)>)
    ensures
        match r {
            Some((text, warning)) => restore_notice_spec(restored as nat, failed as nat) == Some((text@, warning)),
            None => restore_notice_spec(restored as nat, failed as nat) is None,
        },
{
    if restored == 0 && failed == 0 {
        None
    } else if failed == 0 {
        let mut out = owned("🔄 Restored ");
        push_str(&mut out, decimal_text(restored).as_str());
        push_str(&mut out, " interrupted task");
        push_plural(&mut out, restored);
        Some((out, false))
    } else if restored == 0 {
        let mut out = owned("⚠ ");
        push_str(&mut out, decimal_text(failed).as_str());
        push_str(&mut out, " task");
        push_plural(&mut out, failed);
        push_str(&mut out, " could not be restored (moved to Blocked)");
        Some((out, true))
    } else {
        let mut out = owned("🔄 Restored ");
        push_str(&mut out, decimal_text(restored).as_str());
        push_str(&mut out, " task");
        push_plural(&mut out, restored);
        push_str(&mut out, ", ");
        push_str(&mut out, decimal_text(failed).as_str());
        push_str(&mut out, " failed (moved to Blocked)");
        Some((out, false))
    }
}

// ---------------------------------------------------------------------------
// Task lifecycle
// ---------------------------------------------------------------------------

/// Where a restarted or resumed task runs.
pub enum WorktreePlan {
    /// Its recorded worktree still exists.
    Reuse(String),
    /// Create a worktree that checks out this branch.
    Create(String),
}

pub enum WorktreePlanView {
    Reuse(Seq<char>),
    Create(Seq<char>),
}

pub open spec fn plan_view(p: WorktreePlan) -> WorktreePlanView {
    match p {
        WorktreePlan::Reuse(s) => WorktreePlanView::Reuse(s@),
        WorktreePlan::Create(s) => WorktreePlanView::Create(s@),
    }
}

/// The recorded worktree when it still exists; else a new worktree on the
/// task's branch (`main` when none is recorded), or on a freshly named branch
/// when the task never had a worktree.
pub open spec fn worktree_plan_spec(task: TaskView, worktree_exists: bool) -> WorktreePlanView {
    match task.worktree_path {
        Some(wt) => if worktree_exists {
            WorktreePlanView::Reuse(wt)
        } else {
            WorktreePlanView::Create(match task.branch_name {
                Some(b) => b,
                None => "main"@,
            })
        },
        None => WorktreePlanView::Create(crate::worktree::branch_name_spec(task.id, task.title)),
    }
}

/// Decide where a restarted or resumed task runs. `worktree_exists` tells
/// whether the recorded worktree path exists.
pub fn worktree_plan(task: &Task, worktree_exists: bool) -> (r: WorktreePlan)
    ensures
        plan_view(r) == worktree_plan_spec(task@, worktree_exists),
{
    match &task.worktree_path {
        Some(wt) => if worktree_exists {
            WorktreePlan::Reuse(copy_string(wt))
        } else {
            match &task.branch_name {
                Some(b) => WorktreePlan::Create(copy_string(b)),
                None => WorktreePlan::Create(owned("main")),
            }
        },
        None => WorktreePlan::Create(crate::worktree::generate_branch_name(task.id.as_str(), task.title.as_str())),
    }
}

/// A task after it started: Running in its new worktree, branch and
/// session, owned by the agent that was launched.
pub fn started_task(task: &Task, worktree_path: String, branch: String, session: String, agent: &str) -> (r: Task)
    ensures
        r@ == (TaskView {
            status: TaskStatus::Running,
            worktree_path: Some(worktree_path@),
            branch_name: Some(branch@),
            tmux_session: Some(session@),
            agent_cli: Some(agent@),
            ..task@
        }),
{
    let mut t = task.copy();
    t.status = TaskStatus::Running;
    t.worktree_path = Some(worktree_path);
    t.branch_name = Some(branch);
    t.tmux_session = Some(session);
    t.agent_cli = Some(owned(agent));
    t
}

/// A task after its agent was re-launched (restart or resume): in the given
/// status, worktree and session, owned by the launched agent. Its branch is
/// kept.
pub fn relaunched_task(task: &Task, status: TaskStatus, worktree_path: String, session: String, agent: &str) -> (r: Task)
    ensures
        r@ == (TaskView {
            status,
            worktree_path: Some(worktree_path@),
            tmux_session: Some(session@),
            agent_cli: Some(agent@),
            ..task@
        }),
{
    let mut t = task.copy();
    t.status = status;
    t.worktree_path = Some(worktree_path);
    t.tmux_session = Some(session);
    t.agent_cli = Some(owned(agent));
    t
}

/// A killed task: Blocked, with no session.
pub fn killed_task(task: &Task, agent: &str) -> (r: Task)
    ensures
        r@ == (TaskView { status: TaskStatus::Blocked, tmux_session: None, agent_cli: Some(agent@), ..task@ }),
{
    let mut t = task.copy();
    t.status = TaskStatus::Blocked;
    t.tmux_session = None;
    t.agent_cli = Some(owned(agent));
    t
}

/// A task marked done: its session and worktree are kept for inspection.
pub fn done_task(task: &Task, agent: &str) -> (r: Task)
    ensures
        r@ == (TaskView { status: TaskStatus::Done, agent_cli: Some(agent@), ..task@ }),
{
    let mut t = task.copy();
    t.status = TaskStatus::Done;
    t.agent_cli = Some(owned(agent));
    t
}

/// A task after a message was sent to its agent, and whether it changed:
/// a Blocked task runs again; any other status is kept.
pub fn messaged_task(task: &Task, agent: &str) -> (r: (Task, bool))
    ensures
        r.0@ == (TaskView {
            status: if task.status == TaskStatus::Blocked { TaskStatus::Running } else { task.status },
            agent_cli: Some(agent@),
            ..task@
        }),
        r.1 == (r.0@.status != task.status || r.0@.agent_cli != task@.agent_cli),
{
    let mut t = task.copy();
    t.agent_cli = Some(owned(agent));
    if task.status == TaskStatus::Blocked {
        t.status = TaskStatus::Running;
    }
    let same_agent = match &task.agent_cli {
        Some(a) => str_eq(a.as_str(), agent),
        None => false,
    };
    let changed = t.status != task.status || !same_agent;
    (t, changed)
}

/// Information about a task deletion, used to drive the board's flow.
pub struct DeleteInfo {
    pub has_unmerged_work: bool,
}

/// Check a task before deletion: it has unmerged work when it has a branch
/// and that branch holds commits its repository's main branch lacks
/// (`branch_has_unmerged_commits`).
pub fn pre_delete_check(task: &Task, branch_has_unmerged_commits: bool) -> (r: DeleteInfo)
    ensures
        r.has_unmerged_work == (task.branch_name is Some && branch_has_unmerged_commits),
{
    DeleteInfo { has_unmerged_work: task.branch_name.is_some() && branch_has_unmerged_commits }
}

// ---------------------------------------------------------------------------
// Which agent owns a task
// ---------------------------------------------------------------------------

/// The agent that owns a task's session: the one found running in its
/// pane's process tree, else the one recorded for the task (if it is a
/// supported one), else the default.
pub open spec fn task_agent_spec(task: TaskView, detected: Option<AgentKind>, default: AgentKind) -> AgentKind {
    match detected {
        Some(k) => k,
        None => match task.agent_cli {
            Some(a) => match crate::agent::named_agent(a) {
                Some(k) => k,
                None => default,
            },
            None => default,
        },
    }
}

/// The agent that owns a task's session (see [`task_agent_spec`]), and
/// whether the recorded agent must be updated: a running agent other than
/// the recorded one was found.
pub fn harness_for_task(task: &Task, detected: Option<AgentKind>, default: AgentKind) -> (r: (AgentKind, bool))
    ensures
        r.0 == task_agent_spec(task@, detected, default),
        r.1 == (detected matches Some(k) && task@.agent_cli != Some(crate::agent::agent_name(k))),
{
    match detected {
        Some(k) => {
            let name = k.name();
            let same = match &task.agent_cli {
                Some(a) => crate::text::str_eq(a.as_str(), name),
                None => false,
            };
            (k, !same)
        },
        None => {
            let k = match &task.agent_cli {
                Some(a) => match crate::agent::harness_for(a.as_str()) {
                    Some(k) => k,
                    None => default,
                },
                None => default,
            };
            (k, false)
        },
    }
}

// ---------------------------------------------------------------------------
// Laws
// ---------------------------------------------------------------------------

/// Text with no line break in it: no newline and no carriage return.
pub open spec fn no_breaks(s: Seq<char>) -> bool {
    forall|i: int| 0 <= i < s.len() ==> s[i] != '\n' && s[i] != '\r'
}

proof fn lemma_trim_no_breaks(s: Seq<char>)
    requires
        no_breaks(s),
    ensures
        no_breaks(crate::text::trim_start(s)),
        no_breaks(crate::text::trim_end(s)),
        no_breaks(trim(s)),
    decreases s.len(),
{
    if s.len() > 0 {
        assert(no_breaks(s.drop_first())) by {
            assert forall|i: int| 0 <= i < s.drop_first().len() implies s.drop_first()[i] != '\n'
                && s.drop_first()[i] != '\r' by {
                assert(s.drop_first()[i] == s[i + 1]);
            }
        }
        assert(no_breaks(s.drop_last())) by {
            assert forall|i: int| 0 <= i < s.drop_last().len() implies s.drop_last()[i] != '\n'
                && s.drop_last()[i] != '\r' by {
                assert(s.drop_last()[i] == s[i]);
            }
        }
        lemma_trim_no_breaks(s.drop_first());
        lemma_trim_no_breaks(s.drop_last());
        lemma_trim_no_breaks_start(crate::text::trim_start(s));
    }
}

proof fn lemma_trim_no_breaks_start(s: Seq<char>)
    requires
        no_breaks(s),
    ensures
        no_breaks(crate::text::trim_end(s)),
    decreases s.len(),
{
    if s.len() > 0 {
        assert(no_breaks(s.drop_last())) by {
            assert forall|i: int| 0 <= i < s.drop_last().len() implies s.drop_last()[i] != '\n'
                && s.drop_last()[i] != '\r' by {
                assert(s.drop_last()[i] == s[i]);
            }
        }
        lemma_trim_no_breaks_start(s.drop_last());
    }
}

proof fn lemma_lines_no_breaks(t: Seq<char>)
    requires
        forall|i: int| 0 <= i < t.len() ==> t[i] != '\r',
    ensures
        forall|k: int| 0 <= k < lines_of(t).len() ==> no_breaks(#[trigger] lines_of(t)[k]),
    decreases t.len(),
{
    if t.len() > 0 {
        crate::text::lemma_line_end_bound(t);
        let e = crate::text::line_end(t) as int;
        if e == t.len() {
            assert(lines_of(t) == seq![t]);
            assert(no_breaks(t));
        } else {
            let first = crate::text::strip_cr(t.take(e));
            assert(no_breaks(first)) by {
                assert forall|i: int| 0 <= i < first.len() implies first[i] != '\n' && first[i] != '\r' by {
                    assert(first[i] == t[i]);
                }
            }
            let rest = t.skip(e + 1);
            assert forall|i: int| 0 <= i < rest.len() implies rest[i] != '\r' by {
                assert(rest[i] == t[e + 1 + i]);
            }
            lemma_lines_no_breaks(rest);
            assert(lines_of(t) == seq![first] + lines_of(rest));
            assert forall|k: int| 0 <= k < lines_of(t).len() implies no_breaks(#[trigger] lines_of(t)[k]) by {
                if k > 0 {
                    assert(lines_of(t)[k] == lines_of(rest)[k - 1]);
                }
            }
        }
    }
}

proof fn lemma_prompt_lines_no_breaks(lines: Seq<Seq<char>>)
    requires
        forall|k: int| 0 <= k < lines.len() ==> no_breaks(#[trigger] lines[k]),
    ensures
        forall|k: int| 0 <= k < prompt_lines(lines).len() ==> no_breaks(#[trigger] prompt_lines(lines)[k]),
    decreases lines.len(),
{
    if lines.len() > 0 {
        let init = lines.drop_last();
        assert forall|k: int| 0 <= k < init.len() implies no_breaks(#[trigger] init[k]) by {
            assert(init[k] == lines[k]);
        }
        lemma_prompt_lines_no_breaks(init);
        assert(no_breaks(lines[lines.len() - 1]));
        lemma_trim_no_breaks(lines.last());
        let p = prompt_lines(init);
        if trim(lines.last()).len() != 0 {
            let q = p.push(trim(lines.last()));
            assert(prompt_lines(lines) == q);
            assert forall|k: int| 0 <= k < q.len() implies no_breaks(#[trigger] q[k]) by {
                if k < p.len() {
                    assert(q[k] == p[k]);
                }
            }
        }
    }
}

proof fn lemma_join_no_breaks(words: Seq<Seq<char>>)
    requires
        forall|k: int| 0 <= k < words.len() ==> no_breaks(#[trigger] words[k]),
    ensures
        no_breaks(join(words, " "@)),
    decreases words.len(),
{
    reveal_strlit(" ");
    if words.len() == 1 {
        assert(no_breaks(words[0]));
    } else if words.len() > 1 {
        let init = words.drop_last();
        assert forall|k: int| 0 <= k < init.len() implies no_breaks(#[trigger] init[k]) by {
            assert(init[k] == words[k]);
        }
        lemma_join_no_breaks(init);
        assert(no_breaks(words[words.len() - 1]));
        let j = join(init, " "@);
        let whole = j + " "@ + words.last();
        assert forall|i: int| 0 <= i < whole.len() implies whole[i] != '\n' && whole[i] != '\r' by {
            if i < j.len() {
                assert(whole[i] == j[i]);
            } else if i == j.len() {
                assert(whole[i] == ' ');
            } else {
                assert(whole[i] == words.last()[i - j.len() - 1]);
            }
        }
    }
}

/// A prompt sent to an agent is always one line: it holds neither a newline
/// nor a carriage return, whatever the task's title and description hold.
pub proof fn law_prompt_is_one_line(s: Seq<char>)
    ensures
        no_breaks(single_line(s)),
{
    let t = cr_to_lf(s);
    assert forall|i: int| 0 <= i < t.len() implies t[i] != '\r' by {
        assert(t[i] == (if s[i] == '\r' { '\n' } else { s[i] }));
    }
    lemma_lines_no_breaks(t);
    lemma_prompt_lines_no_breaks(lines_of(t));
    lemma_join_no_breaks(prompt_lines(lines_of(t)));
}

} // verus!

verus! {

/// A blocked or finished task goes back to Running exactly when its session
/// is alive and its pane shows the agent working: Kiro's "Kiro is working";
/// Codex's "Working (" or "esc to interrupt"; Copilot's "Working" or "esc to
/// interrupt" (ignoring case). Idle text plays no part, and a session not
/// known to be alive never resumes.
pub proof fn law_resumption_follows_the_working_status(alive: Option<bool>, visible: Option<Seq<char>>, v: Seq<char>)
    ensures
        resumes_spec(AgentKind::KiroCli, Some(true), Some(v)) == crate::text::contains_ci(v, "Kiro is working"@),
        resumes_spec(AgentKind::Codex, Some(true), Some(v)) == (crate::text::contains_ci(v, "Working ("@)
            || crate::text::contains_ci(v, "esc to interrupt"@)),
        resumes_spec(AgentKind::Copilot, Some(true), Some(v)) == (crate::text::contains_ci(v, "Working"@)
            || crate::text::contains_ci(v, "esc to interrupt"@)),
        alive != Some(true) ==> !resumes_spec(AgentKind::KiroCli, alive, visible)
            && !resumes_spec(AgentKind::Codex, alive, visible) && !resumes_spec(AgentKind::Copilot, alive, visible),
        !resumes_spec(AgentKind::KiroCli, alive, None) && !resumes_spec(AgentKind::Codex, alive, None)
            && !resumes_spec(AgentKind::Copilot, alive, None),
{
    let kp = active_patterns_of(AgentKind::KiroCli);
    let cp = active_patterns_of(AgentKind::Codex);
    let op = active_patterns_of(AgentKind::Copilot);
    if crate::text::contains_ci(v, "Kiro is working"@) {
        assert(crate::text::contains_ci(v, kp[0]));
    }
    if crate::text::contains_ci(v, "Working ("@) {
        assert(crate::text::contains_ci(v, cp[0]));
    }
    if crate::text::contains_ci(v, "esc to interrupt"@) {
        assert(crate::text::contains_ci(v, cp[1]));
        assert(crate::text::contains_ci(v, op[1]));
    }
    if crate::text::contains_ci(v, "Working"@) {
        assert(crate::text::contains_ci(v, op[0]));
    }
    if any_pattern(v, kp) {
        let i = choose|i: int| 0 <= i < kp.len() && crate::text::contains_ci(v, #[trigger] kp[i]);
        assert(i == 0);
    }
    if any_pattern(v, cp) {
        let i = choose|i: int| 0 <= i < cp.len() && crate::text::contains_ci(v, #[trigger] cp[i]);
        assert(i == 0 || i == 1);
    }
    if any_pattern(v, op) {
        let i = choose|i: int| 0 <= i < op.len() && crate::text::contains_ci(v, #[trigger] op[i]);
        assert(i == 0 || i == 1);
    }
}

/// A restarted or resumed task keeps its work: it runs in its recorded
/// worktree while that exists; where the worktree is gone, a new one is made
/// on the task's own recorded branch (`main` only when it records none);
/// a task that never had a worktree gets one on its generated branch.
pub proof fn law_worktree_plan_keeps_the_branch(task: TaskView, worktree_exists: bool)
    ensures
        (task.worktree_path matches Some(wt) && worktree_exists) ==> worktree_plan_spec(task, worktree_exists)
            == WorktreePlanView::Reuse(task.worktree_path->0),
        (task.worktree_path is Some && !worktree_exists && task.branch_name is Some) ==> worktree_plan_spec(
            task,
            worktree_exists,
        ) == WorktreePlanView::Create(task.branch_name->0),
        (task.worktree_path is Some && !worktree_exists && task.branch_name is None) ==> worktree_plan_spec(
            task,
            worktree_exists,
        ) == WorktreePlanView::Create("main"@),
        task.worktree_path is None ==> worktree_plan_spec(task, worktree_exists) == WorktreePlanView::Create(
            crate::worktree::branch_name_spec(task.id, task.title),
        ),
{
}

} // verus!
