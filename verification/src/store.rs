//! Tasks and their statuses. The SQLite database that keeps them is driven
//! outside the library; here are the task records, the status names stored
//! in it, the creation of new tasks and the choice of a task by id prefix.

use vstd::prelude::*;
use crate::text::{copy_opt_string, copy_string, owned, str_eq};

verus! {

// ---------------------------------------------------------------------------
// TaskStatus
// ---------------------------------------------------------------------------

/// The kanban column a task stands in. `Keep` is the parked lane for
/// unfinished work that is neither blocked nor done.
#[derive(Clone, Copy, Debug, PartialEq, Eq, Structural)]
pub enum TaskStatus {
    Backlog,
    Running,
    Blocked,
    Done,
    Keep,
}

/// The name under which a status is shown and stored.
pub open spec fn status_label(s: TaskStatus) -> Seq<char> {
    match s {
        TaskStatus::Backlog => "Backlog"@,
        TaskStatus::Running => "Running"@,
        TaskStatus::Blocked => "Blocked"@,
        TaskStatus::Done => "Done"@,
        TaskStatus::Keep => "Keep"@,
    }
}

/// The status stored under a name. The retired names `Finished` and
/// `Failed` read as `Blocked`.
pub open spec fn status_from_label(s: Seq<char>) -> Option<TaskStatus> {
    if s == "Backlog"@ {
        Some(TaskStatus::Backlog)
    } else if s == "Running"@ {
        Some(TaskStatus::Running)
    } else if s == "Blocked"@ || s == "Finished"@ || s == "Failed"@ {
        Some(TaskStatus::Blocked)
    } else if s == "Done"@ {
        Some(TaskStatus::Done)
    } else if s == "Keep"@ {
        Some(TaskStatus::Keep)
    } else {
        None
    }
}

impl TaskStatus {
    /// The ordered list of kanban column names (the Keep lane last).
    pub fn all_columns() -> (r: [&'static str; 5])
        ensures
            r@[0]@ == status_label(TaskStatus::Backlog),
            r@[1]@ == status_label(TaskStatus::Running),
            r@[2]@ == status_label(TaskStatus::Blocked),
            r@[3]@ == status_label(TaskStatus::Done),
            r@[4]@ == status_label(TaskStatus::Keep),
    {
        ["Backlog", "Running", "Blocked", "Done", "Keep"]
    }

    /// The status's name, as shown on the board and stored in the database.
    pub fn label(&self) -> (r: &'static str)
        ensures
            r@ == status_label(*self),
    {
        match self {
            TaskStatus::Backlog => "Backlog",
            TaskStatus::Running => "Running",
            TaskStatus::Blocked => "Blocked",
            TaskStatus::Done => "Done",
            TaskStatus::Keep => "Keep",
        }
    }

    /// The status stored under a name, if the name is one.
    pub fn from_label(s: &str) -> (r: Option<TaskStatus>)
        ensures
            r == status_from_label(s@),
    {
        if str_eq(s, "Backlog") {
            Some(TaskStatus::Backlog)
        } else if str_eq(s, "Running") {
            Some(TaskStatus::Running)
        } else if str_eq(s, "Blocked") || str_eq(s, "Finished") || str_eq(s, "Failed") {
            Some(TaskStatus::Blocked)
        } else if str_eq(s, "Done") {
            Some(TaskStatus::Done)
        } else if str_eq(s, "Keep") {
            Some(TaskStatus::Keep)
        } else {
            None
        }
    }
}

/// Reading back a stored status gives the status that was stored.
pub proof fn law_status_label_round_trip(s: TaskStatus)
    ensures
        status_from_label(status_label(s)) == Some(s),
{
    reveal_strlit("Backlog");
    reveal_strlit("Running");
    reveal_strlit("Blocked");
    reveal_strlit("Finished");
    reveal_strlit("Failed");
    reveal_strlit("Done");
    reveal_strlit("Keep");
    assert("Running"@[0] != "Backlog"@[0] && "Blocked"@[1] != "Backlog"@[1] && "Done"@[0] != "Backlog"@[0]);
    assert("Blocked"@[0] != "Running"@[0] && "Done"@[0] != "Running"@[0]);
    assert("Done"@[0] != "Blocked"@[0] && "Done"@[0] != "Finished"@[0] && "Done"@[0] != "Failed"@[0]);
    assert("Keep"@[0] != "Backlog"@[0] && "Keep"@[0] != "Running"@[0] && "Keep"@[0] != "Blocked"@[0]);
    assert("Keep"@[0] != "Finished"@[0] && "Keep"@[0] != "Failed"@[0] && "Keep"@[0] != "Done"@[0]);
}

// ---------------------------------------------------------------------------
// Task
// ---------------------------------------------------------------------------

/// A task on the board.
#[derive(Clone, Debug)]
pub struct Task {
    pub id: String,
    pub title: String,
    pub description: String,
    pub status: TaskStatus,
    pub repo_path: String,
    pub worktree_path: Option<String>,
    pub branch_name: Option<String>,
    pub tmux_session: Option<String>,
    /// The name of the agent program running in the session, once known.
    pub agent_cli: Option<String>,
    pub created_at: String,
    pub updated_at: String,
}

pub struct TaskView {
    pub id: Seq<char>,
    pub title: Seq<char>,
    pub description: Seq<char>,
    pub status: TaskStatus,
    pub repo_path: Seq<char>,
    pub worktree_path: Option<Seq<char>>,
    pub branch_name: Option<Seq<char>>,
    pub tmux_session: Option<Seq<char>>,
    pub agent_cli: Option<Seq<char>>,
    pub created_at: Seq<char>,
    pub updated_at: Seq<char>,
}

impl View for Task {
    type V = TaskView;

    open spec fn view(&self) -> TaskView {
        TaskView {
            id: self.id@,
            title: self.title@,
            description: self.description@,
            status: self.status,
            repo_path: self.repo_path@,
            worktree_path: crate::text::opt_view(self.worktree_path),
            branch_name: crate::text::opt_view(self.branch_name),
            tmux_session: crate::text::opt_view(self.tmux_session),
            agent_cli: crate::text::opt_view(self.agent_cli),
            created_at: self.created_at@,
            updated_at: self.updated_at@,
        }
    }
}

impl Task {
    /// A copy of the task.
    pub fn copy(&self) -> (r: Task)
        ensures
            r@ == self@,
    {
        Task {
            id: copy_string(&self.id),
            title: copy_string(&self.title),
            description: copy_string(&self.description),
            status: self.status,
            repo_path: copy_string(&self.repo_path),
            worktree_path: copy_opt_string(&self.worktree_path),
            branch_name: copy_opt_string(&self.branch_name),
            tmux_session: copy_opt_string(&self.tmux_session),
            agent_cli: copy_opt_string(&self.agent_cli),
            created_at: copy_string(&self.created_at),
            updated_at: copy_string(&self.updated_at),
        }
    }
}

// ---------------------------------------------------------------------------
// New tasks
// ---------------------------------------------------------------------------

pub open spec fn is_lower_hex(c: char) -> bool {
    ('0' <= c && c <= '9') || ('a' <= c && c <= 'f')
}

/// The hyphenated lower-case form of a UUID:
/// `xxxxxxxx-xxxx-xxxx-xxxx-xxxxxxxxxxxx`.
pub open spec fn is_hyphenated_uuid(s: Seq<char>) -> bool {
    &&& s.len() == 36
    &&& forall|i: int| 0 <= i < 36 ==> if i == 8 || i == 13 || i == 18 || i == 23 {
        #[trigger] s[i] == '-'
    } else {
        is_lower_hex(s[i])
    }
}

/// A task id made by [`new_backlog_task`] is ASCII, so it can be cut at any
/// byte: its eight-byte short form (session names, notices) always exists.
pub proof fn law_new_ids_have_short_form(s: Seq<char>)
    requires
        is_hyphenated_uuid(s),
    ensures
        crate::text::byte_boundary(s, 8),
        crate::text::short_len(s) == 8,
        crate::text::short_id_of(s) == s.take(8),
{
    assert(vstd::utf8::is_ascii_chars(s)) by {
        assert forall|i: int| 0 <= i < s.len() implies (#[trigger] s[i] as u32) < 128 by {
            assert(s[i] == '-' || is_lower_hex(s[i]));
        }
    }
    crate::text::lemma_ascii_byte_prefix(s, 8);
}

/// `uuid::Uuid::new_v4` written as text: a random version-4 UUID in its
/// hyphenated lower-case form, with the version digit `4`.
#[verifier::external_body]
fn random_uuid_text() -> (r: String)
    ensures
        is_hyphenated_uuid(r@),
        r@[14] == '4',
{
    uuid::Uuid::new_v4().to_string()
}

/// `chrono::Utc::now` as an RFC 3339 timestamp (`to_rfc3339`): date, time
/// and offset, at least 25 characters. Whether chrono's parser reads it
/// back depends on the year the clock shows (it reads four-digit years
/// only), so that is left unsaid.
#[verifier::external_body]
pub(crate) fn now_rfc3339() -> (r: String)
    ensures
        r@.len() >= 25,
{
    chrono::Utc::now().to_rfc3339()
}

/// The instant an RFC 3339 timestamp denotes, as seconds since the Unix
/// epoch and nanoseconds past them, if `chrono` accepts the text.
pub uninterp spec fn rfc3339_instant(s: Seq<char>) -> Option<(i64, u32)>;

/// `DateTime::parse_from_rfc3339`, read as seconds since the Unix epoch and
/// the nanoseconds past them (`timestamp`, `timestamp_subsec_nanos`). The
/// nanoseconds stay below two seconds' worth (a leap second runs past one).
#[verifier::external_body]
pub(crate) fn parse_rfc3339(s: &str) -> (r: Option<(i64, u32)>)
    ensures
        r == rfc3339_instant(s@),
        r matches Some(t) ==> t.1 < 2_000_000_000,
{
    match chrono::DateTime::parse_from_rfc3339(s) {
        Ok(t) => Some((t.timestamp(), t.timestamp_subsec_nanos())),
        Err(_) => None,
    }
}

pub open spec fn instant_nanos(t: (i64, u32)) -> int {
    t.0 * 1_000_000_000 + t.1
}

/// Whether fewer than `limit` whole seconds separate `earlier` from `later`
/// (always so when `earlier` is the later one).
pub open spec fn within_seconds(later: (i64, u32), earlier: (i64, u32), limit: i64) -> bool {
    instant_nanos(later) - instant_nanos(earlier) < limit * 1_000_000_000
}

/// Whether fewer than `limit` whole seconds separate two instants.
pub fn is_within_seconds(later: (i64, u32), earlier: (i64, u32), limit: i64) -> (r: bool)
    ensures
        r == within_seconds(later, earlier, limit),
{
    let a = later.0 as i128 * 1_000_000_000 + later.1 as i128;
    let b = earlier.0 as i128 * 1_000_000_000 + earlier.1 as i128;
    a - b < limit as i128 * 1_000_000_000
}

/// A new task in the Backlog with a fresh random id. It is created and
/// updated at the same moment, and has no worktree, branch, session or
/// agent yet.
pub fn new_backlog_task(title: &str, description: &str, repo_path: &str) -> (t: Task)
    ensures
        is_hyphenated_uuid(t.id@),
        t.id@[14] == '4',
        t.title@ == title@,
        t.description@ == description@,
        t.status == TaskStatus::Backlog,
        t.repo_path@ == repo_path@,
        t.worktree_path is None,
        t.branch_name is None,
        t.tmux_session is None,
        t.agent_cli is None,
        t.created_at@ == t.updated_at@,
        t.created_at@.len() >= 25,
{
    let now = now_rfc3339();
    Task {
        id: random_uuid_text(),
        title: owned(title),
        description: owned(description),
        status: TaskStatus::Backlog,
        repo_path: owned(repo_path),
        worktree_path: None,
        branch_name: None,
        tmux_session: None,
        agent_cli: None,
        created_at: copy_string(&now),
        updated_at: now,
    }
}

// ---------------------------------------------------------------------------
// Looking tasks up
// ---------------------------------------------------------------------------

/// Why a task could not be found or changed.
pub enum StoreError {
    /// No task id starts with the given prefix.
    NotFound { id: String },
    /// Several task ids start with the given prefix.
    Ambiguous { id: String, count: usize },
    /// No task has exactly this id.
    NoSuchTask { id: String },
}

/// A text with the SQL `LIKE` wildcards `%` and `_`, and the backslash
/// that escapes them, each preceded by a backslash.
pub open spec fn escape_like(s: Seq<char>) -> Seq<char>
    decreases s.len(),
{
    if s.len() == 0 {
        seq![]
    } else {
        let c = s.last();
        escape_like(s.drop_last()) + if c == '%' || c == '_' || c == '\\' {
            seq!['\\', c]
        } else {
            seq![c]
        }
    }
}

/// The `LIKE` pattern (with the backslash as its escape character) that
/// matches the ids starting with `id`, taken literally.
pub fn like_prefix_pattern(id: &str) -> (r: String)
    ensures
        r@ == escape_like(id@).push('%'),
{
    let cs = crate::text::chars_of(id);
    let mut out: Vec<char> = Vec::new();
    let mut i: usize = 0;
    while i < cs.len()
        invariant
            cs@ == id@,
            0 <= i <= cs@.len(),
            out@ == escape_like(cs@.take(i as int)),
        decreases cs@.len() - i,
    {
        let c = cs[i];
        proof {
            assert(cs@.take(i + 1).drop_last() =~= cs@.take(i as int));
            assert(cs@.take(i + 1).last() == c);
        }
        if c == '%' || c == '_' || c == '\\' {
            out.push('\\');
            out.push(c);
            proof {
                assert(out@ =~= escape_like(cs@.take(i + 1)));
            }
        } else {
            out.push(c);
            proof {
                assert(out@ =~= escape_like(cs@.take(i + 1)));
            }
        }
        i = i + 1;
    }
    proof {
        assert(cs@.take(i as int) =~= id@);
    }
    out.push('%');
    crate::text::string_of(&out)
}

/// The message of a store error.
pub open spec fn store_error_message(id: Seq<char>, kind: int, count: nat) -> Seq<char> {
    if kind == 0 {
        "no task found matching '"@ + id + "'"@
    } else if kind == 1 {
        "ambiguous task id prefix '"@ + id + "' matches "@ + crate::text::decimal(count) + " tasks"@
    } else {
        "no task found with id '"@ + id + "'"@
    }
}

impl StoreError {
    /// The error's message.
    pub fn message(&self) -> (r: String)
        ensures
            r@ == match self {
                StoreError::NotFound { id } => store_error_message(id@, 0, 0),
                StoreError::Ambiguous { id, count } => store_error_message(id@, 1, *count as nat),
                StoreError::NoSuchTask { id } => store_error_message(id@, 2, 0),
            },
    {
        match self {
            StoreError::NotFound { id } => {
                let mut s = owned("no task found matching '");
                crate::text::push_str(&mut s, id.as_str());
                crate::text::push_str(&mut s, "'");
                s
            },
            StoreError::Ambiguous { id, count } => {
                let mut s = owned("ambiguous task id prefix '");
                crate::text::push_str(&mut s, id.as_str());
                crate::text::push_str(&mut s, "' matches ");
                crate::text::push_str(&mut s, crate::text::decimal_text(*count).as_str());
                crate::text::push_str(&mut s, " tasks");
                s
            },
            StoreError::NoSuchTask { id } => {
                let mut s = owned("no task found with id '");
                crate::text::push_str(&mut s, id.as_str());
                crate::text::push_str(&mut s, "'");
                s
            },
        }
    }
}

/// The one task whose id starts with the given prefix: an error when none
/// or several do.
pub fn pick_unique(mut matches: Vec<Task>, id: &str) -> (r: Result<Task, StoreError>)
    ensures
        matches@.len() == 1 <==> r is Ok,
        r matches Ok(t) ==> t@ == matches@[0]@,
        matches@.len() == 0 <==> r matches Err(StoreError::NotFound { id: i }),
        r matches Err(StoreError::NotFound { id: i }) ==> i@ == id@,
        r matches Err(StoreError::Ambiguous { id: i, count }) ==> i@ == id@ && count == matches@.len() && count > 1,
        !(r matches Err(StoreError::NoSuchTask { .. })),
{
    let n = matches.len();
    if n == 0 {
        Err(StoreError::NotFound { id: owned(id) })
    } else if n == 1 {
        let t = matches.pop().unwrap();
        Ok(t)
    } else {
        Err(StoreError::Ambiguous { id: owned(id), count: n })
    }
}

/// The outcome of an update that must change exactly one task: an error
/// when no row was changed.
pub fn require_changed(rows: usize, id: &str) -> (r: Result<(), StoreError>)
    ensures
        r is Ok <==> rows > 0,
        r matches Err(StoreError::NoSuchTask { id: i }) ==> i@ == id@,
        r is Err ==> r matches Err(StoreError::NoSuchTask { .. }),
{
    if rows == 0 {
        Err(StoreError::NoSuchTask { id: owned(id) })
    } else {
        Ok(())
    }
}

} // verus!
