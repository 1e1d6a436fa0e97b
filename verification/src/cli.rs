//! The command line: its options and commands as plain data (the parser
//! that fills them stands outside the library), and what the commands
//! decide before they touch the store.
use vstd::prelude::*;
use crate::config::Overrides;
use crate::store::{Task, TaskStatus, status_label};
use crate::text::{owned, copy_string, copy_opt_string, opt_view, push_str, chars_of, first_chars,
    string_of, byte_boundary, byte_prefix, prefix_bytes};

verus! {

/// The options and the command of one invocation of `ab`.
pub struct Cli {
    /// Select the agent CLI for this invocation.
    pub agent: Option<String>,
    /// Select the model for this invocation, overriding configuration.
    pub model: Option<String>,
    /// Select the unattended agent profile for this invocation.
    pub yolo: bool,
    /// Override the configured agent profile for this invocation.
    pub profile: Option<String>,
    pub command: Commands,
}

/// The commands of `ab`.
pub enum Commands {
    /// Manage the user configuration.
    Config { command: ConfigCommands },
    /// Create a new task.
    New {
        title: String,
        working_directory: Option<String>,
        description: Option<String>,
        meta: bool,
    },
    /// Start a task: create a Git worktree when applicable, then spawn an
    /// agent.
    Start { task_id: String, skip_setup: bool },
    /// List all tasks.
    List,
    /// Attach to a running task's tmux session.
    Attach { task_id: String },
    /// Open the kanban board.
    Board { repo: Option<String> },
    /// Kill a running task's agent session.
    Kill { task_id: String },
    /// Show details of a task.
    Show { task_id: String },
    /// Mark a task as done (session and worktree preserved).
    Done { task_id: String },
    /// Edit a backlog task's title, description, or working directory.
    Edit {
        task_id: String,
        title: Option<String>,
        working_directory: Option<String>,
        description: Option<String>,
    },
}

/// The `config` subcommands.
#[derive(Clone, Copy, Debug, PartialEq, Eq, Structural)]
pub enum ConfigCommands {
    /// Create a commented configuration template.
    Init,
    /// Display the effective agent and safety profile.
    Show,
    /// Parse and validate the configuration.
    Check,
}

/// Record the `--agent` and `--model` choices of this invocation.
pub fn set_cli_overrides(overrides: &mut Overrides, agent: Option<String>, model: Option<String>)
    ensures
        final(overrides)@.cli_agent == opt_view(agent),
        final(overrides)@.cli_model == opt_view(model),
        final(overrides)@.env_agent == old(overrides)@.env_agent,
        final(overrides)@.env_profile == old(overrides)@.env_profile,
{
    overrides.cli_agent = agent;
    overrides.cli_model = model;
}

/// The profile that the flags select: `--yolo` means `unattended`, else
/// `--profile` where given.
pub fn cli_profile(yolo: bool, profile: &Option<String>) -> (r: Option<String>)
    ensures
        opt_view(r) == if yolo {
            Some("unattended"@)
        } else {
            opt_view(*profile)
        },
{
    if yolo {
        Some(owned("unattended"))
    } else {
        copy_opt_string(profile)
    }
}

/// Whether a command needs a usable agent CLI before it runs.
pub fn needs_agent(command: &Commands) -> (r: bool)
    ensures
        r == (command is Board || command is Start),
{
    match command {
        Commands::Board { .. } | Commands::Start { .. } => true,
        _ => false,
    }
}

/// A title as listed: whole up to 38 characters, else its first 35 and
/// `...`.
pub open spec fn listed_title(t: Seq<char>) -> Seq<char> {
    if t.len() > 38 {
        t.take(35) + "..."@
    } else {
        t
    }
}

/// The title of a task as `ab list` shows it.
pub fn list_title(title: &str) -> (r: String)
    ensures
        r@ == listed_title(title@),
{
    let cs = chars_of(title);
    if cs.len() > 38 {
        let mut s = string_of(&first_chars(&cs, 35));
        push_str(&mut s, "...");
        s
    } else {
        owned(title)
    }
}

/// The description and directory of a task made by `ab new`: the title
/// where no description was given, the current directory where no
/// directory was.
pub fn new_task_values(title: &str, description: &Option<String>, working_directory: &Option<String>, cwd: &str) -> (r: (String, String))
    ensures
        r.0@ == match description {
            Some(d) => d@,
            None => title@,
        },
        r.1@ == match working_directory {
            Some(w) => w@,
            None => cwd@,
        },
{
    let d = match description {
        Some(d) => copy_string(d),
        None => owned(title),
    };
    let w = match working_directory {
        Some(w) => copy_string(w),
        None => owned(cwd),
    };
    (d, w)
}

/// The new title, description and directory of a task edited by
/// `ab edit`, each kept where not given; only a backlog task can be edited.
/// The error is the message shown.
pub fn edit_values(task: &Task, title: &Option<String>, description: &Option<String>, working_directory: &Option<String>) -> (r: Result<(String, String, String), String>)
    requires
        task.status != TaskStatus::Backlog ==> byte_boundary(task.id@, 8),
    ensures
        task.status != TaskStatus::Backlog ==> (r matches Err(m) && m@ == "Can only edit Backlog tasks (task "@
            + byte_prefix(task.id@, 8) + " is "@ + status_label(task.status) + ")"@),
        task.status == TaskStatus::Backlog ==> (r matches Ok(v) && v.0@ == match title {
            Some(t) => t@,
            None => task.title@,
        } && v.1@ == match description {
            Some(d) => d@,
            None => task.description@,
        } && v.2@ == match working_directory {
            Some(w) => w@,
            None => task.repo_path@,
        }),
{
    if task.status != TaskStatus::Backlog {
        let mut m = owned("Can only edit Backlog tasks (task ");
        push_str(&mut m, prefix_bytes(task.id.as_str(), 8));
        push_str(&mut m, " is ");
        push_str(&mut m, task.status.label());
        push_str(&mut m, ")");
        return Err(m);
    }
    let t = match title {
        Some(t) => copy_string(t),
        None => copy_string(&task.title),
    };
    let d = match description {
        Some(d) => copy_string(d),
        None => copy_string(&task.description),
    };
    let w = match working_directory {
        Some(w) => copy_string(w),
        None => copy_string(&task.repo_path),
    };
    Ok((t, d, w))
}

} // verus!
