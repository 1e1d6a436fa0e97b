use vstd::prelude::*;

pub mod text;
pub mod config;
pub mod agent;
pub mod tmux;
pub mod store;
pub mod worktree;
pub mod orchestrator;
pub mod setup;
pub mod prompts;
pub mod layout;
pub mod input;
pub mod board;
pub mod keys;
pub mod notices;
pub mod cli;
pub mod scrollback;
pub mod procs;
pub mod restore;

verus! {

} // verus!
