# agentboard

`ab` runs AI coding agents (kiro-cli, Codex, Copilot CLI) on tasks, each in
its own Git worktree and tmux session, and shows them on a kanban board
(Backlog, Running, Blocked, Done, and a hidden Keep lane).

## Layout

- `src/` is the library, verified with Verus. It holds the project's logic
  with its contracts and laws:
  - `config`: resolving the agent, profile, program and arguments from the
    configuration file, the built-in defaults and the per-invocation
    overrides;
  - `agent`: shell quoting, agent command lines and the per-agent screen
    patterns;
  - `store`: task records and statuses, new tasks, id-prefix lookup;
  - `orchestrator`: prompts, completion and resumption decisions, session
    restoration, the task lifecycle's record updates;
  - `tmux`, `procs`, `scrollback`: tmux arguments and output, cleaning of
    captured output, process-tree walks, replayed scrollback;
  - `worktree`, `setup`: branch names and repository setup commands;
  - `board`, `input`, `keys`, `notices`, `layout`, `prompts`, `cli`: the
    board's state, key handling, text editing, wrapping and notices, and
    the command line's decisions;
  - `text`: text helpers (UTF-8 offsets, trimming, lines, order).
- `app/` is the program: argument parsing, the SQLite store, running `tmux`
  and `git`, and the terminal interface, calling the library for every
  decision.
- `tests/` exercises the library.
