use agentboard::orchestrator::RestoreResult;
use agentboard::restore::{record_restore, restore_step, start_cleanup, RestoreAction, RestoreStage, StartStage};
use agentboard::agent::{default_agent, harness_for, AgentKind};
use agentboard::orchestrator::{harness_for_task, reason_from_screen, CompletionReason, ScreenVerdict};
use agentboard::procs::{has_agent_descendant, parse_pid_list, parse_u32, ProcessWalk};
use agentboard::scrollback::scrollback_tail;
use agentboard::store::{new_backlog_task, Task};
use agentboard::tmux::{detect_agent_descendant, ProcessInfo};

fn proc_named(comm: &str, cmdline: &str) -> ProcessInfo {
    ProcessInfo {
        comm: Some(comm.to_string()),
        argv0_name: Some(comm.to_lowercase()),
        cmdline: Some(cmdline.to_string()),
    }
}

#[test]
fn pid_lists_skip_words_that_are_not_numbers() {
    assert_eq!(parse_pid_list("12 34\n56\t"), vec![12, 34, 56]);
    assert_eq!(parse_pid_list("  7 x8 +9 -1 4294967296 4294967295"), vec![7, 9, 4294967295]);
    assert_eq!(parse_pid_list(""), Vec::<u32>::new());
    assert_eq!(parse_u32(&"+".chars().collect()), None);
    assert_eq!(parse_u32(&"0042".chars().collect()), Some(42));
}

#[test]
fn process_walk_visits_each_process_once() {
    let mut walk = ProcessWalk::new(1);
    assert_eq!(walk.next_pid(), Some(1));
    walk.add_children(&vec![2, 3]);
    assert_eq!(walk.next_pid(), Some(3));
    walk.add_children(&vec![1, 2]);
    assert_eq!(walk.next_pid(), Some(2));
    walk.add_children(&vec![3]);
    assert_eq!(walk.next_pid(), None);
    assert_eq!(walk.visited, vec![1, 3, 2]);
}

#[test]
fn agent_detection_prefers_identity_over_mentions() {
    let procs = vec![
        proc_named("bash", "bash"),
        proc_named("node", "node /usr/bin/codex --prompt use copilot"),
        proc_named("copilot", "copilot"),
    ];
    let candidates = vec!["kiro-cli", "codex", "copilot"];
    assert_eq!(detect_agent_descendant(&procs, &candidates), Some(2));
    assert!(has_agent_descendant(&procs, "CODEX"));
    assert!(!has_agent_descendant(&vec![proc_named("bash", "bash")], "codex"));
    let mentions = vec![proc_named("node", "node codex")];
    assert_eq!(detect_agent_descendant(&mentions, &candidates), Some(1));
}

#[test]
fn running_agent_decides_the_harness() {
    let mut task: Task = new_backlog_task("t", "d", "/r");
    assert_eq!(harness_for_task(&task, None, AgentKind::Codex), (AgentKind::Codex, false));
    task.agent_cli = Some("copilot".to_string());
    assert_eq!(harness_for_task(&task, None, AgentKind::Codex), (AgentKind::Copilot, false));
    assert_eq!(harness_for_task(&task, Some(AgentKind::KiroCli), AgentKind::Codex), (AgentKind::KiroCli, true));
    assert_eq!(harness_for_task(&task, Some(AgentKind::Copilot), AgentKind::Codex), (AgentKind::Copilot, false));
    task.agent_cli = Some("unknown".to_string());
    assert_eq!(harness_for_task(&task, None, AgentKind::Codex), (AgentKind::Codex, false));
    assert_eq!(default_agent(None, Some("codex")), AgentKind::Codex);
    assert_eq!(default_agent(Some("nope"), Some("codex")), AgentKind::KiroCli);
    assert_eq!(harness_for("kiro-cli"), Some(AgentKind::KiroCli));
}

#[test]
fn screen_and_process_tree_decide_completion() {
    assert_eq!(reason_from_screen(ScreenVerdict::Exited, None), Some(CompletionReason::AgentExited));
    assert_eq!(reason_from_screen(ScreenVerdict::Idle, Some(true)), Some(CompletionReason::IdlePrompt));
    assert_eq!(reason_from_screen(ScreenVerdict::Unclear, Some(false)), Some(CompletionReason::AgentExited));
    assert_eq!(reason_from_screen(ScreenVerdict::Unclear, None), None);
}

#[test]
fn scrollback_tail_cleans_cuts_and_budgets() {
    assert_eq!(scrollback_tail("   \n ", 10), None);
    assert_eq!(scrollback_tail("\x1b[1mhello\x1b[0m\r\nworld", 10), Some("hello\nworld\n".to_string()));
    assert_eq!(scrollback_tail("a\nb\nc\n", 2), Some("b\nc\n".to_string()));
    assert_eq!(
        scrollback_tail("AB_SCROLLBACK_EOF\nok", 10),
        Some("AB_SCROLLBACK_EOF_\nok\n".to_string())
    );
    let long = "é".repeat(1500);
    let tail = scrollback_tail(&long, 10).unwrap();
    assert_eq!(tail, format!("{}…\n", "é".repeat(1000)));
    let many: String = (0..2000).map(|i| format!("line {i}\n")).collect();
    let tail = scrollback_tail(&many, 5000).unwrap();
    assert!(tail.len() <= 8192);
    assert!(tail.ends_with("line 1999\n"));
    assert_eq!(scrollback_tail("\x1b", 10), None);
}

#[test]
fn restoration_steps_settle_every_task() {
    assert_eq!(restore_step(RestoreStage::Claim, false), RestoreAction::Skip);
    assert_eq!(restore_step(RestoreStage::Claim, true), RestoreAction::Proceed);
    assert_eq!(
        restore_step(RestoreStage::Worktree, false),
        RestoreAction::Fail { kill_session: false, mark_blocked: true }
    );
    assert_eq!(
        restore_step(RestoreStage::Record, false),
        RestoreAction::Fail { kill_session: true, mark_blocked: true }
    );
    assert_eq!(restore_step(RestoreStage::Record, true), RestoreAction::Restored);
    let mut result = RestoreResult { restored: Vec::new(), failed: Vec::new() };
    record_restore(&mut result, "a".into(), RestoreAction::Restored);
    record_restore(&mut result, "b".into(), RestoreAction::Fail { kill_session: true, mark_blocked: true });
    record_restore(&mut result, "c".into(), RestoreAction::Skip);
    assert_eq!(result.restored, vec!["a"]);
    assert_eq!(result.failed, vec!["b"]);
    assert_eq!(start_cleanup(StartStage::Worktree), (false, false));
    assert_eq!(start_cleanup(StartStage::Session), (false, true));
    assert_eq!(start_cleanup(StartStage::Record), (true, true));
}
