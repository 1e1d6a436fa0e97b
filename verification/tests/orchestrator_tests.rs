use agentboard::agent::AgentKind;
use agentboard::orchestrator::{
    build_prompt, completion_event, completion_precheck, pre_delete_check, restore_notice,
    restore_session_for, sanitize_prompt, screen_verdict, truncate, CompletionReason, Precheck,
    ScreenVerdict,
};
use agentboard::store::{Task, TaskStatus};

fn test_task(title: &str, description: &str) -> Task {
    Task {
        id: "00000000-0000-0000-0000-000000000000".to_string(),
        title: title.to_string(),
        description: description.to_string(),
        status: TaskStatus::Backlog,
        repo_path: "/tmp/test".to_string(),
        worktree_path: None,
        branch_name: None,
        tmux_session: None,
        agent_cli: None,
        created_at: String::new(),
        updated_at: String::new(),
    }
}

#[test]
fn build_prompt_title_only_when_description_empty() {
    let task = test_task("Fix login bug", "");
    assert_eq!(build_prompt(&task), "Fix login bug");
}

#[test]
fn build_prompt_title_only_when_description_matches_title() {
    let task = test_task("Fix login bug", "Fix login bug");
    assert_eq!(build_prompt(&task), "Fix login bug");
}

#[test]
fn build_prompt_joins_title_and_description() {
    let task = test_task("Fix login bug", "The password check is broken");
    assert_eq!(
        build_prompt(&task),
        "Fix login bug — The password check is broken"
    );
}

#[test]
fn build_prompt_strips_newlines_from_description() {
    let task = test_task("Fix login", "line one\nline two\n\nline three");
    let prompt = build_prompt(&task);
    assert!(!prompt.contains('\n'), "prompt must not contain newlines");
    assert_eq!(prompt, "Fix login — line one line two line three");
}

#[test]
fn build_prompt_strips_newlines_from_title() {
    let task = test_task("Fix\nlogin\nbug", "");
    let prompt = build_prompt(&task);
    assert!(!prompt.contains('\n'));
    assert_eq!(prompt, "Fix login bug");
}

#[test]
fn sanitize_prompt_collapses_whitespace() {
    assert_eq!(sanitize_prompt("  hello \n  world  \n\n  "), "hello world");
}

#[test]
fn sanitize_prompt_handles_crlf_and_bare_cr() {
    assert_eq!(sanitize_prompt("a\r\nb\rc"), "a b c");
}

#[test]
fn truncate_adds_ellipsis_past_the_limit() {
    assert_eq!(truncate("short", 10), "short");
    assert_eq!(truncate("abcdefghijkl", 5), "abcd…");
}

#[test]
fn completion_messages_name_the_reason() {
    let mut task = test_task("Fix login bug", "");
    task.id = "abcdefgh-1234".to_string();
    let died = completion_event(&task, CompletionReason::SessionDied);
    assert!(!died.is_success());
    assert_eq!(died.message(), "🔔 Session died for task abcdefgh — Fix login bug");
    let idle = completion_event(&task, CompletionReason::IdlePrompt);
    assert!(idle.is_success());
    assert_eq!(idle.message(), "🔔 ⚠ Agent done, needs review — abcdefgh (Fix login bug)");
    let exited = completion_event(&task, CompletionReason::AgentExited);
    assert_eq!(exited.message(), "🔔 ⚠ Agent exited, needs review — abcdefgh (Fix login bug)");
}

#[test]
fn dead_session_is_reported_even_in_grace() {
    let mut task = test_task("t", "");
    task.status = TaskStatus::Running;
    task.tmux_session = Some("ab-00000000".to_string());
    assert_eq!(completion_precheck(&task, false, Some(false), true, true), Precheck::SessionDied);
    assert_eq!(completion_precheck(&task, false, Some(true), true, false), Precheck::Skip);
    assert_eq!(completion_precheck(&task, false, None, false, false), Precheck::Inspect);
    assert_eq!(completion_precheck(&task, true, Some(false), false, false), Precheck::Skip);
}

#[test]
fn screen_verdict_prefers_the_exit_marker() {
    assert_eq!(screen_verdict(AgentKind::Codex, "AB_AGENT_EXIT:0"), ScreenVerdict::Exited);
    assert_eq!(screen_verdict(AgentKind::Codex, "› composer"), ScreenVerdict::Idle);
    assert_eq!(screen_verdict(AgentKind::KiroCli, "Kiro is working"), ScreenVerdict::Unclear);
}

#[test]
fn restore_notices_count_tasks() {
    assert_eq!(restore_notice(0, 0), None);
    assert_eq!(restore_notice(1, 0), Some(("🔄 Restored 1 interrupted task".to_string(), false)));
    assert_eq!(
        restore_notice(0, 2),
        Some(("⚠ 2 tasks could not be restored (moved to Blocked)".to_string(), true))
    );
    assert_eq!(
        restore_notice(3, 1),
        Some(("🔄 Restored 3 tasks, 1 failed (moved to Blocked)".to_string(), false))
    );
}

#[test]
fn restore_session_uses_recorded_or_conventional_name() {
    let mut task = test_task("t", "");
    task.status = TaskStatus::Running;
    assert_eq!(restore_session_for(&task, false), Some("ab-00000000".to_string()));
    task.tmux_session = Some("ab-custom".to_string());
    assert_eq!(restore_session_for(&task, true), None);
    assert_eq!(restore_session_for(&task, false), Some("ab-custom".to_string()));
    task.status = TaskStatus::Done;
    assert_eq!(restore_session_for(&task, false), None);
}

#[test]
fn unmerged_work_needs_a_branch() {
    let mut task = test_task("t", "");
    assert!(!pre_delete_check(&task, true).has_unmerged_work);
    task.branch_name = Some("ab/00000000/t".to_string());
    assert!(pre_delete_check(&task, true).has_unmerged_work);
    assert!(!pre_delete_check(&task, false).has_unmerged_work);
}
