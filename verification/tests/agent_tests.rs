use agentboard::agent::{
    format_command, harness_for, shell_quote, wrap_with_exit_marker, AgentHarness, AgentKind,
    CodexHarness, CopilotHarness, KiroCliHarness, EXIT_MARKER, SUPPORTED_AGENTS,
};
use agentboard::config::{builtin_effective, EffectiveConfig};

fn interactive(agent: &str) -> EffectiveConfig {
    builtin_effective(agent, "interactive").ok().unwrap()
}

#[test]
fn spawn_command_plain_prompt() {
    let cfg = interactive("kiro-cli");
    let cmd = wrap_with_exit_marker(&format_command(&cfg, false, Some("do the thing")));
    assert!(cmd.starts_with("'kiro-cli' 'chat' 'do the thing'"));
    assert!(cmd.contains(EXIT_MARKER));
}

#[test]
fn spawn_command_preserves_double_quotes() {
    let harness = KiroCliHarness;
    let cmd = harness.spawn_command(&interactive("kiro-cli"), r#"say "hello""#);
    assert!(cmd.contains(r#"'say "hello"'"#));
    assert!(cmd.contains(EXIT_MARKER));
}

#[test]
fn spawn_command_escapes_single_quotes() {
    let harness = KiroCliHarness;
    let cmd = harness.spawn_command(&interactive("kiro-cli"), "it's a test");
    assert!(cmd.contains("'it'\\''s a test'"));
    assert!(cmd.contains(EXIT_MARKER));
}

#[test]
fn name_returns_kiro_cli() {
    let harness = KiroCliHarness;
    assert_eq!(harness.name(), "kiro-cli");
}

#[test]
fn harness_lookup_supports_every_known_agent() {
    for name in SUPPORTED_AGENTS.iter() {
        assert_eq!(harness_for(name).unwrap().name(), *name);
    }
    assert!(harness_for("unknown").is_none());
}

#[test]
fn codex_spawn_command_uses_agentboard_worktree_and_full_access_mode() {
    let cfg = interactive("codex");
    let cmd = wrap_with_exit_marker(&format_command(&cfg, false, Some("implement the feature")));
    assert!(cmd.starts_with(
        "'codex' '--cd' '.' '--ask-for-approval' 'on-request' '--sandbox' 'workspace-write'"
    ));
    assert!(cmd.contains("'implement the feature'"));
    assert!(cmd.contains(EXIT_MARKER));
}

#[test]
fn codex_name_and_process_name() {
    let harness = CodexHarness;
    assert_eq!(harness.name(), "codex");
    assert_eq!(harness.process_name(), "codex");
    assert!(harness.idle_patterns().is_empty());
    assert_eq!(harness.active_patterns(), &["Working (", "esc to interrupt"]);
}

#[test]
fn codex_idle_state_ignores_always_visible_composer() {
    let harness = CodexHarness;
    assert!(harness.is_idle("› task text\n\n  gpt-5.6-luna medium"));
    assert!(!harness.is_idle("› task text\n\n• Working (5s • esc to interrupt)"));
}

#[test]
fn codex_spawn_command_escapes_prompt() {
    let harness = CodexHarness;
    let cmd = harness.spawn_command(&interactive("codex"), "it's $HOME `date`");
    assert!(cmd.contains("'it'\\''s $HOME `date`'"));
}

#[test]
fn codex_resume_uses_last_session_subcommand() {
    let cfg = interactive("codex");
    let cmd = wrap_with_exit_marker(&format_command(&cfg, true, None));
    assert!(cmd.starts_with("'codex' 'resume' '--last'"));
    assert!(!cmd.contains("ignored original prompt"));
}

#[test]
fn copilot_spawn_and_resume_use_interactive_worktree_session() {
    let cfg = interactive("copilot");
    let spawn = wrap_with_exit_marker(&format_command(&cfg, false, Some("implement it")));
    assert!(spawn.starts_with("'copilot' '-C' '.' '--interactive' 'implement it'"));

    let resume = wrap_with_exit_marker(&format_command(&cfg, true, None));
    assert!(resume.starts_with("'copilot' '-C' '.' '--continue'"));
}

#[test]
fn copilot_harness_reports_working_state_and_escapes_prompt() {
    let harness = CopilotHarness;
    assert_eq!(harness.name(), "copilot");
    assert_eq!(harness.process_name(), "copilot");
    assert!(harness.is_idle("› Tell Copilot what to do"));
    assert!(!harness.is_idle("Working (3s) · esc to interrupt"));
    assert!(harness
        .spawn_command(&interactive("copilot"), "it's $HOME")
        .contains("'it'\\''s $HOME'"));
}

#[test]
fn copilot_start_command_omits_interactive_flag_without_a_prompt() {
    let harness = CopilotHarness;
    let command = harness.start_command(&interactive("copilot"));
    assert!(command.starts_with("'copilot' '-C' '.'"));
    assert!(!command.contains("--interactive"));
}

#[test]
fn wrap_includes_exit_code_capture() {
    let wrapped = wrap_with_exit_marker("my_cmd");
    assert!(wrapped.starts_with("my_cmd; __ab_ec=$?;"));
    assert!(wrapped.contains("AB_AGENT_EXIT:"));
}

#[test]
fn resume_command_uses_resume_flag() {
    let cfg = interactive("kiro-cli");
    let cmd = wrap_with_exit_marker(&format_command(&cfg, true, None));
    assert!(cmd.contains("'kiro-cli' 'chat' '--resume'"));
    assert!(!cmd.contains("Fix the login bug"));
    assert!(cmd.contains(EXIT_MARKER));
}

#[test]
fn start_commands_launch_interactive_agents_without_a_prompt() {
    let kiro_cfg = interactive("kiro-cli");
    let kiro = wrap_with_exit_marker(&format_command(&kiro_cfg, false, None));
    assert_eq!(
        kiro,
        "'kiro-cli' 'chat'; __ab_ec=$?; echo ''; echo 'AB_AGENT_EXIT:'$__ab_ec; (exit $__ab_ec)"
    );

    let codex_cfg = interactive("codex");
    let codex = wrap_with_exit_marker(&format_command(&codex_cfg, false, None));
    assert!(codex.starts_with(
        "'codex' '--cd' '.' '--ask-for-approval' 'on-request' '--sandbox' 'workspace-write'"
    ));
    assert!(codex.contains("; __ab_ec=$?"));
    assert!(!codex.contains("workspace-write ''"));
}

#[test]
fn spawn_command_preserves_backticks() {
    let harness = KiroCliHarness;
    let cmd = harness.spawn_command(&interactive("kiro-cli"), "run `command` now");
    assert!(cmd.contains("'run `command` now'"));
    assert!(cmd.contains(EXIT_MARKER));
}

#[test]
fn spawn_command_preserves_dollar_vars() {
    let harness = KiroCliHarness;
    let cmd = harness.spawn_command(&interactive("kiro-cli"), "check $HOME and ${VAR}");
    assert!(cmd.contains("'check $HOME and ${VAR}'"));
    assert!(cmd.contains(EXIT_MARKER));
}

#[test]
fn spawn_command_handles_newlines() {
    let harness = KiroCliHarness;
    let cmd = harness.spawn_command(&interactive("kiro-cli"), "line one\nline two");
    assert!(cmd.contains("'line one\nline two'"));
    assert!(cmd.contains(EXIT_MARKER));
}

#[test]
fn spawn_command_handles_mixed_metacharacters() {
    let harness = KiroCliHarness;
    let cmd = harness.spawn_command(&interactive("kiro-cli"), "it's $HOME `date` \"hello\"");
    assert!(cmd.contains("'it'\\''s $HOME `date` \"hello\"'"));
    assert!(cmd.contains(EXIT_MARKER));
}

#[test]
fn shell_quote_escapes_single_quotes() {
    assert_eq!(shell_quote("it's"), "'it'\\''s'");
}

#[test]
fn shell_quote_wraps_plain_text() {
    assert_eq!(shell_quote("plain"), "'plain'");
    assert_eq!(shell_quote(""), "''");
}

#[test]
fn agent_kinds_detect_idle_and_active_screens() {
    assert!(AgentKind::KiroCli.is_idle("Ask a question or describe a task"));
    assert!(!AgentKind::KiroCli.is_idle("Kiro is working"));
    assert_eq!(AgentKind::Codex.name(), "codex");
    assert_eq!(harness_for("copilot").unwrap(), AgentKind::Copilot);
}
