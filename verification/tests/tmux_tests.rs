use agentboard::tmux::{
    agent_target, capture_visible_pane, sanitize_for_heredoc, send_command, session_log_path,
    session_name, strip_control_bytes, visible_pane_text,
};

#[test]
fn session_name_truncates_long_id() {
    assert_eq!(session_name("abcdefgh-1234-5678"), "ab-abcdefgh");
}

#[test]
fn session_name_short_id() {
    assert_eq!(session_name("abc"), "ab-abc");
}

#[test]
fn agent_target_is_explicitly_named() {
    assert_eq!(agent_target("ab-12345678"), "ab-12345678:agent");
}

#[test]
fn session_log_path_builds_correct_path() {
    let path = session_log_path("/home/user/repo/.agentboard-worktrees/abc123");
    assert_eq!(
        path,
        "/home/user/repo/.agentboard-worktrees/abc123/.agentboard/session.log"
    );
}

#[test]
fn sanitize_strips_ctrl_c_and_carriage_return() {
    let input = "hello\x03world\r\n";
    assert_eq!(sanitize_for_heredoc(input), "helloworld\n");
}

#[test]
fn sanitize_strips_csi_sequences() {
    let input = "\x1b[38;2;255;128;255mSh\x1b[0mell \x1b[2Kdone";
    assert_eq!(sanitize_for_heredoc(input), "Shell done");
}

#[test]
fn sanitize_strips_bracketed_paste_and_private_modes() {
    let input = "before\x1b[?2004hmid\x1b[?2004l\x1b[?25lafter";
    assert_eq!(sanitize_for_heredoc(input), "beforemidafter");
}

#[test]
fn sanitize_strips_osc_sequences() {
    let bel = "a\x1b]0;my title\x07b";
    assert_eq!(sanitize_for_heredoc(bel), "ab");
    let st = "a\x1b]0;my title\x1b\\b";
    assert_eq!(sanitize_for_heredoc(st), "ab");
}

#[test]
fn sanitize_preserves_newlines_tabs_and_utf8() {
    let input = "line1\n\tindented\nunicode: ✓ 日本語 ⣴";
    assert_eq!(
        sanitize_for_heredoc(input),
        "line1\n\tindented\nunicode: ✓ 日本語 ⣴"
    );
}

#[test]
fn sanitize_handles_trailing_lone_escape() {
    let input = "text\x1b";
    assert_eq!(sanitize_for_heredoc(input), "text");
}

#[test]
fn sanitize_removes_the_marker_hazard_bytes() {
    let input = "\x1b[2K\x1b[95mKiro is working\x1b[39m\x03\r\n\x1b[?2026h\x1b[7A done\n";
    let out = sanitize_for_heredoc(input);
    assert!(!out.bytes().any(|b| b == 0x1b || b == 0x03 || b == b'\r'));
    assert!(out.contains("Kiro is working"));
    assert!(out.contains("done"));
}

#[test]
fn sanitizing_clean_text_changes_nothing_and_is_idempotent() {
    let clean = "plain text\n\twith tab";
    assert_eq!(sanitize_for_heredoc(clean), clean);
    let once = sanitize_for_heredoc("a\x1b[1mb\x07c\r");
    assert_eq!(sanitize_for_heredoc(&once), once);
}

#[test]
fn strip_control_bytes_keeps_high_bytes() {
    assert_eq!(strip_control_bytes(&[0xff, 0x1b, b'[', b'm', b'x']), vec![0xff, b'x']);
}

#[test]
fn send_command_types_literally_then_presses_enter() {
    let calls = send_command("ab-1", "-rf Enter");
    assert_eq!(calls.len(), 2);
    assert_eq!(calls[0], vec!["send-keys", "-t", "ab-1:agent", "-l", "--", "-rf Enter"]);
    assert_eq!(calls[1], vec!["send-keys", "-t", "ab-1:agent", "Enter"]);
}

#[test]
fn capture_visible_pane_targets_the_agent_window() {
    assert_eq!(capture_visible_pane("ab-1"), vec!["capture-pane", "-t", "ab-1:agent", "-p"]);
    assert_eq!(visible_pane_text(b"prompt> \n\n  "), "prompt>");
    assert_eq!(visible_pane_text(b"ok\xff"), "ok\u{fffd}");
}

#[test]
fn session_names_keep_eight_characters() {
    assert_eq!(session_name("日本語タスク"), "ab-日本語タスク");
    assert_eq!(session_name("ééééé"), "ab-ééééé");
    assert_eq!(session_name("αβγδεζηθικ"), "ab-αβγδεζηθ");
}

#[test]
fn sanitizing_an_escape_before_a_multibyte_character_stays_clean() {
    let once = sanitize_for_heredoc("a\x1bé\x07b");
    assert!(once.bytes().all(|b| b == b'\n' || b == b'\t' || (0x20..0x7f).contains(&b) || b >= 0x80));
    assert_eq!(sanitize_for_heredoc(&once), once);
}
