use agentboard::board::{column_at, Board};
use agentboard::cli::{edit_values, list_title, needs_agent, new_task_values, Commands};
use agentboard::input::{handle_field_key, InputField, InputMode, Key, PendingAction};
use agentboard::keys::{path_last_segment, Effect};
use agentboard::notices::{
    alive_indicator, alive_label, preview_placeholder, preview_scroll, detail_source, sent_notice, started_notice, task_input_defaults, DetailSource,
};
use agentboard::store::{Task, TaskStatus};

fn task(id: &str, status: TaskStatus, repo: &str, updated: &str) -> Task {
    Task {
        id: id.to_string(),
        title: format!("title {id}"),
        description: String::new(),
        status,
        repo_path: repo.to_string(),
        worktree_path: None,
        branch_name: None,
        tmux_session: None,
        agent_cli: None,
        created_at: String::new(),
        updated_at: updated.to_string(),
    }
}

fn ids(tasks: Vec<&Task>) -> Vec<String> {
    tasks.iter().map(|t| t.id.clone()).collect()
}

fn sample() -> Board {
    Board::new(
        vec![
            task("b1aaaaaa", TaskStatus::Backlog, "/r/one", "2024-01-01"),
            task("d1aaaaaa", TaskStatus::Done, "/r/one", "2024-01-01"),
            task("d2aaaaaa", TaskStatus::Done, "/r/two", "2024-03-01"),
            task("r1aaaaaa", TaskStatus::Running, "/r/two", "2024-01-02"),
            task("d3aaaaaa", TaskStatus::Done, "/r/one", "2024-03-01"),
            task("b2aaaaaa", TaskStatus::Backlog, "/r/two", "2024-01-01"),
        ],
        None,
    )
}

#[test]
fn columns_hold_their_tasks_and_done_is_newest_first() {
    let b = sample();
    assert_eq!(ids(b.tasks_in_column(&TaskStatus::Backlog)), vec!["b1aaaaaa", "b2aaaaaa"]);
    assert_eq!(ids(b.tasks_in_column(&TaskStatus::Done)), vec!["d2aaaaaa", "d3aaaaaa", "d1aaaaaa"]);
    assert_eq!(ids(b.tasks_in_column(&TaskStatus::Blocked)), Vec::<String>::new());
    assert_eq!(column_at(1), TaskStatus::Running);
}

#[test]
fn repository_filter_cycles_and_clears() {
    let mut b = sample();
    assert_eq!(b.unique_repos(), vec!["/r/one", "/r/two"]);
    assert!(b.cycle_repo_filter());
    assert_eq!(b.repo_filter.as_deref(), Some("/r/one"));
    assert_eq!(ids(b.filtered_tasks()), vec!["b1aaaaaa", "d1aaaaaa", "d3aaaaaa"]);
    assert!(b.cycle_repo_filter());
    assert_eq!(b.repo_filter.as_deref(), Some("/r/two"));
    assert!(b.cycle_repo_filter());
    assert_eq!(b.repo_filter, None);
    b.repo_filter = Some("/r/one".into());
    assert!(b.clear_repo_filter());
    assert!(!b.clear_repo_filter());
    let mut empty = Board::new(Vec::new(), None);
    assert!(!empty.cycle_repo_filter());
}

#[test]
fn navigation_moves_and_clamps() {
    let mut b = sample();
    let fx = b.handle_key(Key::Char('j'), "/cwd");
    assert!(matches!(fx.as_slice(), [Effect::CaptureDetail]));
    assert_eq!(b.selected_row, 1);
    assert!(b.handle_key(Key::Down, "/cwd").is_empty());
    assert_eq!(b.selected_row, 1);
    b.handle_key(Key::BackTab, "/cwd");
    assert_eq!((b.selected_column, b.selected_row), (3, 0));
    b.handle_key(Key::Tab, "/cwd");
    assert_eq!(b.selected_column, 0);
    b.handle_key(Key::Right, "/cwd");
    b.handle_key(Key::Right, "/cwd");
    b.selected_row = 5;
    b.clamp_row();
    assert_eq!(b.selected_row, 0);
    b.handle_key(Key::Char('['), "/cwd");
    assert_eq!((b.detail_scroll, b.detail_at_bottom), (3, false));
    b.handle_key(Key::Char(']'), "/cwd");
    assert_eq!((b.detail_scroll, b.detail_at_bottom), (0, true));
}

#[test]
fn actions_depend_on_the_selected_status() {
    let mut b = sample();
    let actions = b.available_actions();
    assert_eq!(actions[0], ("Enter/s", "start"));
    let fx = b.handle_key(Key::Char('R'), "/cwd");
    match fx.as_slice() {
        [Effect::Warn(m)] => assert_eq!(m, "Can only restart Blocked/Done/Keep tasks (this is Backlog)"),
        _ => panic!("expected a warning"),
    }
    let fx = b.handle_key(Key::Enter, "/cwd");
    assert!(matches!(fx.as_slice(), [Effect::Start(id)] if id == "b1aaaaaa"));
    b.selected_column = 3;
    let fx = b.handle_key(Key::Enter, "/cwd");
    assert!(matches!(
        fx.as_slice(),
        [Effect::Open { task_id, resume_status: TaskStatus::Running }] if task_id == "d2aaaaaa"
    ));
    let fx = b.handle_key(Key::Char('s'), "/cwd");
    assert!(matches!(fx.as_slice(), [Effect::Warn(m)] if m == "Can't start a Done task"));
    b.selected_column = 2;
    assert_eq!(b.available_actions()[0], ("n", "new task"));
}

#[test]
fn kill_asks_for_confirmation() {
    let mut b = sample();
    b.selected_column = 1;
    assert!(b.handle_key(Key::Char('K'), "/cwd").is_empty());
    match &b.input_mode {
        InputMode::Confirm { prompt, action: PendingAction::KillTask(id) } => {
            assert_eq!(prompt, "Kill task r1aaaaaa? (y/n)");
            assert_eq!(id, "r1aaaaaa");
        }
        _ => panic!("expected the confirmation"),
    }
    let fx = b.handle_key(Key::Char('y'), "/cwd");
    assert!(matches!(fx.as_slice(), [Effect::Kill(id)] if id == "r1aaaaaa"));
    assert!(matches!(b.input_mode, InputMode::Normal));
    b.handle_key(Key::Char('K'), "/cwd");
    let fx = b.handle_key(Key::Char('n'), "/cwd");
    assert!(matches!(fx.as_slice(), [Effect::Info(m)] if m == "Cancelled"));
}

#[test]
fn new_task_form_submits_trimmed_values() {
    let mut b = sample();
    b.handle_key(Key::Char('n'), "/work");
    for c in "  Fix it ".chars() {
        b.handle_key(Key::Char(c), "/work");
    }
    let fx = b.handle_key(Key::Enter, "/work");
    match fx.as_slice() {
        [Effect::Create { title, description, repo }] => {
            assert_eq!(title, "Fix it");
            assert_eq!(description, "");
            assert_eq!(repo, "/work");
        }
        _ => panic!("expected a new task"),
    }
    b.handle_key(Key::Char('n'), "/work");
    let fx = b.handle_key(Key::Enter, "/work");
    assert!(matches!(fx.as_slice(), [Effect::Warn(m)] if m == "Title cannot be empty"));
    b.handle_key(Key::Up, "/work");
    match &b.input_mode {
        InputMode::NewTask { active_field, .. } => assert_eq!(*active_field, 2),
        _ => panic!("expected the form"),
    }
    b.handle_key(Key::Esc, "/work");
    assert!(matches!(b.input_mode, InputMode::Normal));
}

#[test]
fn messages_go_to_running_tasks() {
    let mut b = sample();
    b.selected_column = 1;
    b.handle_key(Key::Char('m'), "/cwd");
    for c in "hé".chars() {
        b.handle_key(Key::Char(c), "/cwd");
    }
    b.handle_key(Key::Left, "/cwd");
    b.handle_key(Key::Char('y'), "/cwd");
    match &b.input_mode {
        InputMode::SendMessage { input, cursor_pos } => {
            assert_eq!(input, "hyé");
            assert_eq!(*cursor_pos, 2);
        }
        _ => panic!("expected the message box"),
    }
    let fx = b.handle_key(Key::Enter, "/cwd");
    assert!(matches!(fx.as_slice(), [Effect::Send { task_id, message }] if task_id == "r1aaaaaa" && message == "hyé"));
}

#[test]
fn quick_prompts_send_and_close() {
    let mut b = sample();
    b.selected_column = 1;
    b.handle_key(Key::Char('p'), "/cwd");
    assert!(matches!(b.input_mode, InputMode::QuickPrompts));
    assert!(b.handle_key(Key::Char('9'), "/cwd").is_empty());
    assert!(matches!(b.input_mode, InputMode::QuickPrompts));
    let fx = b.handle_key(Key::Char('6'), "/cwd");
    assert!(matches!(b.input_mode, InputMode::Normal));
    match fx.as_slice() {
        [Effect::Send { message, .. }, Effect::Info(note)] => {
            assert_eq!(message, "Continue working on the task. Pick up where you left off.");
            assert_eq!(note, "⚡ Sent: Continue");
        }
        _ => panic!("expected the prompt"),
    }
}

#[test]
fn filter_key_names_the_repository() {
    let mut b = sample();
    let fx = b.handle_key(Key::Char('f'), "/cwd");
    assert!(matches!(fx.as_slice(), [Effect::CaptureDetail, Effect::Info(m)] if m == "Filter: one"));
    let fx = b.handle_key(Key::Char('F'), "/cwd");
    assert!(matches!(fx.as_slice(), [Effect::CaptureDetail, Effect::Info(m)] if m == "Filter cleared — showing all repos"));
    assert_eq!(path_last_segment("/a/b/"), "");
    assert_eq!(path_last_segment("plain"), "plain");
}

#[test]
fn help_overlay_swallows_one_key() {
    let mut b = sample();
    b.handle_key(Key::Char('?'), "/cwd");
    assert!(b.show_help);
    assert!(b.handle_key(Key::Char('q'), "/cwd").is_empty());
    assert!(!b.show_help && !b.should_quit);
    b.handle_key(Key::Esc, "/cwd");
    assert!(b.should_quit);
}

#[test]
fn field_editing_handles_multibyte_text() {
    let mut f = InputField::new("Title", "aé".to_string(), "");
    assert_eq!(f.cursor_pos, 3);
    handle_field_key(&mut f, Key::Backspace);
    assert_eq!((f.value.as_str(), f.cursor_pos), ("a", 1));
    handle_field_key(&mut f, Key::Char('ü'));
    handle_field_key(&mut f, Key::Home);
    handle_field_key(&mut f, Key::Delete);
    assert_eq!((f.value.as_str(), f.cursor_pos), ("ü", 0));
    handle_field_key(&mut f, Key::Right);
    assert_eq!(f.cursor_pos, 2);
    handle_field_key(&mut f, Key::Right);
    assert_eq!(f.cursor_pos, 2);
}

#[test]
fn notices_and_defaults() {
    assert_eq!(started_notice("abcdefgh-1", Some("ab/x")), "Started → abcdefgh on branch ab/x");
    assert_eq!(started_notice("abcdefgh-1", None), "Started → abcdefgh on branch ?");
    let long = "x".repeat(45);
    assert_eq!(sent_notice("abcdefgh", &long), format!("Sent to abcdefgh: {}…", "x".repeat(39)));
    let (d, r) = task_input_defaults("T", "", "", "/cwd");
    assert_eq!((d.as_str(), r.as_str()), ("T", "/cwd"));
    let t = task("abcdefgh", TaskStatus::Running, "/r", "");
    assert_eq!(detail_source(Some(&t), None), DetailSource::Text(String::new()));
    let mut t2 = t.clone();
    t2.tmux_session = Some("ab-abcdefgh".into());
    assert_eq!(detail_source(Some(&t2), Some(true)), DetailSource::Capture("ab-abcdefgh".into()));
    assert_eq!(detail_source(Some(&t2), Some(false)), DetailSource::Text("(session ended)".into()));
}

#[test]
fn cli_decisions() {
    assert_eq!(list_title("short"), "short");
    assert_eq!(list_title(&"y".repeat(39)), format!("{}...", "y".repeat(35)));
    let (d, w) = new_task_values("T", &None, &Some("/w".into()), "/cwd");
    assert_eq!((d.as_str(), w.as_str()), ("T", "/w"));
    assert!(needs_agent(&Commands::Board { repo: None }));
    assert!(!needs_agent(&Commands::List));
    let running = task("abcdefgh-2", TaskStatus::Running, "/r", "");
    match edit_values(&running, &None, &None, &None) {
        Err(m) => assert_eq!(m, "Can only edit Backlog tasks (task abcdefgh is Running)"),
        Ok(_) => panic!("expected an error"),
    }
    let backlog = task("abcdefgh-3", TaskStatus::Backlog, "/r", "");
    match edit_values(&backlog, &Some("New".into()), &None, &None) {
        Ok((t, d, w)) => assert_eq!((t.as_str(), d.as_str(), w.as_str()), ("New", "", "/r")),
        Err(_) => panic!("expected values"),
    }
}

#[test]
fn keep_lane_parks_tasks_and_can_be_shown() {
    let mut b = sample();
    let fx = b.handle_key(Key::Char('k'), "/cwd");
    assert!(matches!(fx.as_slice(), [Effect::Keep(id)] if id == "b1aaaaaa"));
    assert_eq!(b.column_count(), 4);
    b.handle_key(Key::BackTab, "/cwd");
    assert_eq!(b.selected_column, 3);
    b.handle_key(Key::Char('v'), "/cwd");
    assert_eq!(b.column_count(), 5);
    b.handle_key(Key::Tab, "/cwd");
    assert_eq!(b.selected_column, 4);
    assert_eq!(column_at(4), TaskStatus::Keep);
    let fx = b.handle_key(Key::Char('v'), "/cwd");
    assert!(matches!(fx.as_slice(), [Effect::CaptureDetail]));
    assert_eq!((b.selected_column, b.column_count()), (3, 4));

    let mut kept = Board::new(
        vec![
            task("k1aaaaaa", TaskStatus::Keep, "/r", "2024-01-01"),
            task("k2aaaaaa", TaskStatus::Keep, "/r", "2024-05-01"),
        ],
        None,
    );
    kept.handle_key(Key::Char('v'), "/cwd");
    kept.handle_key(Key::BackTab, "/cwd");
    assert_eq!(ids(kept.current_column_tasks()), vec!["k2aaaaaa", "k1aaaaaa"]);
    assert!(kept.handle_key(Key::Char('k'), "/cwd").is_empty());
    let fx = kept.handle_key(Key::Enter, "/cwd");
    assert!(matches!(fx.as_slice(), [Effect::Open { resume_status: TaskStatus::Running, .. }]));
    let fx = kept.handle_key(Key::Char('R'), "/cwd");
    assert!(matches!(fx.as_slice(), [Effect::Restart(id)] if id == "k2aaaaaa"));
}

#[test]
fn task_marks_and_preview_scroll() {
    assert_eq!(alive_indicator(TaskStatus::Running, Some(true)), " ●");
    assert_eq!(alive_indicator(TaskStatus::Running, None), "");
    assert_eq!(alive_indicator(TaskStatus::Blocked, Some(true)), " ⚠");
    assert_eq!(alive_label(Some(false)), "○ dead");
    let t = task("abcdefgh", TaskStatus::Backlog, "/r", "");
    assert_eq!(preview_placeholder(&t), "Task not started yet.");
    let mut r = task("abcdefgh", TaskStatus::Running, "/r", "");
    assert_eq!(preview_placeholder(&r), "No session attached.");
    r.tmux_session = Some("ab-x".into());
    assert_eq!(preview_placeholder(&r), "(no output captured)");
    assert_eq!(preview_scroll(50, 10, true, 7), 40);
    assert_eq!(preview_scroll(50, 10, false, 7), 33);
    assert_eq!(preview_scroll(50, 10, false, 70), 0);
    assert_eq!(preview_scroll(5, 10, true, 0), 0);
    assert_eq!(preview_scroll(200_000, 10, true, 0), 65535);
}
