use agentboard::setup::{command, launch_command, repo_config_id, resolve, SetupConfig};
use agentboard::store::{
    is_within_seconds, new_backlog_task, pick_unique, require_changed, StoreError,
    TaskStatus,
};
use agentboard::prompts::{find_quick_prompt, quick_prompts};
use agentboard::orchestrator::recently_updated;

#[test]
fn status_labels_round_trip() {
    for s in [TaskStatus::Backlog, TaskStatus::Running, TaskStatus::Blocked, TaskStatus::Done, TaskStatus::Keep] {
        assert_eq!(TaskStatus::from_label(s.label()), Some(s));
    }
    assert_eq!(TaskStatus::from_label("Finished"), Some(TaskStatus::Blocked));
    assert_eq!(TaskStatus::from_label("Failed"), Some(TaskStatus::Blocked));
    assert_eq!(TaskStatus::from_label("Bogus"), None);
    assert_eq!(TaskStatus::all_columns(), ["Backlog", "Running", "Blocked", "Done", "Keep"]);
}

#[test]
fn new_tasks_start_in_backlog_with_a_uuid() {
    let t = new_backlog_task("Title", "Desc", "/repo");
    assert_eq!(t.status, TaskStatus::Backlog);
    assert_eq!(t.id.len(), 36);
    assert_eq!(t.id.as_bytes()[14], b'4');
    assert_eq!(t.created_at, t.updated_at);
    assert!(chrono::DateTime::parse_from_rfc3339(&t.created_at).is_ok());
    let other = new_backlog_task("Title", "Desc", "/repo");
    assert_ne!(t.id, other.id);
}

#[test]
fn picking_by_prefix_reports_none_and_ambiguity() {
    let a = new_backlog_task("a", "a", "/r");
    let b = new_backlog_task("b", "b", "/r");
    match pick_unique(Vec::new(), "zz") {
        Err(e) => assert_eq!(e.message(), "no task found matching 'zz'"),
        Ok(_) => panic!("expected an error"),
    }
    match pick_unique(vec![a.clone(), b], "") {
        Err(e) => {
            assert!(matches!(e, StoreError::Ambiguous { count: 2, .. }));
            assert_eq!(e.message(), "ambiguous task id prefix '' matches 2 tasks");
        }
        Ok(_) => panic!("expected an error"),
    }
    match pick_unique(vec![a.clone()], "x") {
        Ok(t) => assert_eq!(t.id, a.id),
        Err(_) => panic!("expected the task"),
    }
}

#[test]
fn updates_of_missing_tasks_fail() {
    assert!(require_changed(1, "x").is_ok());
    match require_changed(0, "abc") {
        Err(e) => assert_eq!(e.message(), "no task found with id 'abc'"),
        Ok(_) => panic!("expected an error"),
    }
}

#[test]
fn timestamps_compare_in_whole_seconds() {
    let start = "2024-01-01T00:00:00+00:00";
    assert!(recently_updated((1704067229, 500_000_000), start));
    assert!(!recently_updated((1704067230, 0), start));
    assert!(recently_updated((1704067230, 0), "2024-01-01T02:00:01+02:00"));
    assert!(!recently_updated((1704067229, 0), "not a time"));
    assert!(is_within_seconds((10, 5), (0, 6), 10));
    assert!(!is_within_seconds((10, 6), (0, 6), 10));
}

#[test]
fn setup_command_runs_steps_in_order_before_the_agent() {
    let config = SetupConfig { steps: vec!["echo one".into(), "echo two".into()] };
    let command = command(&config, "agent --prompt");
    assert!(command.find("echo one").unwrap() < command.find("echo two").unwrap());
    assert!(command.find("echo two").unwrap() < command.find("agent --prompt").unwrap());
    assert!(command.contains(".agentboard/setup.running"));
    assert!(command.ends_with("agent --prompt"));
    assert_eq!(launch_command(None, "agent"), "agent");
}

#[test]
fn repository_setup_wins_and_empty_setup_is_none() {
    let repo = SetupConfig { steps: vec!["make".into()] };
    let global = SetupConfig { steps: vec!["other".into()] };
    assert_eq!(resolve(Some(repo), Some(global)).unwrap().steps, vec!["make"]);
    assert!(resolve(Some(SetupConfig { steps: vec![] }), None).is_none());
    let global = SetupConfig { steps: vec!["other".into()] };
    assert_eq!(resolve(None, Some(global)).unwrap().steps, vec!["other"]);
    assert_eq!(repo_config_id("/home/me/code"), "home__me__code");
}

#[test]
fn quick_prompts_are_bound_to_digits() {
    let all = quick_prompts();
    assert_eq!(all[0].key, '1');
    assert_eq!(all[0].label, "Review");
    assert_eq!(find_quick_prompt('6').unwrap().label, "Continue");
    assert!(find_quick_prompt('9').is_none());
    assert!(find_quick_prompt('a').is_none());
}

#[test]
fn id_prefixes_are_matched_literally() {
    assert_eq!(agentboard::store::like_prefix_pattern("ab"), "ab%");
    assert_eq!(agentboard::store::like_prefix_pattern("a%b_c\\"), "a\\%b\\_c\\\\%");
}
