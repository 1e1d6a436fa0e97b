use agentboard::worktree::generate_branch_name;

#[test]
fn test_generate_branch_name_basic() {
    let result = generate_branch_name("abcd1234efgh", "Fix the login bug");
    assert_eq!(result, "ab/abcd1234/fix-the-login-bug");
}

#[test]
fn test_generate_branch_name_special_chars() {
    let result = generate_branch_name("task5678xxxx", "Hello, World! (test)");
    assert_eq!(result, "ab/task5678/hello-world-test");
}

#[test]
fn test_generate_branch_name_collapses_hyphens() {
    let result = generate_branch_name("aaaabbbb", "foo---bar___baz");
    assert_eq!(result, "ab/aaaabbbb/foo-bar-baz");
}

#[test]
fn test_generate_branch_name_trims_hyphens() {
    let result = generate_branch_name("12345678", "  --hello--  ");
    assert_eq!(result, "ab/12345678/hello");
}

#[test]
fn test_generate_branch_name_truncates_to_50() {
    let long_title = "a".repeat(100);
    let result = generate_branch_name("longid12", &long_title);
    let slug_part = result.strip_prefix("ab/longid12/").unwrap();
    assert_eq!(slug_part.len(), 50);
}

#[test]
fn test_generate_branch_name_short_task_id() {
    let result = generate_branch_name("abc", "my task");
    assert_eq!(result, "ab/abc/my-task");
}

#[test]
fn test_generate_branch_name_truncation_trims_trailing_hyphen() {
    let title = format!("{}-x", "a".repeat(49));
    let result = generate_branch_name("12345678", &title);
    let slug_part = result.strip_prefix("ab/12345678/").unwrap();
    assert!(
        !slug_part.ends_with('-'),
        "slug should not end with hyphen: {slug_part}"
    );
}

#[test]
fn test_generate_branch_name_empty_title_falls_back_to_task() {
    let result = generate_branch_name("12345678", "");
    assert_eq!(result, "ab/12345678/task");
}

#[test]
fn test_generate_branch_name_all_special_chars_falls_back_to_task() {
    let result = generate_branch_name("12345678", "!!!");
    assert_eq!(result, "ab/12345678/task");
}

#[test]
fn test_generate_branch_name_non_ascii_falls_back_to_task() {
    let result = generate_branch_name("12345678", "日本語タスク");
    assert_eq!(result, "ab/12345678/task");
}

#[test]
fn branch_slug_keeps_digits_and_lowercases() {
    assert_eq!(generate_branch_name("ABCDEFGH", "Add API v2"), "ab/ABCDEFGH/add-api-v2");
}

#[test]
fn regenerating_from_the_slug_gives_the_same_name() {
    for title in ["Fix the login bug", "ÄÖÜ Straße", "日本語タスク", "--A--b--", ""] {
        let name = generate_branch_name("abcdefgh-1", title);
        let slug = name.strip_prefix("ab/abcdefgh/").unwrap();
        assert_eq!(generate_branch_name("abcdefgh-1", slug), name);
    }
}
