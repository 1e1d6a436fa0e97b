use agentboard::layout::{
    cursor_row_col, field_window, shorten_path, shorten_path_with_home, truncate_title, wrap_text,
};

fn char_at(wrapped: &[(String, usize)], row: usize, col: usize) -> Option<char> {
    wrapped.get(row).and_then(|(text, _)| text.chars().nth(col))
}

#[test]
fn wrap_breaks_at_word_boundary_not_mid_word() {
    let w = wrap_text("hello world", 10);
    assert_eq!(w[0].0, "hello");
    assert_eq!(w[1].0, "world");
}

#[test]
fn wrap_hard_breaks_long_word() {
    let w = wrap_text("aaaaaaaaaaaa", 5);
    assert_eq!(w[0].0, "aaaaa");
    assert_eq!(w[1].0, "aaaaa");
    assert_eq!(w[2].0, "aa");
}

#[test]
fn cursor_tracks_char_across_wrapped_lines() {
    for text in ["the quick brown fox jumps", "aaa bbbbbbbbbb ccc dd eeeee"] {
        let width = 10;
        let wrapped = wrap_text(text, width);
        for (byte_idx, ch) in text.char_indices() {
            if ch.is_whitespace() {
                continue;
            }
            let (row, col) = cursor_row_col(&wrapped, byte_idx, width);
            assert_eq!(
                char_at(&wrapped, row, col),
                Some(ch),
                "text {text:?}: cursor at byte {byte_idx} (char '{ch}') mapped to wrong cell (row {row}, col {col})",
            );
        }
    }
}

#[test]
fn cursor_at_end_is_after_last_char() {
    let text = "the quick brown fox jumps";
    let width = 10;
    let wrapped = wrap_text(text, width);
    let (row, col) = cursor_row_col(&wrapped, text.len(), width);
    assert_eq!(row, wrapped.len() - 1);
    assert_eq!(col, wrapped.last().unwrap().0.chars().count());
}

#[test]
fn old_naive_formula_would_have_drifted() {
    let text = "aaa bbbbbbbbbb ccc";
    let width = 10;
    let wrapped = wrap_text(text, width);

    let byte_idx = text.rfind('c').unwrap();
    let (row, col) = cursor_row_col(&wrapped, byte_idx, width);

    let chars_before = text[..byte_idx].chars().count();
    let naive_row = chars_before / width;
    let naive_col = chars_before % width;

    assert_eq!(char_at(&wrapped, row, col), Some('c'));
    assert!(
        (naive_row, naive_col) != (row, col),
        "expected naive formula to drift, but it matched: correct=({row},{col}) naive=({naive_row},{naive_col})",
    );
}

#[test]
fn empty_and_single_char() {
    assert_eq!(wrap_text("", 10), vec![(String::new(), 0)]);
    assert_eq!(cursor_row_col(&wrap_text("", 10), 0, 10), (0, 0));

    let w = wrap_text("x", 10);
    assert_eq!(cursor_row_col(&w, 0, 10), (0, 0));
    assert_eq!(cursor_row_col(&w, 1, 10), (0, 1));
}

#[test]
fn wrap_keeps_explicit_newlines_and_start_offsets() {
    let w = wrap_text("ab\ncd", 10);
    assert_eq!(w, vec![("ab".to_string(), 0), ("cd".to_string(), 3)]);
    assert_eq!(wrap_text("anything at all", 0), vec![("anything at all".to_string(), 0)]);
}

#[test]
fn wrapped_lines_never_exceed_the_width() {
    let text = "a long line of words that must wrap several times over, with ünïcödé";
    for width in 1..12 {
        for (line, _) in wrap_text(text, width) {
            assert!(line.chars().count() <= width);
        }
    }
}

#[test]
fn cursor_column_is_clamped_to_the_width() {
    let w = wrap_text("abcde", 5);
    assert_eq!(cursor_row_col(&w, 5, 5), (0, 5));
    assert_eq!(cursor_row_col(&w, 5, 3), (0, 3));
}

#[test]
fn truncate_title_marks_the_cut() {
    assert_eq!(truncate_title("short", 10), "short");
    assert_eq!(truncate_title("a long title", 6), "a lon…");
    assert_eq!(truncate_title("abc", 0), "");
    assert_eq!(truncate_title("abc", 1), "…");
}

#[test]
fn shorten_path_prefers_home_then_left_truncation() {
    assert_eq!(shorten_path_with_home("/tmp/x", 0, None), "…");
    assert_eq!(shorten_path_with_home("/tmp/x", 10, None), "/tmp/x");
    assert_eq!(
        shorten_path_with_home("/home/me/code/project", 15, Some("/home/me")),
        "~/code/project"
    );
    assert_eq!(
        shorten_path_with_home("/home/me/code/project", 8, Some("/home/me")),
        "…project"
    );
    assert_eq!(shorten_path("/x", 5), "/x");
}

#[test]
fn field_window_keeps_the_cursor_in_view() {
    assert_eq!(field_window("hello", 5, 10), ("hello".to_string(), 5));
    assert_eq!(field_window("abcdefgh", 8, 4), ("efgh".to_string(), 4));
    assert_eq!(field_window("äbcdefgh", 2, 4), ("äbcd".to_string(), 1));
}

#[test]
fn lines_after_a_multibyte_space_start_at_their_first_character() {
    let text = "ab\u{a0}cd";
    let w = wrap_text(text, 3);
    assert_eq!(w, vec![("ab".to_string(), 0), ("cd".to_string(), 4)]);
    assert_eq!(cursor_row_col(&w, 4, 3), (1, 0));
    assert_eq!(cursor_row_col(&w, 5, 3), (1, 1));
    for (line, start) in &w {
        assert!(text.is_char_boundary(*start));
        assert!(text[*start..].starts_with(line.as_str()));
    }
}
