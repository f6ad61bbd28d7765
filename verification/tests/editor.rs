use imp_tui::layout::Rect;
use imp_tui::views::editor::EditorState;

#[test]
fn visual_line_count_includes_soft_wraps() {
    let mut editor = EditorState::new();
    editor.set_content("abcdefghij");

    assert_eq!(editor.visual_line_count(4), 3);
}

#[test]
fn cursor_screen_position_tracks_soft_wraps() {
    let mut editor = EditorState::new();
    editor.set_content("abcdefghij");

    let area = Rect::new(0, 0, 6, 5); // inner width = 4
    let (x, y) = editor.cursor_screen_position(area);

    assert_eq!((x, y), (3, 3));
}

#[test]
fn insert_and_delete_track_byte_cursor() {
    let mut e = EditorState::new();
    e.insert_char('h');
    e.insert_char('é');
    e.insert_char('!');
    assert_eq!(e.content(), "hé!");
    assert_eq!(e.cursor, 4);
    assert_eq!(e.cursor_col, 4);
    e.move_left();
    assert_eq!(e.cursor, 3);
    e.move_left();
    assert_eq!(e.cursor, 1);
    e.delete_forward();
    assert_eq!(e.content(), "h!");
    e.move_right();
    e.delete_back();
    assert_eq!(e.content(), "h");
    assert_eq!(e.cursor, 1);
    e.delete_back();
    e.delete_back();
    assert_eq!(e.content(), "");
    assert_eq!(e.cursor, 0);
}

#[test]
fn newline_updates_line_and_column() {
    let mut e = EditorState::new();
    e.set_content("ab");
    e.insert_newline();
    e.insert_char('c');
    assert_eq!(e.content(), "ab\nc");
    assert_eq!(e.cursor_line, 1);
    assert_eq!(e.cursor_col, 1);
    assert_eq!(e.line_count(), 2);
    e.move_home();
    assert_eq!(e.cursor, 3);
    assert_eq!(e.cursor_col, 0);
    e.move_end();
    assert_eq!(e.cursor, 4);
}

#[test]
fn vertical_moves_keep_byte_column() {
    let mut e = EditorState::new();
    e.set_content("hello\nhi\nworld");
    assert!(!e.move_down());
    assert!(e.move_up());
    assert_eq!(e.cursor_line, 1);
    assert_eq!(e.cursor, 8);
    assert!(e.move_up());
    assert_eq!(e.cursor_line, 0);
    assert_eq!(e.cursor, 2);
    assert!(!e.move_up());
    assert!(e.move_down());
    assert_eq!(e.cursor, 8);
}

#[test]
fn word_motion_and_deletion() {
    let mut e = EditorState::new();
    e.set_content("foo bar  baz");
    e.move_word_left();
    assert_eq!(e.cursor, 9);
    e.move_word_left();
    assert_eq!(e.cursor, 4);
    e.move_word_right();
    assert_eq!(e.cursor, 9);
    e.move_end();
    e.delete_word_back();
    assert_eq!(e.content(), "foo bar  ");
    e.delete_to_start();
    assert_eq!(e.content(), "");
    e.set_content("one\ntwo");
    e.move_home();
    e.delete_to_end();
    assert_eq!(e.content(), "one\n");
}

#[test]
fn history_navigation() {
    let mut e = EditorState::new();
    e.set_content("first");
    e.push_history();
    e.set_content("   ");
    e.push_history();
    assert_eq!(e.history.len(), 1);
    e.set_content("draft");
    e.history_prev();
    assert_eq!(e.history.len(), 2);
    assert_eq!(e.content(), "draft");
    e.history_prev();
    assert_eq!(e.content(), "first");
    e.history_prev();
    assert_eq!(e.content(), "first");
    e.history_next();
    assert_eq!(e.content(), "draft");
    e.history_next();
    assert_eq!(e.content(), "");
    assert_eq!(e.history_idx, None);
}

#[test]
fn blank_buffer_is_empty() {
    let mut e = EditorState::new();
    assert!(e.is_empty());
    e.set_content(" \t\n");
    assert!(e.is_empty());
    e.set_content(" x ");
    assert!(!e.is_empty());
    e.clear();
    assert_eq!(e.cursor, 0);
    assert_eq!(e.line_count(), 1);
}

#[test]
fn wide_characters_wrap_by_columns() {
    let mut e = EditorState::new();
    e.set_content("日本語");
    assert_eq!(e.visual_line_count(4), 2);
    // A tab is four columns wide, so it cannot share a four-column row with "a".
    e.set_content("a\tb");
    assert_eq!(e.visual_line_count(4), 3);
    assert_eq!(e.visual_line_count(8), 1);
    assert_eq!(e.visual_line_count(0), 3);
}
