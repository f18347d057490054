use promptr::tui::{EditorMove, EditorState};

#[test]
fn insertion_at_the_cursor_splits_lines_and_moves_past_the_text() {
    let mut editor = EditorState::new("ab\ncd".into());
    editor.move_cursor(EditorMove::Right);
    editor.insert("X\r\nY");
    assert_eq!(editor.text(), "aX\nYb\ncd");
    assert_eq!(editor.textarea().area.cursor(), (1, 1));
    assert_eq!(editor.original(), "ab\ncd");
}

#[test]
fn backspace_at_a_line_head_joins_it_to_the_line_before() {
    let mut editor = EditorState::new("ab\ncd".into());
    editor.move_cursor(EditorMove::Down);
    editor.move_cursor(EditorMove::LineStart);
    editor.backspace();
    assert_eq!(editor.text(), "abcd");
    assert_eq!(editor.textarea().area.cursor(), (0, 2));
    editor.backspace();
    assert_eq!(editor.text(), "acd");
}

#[test]
fn backspace_at_the_very_start_changes_nothing_and_records_nothing() {
    let mut editor = EditorState::new("ab".into());
    editor.backspace();
    assert_eq!(editor.text(), "ab");
    editor.undo();
    assert_eq!(editor.text(), "ab");
}

#[test]
fn undo_and_redo_walk_the_edit_history() {
    let mut editor = EditorState::new("ab".into());
    editor.move_cursor(EditorMove::LineEnd);
    editor.insert("c");
    editor.insert("d");
    assert_eq!(editor.text(), "abcd");
    editor.undo();
    assert_eq!(editor.text(), "abc");
    assert_eq!(editor.textarea().area.cursor(), (0, 3));
    editor.undo();
    assert_eq!(editor.text(), "ab");
    editor.redo();
    assert_eq!(editor.text(), "abc");
    assert_eq!(editor.textarea().area.cursor(), (0, 3));
    editor.insert("!");
    editor.redo();
    assert_eq!(editor.text(), "abc!");
}

#[test]
fn an_empty_find_clears_the_search_and_leaves_the_cursor() {
    let mut editor = EditorState::new("one two".into());
    editor.set_find("");
    editor.find_next();
    assert_eq!(editor.textarea().area.cursor(), (0, 0));
    editor.set_find("two");
    editor.find_next();
    assert_eq!(editor.textarea().area.cursor(), (0, 4));
    editor.set_find("a.b");
    assert_eq!(editor.textarea().area.search_pattern().unwrap().as_str(), "a\\.b");
}

#[test]
fn character_and_line_moves_wrap_at_line_ends_and_keep_the_column() {
    let mut editor = EditorState::new("abc\nd\nefgh".into());
    editor.move_cursor(EditorMove::Left);
    assert_eq!(editor.textarea().area.cursor(), (0, 0));
    editor.move_cursor(EditorMove::LineEnd);
    editor.move_cursor(EditorMove::Right);
    assert_eq!(editor.textarea().area.cursor(), (1, 0));
    editor.move_cursor(EditorMove::Left);
    assert_eq!(editor.textarea().area.cursor(), (0, 3));
    editor.move_cursor(EditorMove::Down);
    assert_eq!(editor.textarea().area.cursor(), (1, 1));
    editor.move_cursor(EditorMove::Down);
    assert_eq!(editor.textarea().area.cursor(), (2, 1));
    editor.move_cursor(EditorMove::Down);
    assert_eq!(editor.textarea().area.cursor(), (2, 1));
    editor.move_cursor(EditorMove::Up);
    editor.move_cursor(EditorMove::Up);
    assert_eq!(editor.textarea().area.cursor(), (0, 1));
    editor.move_cursor(EditorMove::Up);
    assert_eq!(editor.textarea().area.cursor(), (0, 1));
}

#[test]
fn word_moves_go_to_word_starts() {
    let mut editor = EditorState::new("aaa bbb ccc".into());
    editor.move_cursor(EditorMove::WordRight);
    assert_eq!(editor.textarea().area.cursor(), (0, 4));
    editor.move_cursor(EditorMove::WordRight);
    assert_eq!(editor.textarea().area.cursor(), (0, 8));
    editor.move_cursor(EditorMove::WordLeft);
    assert_eq!(editor.textarea().area.cursor(), (0, 4));
}

#[test]
fn find_next_moves_to_the_next_match_and_wraps_around() {
    let mut editor = EditorState::new("one two\ntwo one".into());
    editor.set_find("two");
    editor.find_next();
    assert_eq!(editor.textarea().area.cursor(), (0, 4));
    editor.find_next();
    assert_eq!(editor.textarea().area.cursor(), (1, 0));
    editor.find_next();
    assert_eq!(editor.textarea().area.cursor(), (0, 4));
    editor.set_find("absent");
    editor.find_next();
    assert_eq!(editor.textarea().area.cursor(), (0, 4));
    assert_eq!(editor.text(), "one two\ntwo one");
}
