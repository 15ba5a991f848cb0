use modal_editor::cursor::Cursor;
use modal_editor::editor::{Editor, ReadError};
use modal_editor::keyhandler::{Action, Key, KeyHandler, Mode};
use modal_editor::view::View;

fn editor_with(text: &str) -> Editor {
    let mut ed = Editor::default();
    ed.open_file("doc.txt", Ok(text.to_string())).unwrap();
    ed
}

fn press(ed: &mut Editor, key: Key) -> Action {
    KeyHandler::new(ed).process_key(key, 80, 24)
}

#[test]
fn delete_under_cursor_in_middle_of_row() {
    let mut ed = editor_with("abc\ndef");
    ed.cursor = Cursor { x: 1, y: 0 };
    assert_eq!(press(&mut ed, Key::Char('x')), Action::Continue);
    assert_eq!(ed.buffer.line_count(), 2);
    assert_eq!(ed.buffer.line_at(0), "ac");
    assert_eq!(ed.buffer.line_at(1), "def");
    assert_eq!(ed.mode, Mode::Normal);
}

#[test]
fn delete_under_cursor_at_row_end_joins_next_row() {
    let mut ed = editor_with("abc\ndef");
    ed.cursor = Cursor { x: 3, y: 0 };
    press(&mut ed, Key::Char('x'));
    assert_eq!(ed.buffer.line_count(), 1);
    assert_eq!(ed.buffer.line_at(0), "abcdef");
    assert_eq!(ed.cursor.x, 3);
}

#[test]
fn delete_under_cursor_at_document_end_changes_nothing() {
    let mut ed = editor_with("abc");
    ed.cursor = Cursor { x: 3, y: 0 };
    ed.delete_under_cursor();
    assert_eq!(ed.buffer.buffer_to_string(), "abc");
}

#[test]
fn substitute_deletes_and_enters_edit_mode() {
    let mut ed = editor_with("abc");
    press(&mut ed, Key::Char('s'));
    assert_eq!(ed.buffer.line_at(0), "bc");
    assert_eq!(ed.mode, Mode::Edit);
}

#[test]
fn mode_transitions() {
    let mut ed = Editor::default();
    assert_eq!(ed.mode, Mode::Normal);
    press(&mut ed, Key::Char(':'));
    assert_eq!(ed.mode, Mode::Command);
    press(&mut ed, Key::Char('x'));
    assert_eq!(ed.mode, Mode::Command);
    press(&mut ed, Key::Esc);
    assert_eq!(ed.mode, Mode::Normal);
    press(&mut ed, Key::Char('v'));
    assert_eq!(ed.mode, Mode::Visual);
    press(&mut ed, Key::Esc);
    assert_eq!(ed.mode, Mode::Normal);
    press(&mut ed, Key::Char('i'));
    assert_eq!(ed.mode, Mode::Edit);
    press(&mut ed, Key::Esc);
    assert_eq!(ed.mode, Mode::Normal);
}

#[test]
fn save_and_quit_chords_are_handed_to_the_caller() {
    let mut ed = editor_with("abc");
    assert_eq!(press(&mut ed, Key::Ctrl('s')), Action::Save);
    assert_eq!(press(&mut ed, Key::Ctrl('q')), Action::Quit);
    press(&mut ed, Key::Char('i'));
    assert_eq!(press(&mut ed, Key::Ctrl('s')), Action::Continue);
    assert_eq!(ed.buffer.line_at(0), "abc");
}

#[test]
fn typing_inserts_and_advances() {
    let mut ed = Editor::default();
    press(&mut ed, Key::Char('i'));
    press(&mut ed, Key::Char('h'));
    press(&mut ed, Key::Char('i'));
    assert_eq!(ed.buffer.line_at(0), "hi");
    assert_eq!(ed.cursor, Cursor { x: 2, y: 0 });
}

#[test]
fn typing_a_combining_mark_keeps_cursor_in_row() {
    let mut ed = Editor::default();
    press(&mut ed, Key::Char('i'));
    press(&mut ed, Key::Char('e'));
    press(&mut ed, Key::Char('\u{301}'));
    assert_eq!(ed.buffer.line_at(0), "e\u{301}");
    assert_eq!(ed.cursor.x, 1);
}

#[test]
fn append_moves_right_then_edits() {
    let mut ed = editor_with("ab");
    press(&mut ed, Key::Char('a'));
    assert_eq!(ed.mode, Mode::Edit);
    assert_eq!(ed.cursor, Cursor { x: 1, y: 0 });
    press(&mut ed, Key::Char('X'));
    assert_eq!(ed.buffer.line_at(0), "aXb");
}

#[test]
fn enter_splits_row_at_cursor() {
    let mut ed = editor_with("hello");
    ed.cursor = Cursor { x: 2, y: 0 };
    press(&mut ed, Key::Char('i'));
    press(&mut ed, Key::Char('\n'));
    assert_eq!(ed.buffer.line_count(), 2);
    assert_eq!(ed.buffer.line_at(0), "he");
    assert_eq!(ed.buffer.line_at(1), "llo");
    assert_eq!(ed.cursor, Cursor { x: 0, y: 1 });
}

#[test]
fn tab_fills_to_next_stop() {
    let mut ed = editor_with("ab");
    ed.cursor = Cursor { x: 1, y: 0 };
    press(&mut ed, Key::Char('i'));
    press(&mut ed, Key::Char('\t'));
    assert_eq!(ed.buffer.line_at(0), "a   b");
    assert_eq!(ed.cursor.x, 4);
    press(&mut ed, Key::Char('\t'));
    assert_eq!(ed.buffer.line_at(0), "a       b");
    assert_eq!(ed.cursor.x, 8);
}

#[test]
fn backspace_deletes_before_cursor() {
    let mut ed = editor_with("abc");
    ed.cursor = Cursor { x: 2, y: 0 };
    press(&mut ed, Key::Char('i'));
    press(&mut ed, Key::Backspace);
    assert_eq!(ed.buffer.line_at(0), "ac");
    assert_eq!(ed.cursor, Cursor { x: 1, y: 0 });
}

#[test]
fn backspace_at_row_start_joins_previous_row() {
    let mut ed = editor_with("ab\ncd");
    ed.cursor = Cursor { x: 0, y: 1 };
    press(&mut ed, Key::Char('i'));
    press(&mut ed, Key::Backspace);
    assert_eq!(ed.buffer.line_count(), 1);
    assert_eq!(ed.buffer.line_at(0), "abcd");
    assert_eq!(ed.cursor, Cursor { x: 2, y: 0 });
}

#[test]
fn backspace_at_document_start_changes_nothing() {
    let mut ed = editor_with("ab");
    press(&mut ed, Key::Char('i'));
    press(&mut ed, Key::Backspace);
    assert_eq!(ed.buffer.line_at(0), "ab");
    assert_eq!(ed.cursor, Cursor { x: 0, y: 0 });
}

#[test]
fn arrows_wrap_and_clamp() {
    let mut ed = editor_with("abc\nd\nxyz");
    ed.cursor = Cursor { x: 3, y: 0 };
    press(&mut ed, Key::Right);
    assert_eq!(ed.cursor, Cursor { x: 0, y: 1 });
    press(&mut ed, Key::Left);
    assert_eq!(ed.cursor, Cursor { x: 3, y: 0 });
    press(&mut ed, Key::Down);
    assert_eq!(ed.cursor, Cursor { x: 1, y: 1 });
    press(&mut ed, Key::Down);
    assert_eq!(ed.cursor, Cursor { x: 1, y: 2 });
    press(&mut ed, Key::Down);
    assert_eq!(ed.cursor, Cursor { x: 1, y: 2 });
    press(&mut ed, Key::Up);
    press(&mut ed, Key::Up);
    press(&mut ed, Key::Up);
    assert_eq!(ed.cursor, Cursor { x: 1, y: 0 });
    ed.cursor = Cursor { x: 0, y: 0 };
    press(&mut ed, Key::Left);
    assert_eq!(ed.cursor, Cursor { x: 0, y: 0 });
}

#[test]
fn viewport_follows_cursor_down_and_back() {
    let text = (0..10).map(|i| format!("row{}", i)).collect::<Vec<_>>().join("\n");
    let mut ed = editor_with(&text);
    for _ in 0..6 {
        KeyHandler::new(&mut ed).process_key(Key::Down, 80, 4);
    }
    assert_eq!(ed.cursor.y, 6);
    assert_eq!(ed.view.offset_y, 3);
    assert_eq!(ed.cursor_position(), (0, 3));
    ed.cursor = Cursor { x: 0, y: 1 };
    ed.update_view(80, 4);
    assert_eq!(ed.view.offset_y, 1);
}

#[test]
fn viewport_row_offset_kept_below_last_full_screen() {
    let mut ed = editor_with("a\nb\nc\nd\ne");
    ed.view = View { offset_y: 4, offset_x: 0 };
    ed.cursor = Cursor { x: 0, y: 4 };
    ed.update_view(80, 3);
    assert_eq!(ed.view.offset_y, 2);
}

#[test]
fn viewport_scrolls_horizontally_within_row() {
    let mut ed = editor_with("abcdefghij");
    ed.cursor = Cursor { x: 9, y: 0 };
    ed.update_view(4, 24);
    assert_eq!(ed.view.offset_x, 6);
    ed.cursor = Cursor { x: 2, y: 0 };
    ed.update_view(4, 24);
    assert_eq!(ed.view.offset_x, 2);
}

#[test]
fn rescroll_twice_gives_same_offsets() {
    let mut ed = editor_with("short\na much longer row of text\nx\ny");
    ed.view = View { offset_y: 3, offset_x: 20 };
    ed.cursor = Cursor { x: 25, y: 1 };
    ed.update_view(5, 2);
    let first = ed.view;
    ed.update_view(5, 2);
    assert_eq!(ed.view.offset_x, first.offset_x);
    assert_eq!(ed.view.offset_y, first.offset_y);
    assert_eq!(first.offset_y, 1);
    assert_eq!(first.offset_x, 21);
}

#[test]
fn visible_rows_slice_by_cluster() {
    let mut ed = editor_with("héllo\nwörld\nabc\n");
    ed.view = View { offset_y: 1, offset_x: 1 };
    let rows = ed.view.visible_rows(&ed.buffer, 3, 2);
    assert_eq!(rows, vec!["örl".to_string(), "bc".to_string()]);
    ed.view = View { offset_y: 3, offset_x: 2 };
    let rows = ed.view.visible_rows(&ed.buffer, 3, 5);
    assert_eq!(rows, vec!["".to_string()]);
    ed.view = View { offset_y: 9, offset_x: 0 };
    assert!(ed.view.visible_rows(&ed.buffer, 3, 5).is_empty());
}

#[test]
fn open_missing_file_gives_empty_document() {
    let mut ed = editor_with("abc");
    assert_eq!(ed.open_file("new.txt", Err(ReadError::NotFound)), Ok(()));
    assert_eq!(ed.buffer.line_count(), 1);
    assert_eq!(ed.buffer.line_at(0), "");
    assert_eq!(ed.current_file, "new.txt");
}

#[test]
fn open_failure_keeps_document() {
    let mut ed = editor_with("abc");
    assert_eq!(ed.open_file("bad.txt", Err(ReadError::Other)), Err(ReadError::Other));
    assert_eq!(ed.buffer.line_at(0), "abc");
}

#[test]
fn cursor_position_is_relative_to_viewport() {
    let mut ed = editor_with("abcdef\nghi");
    ed.cursor = Cursor { x: 5, y: 1 };
    ed.view = View { offset_y: 1, offset_x: 2 };
    assert_eq!(ed.cursor_position(), (3, 0));
    ed.view = View { offset_y: 2, offset_x: 9 };
    assert_eq!(ed.cursor_position(), (0, 0));
}
