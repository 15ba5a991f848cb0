use modal_editor::buffer::{Buffer, Location};
use modal_editor::line::Line;

#[test]
fn insert_and_remove_single_char() {
    let mut buf = Buffer::default();
    // insert a char at the start
    buf.insert_char(&Location { x: 0, y: 0 }, 'a');
    assert_eq!(buf.line_at(0), "a");
    // nothing precedes the start of the document
    assert!(!buf.delete_char(&Location { x: 0, y: 0 }));
    assert_eq!(buf.line_at(0), "a");
    // deleting backwards from just after the 'a' removes it
    assert!(buf.delete_char(&Location { x: 1, y: 0 }));
    assert_eq!(buf.line_at(0), "");
}

#[test]
fn buffer_to_string_ignores_final_empty_line() {
    let mut buf = Buffer::default();
    buf.insert_char(&Location { x: 0, y: 0 }, 'x');
    // add an empty line at the end explicitly
    buf.lines.push(Line::new());
    assert_eq!(buf.line_count(), 2);
    // the final empty line stands for the trailing newline only
    assert_eq!(buf.buffer_to_string(), "x\n");
}

#[test]
fn grapheme_indices_are_correct() {
    let mut line = Line::new();
    line.push_str("👩‍❤️‍💋‍👨"); // a kiss emoji joined from four pictographs
    // the zero-width joiners bind it into one extended grapheme cluster
    assert_eq!(line.grapheme_len(), 1);
    assert_eq!(line.grapheme_at(0).unwrap(), "👩‍❤️‍💋‍👨");
    assert!(line.grapheme_at(0).unwrap().contains("‍❤️‍💋"));
    assert_eq!(line.grapheme_at(1), None);
}

#[test]
fn buffer_insert_and_delete() {
    let mut buf = Buffer::default();
    let loc = Location { x: 0, y: 0 };
    buf.insert_char(&loc, 'a');
    assert_eq!(buf.line_at(0), "a");
    assert_eq!(buf.line_count(), 1);
    assert!(!buf.delete_char(&loc));
    let deleted = buf.delete_char(&Location { x: 1, y: 0 });
    assert!(deleted);
    assert_eq!(buf.line_at(0), "");
}

#[test]
fn delete_at_document_start_changes_nothing() {
    let mut buf = Buffer::default();
    buf.read_text("ab\ncd");
    assert!(!buf.delete_char(&Location { x: 0, y: 0 }));
    assert_eq!(buf.line_count(), 2);
    assert_eq!(buf.buffer_to_string(), "ab\ncd");
}

#[test]
fn delete_at_row_start_joins_previous_row() {
    let mut buf = Buffer::default();
    buf.read_text("ab\ncd\nef");
    assert!(buf.delete_char(&Location { x: 0, y: 1 }));
    assert_eq!(buf.line_count(), 2);
    assert_eq!(buf.line_at(0), "abcd");
    assert_eq!(buf.line_at(1), "ef");
}

#[test]
fn delete_removes_whole_cluster_before_column() {
    let mut buf = Buffer::default();
    buf.read_text("ae\u{301}o");
    assert!(buf.delete_char(&Location { x: 2, y: 0 }));
    assert_eq!(buf.line_at(0), "ao");
}

#[test]
fn insert_char_adds_rows_below_the_end() {
    let mut buf = Buffer::default();
    buf.insert_char(&Location { x: 0, y: 2 }, 'z');
    assert_eq!(buf.line_count(), 3);
    assert_eq!(buf.line_at(0), "");
    assert_eq!(buf.line_at(1), "");
    assert_eq!(buf.line_at(2), "z");
}

#[test]
fn line_at_past_the_end_is_empty() {
    let buf = Buffer::default();
    assert_eq!(buf.line_at(5), "");
    assert!(!buf.is_empty());
}

#[test]
fn read_text_without_final_newline() {
    let mut buf = Buffer::default();
    buf.read_text("line1\nline2");
    assert_eq!(buf.line_count(), 2);
    assert_eq!(buf.line_at(0), "line1");
    assert_eq!(buf.line_at(1), "line2");
    assert_eq!(buf.buffer_to_string(), "line1\nline2");
}

#[test]
fn read_text_with_final_newline() {
    let mut buf = Buffer::default();
    buf.read_text("line1\nline2\n");
    assert_eq!(buf.line_count(), 3);
    assert_eq!(buf.line_at(2), "");
    assert_eq!(buf.buffer_to_string(), "line1\nline2\n");
}

#[test]
fn read_empty_text_gives_one_empty_row() {
    let mut buf = Buffer::default();
    buf.read_text("abc");
    buf.read_text("");
    assert_eq!(buf.line_count(), 1);
    assert_eq!(buf.line_at(0), "");
    assert_eq!(buf.buffer_to_string(), "");
}

#[test]
fn read_text_drops_carriage_return_before_newline() {
    let mut buf = Buffer::default();
    buf.read_text("a\r\nb\rc\r");
    assert_eq!(buf.line_count(), 2);
    assert_eq!(buf.line_at(0), "a");
    assert_eq!(buf.line_at(1), "b\rc\r");
}

#[test]
fn round_trip_of_several_texts() {
    for t in ["", "\n", "\n\n", "a", "a\n", "a\n\nb", "héllo\nwörld\n", "x\ny\nz"] {
        let mut buf = Buffer::default();
        buf.read_text(t);
        assert_eq!(buf.buffer_to_string(), t);
    }
}

#[test]
fn split_line_breaks_row_at_cluster() {
    let mut buf = Buffer::default();
    buf.read_text("abcd");
    buf.split_line(&Location { x: 1, y: 0 });
    assert_eq!(buf.line_count(), 2);
    assert_eq!(buf.line_at(0), "a");
    assert_eq!(buf.line_at(1), "bcd");
}
