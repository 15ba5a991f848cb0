//! The editor: one document, its cursor and viewport, the file it came
//! from, and the current mode.

use crate::buffer::{joined_with_previous, lines_of, Buffer};
use crate::cursor::{above, below, clamped_to_row, left_of, right_of, row_len, valid_in, Cursor};
use crate::keyhandler::{Key, Mode};
use crate::line::removed;
use crate::view::{rescrolled, shows, lemma_rescrolled_shows, View};
use vstd::prelude::*;
use vstd::view::View as _;

verus! {

/// Why a file could not be read.
#[derive(Debug, Clone, Copy, PartialEq, Eq, Structural)]
pub enum ReadError {
    /// There is no file at the path.
    NotFound,
    /// Any other failure.
    Other,
}

/// The state of one editing session.
#[derive(Debug)]
pub struct Editor {
    pub current_file: String,
    pub mode: Mode,
    pub buffer: Buffer,
    pub view: View,
    pub cursor: Cursor,
}

/// The document after the cluster under the cursor is deleted; at the end
/// of a row that is the line break, which joins the next row on.
pub open spec fn deleted_under(lines: Seq<Seq<char>>, c: Cursor) -> Seq<Seq<char>> {
    if c.x < row_len(lines, c.y as int) {
        lines.update(c.y as int, removed(lines[c.y as int], c.x as int))
    } else if c.y + 1 < lines.len() {
        joined_with_previous(lines, c.y + 1)
    } else {
        lines
    }
}

/// The cursor after an arrow key.
pub open spec fn moved(c: Cursor, key: Key, lines: Seq<Seq<char>>) -> Cursor {
    match key {
        Key::Left => left_of(c, lines),
        Key::Right => right_of(c, lines),
        Key::Up => above(c, lines),
        Key::Down => below(c, lines),
        _ => c,
    }
}

impl Default for Editor {
    /// A session on one empty line, in normal mode, with no file.
    fn default() -> (r: Editor)
        ensures
            r.wf(),
            r.buffer@ == seq![Seq::<char>::empty()],
            r.current_file@ == Seq::<char>::empty(),
            r.mode == Mode::Normal,
            r.view == (View { offset_y: 0, offset_x: 0 }),
            r.cursor == (Cursor { x: 0, y: 0 }),
    {
        let buffer = Buffer::default();
        Editor {
            current_file: String::new(),
            mode: Mode::Normal,
            buffer,
            view: View { offset_y: 0, offset_x: 0 },
            cursor: Cursor { x: 0, y: 0 },
        }
    }
}

impl Editor {
    /// The document is well formed and the cursor stands in it.
    pub open spec fn wf(&self) -> bool {
        &&& self.buffer.wf()
        &&& valid_in(self.cursor, self.buffer@)
    }

    /// Opens the file at `at`, given what reading it gave: its text, or
    /// why it could not be read. A missing file gives an empty document;
    /// any other failure leaves the document as it was and is passed on.
    /// On success the cursor and the viewport go to the document's start.
    pub fn open_file(&mut self, at: &str, contents: Result<String, ReadError>) -> (r: Result<
        (),
        ReadError,
    >)
        requires
            old(self).wf(),
        ensures
            final(self).wf(),
            final(self).current_file@ == at@,
            final(self).mode == old(self).mode,
            r == (match contents {
                Err(ReadError::Other) => Err(ReadError::Other),
                _ => Ok(()),
            }),
            r is Ok ==> final(self).cursor == (Cursor { x: 0, y: 0 }),
            r is Ok ==> final(self).view == (View { offset_y: 0, offset_x: 0 }),
            contents is Ok ==> final(self).buffer@ == lines_of(contents->Ok_0@),
            contents == Err::<String, ReadError>(ReadError::NotFound) ==> final(self).buffer@ == seq![
                Seq::<char>::empty(),
            ],
            r is Err ==> final(self).buffer == old(self).buffer,
            r is Err ==> final(self).cursor == old(self).cursor,
            r is Err ==> final(self).view == old(self).view,
    {
        self.current_file = String::from_str(at);
        match contents {
            Ok(text) => {
                self.buffer.read_text(text.as_str());
            },
            Err(ReadError::NotFound) => {
                self.buffer = Buffer::default();
            },
            Err(ReadError::Other) => {
                return Err(ReadError::Other);
            },
        }
        self.cursor = Cursor { x: 0, y: 0 };
        self.view = View { offset_y: 0, offset_x: 0 };
        Ok(())
    }

    /// Switches to `mode`.
    pub fn set_mode(&mut self, mode: Mode)
        ensures
            *final(self) == (Editor { mode, ..*old(self) }),
    {
        self.mode = mode;
    }

    /// Brings the viewport over the cursor in a screen of `cols` columns and
    /// `rows` rows; afterwards the cursor is on screen.
    pub fn update_view(&mut self, cols: usize, rows: usize)
        requires
            old(self).wf(),
            cols >= 1,
            rows >= 1,
        ensures
            *final(self) == (Editor {
                view: rescrolled(old(self).view, old(self).cursor, old(self).buffer@, cols as int, rows as int),
                ..*old(self)
            }),
            shows(final(self).view, final(self).cursor, rows as int),
    {
        proof {
            lemma_rescrolled_shows(self.view, self.cursor, self.buffer@, cols as int, rows as int);
        }
        let (new_offset_x, new_offset_y) = self.cursor.maybe_scroll(&self.view, cols, rows);
        let n = self.buffer.line_count();
        let max_offset_y = n.saturating_sub(rows);
        let offset_y = if new_offset_y > max_offset_y {
            max_offset_y
        } else {
            new_offset_y
        };
        let line_len = self.buffer.lines[offset_y].grapheme_len();
        let offset_x = if new_offset_x > line_len {
            line_len
        } else {
            new_offset_x
        };
        self.view = View { offset_y, offset_x };
    }

    /// Where the cursor is on screen: its column and row relative to the
    /// viewport, or 0 on an axis where it is before the viewport.
    pub fn cursor_position(&self) -> (r: (usize, usize))
        ensures
            r.0 == (if self.cursor.x >= self.view.offset_x { self.cursor.x - self.view.offset_x } else { 0 }),
            r.1 == (if self.cursor.y >= self.view.offset_y { self.cursor.y - self.view.offset_y } else { 0 }),
    {
        (self.cursor.x.saturating_sub(self.view.offset_x), self.cursor.y.saturating_sub(self.view.offset_y))
    }

    /// Moves the cursor by an arrow key; other keys leave it.
    pub fn handle_cursor(&mut self, key: Key)
        requires
            old(self).wf(),
        ensures
            final(self).wf(),
            *final(self) == (Editor { cursor: moved(old(self).cursor, key, old(self).buffer@), ..*old(self) }),
    {
        match key {
            Key::Left => self.cursor.move_left(&self.buffer),
            Key::Right => self.cursor.move_right(&self.buffer),
            Key::Up => self.cursor.move_up(&self.buffer),
            Key::Down => self.cursor.move_down(&self.buffer),
            _ => {},
        }
    }

    /// Deletes the cluster under the cursor, or at the end of a row joins
    /// the next row on; the cursor then stays, or goes to the row's end
    /// where the row became shorter.
    pub fn delete_under_cursor(&mut self)
        requires
            old(self).wf(),
        ensures
            final(self).wf(),
            final(self).buffer@ == deleted_under(old(self).buffer@, old(self).cursor),
            final(self).cursor == clamped_to_row(old(self).cursor.x as int, old(self).cursor.y as int, final(self).buffer@),
            final(self).view == old(self).view,
            final(self).mode == old(self).mode,
            final(self).current_file == old(self).current_file,
    {
        let ghost before = self.buffer@;
        let y = self.cursor.y;
        let n = self.buffer.line_count();
        let line_len = self.buffer.lines[y].grapheme_len();
        if self.cursor.x < line_len {
            self.buffer.lines[y].remove(self.cursor.x);
            proof {
                assert(self.buffer@ =~= deleted_under(before, self.cursor));
            }
        } else if y + 1 < n {
            let next = self.buffer.lines.remove(y + 1);
            self.buffer.lines[y].push_str(next.as_str());
            proof {
                assert(self.buffer@ =~= deleted_under(before, self.cursor));
            }
        }
        self.settle_cursor();
    }

    /// Keeps the cursor's row and brings its column back to the row's end
    /// where it is past it.
    pub(crate) fn settle_cursor(&mut self)
        requires
            old(self).buffer.wf(),
            old(self).cursor.y < old(self).buffer@.len(),
        ensures
            final(self).wf(),
            *final(self) == (Editor {
                cursor: clamped_to_row(old(self).cursor.x as int, old(self).cursor.y as int, old(self).buffer@),
                ..*old(self)
            }),
    {
        let line_len = self.buffer.lines[self.cursor.y].grapheme_len();
        if self.cursor.x > line_len {
            self.cursor.x = line_len;
        }
    }
}

} // verus!
