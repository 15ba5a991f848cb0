//! Modes, key events, and the mode machine that turns a key into an edit,
//! a cursor movement, a change of mode, or a request to the caller.

use crate::buffer::{grown, joined_with_previous, split_at, Location};
use crate::cursor::{clamped_to_row, right_of, row_len, Cursor};
use crate::editor::{deleted_under, moved, Editor};
use crate::grapheme::clusters_of;
use crate::line::{inserted, removed};
use crate::view::rescrolled;
use vstd::prelude::*;
use vstd::view::View as _;

verus! {

/// The editing mode.
#[derive(Debug, Clone, Copy, PartialEq, Eq, Structural)]
pub enum Mode {
    Normal,
    Edit,
    Command,
    Visual,
}

/// A key event, as decoded from the terminal.
#[derive(Debug, Clone, Copy, PartialEq, Eq, Structural)]
pub enum Key {
    /// A character key; Enter is `'\n'` and Tab is `'\t'`.
    Char(char),
    /// A character key with Ctrl held.
    Ctrl(char),
    Left,
    Right,
    Up,
    Down,
    Backspace,
    Esc,
    /// Any key that no mode acts on.
    Other,
}

/// What the caller is to do after a key: go on, write the document to the
/// current file, or end the session.
#[derive(Debug, Clone, Copy, PartialEq, Eq, Structural)]
pub enum Action {
    Continue,
    Save,
    Quit,
}

/// The width of a tab stop.
pub const TAB_WIDTH: usize = 4;

/// The column of the next tab stop after column `x`.
pub open spec fn tab_stop(x: int) -> int {
    (x / TAB_WIDTH as int + 1) * TAB_WIDTH as int
}

/// The text `t` with `count` spaces put before its cluster `x`, one at a
/// time, stopping early should `x` come to lie past the last cluster.
pub open spec fn spaces_inserted(t: Seq<char>, x: int, count: nat) -> Seq<char>
    decreases count,
{
    if count == 0 || x > clusters_of(t).len() {
        t
    } else {
        spaces_inserted(inserted(t, x, ' '), x, (count - 1) as nat)
    }
}

/// The document after a backspace at `c`: the cluster before the cursor
/// goes, or at the start of a row the line break before it.
pub open spec fn backspaced(lines: Seq<Seq<char>>, c: Cursor) -> Seq<Seq<char>> {
    if c.x > 0 {
        lines.update(c.y as int, removed(lines[c.y as int], c.x - 1))
    } else if c.y > 0 {
        joined_with_previous(lines, c.y as int)
    } else {
        lines
    }
}

/// An arrow key.
pub open spec fn is_arrow(key: Key) -> bool {
    key == Key::Left || key == Key::Right || key == Key::Up || key == Key::Down
}

/// The mode after `key` in `mode`.
pub open spec fn next_mode(mode: Mode, key: Key) -> Mode {
    match mode {
        Mode::Normal => match key {
            Key::Char(':') => Mode::Command,
            Key::Char('i') | Key::Char('a') | Key::Char('s') => Mode::Edit,
            Key::Char('v') => Mode::Visual,
            _ => Mode::Normal,
        },
        _ => if key == Key::Esc {
            Mode::Normal
        } else {
            mode
        },
    }
}

/// What the caller is asked to do after `key` in `mode`.
pub open spec fn action_of(mode: Mode, key: Key) -> Action {
    if mode == Mode::Normal && key == Key::Ctrl('s') {
        Action::Save
    } else if mode == Mode::Normal && key == Key::Ctrl('q') {
        Action::Quit
    } else {
        Action::Continue
    }
}

/// Whether `key` in `mode` is followed by bringing the viewport over the
/// cursor.
pub open spec fn rescrolls(mode: Mode, key: Key) -> bool {
    match mode {
        Mode::Normal => key == Key::Char('a') || key == Key::Char('x') || key == Key::Char('s')
            || is_arrow(key),
        Mode::Edit => match key {
            Key::Char(_) | Key::Backspace | Key::Esc => true,
            _ => is_arrow(key),
        },
        _ => key == Key::Esc,
    }
}

/// The document after `key` in `mode` with the cursor at `c`.
pub open spec fn next_lines(mode: Mode, key: Key, lines: Seq<Seq<char>>, c: Cursor) -> Seq<Seq<char>> {
    match mode {
        Mode::Normal => match key {
            Key::Char('x') | Key::Char('s') => deleted_under(lines, c),
            _ => lines,
        },
        Mode::Edit => match key {
            Key::Char('\n') => split_at(lines, c.x as int, c.y as int),
            Key::Char('\t') => lines.update(
                c.y as int,
                spaces_inserted(lines[c.y as int], c.x as int, (tab_stop(c.x as int) - c.x) as nat),
            ),
            Key::Char(ch) => lines.update(c.y as int, inserted(lines[c.y as int], c.x as int, ch)),
            Key::Backspace => backspaced(lines, c),
            _ => lines,
        },
        _ => lines,
    }
}

/// The cursor after `key` in `mode` with the cursor at `c`. After an edit
/// it is kept within its row.
pub open spec fn next_cursor(mode: Mode, key: Key, lines: Seq<Seq<char>>, c: Cursor) -> Cursor {
    let after = next_lines(mode, key, lines, c);
    match mode {
        Mode::Normal => match key {
            Key::Char('a') => right_of(c, lines),
            Key::Char('x') | Key::Char('s') => clamped_to_row(c.x as int, c.y as int, after),
            _ => moved(c, key, lines),
        },
        Mode::Edit => match key {
            Key::Char('\n') => Cursor { x: 0, y: (c.y + 1) as usize },
            Key::Char('\t') => clamped_to_row(tab_stop(c.x as int), c.y as int, after),
            Key::Char(_) => clamped_to_row(c.x + 1, c.y as int, after),
            Key::Backspace => if c.x > 0 {
                clamped_to_row(c.x - 1, c.y as int, after)
            } else if c.y > 0 {
                clamped_to_row(row_len(lines, c.y - 1), c.y - 1, after)
            } else {
                c
            },
            _ => moved(c, key, lines),
        },
        _ => c,
    }
}

/// `f` is the editor `e` after `key`, in a screen of `cols` columns and
/// `rows` rows.
pub open spec fn follows_key(e: Editor, f: Editor, key: Key, cols: int, rows: int) -> bool {
    &&& f.buffer@ == next_lines(e.mode, key, e.buffer@, e.cursor)
    &&& f.cursor == next_cursor(e.mode, key, e.buffer@, e.cursor)
    &&& f.mode == next_mode(e.mode, key)
    &&& f.view == (if rescrolls(e.mode, key) {
        rescrolled(e.view, f.cursor, f.buffer@, cols, rows)
    } else {
        e.view
    })
    &&& f.current_file == e.current_file
}

/// Dispatches keys to an editor by its mode.
pub struct KeyHandler<'a> {
    pub editor: &'a mut Editor,
}

impl<'a> KeyHandler<'a> {
    /// A handler that acts on `editor`.
    pub fn new(editor: &'a mut Editor) -> (r: Self)
        ensures
            *r.editor == *old(editor),
            *final(r.editor) == *final(editor),
    {
        Self { editor }
    }

    /// Acts on `key` by the editor's mode, in a screen of `cols` columns
    /// and `rows` rows, and says what the caller is to do next.
    pub fn process_key(&mut self, key: Key, cols: usize, rows: usize) -> (r: Action)
        requires
            old(self).editor.wf(),
            cols >= 1,
            rows >= 1,
        ensures
            *final(final(self).editor) == *final(old(self).editor),
            final(self).editor.wf(),
            follows_key(*old(self).editor, *final(self).editor, key, cols as int, rows as int),
            r == action_of(old(self).editor.mode, key),
    {
        match self.editor.mode {
            Mode::Normal => self.handle_normal(key, cols, rows),
            Mode::Edit => self.handle_edit(key, cols, rows),
            Mode::Command => self.handle_command(key, cols, rows),
            Mode::Visual => self.handle_visual(key, cols, rows),
        }
    }

    /// Normal mode: switches mode, moves, deletes under the cursor, or
    /// hands the save and quit chords to the caller.
    fn handle_normal(&mut self, key: Key, cols: usize, rows: usize) -> (r: Action)
        requires
            old(self).editor.wf(),
            old(self).editor.mode == Mode::Normal,
            cols >= 1,
            rows >= 1,
        ensures
            *final(final(self).editor) == *final(old(self).editor),
            final(self).editor.wf(),
            follows_key(*old(self).editor, *final(self).editor, key, cols as int, rows as int),
            r == action_of(Mode::Normal, key),
    {
        match key {
            Key::Char(':') => {
                self.editor.set_mode(Mode::Command);
            },
            Key::Char('a') => {
                self.editor.handle_cursor(Key::Right);
                self.editor.update_view(cols, rows);
                self.editor.set_mode(Mode::Edit);
            },
            Key::Char('i') => {
                self.editor.set_mode(Mode::Edit);
            },
            Key::Char('x') => {
                self.editor.delete_under_cursor();
                self.editor.update_view(cols, rows);
            },
            Key::Char('s') => {
                self.editor.delete_under_cursor();
                self.editor.update_view(cols, rows);
                self.editor.set_mode(Mode::Edit);
            },
            Key::Char('v') => {
                self.editor.set_mode(Mode::Visual);
            },
            Key::Left | Key::Right | Key::Up | Key::Down => {
                self.editor.handle_cursor(key);
                self.editor.update_view(cols, rows);
            },
            Key::Ctrl('s') => {
                return Action::Save;
            },
            Key::Ctrl('q') => {
                return Action::Quit;
            },
            _ => {},
        }
        Action::Continue
    }

    /// Edit mode: types characters, breaks lines, fills tabs, and deletes
    /// backwards.
    fn handle_edit(&mut self, key: Key, cols: usize, rows: usize) -> (r: Action)
        requires
            old(self).editor.wf(),
            old(self).editor.mode == Mode::Edit,
            cols >= 1,
            rows >= 1,
        ensures
            *final(final(self).editor) == *final(old(self).editor),
            final(self).editor.wf(),
            follows_key(*old(self).editor, *final(self).editor, key, cols as int, rows as int),
            r == action_of(Mode::Edit, key),
    {
        let x = self.editor.cursor.x;
        let y = self.editor.cursor.y;
        let loc = Location { x, y };
        match key {
            Key::Char('\n') => {
                self.editor.buffer.split_line(&loc);
                proof {
                    assert(self.editor.buffer@.len() == self.editor.buffer.lines@.len());
                    assert(self.editor.buffer.lines@.len() == self.editor.buffer.lines.len());
                }
                self.editor.cursor = Cursor { x: 0, y: y + 1 };
                self.editor.update_view(cols, rows);
            },
            Key::Char('\t') => {
                self.insert_tab(cols, rows);
            },
            Key::Char(c) => {
                let ghost b = self.editor.buffer@;
                self.editor.buffer.insert_char(&loc, c);
                proof {
                    assert(grown(b, y as int) == b);
                    assert(self.editor.buffer@.len() == self.editor.buffer.lines@.len());
                    assert(self.editor.buffer.lines@[y as int].wf());
                }
                let len = self.editor.buffer.lines[y].grapheme_len();
                self.editor.cursor.x = if x >= len {
                    len
                } else {
                    x + 1
                };
                self.editor.update_view(cols, rows);
            },
            Key::Backspace => {
                let prev_len = if y > 0 {
                    self.editor.buffer.lines[y - 1].grapheme_len()
                } else {
                    0
                };
                if self.editor.buffer.delete_char(&loc) {
                    if x > 0 {
                        self.editor.cursor = Cursor { x: x - 1, y };
                    } else {
                        self.editor.cursor = Cursor { x: prev_len, y: y - 1 };
                    }
                    self.editor.settle_cursor();
                }
                self.editor.update_view(cols, rows);
            },
            Key::Esc => {
                self.editor.set_mode(Mode::Normal);
                self.editor.update_view(cols, rows);
            },
            Key::Left | Key::Right | Key::Up | Key::Down => {
                self.editor.handle_cursor(key);
                self.editor.update_view(cols, rows);
            },
            _ => {},
        }
        Action::Continue
    }

    /// Fills with spaces from the cursor to the next tab stop and moves the
    /// cursor there.
    fn insert_tab(&mut self, cols: usize, rows: usize)
        requires
            old(self).editor.wf(),
            old(self).editor.mode == Mode::Edit,
            cols >= 1,
            rows >= 1,
        ensures
            *final(final(self).editor) == *final(old(self).editor),
            final(self).editor.wf(),
            follows_key(*old(self).editor, *final(self).editor, Key::Char('\t'), cols as int, rows as int),
    {
        let ghost before = self.editor.buffer@;
        let x = self.editor.cursor.x;
        let y = self.editor.cursor.y;
        let loc = Location { x, y };
        let spaces = TAB_WIDTH - x % TAB_WIDTH;
        proof {
            assert(tab_stop(x as int) - x == spaces) by (nonlinear_arith)
                requires
                    spaces == 4 - x % 4,
                    x >= 0,
            ;
        }
        let mut k: usize = 0;
        while k < spaces
            invariant
                *final(self.editor) == *final(old(self).editor),
                self.editor.cursor == old(self).editor.cursor,
                self.editor.mode == old(self).editor.mode,
                self.editor.view == old(self).editor.view,
                self.editor.current_file == old(self).editor.current_file,
                before == old(self).editor.buffer@,
                x == old(self).editor.cursor.x,
                y == old(self).editor.cursor.y,
                loc == (Location { x, y }),
                self.editor.buffer.wf(),
                self.editor.buffer@.len() == before.len(),
                y < before.len(),
                k <= spaces,
                self.editor.buffer@ == before.update(y as int, self.editor.buffer@[y as int]),
                spaces_inserted(self.editor.buffer@[y as int], x as int, (spaces - k) as nat)
                    == spaces_inserted(before[y as int], x as int, spaces as nat),
            ensures
                self.editor.buffer@[y as int] == spaces_inserted(before[y as int], x as int, spaces as nat),
            decreases spaces - k,
        {
            assert(self.editor.buffer.lines@[y as int].wf());
            let len = self.editor.buffer.lines[y].grapheme_len();
            if x > len {
                break;
            }
            let ghost row = self.editor.buffer@[y as int];
            self.editor.buffer.insert_char(&loc, ' ');
            proof {
                assert(self.editor.buffer@ =~= before.update(y as int, self.editor.buffer@[y as int]));
                assert(self.editor.buffer@[y as int] == inserted(row, x as int, ' '));
            }
            k = k + 1;
        }
        assert(self.editor.buffer.lines@[y as int].wf());
        let len = self.editor.buffer.lines[y].grapheme_len();
        self.editor.cursor.x = if spaces > len || x > len - spaces {
            len
        } else {
            x + spaces
        };
        self.editor.update_view(cols, rows);
    }

    /// Command mode: only Escape acts, back to normal mode.
    fn handle_command(&mut self, key: Key, cols: usize, rows: usize) -> (r: Action)
        requires
            old(self).editor.wf(),
            old(self).editor.mode == Mode::Command,
            cols >= 1,
            rows >= 1,
        ensures
            *final(final(self).editor) == *final(old(self).editor),
            final(self).editor.wf(),
            follows_key(*old(self).editor, *final(self).editor, key, cols as int, rows as int),
            r == action_of(Mode::Command, key),
    {
        if key == Key::Esc {
            self.editor.set_mode(Mode::Normal);
            self.editor.update_view(cols, rows);
        }
        Action::Continue
    }

    /// Visual mode: only Escape acts, back to normal mode.
    fn handle_visual(&mut self, key: Key, cols: usize, rows: usize) -> (r: Action)
        requires
            old(self).editor.wf(),
            old(self).editor.mode == Mode::Visual,
            cols >= 1,
            rows >= 1,
        ensures
            *final(final(self).editor) == *final(old(self).editor),
            final(self).editor.wf(),
            follows_key(*old(self).editor, *final(self).editor, key, cols as int, rows as int),
            r == action_of(Mode::Visual, key),
    {
        if key == Key::Esc {
            self.editor.set_mode(Mode::Normal);
            self.editor.update_view(cols, rows);
        }
        Action::Continue
    }
}

} // verus!
