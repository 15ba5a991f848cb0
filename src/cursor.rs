//! The cursor: a grapheme column and a row, moved one step at a time.

use crate::buffer::Buffer;
use crate::grapheme::clusters_of;
use crate::view::View;
use vstd::view::View as _;
use vstd::prelude::*;

verus! {

/// The edit point: grapheme column `x` of row `y`.
#[derive(Default, Debug, Clone, Copy, PartialEq, Eq, Structural)]
pub struct Cursor {
    pub x: usize,
    pub y: usize,
}

/// The number of clusters on row `y` of `lines`.
pub open spec fn row_len(lines: Seq<Seq<char>>, y: int) -> int {
    clusters_of(lines[y]).len() as int
}

/// The cursor stands on an existing row, at most just past its last cluster.
pub open spec fn valid_in(c: Cursor, lines: Seq<Seq<char>>) -> bool {
    &&& c.y < lines.len()
    &&& c.x <= row_len(lines, c.y as int)
}

/// One column back, or to the end of the previous row from the start of one.
pub open spec fn left_of(c: Cursor, lines: Seq<Seq<char>>) -> Cursor {
    if c.x > 0 {
        Cursor { x: (c.x - 1) as usize, y: c.y }
    } else if c.y > 0 {
        Cursor { x: row_len(lines, c.y - 1) as usize, y: (c.y - 1) as usize }
    } else {
        c
    }
}

/// One column on, or to the start of the next row from the end of one.
pub open spec fn right_of(c: Cursor, lines: Seq<Seq<char>>) -> Cursor {
    if c.x < row_len(lines, c.y as int) {
        Cursor { x: (c.x + 1) as usize, y: c.y }
    } else if c.y + 1 < lines.len() {
        Cursor { x: 0, y: (c.y + 1) as usize }
    } else {
        c
    }
}

/// Column `x` on row `y`, or the row's end where it is shorter.
pub open spec fn clamped_to_row(x: int, y: int, lines: Seq<Seq<char>>) -> Cursor {
    if x > row_len(lines, y) {
        Cursor { x: row_len(lines, y) as usize, y: y as usize }
    } else {
        Cursor { x: x as usize, y: y as usize }
    }
}

/// One row up, if there is one.
pub open spec fn above(c: Cursor, lines: Seq<Seq<char>>) -> Cursor {
    clamped_to_row(c.x as int, if c.y > 0 { c.y - 1 } else { c.y as int }, lines)
}

/// One row down, if there is one.
pub open spec fn below(c: Cursor, lines: Seq<Seq<char>>) -> Cursor {
    clamped_to_row(c.x as int, if c.y + 1 < lines.len() { c.y + 1 } else { c.y as int }, lines)
}

/// The offset along one axis that keeps `pos` in a window of `size`
/// starting at `offset`: unchanged if it already does, else the least
/// movement that does.
pub open spec fn scroll_axis(pos: int, offset: int, size: int) -> int {
    if pos < offset {
        pos
    } else if pos >= offset + size {
        pos - size + 1
    } else {
        offset
    }
}

impl Cursor {
    /// Moves one column left, wrapping to the end of the previous row.
    pub fn move_left(&mut self, buffer: &Buffer)
        requires
            buffer.wf(),
            valid_in(*old(self), buffer@),
        ensures
            *final(self) == left_of(*old(self), buffer@),
            valid_in(*final(self), buffer@),
    {
        if self.x > 0 {
            self.x = self.x - 1;
        } else if self.y > 0 {
            self.y = self.y - 1;
            self.x = buffer.lines[self.y].grapheme_len();
        }
    }

    /// Moves one column right, wrapping to the start of the next row.
    pub fn move_right(&mut self, buffer: &Buffer)
        requires
            buffer.wf(),
            valid_in(*old(self), buffer@),
        ensures
            *final(self) == right_of(*old(self), buffer@),
            valid_in(*final(self), buffer@),
    {
        let n = buffer.line_count();
        let line_len = buffer.lines[self.y].grapheme_len();
        if self.x < line_len {
            self.x = self.x + 1;
        } else if self.y + 1 < n {
            self.y = self.y + 1;
            self.x = 0;
        }
    }

    /// Moves one row up, keeping the column where the row is long enough.
    pub fn move_up(&mut self, buffer: &Buffer)
        requires
            buffer.wf(),
            valid_in(*old(self), buffer@),
        ensures
            *final(self) == above(*old(self), buffer@),
            valid_in(*final(self), buffer@),
    {
        if self.y > 0 {
            self.y = self.y - 1;
        }
        let line_len = buffer.lines[self.y].grapheme_len();
        if self.x > line_len {
            self.x = line_len;
        }
    }

    /// Moves one row down, keeping the column where the row is long enough.
    pub fn move_down(&mut self, buffer: &Buffer)
        requires
            buffer.wf(),
            valid_in(*old(self), buffer@),
        ensures
            *final(self) == below(*old(self), buffer@),
            valid_in(*final(self), buffer@),
    {
        let n = buffer.line_count();
        if self.y + 1 < n {
            self.y = self.y + 1;
        }
        let line_len = buffer.lines[self.y].grapheme_len();
        if self.x > line_len {
            self.x = line_len;
        }
    }

    /// The offsets, column then row, that bring the cursor into a window of
    /// `cols` columns and `rows` rows at the offsets of `view`, moving each
    /// no more than needed.
    pub fn maybe_scroll(&self, view: &View, cols: usize, rows: usize) -> (r: (usize, usize))
        requires
            cols >= 1,
            rows >= 1,
        ensures
            r.0 == scroll_axis(self.x as int, view.offset_x as int, cols as int),
            r.1 == scroll_axis(self.y as int, view.offset_y as int, rows as int),
    {
        (scroll_to(self.x, view.offset_x, cols), scroll_to(self.y, view.offset_y, rows))
    }
}

/// One axis of `Cursor::maybe_scroll`.
fn scroll_to(pos: usize, offset: usize, size: usize) -> (r: usize)
    requires
        size >= 1,
    ensures
        r == scroll_axis(pos as int, offset as int, size as int),
{
    if pos < offset {
        pos
    } else if pos - offset >= size {
        pos - size + 1
    } else {
        offset
    }
}

} // verus!
