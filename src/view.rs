//! The viewport: which rows and columns of the document are on screen.

use crate::buffer::Buffer;
use crate::cursor::{row_len, scroll_axis, valid_in, Cursor};
use crate::grapheme::clusters_of;
use vstd::prelude::*;
use vstd::view::View as _;

verus! {

/// The top-left corner of the visible window: its first row and, on each
/// row, its first grapheme column.
#[derive(Default, Debug, Clone, Copy, PartialEq, Eq, Structural)]
pub struct View {
    pub offset_y: usize,
    pub offset_x: usize,
}

/// The window after it is brought over the cursor in a screen of `cols`
/// columns and `rows` rows: each offset scrolls no more than needed, then
/// the row offset is kept within `max(0, line count - rows)` and the column
/// offset within the length of the row it now starts at.
pub open spec fn rescrolled(v: View, c: Cursor, lines: Seq<Seq<char>>, cols: int, rows: int) -> View {
    let sy = scroll_axis(c.y as int, v.offset_y as int, rows);
    let top = if lines.len() > rows { lines.len() - rows } else { 0 };
    let oy = if sy > top { top } else { sy };
    let sx = scroll_axis(c.x as int, v.offset_x as int, cols);
    let ox = if sx > row_len(lines, oy) { row_len(lines, oy) } else { sx };
    View { offset_y: oy as usize, offset_x: ox as usize }
}

/// The cursor is inside the window vertically, and not left of it.
pub open spec fn shows(v: View, c: Cursor, rows: int) -> bool {
    &&& v.offset_y <= c.y < v.offset_y + rows
    &&& v.offset_x <= c.x
}

/// The number of rows on screen: those of the document from the first
/// visible one, at most `rows`.
pub open spec fn visible_count(v: View, n: int, rows: int) -> int {
    if v.offset_y >= n {
        0
    } else if n - v.offset_y < rows {
        n - v.offset_y
    } else {
        rows
    }
}

/// What the window shows of the row with clusters `cs`: at most `cols`
/// clusters from column `offset_x`, none where the row is shorter.
pub open spec fn visible_part(cs: Seq<Seq<char>>, offset_x: int, cols: int) -> Seq<char> {
    let start = if offset_x < cs.len() { offset_x } else { cs.len() as int };
    let end = if start + cols < cs.len() { start + cols } else { cs.len() as int };
    cs.subrange(start, end).flatten()
}

/// After the window is brought over a valid cursor it shows the cursor.
pub proof fn lemma_rescrolled_shows(v: View, c: Cursor, lines: Seq<Seq<char>>, cols: int, rows: int)
    requires
        valid_in(c, lines),
        cols >= 1,
        rows >= 1,
    ensures
        shows(rescrolled(v, c, lines, cols, rows), c, rows),
{
}

/// Bringing the window over the cursor a second time, with nothing moved
/// in between, leaves it where the first time put it.
pub proof fn lemma_rescroll_idempotent(
    v: View,
    c: Cursor,
    lines: Seq<Seq<char>>,
    cols: int,
    rows: int,
)
    requires
        valid_in(c, lines),
        cols >= 1,
        rows >= 1,
    ensures
        rescrolled(rescrolled(v, c, lines, cols, rows), c, lines, cols, rows) == rescrolled(
            v,
            c,
            lines,
            cols,
            rows,
        ),
{
}

impl View {
    /// The text of each visible row, top to bottom: for each row of the
    /// document from `offset_y`, at most `rows` of them, the clusters from
    /// column `offset_x`, at most `cols` of them.
    pub fn visible_rows(&self, buffer: &Buffer, cols: usize, rows: usize) -> (r: Vec<String>)
        requires
            buffer.wf(),
        ensures
            r@.len() == visible_count(*self, buffer@.len() as int, rows as int),
            forall|k: int|
                0 <= k < r@.len() ==> #[trigger] r@[k]@ == visible_part(
                    clusters_of(buffer@[self.offset_y + k]),
                    self.offset_x as int,
                    cols as int,
                ),
    {
        let n = buffer.line_count();
        let mut out: Vec<String> = Vec::new();
        if self.offset_y >= n {
            return out;
        }
        let end_line = if n - self.offset_y < rows {
            n
        } else {
            self.offset_y + rows
        };
        let mut y = self.offset_y;
        while y < end_line
            invariant
                buffer.wf(),
                n == buffer@.len(),
                self.offset_y <= y <= end_line <= n,
                end_line - self.offset_y == visible_count(*self, n as int, rows as int),
                out@.len() == y - self.offset_y,
                forall|k: int|
                    0 <= k < out@.len() ==> #[trigger] out@[k]@ == visible_part(
                        clusters_of(buffer@[self.offset_y + k]),
                        self.offset_x as int,
                        cols as int,
                    ),
            decreases end_line - y,
        {
            let line = &buffer.lines[y];
            assert(buffer.lines@[y as int].wf());
            let len = line.grapheme_len();
            let start = if self.offset_x < len {
                self.offset_x
            } else {
                len
            };
            let end = if len - start > cols {
                start + cols
            } else {
                len
            };
            let text = String::from_str(line.slice_clusters(start, end));
            out.push(text);
            y = y + 1;
        }
        out
    }
}

} // verus!
