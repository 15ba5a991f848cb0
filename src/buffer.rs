//! The document: an ordered, never empty sequence of lines.

use crate::grapheme::{clusters_of, push_char};
use crate::line::{inserted, lemma_no_clusters_in_empty, removed, Line};
use vstd::prelude::*;

verus! {

/// A point in the document: grapheme column `x` of row `y`.
#[derive(Default, Clone, Copy, Debug)]
pub struct Location {
    pub x: usize,
    pub y: usize,
}

/// The lines of a document, in order.
#[derive(Clone, Debug)]
pub struct Buffer {
    pub lines: Vec<Line>,
}

/// The texts of `lines` joined with a line break between each two.
pub open spec fn joined(lines: Seq<Seq<char>>) -> Seq<char>
    decreases lines.len(),
{
    if lines.len() == 0 {
        Seq::empty()
    } else if lines.len() == 1 {
        lines[0]
    } else {
        joined(lines.drop_last()).push('\n') + lines.last()
    }
}

/// The pieces of `t` between its line breaks: one more than there are
/// line breaks, so a text ending in a line break ends in an empty piece.
pub open spec fn pieces(t: Seq<char>) -> Seq<Seq<char>>
    decreases t.len(),
{
    if t.len() == 0 {
        seq![Seq::empty()]
    } else {
        let p = pieces(t.drop_last());
        if t.last() == '\n' {
            p.push(Seq::empty())
        } else {
            p.update(p.len() - 1, p.last().push(t.last()))
        }
    }
}

/// The texts of `ls`.
pub open spec fn texts_of_lines(ls: Seq<Line>) -> Seq<Seq<char>> {
    ls.map_values(|l: Line| l@)
}

/// Each of `ps` without a carriage return at its end.
pub open spec fn all_without_cr(ps: Seq<Seq<char>>) -> Seq<Seq<char>> {
    ps.map_values(|p: Seq<char>| without_cr(p))
}

/// A piece that a line break ends, without the carriage return before it.
pub open spec fn without_cr(p: Seq<char>) -> Seq<char> {
    if p.len() > 0 && p.last() == '\r' {
        p.drop_last()
    } else {
        p
    }
}

/// The lines that a text holds: its pieces between line breaks, where a
/// carriage return just before a line break belongs to the break.
pub open spec fn lines_of(t: Seq<char>) -> Seq<Seq<char>> {
    let ps = pieces(t);
    all_without_cr(ps.drop_last()).push(ps.last())
}

/// A document of `lines`, where line `y` exists: the lines after the
/// last are empty.
pub open spec fn grown(lines: Seq<Seq<char>>, y: int) -> Seq<Seq<char>> {
    if y < lines.len() {
        lines
    } else {
        lines + Seq::new((y + 1 - lines.len()) as nat, |k: int| Seq::<char>::empty())
    }
}

/// Row `y` of `lines` appended to row `y - 1`, and taken out.
pub open spec fn joined_with_previous(lines: Seq<Seq<char>>, y: int) -> Seq<Seq<char>> {
    lines.take(y - 1).push(lines[y - 1] + lines[y]) + lines.skip(y + 1)
}

/// Row `y` of `lines` broken in two before its cluster `x`.
pub open spec fn split_at(lines: Seq<Seq<char>>, x: int, y: int) -> Seq<Seq<char>> {
    let cs = clusters_of(lines[y]);
    lines.take(y) + seq![cs.take(x).flatten(), cs.skip(x).flatten()] + lines.skip(y + 1)
}

impl View for Buffer {
    type V = Seq<Seq<char>>;

    open spec fn view(&self) -> Seq<Seq<char>> {
        texts_of_lines(self.lines@)
    }
}

impl Default for Buffer {
    /// A document of one empty line.
    fn default() -> (r: Buffer)
        ensures
            r@ == seq![Seq::<char>::empty()],
            r.wf(),
    {
        let r = Buffer { lines: vec![Line::new()] };
        proof {
            assert(r@ =~= seq![Seq::<char>::empty()]);
        }
        r
    }
}

impl Buffer {
    /// At least one line, and every line's cluster index in step.
    pub open spec fn wf(&self) -> bool {
        &&& self.lines@.len() >= 1
        &&& forall|k: int| 0 <= k < self.lines@.len() ==> #[trigger] self.lines@[k].wf()
    }

    /// The number of clusters on row `y`.
    pub open spec fn row_len(&self, y: int) -> int {
        clusters_of(self@[y]).len() as int
    }

    /// Puts `c` before cluster `loc.x` of row `loc.y`, first adding empty
    /// rows up to row `loc.y` where the document is shorter.
    pub fn insert_char(&mut self, loc: &Location, c: char)
        requires
            old(self).wf(),
            loc.x <= (if loc.y < old(self)@.len() { old(self).row_len(loc.y as int) } else { 0 }),
        ensures
            final(self).wf(),
            final(self)@ == grown(old(self)@, loc.y as int).update(
                loc.y as int,
                inserted(grown(old(self)@, loc.y as int)[loc.y as int], loc.x as int, c),
            ),
    {
        let ghost before = self@;
        while self.lines.len() <= loc.y
            invariant
                self.wf(),
                before.len() <= self@.len() <= grown(before, loc.y as int).len(),
                self@ =~= grown(before, loc.y as int).take(self@.len() as int),
            decreases loc.y + 1 - self.lines@.len(),
        {
            self.lines.push(Line::new());
        }
        proof {
            assert(self@ =~= grown(before, loc.y as int));
            if loc.y >= before.len() {
                assert(self@[loc.y as int] == Seq::<char>::empty());
                assert(clusters_of(Seq::<char>::empty()).len() == 0) by {
                    lemma_no_clusters_in_empty(self.lines@[loc.y as int]);
                }
            }
        }
        let y = loc.y;
        self.lines[y].insert(loc.x, c);
        proof {
            assert(self@ =~= grown(before, loc.y as int).update(
                loc.y as int,
                inserted(grown(before, loc.y as int)[loc.y as int], loc.x as int, c),
            ));
        }
    }

    /// Deletes backwards from `loc`: the cluster before column `loc.x`, or,
    /// at the start of a row, the line break before it. Returns false, and
    /// changes nothing, at the start of the document.
    pub fn delete_char(&mut self, loc: &Location) -> (r: bool)
        requires
            old(self).wf(),
            loc.y < old(self)@.len(),
            loc.x <= old(self).row_len(loc.y as int),
        ensures
            final(self).wf(),
            r == !(loc.x == 0 && loc.y == 0),
            !r ==> final(self)@ == old(self)@,
            r && loc.x > 0 ==> final(self)@ == old(self)@.update(
                loc.y as int,
                removed(old(self)@[loc.y as int], loc.x - 1),
            ),
            r && loc.x == 0 ==> final(self)@ == joined_with_previous(old(self)@, loc.y as int),
    {
        if loc.y == 0 && loc.x == 0 {
            return false;
        }
        let ghost before = self@;
        if loc.x > 0 {
            let y = loc.y;
            self.lines[y].remove(loc.x - 1);
            proof {
                assert(self@ =~= before.update(loc.y as int, removed(before[loc.y as int], loc.x - 1)));
            }
        } else {
            let current_line = self.lines.remove(loc.y);
            let y = loc.y - 1;
            self.lines[y].push_str(current_line.as_str());
            proof {
                assert(self@ =~= joined_with_previous(before, loc.y as int));
            }
        }
        true
    }

    /// Breaks row `loc.y` in two before its cluster `loc.x`.
    pub fn split_line(&mut self, loc: &Location)
        requires
            old(self).wf(),
            loc.y < old(self)@.len(),
            loc.x <= old(self).row_len(loc.y as int),
        ensures
            final(self).wf(),
            final(self)@ == split_at(old(self)@, loc.x as int, loc.y as int),
    {
        let ghost before = self@;
        let y = loc.y;
        let line = &self.lines[y];
        let ghost cs = line.clusters();
        assert(self.lines@[y as int].wf());
        let n = line.grapheme_len();
        let left = Line::from_string(String::from_str(line.slice_clusters(0, loc.x)));
        let right = Line::from_string(String::from_str(line.slice_clusters(loc.x, n)));
        proof {
            assert(cs.subrange(0, loc.x as int) =~= cs.take(loc.x as int));
            assert(cs.subrange(loc.x as int, n as int) =~= cs.skip(loc.x as int));
        }
        self.lines.set(y, right);
        self.lines.insert(y, left);
        proof {
            assert(self@ =~= split_at(before, loc.x as int, loc.y as int));
        }
    }

    /// The text of row `y`, or an empty text past the last row.
    pub fn line_at(&self, y: usize) -> (r: &str)
        ensures
            r@ == (if y < self@.len() { self@[y as int] } else { Seq::<char>::empty() }),
    {
        if y < self.lines.len() {
            self.lines[y].as_str()
        } else {
            proof {
                reveal_strlit("");
            }
            ""
        }
    }

    /// The number of rows.
    pub fn line_count(&self) -> (r: usize)
        ensures
            r == self@.len(),
    {
        self.lines.len()
    }

    /// Whether there are no rows at all.
    pub fn is_empty(&self) -> (r: bool)
        ensures
            r == (self@.len() == 0),
    {
        self.lines.len() == 0
    }

    /// The whole document as text: the rows joined with a line break
    /// between each two, so a last empty row stands for a final line break.
    pub fn buffer_to_string(&self) -> (r: String)
        ensures
            r@ == joined(self@),
    {
        let mut out = String::new();
        let mut k: usize = 0;
        while k < self.lines.len()
            invariant
                k <= self@.len(),
                out@ == joined(self@.take(k as int)),
            decreases self@.len() - k,
        {
            if k > 0 {
                push_char(&mut out, '\n');
            }
            out.append(self.lines[k].as_str());
            proof {
                let t = self@.take(k + 1);
                assert(t.drop_last() =~= self@.take(k as int));
                if k == 0 {
                    assert(out@ =~= joined(t));
                }
            }
            k = k + 1;
        }
        proof {
            assert(self@.take(self@.len() as int) =~= self@);
        }
        out
    }

    /// Replaces the document with the lines of `contents`: its pieces
    /// between line breaks, with a carriage return before a break dropped.
    /// Text that ends in a line break gives a last, empty row, and empty
    /// text a single empty row.
    pub fn read_text(&mut self, contents: &str)
        ensures
            final(self).wf(),
            final(self)@ == lines_of(contents@),
    {
        let mut lines: Vec<Line> = Vec::new();
        let mut cur = String::new();
        let mut pending_cr = false;
        for c in it: contents.chars()
            invariant
                it.seq() == contents@,
                forall|k: int| 0 <= k < lines@.len() ==> #[trigger] lines@[k].wf(),
                ({
                    let ps = pieces(contents@.take(it.index() as int));
                    &&& ps.len() >= 1
                    &&& texts_of_lines(lines@) == all_without_cr(ps.drop_last())
                    &&& ps.last() == (if pending_cr { cur@.push('\r') } else { cur@ })
                    &&& !pending_cr ==> (cur@.len() == 0 || cur@.last() != '\r')
                }),
        {
            let ghost before = contents@.take(it.index() as int);
            let ghost after = contents@.take(it.index() + 1);
            proof {
                assert(after.drop_last() =~= before);
                assert(after.last() == c);
                lemma_pieces_len(before);
            }
            if c == '\n' {
                let l = Line::from_string(cur);
                proof {
                    let ps = pieces(before);
                    assert(without_cr(ps.last()) =~= l@);
                    assert(pieces(after).drop_last() =~= ps);
                    let old_views = texts_of_lines(lines@);
                    assert forall|k: int| 0 <= k < ps.len() - 1 implies old_views[k] == without_cr(
                        ps[k],
                    ) by {
                        assert(ps.drop_last()[k] == ps[k]);
                        assert(all_without_cr(ps.drop_last())[k] == without_cr(ps[k]));
                    }
                    let new_views = texts_of_lines(lines@.push(l));
                    let want = all_without_cr(ps);
                    assert(old_views.len() == lines@.len());
                    assert(old_views == all_without_cr(ps.drop_last()));
                    assert(all_without_cr(ps.drop_last()).len() == ps.len() - 1);
                    assert(new_views.len() == want.len());
                    assert forall|k: int| 0 <= k < want.len() implies new_views[k] == want[k] by {
                        assert(want[k] == without_cr(ps[k]));
                        assert(new_views[k] == lines@.push(l)[k]@);
                        if k < ps.len() - 1 {
                            assert(lines@.push(l)[k] == lines@[k]);
                            assert(old_views[k] == lines@[k]@);
                        } else {
                            assert(lines@.push(l)[k] == l);
                        }
                    }
                    assert(new_views =~= want);
                }
                lines.push(l);
                cur = String::new();
                pending_cr = false;
            } else {
                if pending_cr {
                    push_char(&mut cur, '\r');
                }
                if c == '\r' {
                    pending_cr = true;
                } else {
                    push_char(&mut cur, c);
                    pending_cr = false;
                }
                proof {
                    let ps = pieces(before);
                    assert(pieces(after).drop_last() =~= ps.drop_last());
                    assert(pieces(after).last() =~= (if pending_cr { cur@.push('\r') } else { cur@ }));
                }
            }
        }
        proof {
            lemma_pieces_len(contents@);
        }
        if pending_cr {
            push_char(&mut cur, '\r');
        }
        let last = Line::from_string(cur);
        proof {
            assert(contents@.take(contents@.len() as int) =~= contents@);
            assert(texts_of_lines(lines@.push(last)) =~= lines_of(contents@));
        }
        lines.push(last);
        self.lines = lines;
    }
}

/// Reading a text that holds no carriage return into a document, then
/// writing the document out, gives back the same text, a final line break
/// or its absence included.
pub proof fn lemma_read_then_write(t: Seq<char>)
    requires
        forall|i: int| 0 <= i < t.len() ==> t[i] != '\r',
    ensures
        joined(lines_of(t)) == t,
{
    let ps = pieces(t);
    lemma_pieces_len(t);
    lemma_pieces_free_of_cr(t);
    assert(all_without_cr(ps.drop_last()) =~= ps.drop_last()) by {
        assert forall|k: int| 0 <= k < ps.len() - 1 implies #[trigger] all_without_cr(
            ps.drop_last(),
        )[k] == ps.drop_last()[k] by {
            let p = ps[k];
            if p.len() > 0 {
                assert(p[p.len() - 1] != '\r');
            }
        }
    }
    assert(lines_of(t) =~= ps);
    lemma_joined_pieces(t);
}

/// The pieces of a text without carriage returns hold none either.
proof fn lemma_pieces_free_of_cr(t: Seq<char>)
    requires
        forall|i: int| 0 <= i < t.len() ==> t[i] != '\r',
    ensures
        forall|k: int, j: int|
            0 <= k < pieces(t).len() && 0 <= j < pieces(t)[k].len() ==> #[trigger] pieces(t)[k][j]
                != '\r',
    decreases t.len(),
{
    if t.len() > 0 {
        let s = t.drop_last();
        lemma_pieces_free_of_cr(s);
        lemma_pieces_len(s);
        let p = pieces(s);
        if t.last() != '\n' {
            assert forall|k: int, j: int|
                0 <= k < pieces(t).len() && 0 <= j < pieces(t)[k].len() implies #[trigger] pieces(
                t,
            )[k][j] != '\r' by {
                if k == p.len() - 1 && j == p.last().len() {
                    assert(pieces(t)[k][j] == t.last());
                } else if k == p.len() - 1 {
                    assert(pieces(t)[k][j] == p[k][j]);
                } else {
                    assert(pieces(t)[k] == p[k]);
                }
            }
        } else {
            assert forall|k: int, j: int|
                0 <= k < pieces(t).len() && 0 <= j < pieces(t)[k].len() implies #[trigger] pieces(
                t,
            )[k][j] != '\r' by {
                if k < p.len() {
                    assert(pieces(t)[k] == p[k]);
                }
            }
        }
    }
}

/// Joining the pieces of a text gives the text.
proof fn lemma_joined_pieces(t: Seq<char>)
    ensures
        joined(pieces(t)) == t,
    decreases t.len(),
{
    if t.len() == 0 {
        assert(joined(pieces(t)) =~= t);
    } else {
        let s = t.drop_last();
        lemma_joined_pieces(s);
        lemma_pieces_len(s);
        let p = pieces(s);
        if t.last() == '\n' {
            assert(p.push(Seq::<char>::empty()).drop_last() =~= p);
            assert(joined(pieces(t)) =~= t);
        } else {
            lemma_joined_extend(p, t.last());
            assert(joined(pieces(t)) =~= t);
        }
    }
}

/// Adding a character to the last line adds it to the end of the joined
/// text.
proof fn lemma_joined_extend(q: Seq<Seq<char>>, c: char)
    requires
        q.len() >= 1,
    ensures
        joined(q.update(q.len() - 1, q.last().push(c))) == joined(q).push(c),
{
    let r = q.update(q.len() - 1, q.last().push(c));
    if q.len() == 1 {
        assert(joined(r) =~= joined(q).push(c));
    } else {
        assert(r.drop_last() =~= q.drop_last());
        assert(joined(r) =~= joined(q).push(c));
    }
}

/// Every text has at least one piece.
proof fn lemma_pieces_len(t: Seq<char>)
    ensures
        pieces(t).len() >= 1,
    decreases t.len(),
{
    if t.len() > 0 {
        lemma_pieces_len(t.drop_last());
    }
}

} // verus!
