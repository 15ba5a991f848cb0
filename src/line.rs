//! One line of text with its index of grapheme-cluster starts.

use crate::grapheme::{clusters_of, grapheme_clusters, is_segmentation, push_char};
use vstd::prelude::*;
use vstd::string::StringSliceAdditionalSpecFns;
use vstd::utf8::{encode_utf8, encode_utf8_decode_utf8, encode_utf8_first_scalar, is_char_boundary};

verus! {

/// A line of text, without its line break, with the byte offset into `raw`
/// at which each grapheme cluster starts and the byte length of `raw` at
/// the end.
#[derive(Debug, Clone)]
pub struct Line {
    pub raw: String,
    pub graphemes: Vec<usize>,
}

/// The number of bytes in the UTF-8 encoding of `t`.
pub open spec fn utf8_len(t: Seq<char>) -> int {
    encode_utf8(t).len() as int
}

/// The byte offset at which each cluster of `cs` starts when they are put
/// end to end in UTF-8, followed by the byte length of the whole.
pub open spec fn cluster_starts(cs: Seq<Seq<char>>) -> Seq<int> {
    Seq::new((cs.len() + 1) as nat, |k: int| utf8_len(cs.take(k).flatten()))
}

/// The text `t` with `c` put before its cluster `i` (after the last cluster
/// when `i` is their count).
pub open spec fn inserted(t: Seq<char>, i: int, c: char) -> Seq<char> {
    let cs = clusters_of(t);
    cs.take(i).flatten().push(c) + cs.skip(i).flatten()
}

/// The text `t` without its cluster `i`.
pub open spec fn removed(t: Seq<char>, i: int) -> Seq<char> {
    let cs = clusters_of(t);
    cs.take(i).flatten() + cs.skip(i + 1).flatten()
}

/// One edit of a line's text, by cluster index.
pub enum LineEdit {
    /// A character put before cluster `at`.
    Insert { at: nat, c: char },
    /// Cluster `at` taken out.
    Remove { at: nat },
}

/// The text `t` after the edit `e`.
pub open spec fn apply_edit(t: Seq<char>, e: LineEdit) -> Seq<char> {
    match e {
        LineEdit::Insert { at, c } => inserted(t, at as int, c),
        LineEdit::Remove { at } => removed(t, at as int),
    }
}

/// The text `t` after the edits `es`, first to last.
pub open spec fn apply_edits(t: Seq<char>, es: Seq<LineEdit>) -> Seq<char>
    decreases es.len(),
{
    if es.len() == 0 {
        t
    } else {
        apply_edit(apply_edits(t, es.drop_last()), es.last())
    }
}

/// The number of insertions among `es` less the number of removals.
pub open spec fn net_growth(es: Seq<LineEdit>) -> int
    decreases es.len(),
{
    if es.len() == 0 {
        0
    } else {
        net_growth(es.drop_last()) + match es.last() {
            LineEdit::Insert { .. } => 1int,
            LineEdit::Remove { .. } => -1int,
        }
    }
}

/// The edit `e` is one that the line `t` admits, and it leaves the other
/// clusters as they were: an inserted character forms a cluster of its
/// own, and a removal does not join the clusters on either side.
pub open spec fn keeps_neighbours(t: Seq<char>, e: LineEdit) -> bool {
    let cs = clusters_of(t);
    match e {
        LineEdit::Insert { at, c } => at <= cs.len() && clusters_of(inserted(t, at as int, c))
            == cs.insert(at as int, seq![c]),
        LineEdit::Remove { at } => at < cs.len() && clusters_of(removed(t, at as int)) == cs.remove(
            at as int,
        ),
    }
}

/// Each of `es` keeps the neighbours of the text it is applied to.
pub open spec fn all_keep_neighbours(t: Seq<char>, es: Seq<LineEdit>) -> bool {
    forall|k: int| 0 <= k < es.len() ==> keeps_neighbours(apply_edits(t, #[trigger] es.take(k)), es[k])
}

/// After a sequence of insertions and removals, each of which leaves the
/// clusters around it as they were, a line has as many clusters as it had
/// plus the insertions less the removals.
pub proof fn lemma_count_follows_edits(t: Seq<char>, es: Seq<LineEdit>)
    requires
        all_keep_neighbours(t, es),
    ensures
        clusters_of(apply_edits(t, es)).len() == clusters_of(t).len() + net_growth(es),
    decreases es.len(),
{
    if es.len() > 0 {
        let front = es.drop_last();
        assert forall|k: int| 0 <= k < front.len() implies keeps_neighbours(
            apply_edits(t, #[trigger] front.take(k)),
            front[k],
        ) by {
            assert(front.take(k) =~= es.take(k));
            assert(keeps_neighbours(apply_edits(t, es.take(k)), es[k]));
        }
        lemma_count_follows_edits(t, front);
        let k = es.len() - 1;
        assert(es.take(k) =~= front);
        assert(keeps_neighbours(apply_edits(t, es.take(k)), es[k]));
    }
}

impl View for Line {
    type V = Seq<char>;

    open spec fn view(&self) -> Seq<char> {
        self.raw@
    }
}

impl Line {
    /// The grapheme clusters of the line's text.
    pub open spec fn clusters(&self) -> Seq<Seq<char>> {
        clusters_of(self.raw@)
    }

    /// The index of cluster starts is in step with the text: it holds the
    /// byte offset of each cluster's start and ends with the text's byte
    /// length.
    pub open spec fn wf(&self) -> bool {
        &&& is_segmentation(self.clusters(), self.raw@)
        &&& self.graphemes@.len() == self.clusters().len() + 1
        &&& self.graphemes@.last() == utf8_len(self.raw@)
        &&& forall|k: int|
            0 <= k <= self.clusters().len() ==> #[trigger] self.graphemes@[k] as int
                == cluster_starts(self.clusters())[k]
    }

    /// Recomputes the index of cluster starts from the text.
    fn rebuild(&mut self)
        ensures
            final(self).raw == old(self).raw,
            final(self).wf(),
    {
        let total = self.raw.as_str().as_bytes().len();
        let parts = grapheme_clusters(self.raw.as_str());
        let ghost cs = clusters_of(self.raw@);
        let mut offsets: Vec<usize> = Vec::new();
        let mut at: usize = 0;
        let mut k: usize = 0;
        while k < parts.len()
            invariant
                cs == clusters_of(self.raw@),
                cs.len() == parts@.len(),
                forall|j: int| 0 <= j < cs.len() ==> #[trigger] parts@[j]@ == cs[j],
                is_segmentation(cs, self.raw@),
                total == utf8_len(self.raw@),
                k <= parts@.len(),
                offsets@.len() == k,
                at as int == utf8_len(cs.take(k as int).flatten()),
                forall|j: int| 0 <= j < k ==> #[trigger] offsets@[j] as int == cluster_starts(cs)[j],
            decreases parts@.len() - k,
        {
            proof {
                assert(parts@[k as int]@ == cs[k as int]);
                lemma_prefix_step(cs, k as int);
                lemma_prefix_within(cs, k as int + 1);
                lemma_encode_concat(cs.take(k as int).flatten(), cs[k as int]);
                lemma_encode_concat(cs.take(k + 1).flatten(), cs.skip(k + 1).flatten());
                assert(parts@[k as int].spec_bytes() == encode_utf8(cs[k as int]));
            }
            offsets.push(at);
            at = at + parts[k].len();
            k = k + 1;
        }
        offsets.push(at);
        proof {
            assert(cs.take(cs.len() as int) =~= cs);
        }
        self.graphemes = offsets;
    }

    /// An empty line.
    pub fn new() -> (r: Line)
        ensures
            r@ == Seq::<char>::empty(),
            r.wf(),
            r.clusters().len() == 0,
    {
        let mut l = Line { raw: String::new(), graphemes: Vec::new() };
        l.rebuild();
        proof {
            lemma_no_clusters_in_empty(l);
        }
        l
    }

    /// Puts `c` before the cluster at index `i`, or at the end when `i` is
    /// the cluster count.
    pub fn insert(&mut self, i: usize, c: char)
        requires
            old(self).wf(),
            i <= old(self).clusters().len(),
        ensures
            final(self).wf(),
            final(self)@ == inserted(old(self)@, i as int, c),
    {
        let ghost cs = self.clusters();
        let n = self.grapheme_len();
        let mut s = String::from_str(self.slice_clusters(0, i));
        push_char(&mut s, c);
        s.append(self.slice_clusters(i, n));
        proof {
            assert(cs.subrange(0, i as int) =~= cs.take(i as int));
            assert(cs.subrange(i as int, n as int) =~= cs.skip(i as int));
            assert(s@ =~= inserted(self.raw@, i as int, c));
        }
        self.raw = s;
        self.rebuild();
    }

    /// Takes out the whole cluster at index `i`.
    pub fn remove(&mut self, i: usize)
        requires
            old(self).wf(),
            i < old(self).clusters().len(),
        ensures
            final(self).wf(),
            final(self)@ == removed(old(self)@, i as int),
    {
        let ghost cs = self.clusters();
        let n = self.grapheme_len();
        let mut s = String::from_str(self.slice_clusters(0, i));
        s.append(self.slice_clusters(i + 1, n));
        proof {
            assert(cs.subrange(0, i as int) =~= cs.take(i as int));
            assert(cs.subrange(i + 1, n as int) =~= cs.skip(i + 1));
            assert(s@ =~= removed(self.raw@, i as int));
        }
        self.raw = s;
        self.rebuild();
    }

    /// Appends `s` to the end of the line.
    pub fn push_str(&mut self, s: &str)
        requires
            old(self).wf(),
        ensures
            final(self).wf(),
            final(self)@ == old(self)@ + s@,
    {
        self.raw.append(s);
        self.rebuild();
    }

    /// The line's text.
    pub fn as_str(&self) -> (r: &str)
        ensures
            r@ == self@,
    {
        self.raw.as_str()
    }

    /// A line holding `s`.
    pub fn from_string(s: String) -> (r: Line)
        ensures
            r@ == s@,
            r.wf(),
    {
        let mut l = Line::new();
        l.raw = s;
        l.rebuild();
        l
    }

    /// The text of the cluster at index `i`, if there is one.
    pub fn grapheme_at(&self, i: usize) -> (r: Option<&str>)
        requires
            self.wf(),
        ensures
            r is Some <==> i < self.clusters().len(),
            r is Some ==> r->0@ == self.clusters()[i as int],
            r is Some ==> r->0@.len() > 0,
    {
        if i < self.grapheme_len() {
            let ghost cs = self.clusters();
            let g = self.slice_clusters(i, i + 1);
            proof {
                assert(cs.subrange(i as int, i + 1) =~= seq![cs[i as int]]);
                seq![cs[i as int]].lemma_flatten_singleton();
            }
            Some(g)
        } else {
            None
        }
    }

    /// The number of grapheme clusters in the line.
    pub fn grapheme_len(&self) -> (r: usize)
        ensures
            r == (if self.graphemes@.len() > 0 { self.graphemes@.len() - 1 } else { 0 }),
            self.wf() ==> r == self.clusters().len(),
    {
        self.graphemes.len().saturating_sub(1)
    }

    /// The text of clusters `i` up to but not including `j`: the bytes of
    /// the line from the start of cluster `i` to the start of cluster `j`.
    pub fn slice_clusters(&self, i: usize, j: usize) -> (r: &str)
        requires
            self.wf(),
            i <= j <= self.clusters().len(),
        ensures
            r@ == self.clusters().subrange(i as int, j as int).flatten(),
    {
        let ghost cs = self.clusters();
        let ghost front = cs.take(i as int).flatten();
        let ghost middle = cs.subrange(i as int, j as int).flatten();
        let ghost back = cs.skip(j as int).flatten();
        let a = self.graphemes[i];
        let b = self.graphemes[j];
        proof {
            assert(self.graphemes@[i as int] as int == cluster_starts(cs)[i as int]);
            assert(self.graphemes@[j as int] as int == cluster_starts(cs)[j as int]);
            lemma_split_three(cs, i as int, j as int);
            lemma_boundary_between(front + middle, back);
            lemma_boundary_between(front, middle);
            lemma_encode_concat(front + middle, back);
            lemma_encode_concat(front, middle);
        }
        let (head, _) = self.raw.as_str().split_at(b);
        proof {
            assert(head.spec_bytes() =~= encode_utf8(front + middle));
            lemma_text_of_bytes(head, front + middle);
        }
        let (_, part) = head.split_at(a);
        proof {
            assert(part.spec_bytes() =~= encode_utf8(middle));
            lemma_text_of_bytes(part, middle);
        }
        part
    }
}

/// Adding one more cluster to a prefix adds that cluster's text.
proof fn lemma_prefix_step(cs: Seq<Seq<char>>, k: int)
    requires
        0 <= k < cs.len(),
    ensures
        cs.take(k + 1).flatten() == cs.take(k).flatten() + cs[k],
{
    assert(cs.take(k + 1) =~= cs.take(k).push(cs[k]));
    cs.take(k).lemma_flatten_push(cs[k]);
}

/// The text of all clusters is that of those before `i`, those from `i` up
/// to `j`, and those from `j` on; the clusters before `j` are the first two
/// parts.
proof fn lemma_split_three(cs: Seq<Seq<char>>, i: int, j: int)
    requires
        0 <= i <= j <= cs.len(),
    ensures
        cs.flatten() == cs.take(i).flatten() + cs.subrange(i, j).flatten() + cs.skip(j).flatten(),
        cs.take(j).flatten() == cs.take(i).flatten() + cs.subrange(i, j).flatten(),
{
    lemma_prefix_within(cs, j);
    assert(cs.take(j) =~= cs.take(i) + cs.subrange(i, j));
    vstd::seq_lib::lemma_flatten_concat(cs.take(i), cs.subrange(i, j));
}

/// UTF-8 encodes a concatenation piece by piece.
pub proof fn lemma_encode_concat(a: Seq<char>, b: Seq<char>)
    ensures
        encode_utf8(a + b) == encode_utf8(a) + encode_utf8(b),
    decreases a.len(),
{
    if a.len() == 0 {
        assert(a + b =~= b);
        assert(encode_utf8(a) + encode_utf8(b) =~= encode_utf8(b));
    } else {
        assert((a + b).drop_first() =~= a.drop_first() + b);
        assert((a + b)[0] == a[0]);
        lemma_encode_concat(a.drop_first(), b);
        assert(encode_utf8(a + b) =~= encode_utf8(a) + encode_utf8(b));
    }
}

/// In the UTF-8 encoding of `a + b`, the end of `a` is a character boundary.
pub proof fn lemma_boundary_between(a: Seq<char>, b: Seq<char>)
    ensures
        is_char_boundary(encode_utf8(a + b), utf8_len(a)),
    decreases a.len(),
{
    lemma_encode_concat(a, b);
    vstd::utf8::encode_utf8_valid_utf8(a + b);
    if a.len() > 0 {
        let bytes = encode_utf8(a + b);
        let rest = a.drop_first();
        let first = vstd::utf8::encode_scalar(a[0] as u32);
        assert((a + b).drop_first() =~= rest + b);
        assert((a + b)[0] == a[0]);
        encode_utf8_first_scalar(a + b);
        assert(vstd::utf8::pop_first_scalar(bytes) =~= encode_utf8(rest + b));
        lemma_boundary_between(rest, b);
        lemma_encode_concat(rest, b);
        assert(encode_utf8(a) == first + encode_utf8(rest));
        assert(first.len() >= 1);
        assert(vstd::utf8::length_of_first_scalar(bytes) == first.len());
        assert(utf8_len(a) - vstd::utf8::length_of_first_scalar(bytes) == utf8_len(rest));
        assert(0 < utf8_len(a) <= bytes.len());
    }
}

/// A string slice whose bytes encode `t` holds `t`.
pub proof fn lemma_text_of_bytes(s: &str, t: Seq<char>)
    requires
        s.spec_bytes() == encode_utf8(t),
    ensures
        s@ == t,
{
    encode_utf8_decode_utf8(s@);
    encode_utf8_decode_utf8(t);
}

/// The text of the first `k` clusters is a prefix of the text of all.
proof fn lemma_prefix_within(cs: Seq<Seq<char>>, k: int)
    requires
        0 <= k <= cs.len(),
    ensures
        cs.flatten() == cs.take(k).flatten() + cs.skip(k).flatten(),
{
    assert(cs =~= cs.take(k) + cs.skip(k));
    vstd::seq_lib::lemma_flatten_concat(cs.take(k), cs.skip(k));
}

/// A well-formed line without text has no clusters.
pub proof fn lemma_no_clusters_in_empty(l: Line)
    requires
        l.wf(),
        l@.len() == 0,
    ensures
        l.clusters().len() == 0,
{
    let cs = l.clusters();
    if cs.len() > 0 {
        assert(cs =~= seq![cs[0]] + cs.skip(1));
        vstd::seq_lib::lemma_flatten_concat(seq![cs[0]], cs.skip(1));
        seq![cs[0]].lemma_flatten_singleton();
        assert(cs[0].len() > 0);
    }
}

} // verus!
