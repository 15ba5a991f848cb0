//! Grapheme-cluster segmentation of text, as given by `unicode-segmentation`.

use unicode_segmentation::UnicodeSegmentation;
use vstd::prelude::*;

verus! {

/// The extended grapheme clusters of a text, in order.
pub uninterp spec fn clusters_of(s: Seq<char>) -> Seq<Seq<char>>;

/// The texts that a sequence of string slices holds.
pub open spec fn texts_of(parts: Seq<&str>) -> Seq<Seq<char>> {
    parts.map_values(|p: &str| p@)
}

/// A segmentation of `t` into clusters: the clusters are non-empty and
/// spell `t` when put end to end.
pub open spec fn is_segmentation(cs: Seq<Seq<char>>, t: Seq<char>) -> bool {
    &&& cs.flatten() == t
    &&& forall|k: int| 0 <= k < cs.len() ==> #[trigger] cs[k].len() > 0
}

/// Relies on `UnicodeSegmentation::graphemes` (extended clusters): the
/// iterator hands out consecutive, non-empty slices of `s` from its start to
/// its end, one per cluster.
#[verifier::external_body]
pub(crate) fn grapheme_clusters(s: &str) -> (r: Vec<&str>)
    ensures
        texts_of(r@) == clusters_of(s@),
        is_segmentation(texts_of(r@), s@),
{
    s.graphemes(true).collect()
}

/// Relies on `String::push`: appends `c` to the end of `s`.
#[verifier::external_body]
pub(crate) fn push_char(s: &mut String, c: char)
    ensures
        final(s)@ == old(s)@.push(c),
{
    s.push(c)
}

} // verus!
