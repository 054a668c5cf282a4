//! Grapheme clusters and terminal display width of text, as the terminal
//! itself measures them.

use vstd::prelude::*;
use unicode_segmentation::UnicodeSegmentation;

verus! {

/// The characters of the strings of `v`.
pub open spec fn strings_view(v: Seq<String>) -> Seq<Seq<char>> {
    v.map_values(|s: String| s@)
}

/// The pieces of `gs`, concatenated.
pub open spec fn concat_all(gs: Seq<Seq<char>>) -> Seq<char>
    decreases gs.len(),
{
    if gs.len() == 0 {
        Seq::empty()
    } else {
        concat_all(gs.drop_last()) + gs.last()
    }
}

/// The extended grapheme clusters of `s`, as `unicode_segmentation` splits
/// it (`graphemes(true)`); they depend on `s` alone.
pub uninterp spec fn grapheme_clusters(s: Seq<char>) -> Seq<Seq<char>>;

/// `UnicodeSegmentation::graphemes(s, true)`, each cluster as a `String`.
/// The crate hands out consecutive, non-empty slices of `s` from its start
/// to its end, so the clusters are non-empty and concatenate to `s`; where
/// the boundaries fall is named `grapheme_clusters` and not stated.
#[verifier::external_body]
pub(crate) fn graphemes(s: &str) -> (gs: Vec<String>)
    ensures
        strings_view(gs@) == grapheme_clusters(s@),
        concat_all(strings_view(gs@)) == s@,
        forall|i: int| 0 <= i < gs@.len() ==> (#[trigger] gs@[i])@.len() > 0,
{
    s.graphemes(true).map(String::from).collect()
}

/// The number of terminal columns `s` occupies, as termwiz counts it for
/// the latest Unicode version; it depends on `s` alone.
pub uninterp spec fn column_width(s: Seq<char>) -> usize;

/// `termwiz::cell::unicode_column_width(s, None)`: the columns `s`
/// occupies, named `column_width`; the width tables are not stated.
#[verifier::external_body]
pub(crate) fn unicode_column_width(s: &str) -> (w: usize)
    ensures
        w == column_width(s@),
{
    termwiz::cell::unicode_column_width(s, None)
}

} // verus!
