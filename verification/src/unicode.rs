use unicode_segmentation::UnicodeSegmentation;
use unicode_width::UnicodeWidthStr;
use vstd::prelude::*;

verus! {

/// The number of terminal columns that `unicode_width` gives a string.
pub uninterp spec fn display_width(s: Seq<char>) -> usize;

/// The extended grapheme clusters of a string, in order.
pub uninterp spec fn grapheme_split(s: Seq<char>) -> Seq<Seq<char>>;

/// `UnicodeWidthStr::width` of `unicode_width`: the columns that `s` takes on a terminal.
/// Its rules (East Asian widths, emoji and script ligatures) are not written out here: the
/// result is named `display_width` of the string's characters.
#[verifier::external_body]
pub(crate) fn grapheme_width(s: &str) -> (w: usize)
    ensures
        w == display_width(s@),
{
    UnicodeWidthStr::width(s)
}

/// `UnicodeSegmentation::graphemes(s, true)` of `unicode_segmentation`: the extended
/// grapheme clusters of `s`. Clusters are the stretches between the boundaries of Unicode
/// Annex #29, so they are not empty and, joined, give back `s`; where the boundaries fall is
/// not written out here: the clusters are named `grapheme_split` of the string's characters.
#[verifier::external_body]
pub(crate) fn graphemes(s: &str) -> (v: Vec<String>)
    ensures
        v@.map_values(|g: String| g@) == grapheme_split(s@),
        v@.map_values(|g: String| g@).flatten() == s@,
        forall|i: int| 0 <= i < v@.len() ==> #[trigger] v@[i]@.len() > 0,
{
    s.graphemes(true).map(|g| g.to_string()).collect()
}

} // verus!
