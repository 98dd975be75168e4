//! Grapheme-cluster segmentation, the one place where the library leans on
//! the `unicode-segmentation` crate. The decomposition itself is named, not
//! restated: everything downstream is verified over that name.

use unicode_segmentation::UnicodeSegmentation;
use vstd::prelude::*;

verus! {

/// The extended grapheme clusters of a string, in order. The decomposition
/// depends on the characters alone.
pub uninterp spec fn graphemes_of(s: Seq<char>) -> Seq<Seq<char>>;

/// Relies on `UnicodeSegmentation::graphemes` (extended clusters): the
/// clusters are consecutive non-empty substrings of `s` whose concatenation
/// is `s`, and they are a function of the characters of `s` alone.
#[verifier::external_body]
pub(crate) fn split_graphemes(s: &str) -> (r: Vec<String>)
    ensures
        r.deep_view() == graphemes_of(s@),
        r.deep_view().flatten() == s@,
        forall|i: int| 0 <= i < r@.len() ==> (#[trigger] r.deep_view()[i]).len() >= 1,
{
    s.graphemes(true).map(|g| g.to_owned()).collect()
}

} // verus!
