//! String distance metrics.

pub mod distance;

use crate::edit_distance::spec_edit_distance;
use vstd::prelude::*;

verus! {

/// The Levenshtein edit distance between two strings, measured over their
/// grapheme clusters: the cost of turning `s1` into `s2` by single-cluster
/// insertions and deletions (cost 1) and substitutions (cost 2).
pub fn edit_distance(s1: &str, s2: &str) -> (d: usize)
    requires
        s1@.len() + s2@.len() < usize::MAX,
    ensures
        d == spec_edit_distance(s1@, s2@),
{
    crate::edit_distance::get_levenshtein_distance(s1, s2)
}

} // verus!
