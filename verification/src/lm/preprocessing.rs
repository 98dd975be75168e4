//! Sentence preprocessing for n-gram models: boundary padding and padded
//! every-gram extraction.

use crate::util::ngrams::spec_everygrams;
use crate::util::padding::spec_padded;
use crate::util::{everygrams, pad_sequence};
use vstd::prelude::*;

verus! {

/// The sentence with `order - 1` sentence-start markers prepended and as
/// many sentence-end markers appended.
pub fn pad_both_ends(text: &Vec<String>, order: usize) -> (r: Vec<String>)
    ensures
        r.deep_view() == spec_padded(text.deep_view(), true, "<s>"@, true, "</s>"@, order as nat),
{
    pad_sequence(text, true, "<s>", true, "</s>", order)
}

/// Every gram of every order 1 up to `order`, extracted from the sentence
/// padded on both ends.
pub fn padded_everygrams(sentence: &Vec<String>, order: usize) -> (r: Vec<Vec<String>>)
    requires
        order >= 1,
    ensures
        r.deep_view() == spec_everygrams(
            spec_padded(sentence.deep_view(), true, "<s>"@, true, "</s>"@, order as nat),
            order as nat,
        ),
{
    let padded = pad_both_ends(sentence, order);
    everygrams(&padded, order)
}

} // verus!
