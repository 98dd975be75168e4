//! Sequence utilities for n-gram language modelling: padding and n-gram
//! extraction over token sequences.

pub mod ngrams;
pub mod padding;

use self::ngrams::{copy_range, grams_at, spec_everygrams, spec_ngrams};
use self::padding::{clone_str, spec_pad_width, spec_padded, spec_repeat};
use crate::edit_distance::spec_min;
use crate::views::lemma_deep_view_push;
use vstd::prelude::*;

verus! {

/// `sequence` padded before n-gram extraction: `n - 1` copies of the chosen
/// symbol are prepended when `pad_left` is set and appended when `pad_right`
/// is set.
pub fn pad_sequence(
    sentence: &Vec<String>,
    pad_left: bool,
    left_pad_symbol: &str,
    pad_right: bool,
    right_pad_symbol: &str,
    n: usize,
) -> (r: Vec<String>)
    ensures
        r.deep_view() == spec_padded(
            sentence.deep_view(),
            pad_left,
            left_pad_symbol@,
            pad_right,
            right_pad_symbol@,
            n as nat,
        ),
{
    let width: usize = if n >= 1 {
        n - 1
    } else {
        0
    };
    let mut r: Vec<String> = Vec::new();
    if pad_left {
        let mut k: usize = 0;
        while k < width
            invariant
                k <= width,
                r.deep_view() == spec_repeat(left_pad_symbol@, k as nat),
            decreases width - k,
        {
            let x = left_pad_symbol.to_owned();
            let ghost prev = r;
            let ghost xx = x;
            r.push(x);
            k = k + 1;
            proof {
                lemma_deep_view_push(prev, r, xx);
                assert(r.deep_view() =~= spec_repeat(left_pad_symbol@, k as nat));
            }
        }
    }
    let ghost left_part = r.deep_view();
    let mut i: usize = 0;
    while i < sentence.len()
        invariant
            i <= sentence@.len(),
            r.deep_view() == left_part + sentence.deep_view().take(i as int),
        decreases sentence@.len() - i,
    {
        let x = clone_str(&sentence[i]);
        let ghost prev = r;
        let ghost xx = x;
        r.push(x);
        i = i + 1;
        proof {
            lemma_deep_view_push(prev, r, xx);
            assert(r.deep_view() =~= left_part + sentence.deep_view().take(i as int));
        }
    }
    let ghost mid_part = r.deep_view();
    if pad_right {
        let mut k: usize = 0;
        while k < width
            invariant
                k <= width,
                r.deep_view() == mid_part + spec_repeat(right_pad_symbol@, k as nat),
            decreases width - k,
        {
            let x = right_pad_symbol.to_owned();
            let ghost prev = r;
            let ghost xx = x;
            r.push(x);
            k = k + 1;
            proof {
                lemma_deep_view_push(prev, r, xx);
                assert(r.deep_view() =~= mid_part + spec_repeat(right_pad_symbol@, k as nat));
            }
        }
    }
    proof {
        assert(sentence.deep_view().take(sentence@.len() as int) =~= sentence.deep_view());
        assert(r.deep_view() =~= spec_padded(
            sentence.deep_view(),
            pad_left,
            left_pad_symbol@,
            pad_right,
            right_pad_symbol@,
            n as nat,
        ));
    }
    r
}

/// Left padding only: `n - 1` copies of the symbol before the sequence.
pub fn pad_sequence_left(sequence: &Vec<String>, left_pad_symbol: &str, n: usize) -> (r: Vec<
    String,
>)
    ensures
        r.deep_view() == spec_padded(
            sequence.deep_view(),
            true,
            left_pad_symbol@,
            false,
            Seq::empty(),
            n as nat,
        ),
{
    let r = pad_sequence(sequence, true, left_pad_symbol, false, "", n);
    proof {
        assert(r.deep_view() =~= spec_padded(
            sequence.deep_view(),
            true,
            left_pad_symbol@,
            false,
            Seq::empty(),
            n as nat,
        ));
    }
    r
}

/// Right padding only: `n - 1` copies of the symbol after the sequence.
pub fn pad_sequence_right(sequence: &Vec<String>, right_pad_symbol: &str, n: usize) -> (r: Vec<
    String,
>)
    ensures
        r.deep_view() == spec_padded(
            sequence.deep_view(),
            false,
            Seq::empty(),
            true,
            right_pad_symbol@,
            n as nat,
        ),
{
    let r = pad_sequence(sequence, false, "", true, right_pad_symbol, n);
    proof {
        assert(r.deep_view() =~= spec_padded(
            sequence.deep_view(),
            false,
            Seq::empty(),
            true,
            right_pad_symbol@,
            n as nat,
        ));
    }
    r
}

/// All windows of exactly `n` consecutive tokens of `sequence`, in order;
/// none when the sequence is shorter than `n`.
pub fn ngrams(sequence: &Vec<String>, n: usize) -> (r: Vec<Vec<String>>)
    requires
        n >= 1,
    ensures
        r.deep_view() == spec_ngrams(sequence.deep_view(), n as nat),
{
    let ghost sv = sequence.deep_view();
    let mut r: Vec<Vec<String>> = Vec::new();
    if n > sequence.len() {
        proof {
            assert(r.deep_view() =~= spec_ngrams(sv, n as nat));
        }
        return r;
    }
    let count = sequence.len() - n + 1;
    let mut i: usize = 0;
    while i < count
        invariant
            n >= 1,
            sv == sequence.deep_view(),
            n <= sequence@.len(),
            sequence@.len() <= usize::MAX,
            count == sequence@.len() - n + 1,
            i <= count,
            r.deep_view().len() == i,
            forall|j: int| 0 <= j < i ==> #[trigger] r.deep_view()[j] == sv.subrange(j, j + n),
        decreases count - i,
    {
        let w = copy_range(sequence, i, i + n);
        let ghost prev = r;
        let ghost ww = w;
        r.push(w);
        i = i + 1;
        proof {
            lemma_deep_view_push(prev, r, ww);
        }
    }
    proof {
        assert(r.deep_view() =~~= spec_ngrams(sv, n as nat));
    }
    r
}

/// The two-token windows of `sequence`.
pub fn bigrams(sequence: &Vec<String>) -> (r: Vec<Vec<String>>)
    ensures
        r.deep_view() == spec_ngrams(sequence.deep_view(), 2),
{
    ngrams(sequence, 2)
}

/// The three-token windows of `sequence`.
pub fn trigrams(sequence: &Vec<String>) -> (r: Vec<Vec<String>>)
    ensures
        r.deep_view() == spec_ngrams(sequence.deep_view(), 3),
{
    ngrams(sequence, 3)
}

/// Every gram of every order from 1 up to `n`: for each starting position
/// the grams of growing order, shrinking near the end of the sequence.
pub fn everygrams(sequence: &Vec<String>, n: usize) -> (r: Vec<Vec<String>>)
    requires
        n >= 1,
    ensures
        r.deep_view() == spec_everygrams(sequence.deep_view(), n as nat),
{
    broadcast use Seq::lemma_flatten_push;

    let ghost sv = sequence.deep_view();
    let len = sequence.len();
    let mut r: Vec<Vec<String>> = Vec::new();
    let mut i: usize = 0;
    proof {
        assert(Seq::new(0, |ii: int| grams_at(sv, n as nat, ii)).flatten()
            =~= Seq::<Seq<Seq<char>>>::empty());
    }
    while i < len
        invariant
            n >= 1,
            sv == sequence.deep_view(),
            len == sequence@.len(),
            i <= len,
            r.deep_view() == Seq::new(i as nat, |ii: int| grams_at(sv, n as nat, ii)).flatten(),
        decreases len - i,
    {
        let span = len - i;
        let limit = if n < span {
            n
        } else {
            span
        };
        let ghost row = grams_at(sv, n as nat, i as int);
        let ghost pre = r.deep_view();
        let mut k: usize = 0;
        while k < limit
            invariant
                n >= 1,
                sv == sequence.deep_view(),
                len == sequence@.len(),
                i < len,
                span == len - i,
                limit == spec_min(n as nat, span as nat),
                row == grams_at(sv, n as nat, i as int),
                k <= limit,
                r.deep_view() == pre + row.take(k as int),
            decreases limit - k,
        {
            let w = copy_range(sequence, i, i + k + 1);
            let ghost prev = r;
            let ghost ww = w;
            r.push(w);
            k = k + 1;
            proof {
                lemma_deep_view_push(prev, r, ww);
                assert(row.take(k as int) =~= row.take(k - 1).push(row[k - 1]));
                assert(r.deep_view() =~= pre + row.take(k as int));
            }
        }
        i = i + 1;
        proof {
            assert(row.take(limit as int) =~= row);
            let prefix = Seq::new((i - 1) as nat, |ii: int| grams_at(sv, n as nat, ii));
            assert(Seq::new(i as nat, |ii: int| grams_at(sv, n as nat, ii)) =~= prefix.push(row));
            prefix.lemma_flatten_push(row);
            assert(r.deep_view() =~= Seq::new(i as nat, |ii: int| grams_at(sv, n as nat, ii)).flatten());
        }
    }
    proof {
        assert(Seq::new(len as nat, |ii: int| grams_at(sv, n as nat, ii)).flatten()
            == spec_everygrams(sv, n as nat));
    }
    r
}

/// Flattens a list of grams into a single token sequence, in order.
pub fn flatten(ngrams: &Vec<Vec<String>>) -> (r: Vec<String>)
    ensures
        r.deep_view() == ngrams.deep_view().flatten(),
{
    broadcast use Seq::lemma_flatten_push;

    let ghost dv = ngrams.deep_view();
    let mut r: Vec<String> = Vec::new();
    let mut i: usize = 0;
    proof {
        assert(dv.take(0).flatten() =~= Seq::<Seq<char>>::empty());
    }
    while i < ngrams.len()
        invariant
            dv == ngrams.deep_view(),
            i <= ngrams@.len(),
            r.deep_view() == dv.take(i as int).flatten(),
        decreases ngrams@.len() - i,
    {
        let row = &ngrams[i];
        let ghost pre = r.deep_view();
        let mut j: usize = 0;
        while j < row.len()
            invariant
                dv == ngrams.deep_view(),
                i < ngrams@.len(),
                row == ngrams@[i as int],
                j <= row@.len(),
                r.deep_view() == pre + dv[i as int].take(j as int),
            decreases row@.len() - j,
        {
            let x = clone_str(&row[j]);
            let ghost prev = r;
            let ghost xx = x;
            r.push(x);
            j = j + 1;
            proof {
                lemma_deep_view_push(prev, r, xx);
                assert(dv[i as int].take(j as int) =~= dv[i as int].take(j - 1).push(
                    dv[i as int][j - 1],
                ));
                assert(r.deep_view() =~= pre + dv[i as int].take(j as int));
            }
        }
        i = i + 1;
        proof {
            assert(dv[i - 1].take(dv[i - 1].len() as int) =~= dv[i - 1]);
            assert(dv.take(i as int) =~= dv.take(i - 1).push(dv[i - 1]));
            dv.take(i - 1).lemma_flatten_push(dv[i - 1]);
            assert(r.deep_view() =~= dv.take(i as int).flatten());
        }
    }
    proof {
        assert(dv.take(ngrams@.len() as int) =~= dv);
    }
    r
}

} // verus!
