//! Levenshtein edit distance over grapheme clusters, computed with a dynamic
//! programming table. Substitution costs 2, insertion and deletion cost 1.

use crate::segment::{graphemes_of, split_graphemes};
use vstd::prelude::*;

verus! {

/// The smaller of two naturals.
pub open spec fn spec_min(x: nat, y: nat) -> nat {
    if x <= y {
        x
    } else {
        y
    }
}

/// The Levenshtein distance between the first `i` elements of `a` and the
/// first `j` elements of `b`, with substitution cost 2.
pub open spec fn lev(a: Seq<Seq<char>>, b: Seq<Seq<char>>, i: nat, j: nat) -> nat
    recommends
        i <= a.len(),
        j <= b.len(),
    decreases i + j,
{
    if i == 0 {
        j
    } else if j == 0 {
        i
    } else {
        let del = lev(a, b, (i - 1) as nat, j) + 1;
        let ins = lev(a, b, i, (j - 1) as nat) + 1;
        let sub = lev(a, b, (i - 1) as nat, (j - 1) as nat) + (
        if a[i - 1] == b[j - 1] {
            0nat
        } else {
            2nat
        });
        spec_min(del, spec_min(ins, sub))
    }
}

/// The edit distance between two strings, measured over their grapheme
/// clusters.
pub open spec fn spec_edit_distance(s1: Seq<char>, s2: Seq<char>) -> nat {
    let a = graphemes_of(s1);
    let b = graphemes_of(s2);
    lev(a, b, a.len(), b.len())
}

/// The distance between prefixes never exceeds the sum of their lengths,
/// so every table cell fits comfortably in a machine word.
proof fn lemma_lev_le_sum(a: Seq<Seq<char>>, b: Seq<Seq<char>>, i: nat, j: nat)
    ensures
        lev(a, b, i, j) <= i + j,
    decreases i + j,
{
    if i > 0 && j > 0 {
        lemma_lev_le_sum(a, b, (i - 1) as nat, (j - 1) as nat);
    }
}

/// One cell of the distance table.
pub struct Element {
    pub value: usize,
}

impl Element {
    pub fn new() -> (r: Self)
        ensures
            r.value == 0,
    {
        Element { value: 0 }
    }
}

/// The full dynamic-programming table for the distance between the grapheme
/// sequences `a` and `b`: cell `[i][j]` holds the distance between the first
/// `i` graphemes of `a` and the first `j` graphemes of `b`.
pub(crate) fn distance_table(a: &Vec<String>, b: &Vec<String>) -> (t: Vec<Vec<usize>>)
    requires
        a@.len() + b@.len() < usize::MAX,
    ensures
        t@.len() == a@.len() + 1,
        forall|i: int| 0 <= i < t@.len() ==> (#[trigger] t@[i])@.len() == b@.len() + 1,
        forall|i: int, j: int|
            0 <= i <= a@.len() && 0 <= j <= b@.len() ==> #[trigger] t@[i]@[j] == lev(
                a.deep_view(),
                b.deep_view(),
                i as nat,
                j as nat,
            ),
{
    let ghost av = a.deep_view();
    let ghost bv = b.deep_view();
    let m = a.len();
    let n = b.len();
    let mut t: Vec<Vec<usize>> = Vec::new();

    // Row 0: distance from the empty prefix of `a` is the prefix length of `b`.
    let mut row0: Vec<usize> = Vec::new();
    let mut j: usize = 0;
    while j <= n
        invariant
            n == b@.len(),
            n < usize::MAX,
            j <= n + 1,
            row0@.len() == j,
            forall|c: int| 0 <= c < j ==> #[trigger] row0@[c] == c,
        decreases n + 1 - j,
    {
        row0.push(j);
        j = j + 1;
    }
    t.push(row0);

    let mut i: usize = 1;
    while i <= m
        invariant
            m == a@.len(),
            n == b@.len(),
            m + n < usize::MAX,
            av == a.deep_view(),
            bv == b.deep_view(),
            1 <= i <= m + 1,
            t@.len() == i,
            forall|r: int| 0 <= r < i ==> (#[trigger] t@[r])@.len() == n + 1,
            forall|r: int, c: int|
                0 <= r < i && 0 <= c <= n ==> #[trigger] t@[r]@[c] == lev(av, bv, r as nat, c as nat),
        decreases m + 1 - i,
    {
        let mut row: Vec<usize> = Vec::new();
        row.push(i);
        let mut j: usize = 1;
        while j <= n
            invariant
                m == a@.len(),
                n == b@.len(),
                m + n < usize::MAX,
                av == a.deep_view(),
                bv == b.deep_view(),
                1 <= i <= m,
                1 <= j <= n + 1,
                t@.len() == i,
                forall|r: int| 0 <= r < i ==> (#[trigger] t@[r])@.len() == n + 1,
                forall|r: int, c: int|
                    0 <= r < i && 0 <= c <= n ==> #[trigger] t@[r]@[c] == lev(
                        av,
                        bv,
                        r as nat,
                        c as nat,
                    ),
                row@.len() == j,
                forall|c: int| 0 <= c < j ==> #[trigger] row@[c] == lev(av, bv, i as nat, c as nat),
            decreases n + 1 - j,
        {
            proof {
                lemma_lev_le_sum(av, bv, (i - 1) as nat, j as nat);
                lemma_lev_le_sum(av, bv, i as nat, (j - 1) as nat);
                lemma_lev_le_sum(av, bv, (i - 1) as nat, (j - 1) as nat);
            }
            let d_del = t[i - 1][j] + 1;
            let d_ins = row[j - 1] + 1;
            let same = a[i - 1] == b[j - 1];
            let d_sub = t[i - 1][j - 1] + (if same {
                0
            } else {
                2
            });
            let mut min = d_del;
            if d_ins < min {
                min = d_ins;
            }
            if d_sub < min {
                min = d_sub;
            }
            row.push(min);
            j = j + 1;
        }
        t.push(row);
        i = i + 1;
    }
    t
}

/// The Levenshtein distance between two words, measured over their grapheme
/// clusters: the cost of turning `word1` into `word2` by single-cluster
/// insertions and deletions (cost 1) and substitutions (cost 2).
pub fn get_levenshtein_distance(word1: &str, word2: &str) -> (d: usize)
    requires
        word1@.len() + word2@.len() < usize::MAX,
    ensures
        d == spec_edit_distance(word1@, word2@),
{
    let g1 = split_graphemes(word1);
    let g2 = split_graphemes(word2);
    proof {
        lemma_graphemes_not_longer(word1@);
        lemma_graphemes_not_longer(word2@);
    }
    let t = distance_table(&g1, &g2);
    t[g1.len()][g2.len()]
}

/// The distance table between two words, each cell wrapped as an `Element`:
/// cell `[i][j]` holds the distance between the first `i` grapheme clusters
/// of `word1` and the first `j` of `word2`.
pub fn get_edit_distance_table(word1: &str, word2: &str) -> (t: Vec<Vec<Element>>)
    requires
        word1@.len() + word2@.len() < usize::MAX,
    ensures
        t@.len() == graphemes_of(word1@).len() + 1,
        forall|i: int| 0 <= i < t@.len() ==> (#[trigger] t@[i])@.len() == graphemes_of(
            word2@,
        ).len() + 1,
        forall|i: int, j: int|
            0 <= i <= graphemes_of(word1@).len() && 0 <= j <= graphemes_of(word2@).len()
                ==> #[trigger] t@[i]@[j].value == lev(
                graphemes_of(word1@),
                graphemes_of(word2@),
                i as nat,
                j as nat,
            ),
{
    let g1 = split_graphemes(word1);
    let g2 = split_graphemes(word2);
    proof {
        lemma_graphemes_not_longer(word1@);
        lemma_graphemes_not_longer(word2@);
    }
    let raw = distance_table(&g1, &g2);
    let mut t: Vec<Vec<Element>> = Vec::new();
    let mut i: usize = 0;
    while i < raw.len()
        invariant
            i <= raw@.len(),
            t@.len() == i,
            forall|r: int| 0 <= r < i ==> (#[trigger] t@[r])@.len() == raw@[r]@.len(),
            forall|r: int, c: int|
                0 <= r < i && 0 <= c < raw@[r]@.len() ==> #[trigger] t@[r]@[c].value == raw@[r]@[c],
        decreases raw@.len() - i,
    {
        let src = &raw[i];
        let mut row: Vec<Element> = Vec::new();
        let mut j: usize = 0;
        while j < src.len()
            invariant
                j <= src@.len(),
                row@.len() == j,
                forall|c: int| 0 <= c < j ==> #[trigger] row@[c].value == src@[c],
            decreases src@.len() - j,
        {
            row.push(Element { value: src[j] });
            j = j + 1;
        }
        t.push(row);
        i = i + 1;
    }
    t
}

/// A string has at most as many grapheme clusters as characters: the
/// clusters are non-empty and concatenate back to the string.
proof fn lemma_graphemes_not_longer(s: Seq<char>)
    requires
        graphemes_of(s).flatten() == s,
        forall|i: int| 0 <= i < graphemes_of(s).len() ==> (#[trigger] graphemes_of(s)[i]).len()
            >= 1,
    ensures
        graphemes_of(s).len() <= s.len(),
{
    lemma_flatten_len_lower_bound(graphemes_of(s));
}

/// A flattened sequence of non-empty sequences is at least as long as the
/// outer sequence.
proof fn lemma_flatten_len_lower_bound(ss: Seq<Seq<char>>)
    requires
        forall|i: int| 0 <= i < ss.len() ==> (#[trigger] ss[i]).len() >= 1,
    ensures
        ss.flatten().len() >= ss.len(),
    decreases ss.len(),
{
    if ss.len() > 0 {
        lemma_flatten_len_lower_bound(ss.drop_first());
        assert(ss.flatten() == ss.first() + ss.drop_first().flatten());
    }
}

} // verus!
