//! Sliding-window n-gram extraction: fixed-order windows, every-gram
//! windows of all orders up to a maximum, and flattening of the result.

use crate::edit_distance::spec_min;
use crate::util::padding::clone_str;
use vstd::prelude::*;

verus! {

/// All windows of exactly `n` consecutive tokens, left to right; empty when
/// the sequence is shorter than `n` or `n` is zero.
pub open spec fn spec_ngrams(s: Seq<Seq<char>>, n: nat) -> Seq<Seq<Seq<char>>> {
    if 1 <= n <= s.len() {
        Seq::new((s.len() - n + 1) as nat, |i: int| s.subrange(i, i + n))
    } else {
        Seq::empty()
    }
}

/// The grams starting at position `i`: orders 1 up to `n`, cut short at the
/// end of the sequence.
pub open spec fn grams_at(s: Seq<Seq<char>>, n: nat, i: int) -> Seq<Seq<Seq<char>>>
    recommends
        0 <= i <= s.len(),
{
    Seq::new(spec_min(n, (s.len() - i) as nat), |k: int| s.subrange(i, i + k + 1))
}

/// Every gram of every order 1 up to `n`: for each starting position, the
/// grams of growing order, shrinking near the end of the sequence.
pub open spec fn spec_everygrams(s: Seq<Seq<char>>, n: nat) -> Seq<Seq<Seq<char>>> {
    Seq::new(s.len(), |i: int| grams_at(s, n, i)).flatten()
}

/// A fresh copy of the tokens `from..to` of `s`.
pub(crate) fn copy_range(s: &Vec<String>, from: usize, to: usize) -> (r: Vec<String>)
    requires
        from <= to <= s@.len(),
    ensures
        r.deep_view() == s.deep_view().subrange(from as int, to as int),
{
    let mut r: Vec<String> = Vec::new();
    let mut k = from;
    proof {
        assert(r.deep_view() =~~= s.deep_view().subrange(from as int, from as int));
    }
    while k < to
        invariant
            from <= k <= to <= s@.len(),
            r.deep_view() == s.deep_view().subrange(from as int, k as int),
        decreases to - k,
    {
        proof {
            assert(r.deep_view().len() == k - from);
            assert(r@.len() == k - from);
        }
        r.push(clone_str(&s[k]));
        k = k + 1;
        proof {
            assert(r.deep_view() =~~= s.deep_view().subrange(from as int, k as int));
        }
    }
    r
}

/// Step-wise iterator over the fixed-order n-grams of a token sequence.
pub struct NGramSequenceIter {
    sequence: Vec<String>,
    n: usize,
    pos: usize,
}

impl NGramSequenceIter {
    /// The underlying token sequence.
    pub closed spec fn spec_items(self) -> Seq<Seq<char>> {
        self.sequence.deep_view()
    }

    /// The window width.
    pub closed spec fn spec_order(self) -> nat {
        self.n as nat
    }

    /// Index of the next window to yield.
    pub closed spec fn spec_pos(self) -> nat {
        self.pos as nat
    }

    pub closed spec fn wf(self) -> bool {
        self.n >= 1
    }

    pub fn new(sequence: Vec<String>, n: usize) -> (r: Self)
        requires
            n >= 1,
        ensures
            r.wf(),
            r.spec_items() == sequence.deep_view(),
            r.spec_order() == n,
            r.spec_pos() == 0,
    {
        NGramSequenceIter { sequence, n, pos: 0 }
    }

    /// The n-gram at the current position, advancing by one token, or `None`
    /// once no full window fits.
    pub fn next(&mut self) -> (r: Option<Vec<String>>)
        requires
            old(self).wf(),
        ensures
            final(self).wf(),
            final(self).spec_items() == old(self).spec_items(),
            final(self).spec_order() == old(self).spec_order(),
            match r {
                Some(w) => {
                    &&& old(self).spec_pos() + old(self).spec_order() <= old(
                        self,
                    ).spec_items().len()
                    &&& w.deep_view() == spec_ngrams(
                        old(self).spec_items(),
                        old(self).spec_order(),
                    )[old(self).spec_pos() as int]
                    &&& final(self).spec_pos() == old(self).spec_pos() + 1
                },
                None => {
                    &&& old(self).spec_pos() + old(self).spec_order() > old(
                        self,
                    ).spec_items().len()
                    &&& final(self).spec_pos() == old(self).spec_pos()
                },
            },
    {
        if self.pos <= self.sequence.len() && self.n <= self.sequence.len() - self.pos {
            let w = copy_range(&self.sequence, self.pos, self.pos + self.n);
            self.pos = self.pos + 1;
            Some(w)
        } else {
            None
        }
    }
}

/// Step-wise iterator over every gram of every order 1 up to `max_order`.
/// From each starting position it yields the grams of growing order before
/// moving one token to the right.
pub struct EveryGramSequenceIter {
    sequence: Vec<String>,
    max_order: usize,
    pos: usize,
    next_order: usize,
}

impl EveryGramSequenceIter {
    /// The underlying token sequence.
    pub closed spec fn spec_items(self) -> Seq<Seq<char>> {
        self.sequence.deep_view()
    }

    /// The maximum gram order.
    pub closed spec fn spec_max_order(self) -> nat {
        self.max_order as nat
    }

    /// The starting position of the next gram.
    pub closed spec fn spec_pos(self) -> nat {
        self.pos as nat
    }

    /// The order of the next gram.
    pub closed spec fn spec_next_order(self) -> nat {
        self.next_order as nat
    }

    pub closed spec fn wf(self) -> bool {
        &&& self.max_order >= 1
        &&& self.pos <= self.sequence@.len()
        &&& (self.pos < self.sequence@.len() ==> 1 <= self.next_order && self.next_order
            <= spec_min(self.max_order as nat, (self.sequence@.len() - self.pos) as nat))
        &&& (self.pos == self.sequence@.len() ==> self.next_order == 1)
    }

    pub fn everygrams(sequence: Vec<String>, max_order: usize) -> (r: Self)
        requires
            max_order >= 1,
        ensures
            r.wf(),
            r.spec_items() == sequence.deep_view(),
            r.spec_max_order() == max_order,
            r.spec_pos() == 0,
            r.spec_next_order() == 1,
    {
        EveryGramSequenceIter { sequence, max_order, pos: 0, next_order: 1 }
    }

    /// The gram of order `next_order` at the current position, or `None`
    /// once every position has been exhausted.
    pub fn next(&mut self) -> (r: Option<Vec<String>>)
        requires
            old(self).wf(),
        ensures
            final(self).wf(),
            final(self).spec_items() == old(self).spec_items(),
            final(self).spec_max_order() == old(self).spec_max_order(),
            match r {
                Some(w) => {
                    &&& old(self).spec_pos() < old(self).spec_items().len()
                    &&& w.deep_view() == grams_at(
                        old(self).spec_items(),
                        old(self).spec_max_order(),
                        old(self).spec_pos() as int,
                    )[old(self).spec_next_order() - 1]
                    &&& {
                        let limit = spec_min(
                            old(self).spec_max_order(),
                            (old(self).spec_items().len() - old(self).spec_pos()) as nat,
                        );
                        if old(self).spec_next_order() < limit {
                            final(self).spec_pos() == old(self).spec_pos()
                                && final(self).spec_next_order() == old(self).spec_next_order()
                                + 1
                        } else {
                            final(self).spec_pos() == old(self).spec_pos() + 1
                                && final(self).spec_next_order() == 1
                        }
                    }
                },
                None => {
                    &&& old(self).spec_pos() == old(self).spec_items().len()
                    &&& final(self).spec_pos() == old(self).spec_pos()
                    &&& final(self).spec_next_order() == old(self).spec_next_order()
                },
            },
    {
        if self.pos >= self.sequence.len() {
            return None;
        }
        let w = copy_range(&self.sequence, self.pos, self.pos + self.next_order);
        let span = self.sequence.len() - self.pos;
        let limit = if self.max_order < span {
            self.max_order
        } else {
            span
        };
        if self.next_order < limit {
            self.next_order = self.next_order + 1;
        } else {
            self.pos = self.pos + 1;
            self.next_order = 1;
        }
        Some(w)
    }
}

/// Step-wise iterator flattening a list of grams into a single token stream.
pub struct FlatteningIter {
    lists: Vec<Vec<String>>,
    outer: usize,
    inner: usize,
}

impl FlatteningIter {
    /// What is still to be yielded: the rest of the current gram, then all
    /// later grams.
    pub closed spec fn spec_remaining(self) -> Seq<Seq<char>> {
        if self.outer < self.lists@.len() {
            self.lists.deep_view()[self.outer as int].skip(self.inner as int)
                + self.lists.deep_view().skip(self.outer + 1).flatten()
        } else {
            Seq::empty()
        }
    }

    pub closed spec fn wf(self) -> bool {
        &&& self.outer <= self.lists@.len()
        &&& (self.outer < self.lists@.len() ==> self.inner <= self.lists@[
            self.outer as int
        ]@.len())
    }

    pub fn new(ngrams: Vec<Vec<String>>) -> (r: Self)
        ensures
            r.wf(),
            r.spec_remaining() == ngrams.deep_view().flatten(),
    {
        let r = FlatteningIter { lists: ngrams, outer: 0, inner: 0 };
        proof {
            if r.lists@.len() > 0 {
                let dv = r.lists.deep_view();
                assert(dv.skip(1) =~= dv.drop_first());
                assert(dv[0].skip(0) =~= dv[0]);
                assert(r.spec_remaining() == dv.flatten());
            } else {
                assert(r.lists.deep_view() =~= Seq::<Seq<Seq<char>>>::empty());
                assert(r.lists.deep_view().flatten() =~= Seq::<Seq<char>>::empty());
            }
        }
        r
    }

    /// The next token of the flattened stream, or `None` at its end.
    pub fn next(&mut self) -> (r: Option<String>)
        requires
            old(self).wf(),
        ensures
            final(self).wf(),
            match r {
                Some(tok) => {
                    &&& old(self).spec_remaining().len() > 0
                    &&& tok@ == old(self).spec_remaining().first()
                    &&& final(self).spec_remaining() == old(self).spec_remaining().drop_first()
                },
                None => {
                    &&& old(self).spec_remaining().len() == 0
                    &&& final(self).spec_remaining() == old(self).spec_remaining()
                },
            },
    {
        let ghost entry = *self;
        while self.outer < self.lists.len() && self.inner >= self.lists[self.outer].len()
            invariant
                self.wf(),
                self.spec_remaining() == entry.spec_remaining(),
                self.lists == entry.lists,
            decreases self.lists@.len() - self.outer,
        {
            let ghost pre = *self;
            self.outer = self.outer + 1;
            self.inner = 0;
            proof {
                let dv = self.lists.deep_view();
                if self.outer < self.lists@.len() {
                    assert(dv.skip(pre.outer + 1).first() == dv[self.outer as int]);
                    assert(dv.skip(pre.outer + 1).drop_first() =~= dv.skip(self.outer + 1));
                    assert(dv.skip(pre.outer + 1).flatten() == dv.skip(pre.outer + 1).first()
                        + dv.skip(pre.outer + 1).drop_first().flatten());
                    assert(self.spec_remaining() =~= pre.spec_remaining());
                } else {
                    assert(dv.skip(pre.outer + 1) =~= Seq::<Seq<Seq<char>>>::empty());
                    assert(self.spec_remaining() =~= pre.spec_remaining());
                }
            }
        }
        if self.outer < self.lists.len() {
            let ghost pre = *self;
            let row = &self.lists[self.outer];
            let tok = clone_str(&row[self.inner]);
            self.inner = self.inner + 1;
            proof {
                let dv = pre.lists.deep_view();
                assert(pre.spec_remaining().first() == dv[pre.outer as int][pre.inner as int]);
                assert(self.spec_remaining() =~= pre.spec_remaining().drop_first());
            }
            Some(tok)
        } else {
            proof {
                assert(self.spec_remaining() =~= Seq::<Seq<char>>::empty());
            }
            None
        }
    }
}

} // verus!
