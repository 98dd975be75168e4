//! Padding of a token sequence with boundary symbols before n-gram
//! extraction: `n - 1` copies of the padding symbol on each requested side.

use vstd::prelude::*;

verus! {

/// How many padding symbols one side receives for n-gram order `n`.
pub open spec fn spec_pad_width(n: nat) -> nat {
    if n >= 1 {
        (n - 1) as nat
    } else {
        0
    }
}

/// `count` copies of one symbol.
pub open spec fn spec_repeat(sym: Seq<char>, count: nat) -> Seq<Seq<char>> {
    Seq::new(count, |i: int| sym)
}

/// A token sequence padded on the requested sides with `n - 1` boundary
/// symbols each.
pub open spec fn spec_padded(
    text: Seq<Seq<char>>,
    pad_left: bool,
    left_sym: Seq<char>,
    pad_right: bool,
    right_sym: Seq<char>,
    n: nat,
) -> Seq<Seq<char>> {
    (if pad_left {
        spec_repeat(left_sym, spec_pad_width(n))
    } else {
        Seq::empty()
    }) + text + (if pad_right {
        spec_repeat(right_sym, spec_pad_width(n))
    } else {
        Seq::empty()
    })
}

/// Step-wise padder over a token sequence: yields the left padding, then the
/// tokens, then the right padding, one item per `next` call.
pub struct Padder {
    n: usize,
    text: Vec<String>,
    pos: usize,
    pad_left: bool,
    left_index: usize,
    left_pad_symbol: String,
    pad_right: bool,
    right_index: usize,
    right_pad_symbol: String,
}

impl Padder {
    /// The full output this padder will produce over its lifetime.
    pub closed spec fn spec_output(self) -> Seq<Seq<char>> {
        spec_padded(
            self.text.deep_view(),
            self.pad_left,
            self.left_pad_symbol@,
            self.pad_right,
            self.right_pad_symbol@,
            self.n as nat,
        )
    }

    /// Left padding symbols not yet emitted.
    pub closed spec fn spec_left_remaining(self) -> nat {
        if self.pad_left && self.left_index < self.n {
            (self.n - self.left_index) as nat
        } else {
            0
        }
    }

    /// Right padding symbols not yet emitted.
    pub closed spec fn spec_right_remaining(self) -> nat {
        if self.pad_right && self.right_index < self.n {
            (self.n - self.right_index) as nat
        } else {
            0
        }
    }

    /// What is still to be yielded: the unemitted left pads, then the
    /// unconsumed tokens, then the unemitted right pads.
    pub closed spec fn spec_remaining(self) -> Seq<Seq<char>> {
        spec_repeat(self.left_pad_symbol@, self.spec_left_remaining())
            + self.text.deep_view().skip(self.pos as int) + spec_repeat(
            self.right_pad_symbol@,
            self.spec_right_remaining(),
        )
    }

    pub closed spec fn wf(self) -> bool {
        &&& 1 <= self.left_index
        &&& 1 <= self.right_index
        &&& self.left_index <= vstd::math::max(self.n as int, 1)
        &&& self.right_index <= vstd::math::max(self.n as int, 1)
        &&& self.pos <= self.text@.len()
        &&& (self.pad_left && self.left_index < self.n ==> self.pos == 0)
        &&& (self.right_index > 1 ==> self.pos == self.text@.len())
    }

    pub fn new(
        text: Vec<String>,
        pad_left: bool,
        left_pad_symbol: &str,
        pad_right: bool,
        right_pad_symbol: &str,
        n: usize,
    ) -> (r: Self)
        ensures
            r.wf(),
            r.spec_remaining() == spec_padded(
                text.deep_view(),
                pad_left,
                left_pad_symbol@,
                pad_right,
                right_pad_symbol@,
                n as nat,
            ),
            r.spec_output() == r.spec_remaining(),
    {
        Padder {
            n,
            text,
            pos: 0,
            pad_left,
            left_index: 1,
            left_pad_symbol: left_pad_symbol.to_owned(),
            pad_right,
            right_index: 1,
            right_pad_symbol: right_pad_symbol.to_owned(),
        }
    }

    /// Yields the next item of the padded sequence, or `None` once the
    /// sequence — right padding included — is exhausted.
    pub fn next(&mut self) -> (r: Option<String>)
        requires
            old(self).wf(),
        ensures
            final(self).wf(),
            match r {
                Some(tok) => {
                    &&& old(self).spec_remaining().len() > 0
                    &&& tok@ == old(self).spec_remaining().first()
                    &&& final(self).spec_remaining() == old(self).spec_remaining().drop_first()
                },
                None => {
                    &&& old(self).spec_remaining().len() == 0
                    &&& final(self).spec_remaining() == old(self).spec_remaining()
                },
            },
    {
        if self.pad_left && self.left_index < self.n {
            self.left_index = self.left_index + 1;
            let out = clone_str(&self.left_pad_symbol);
            proof {
                assert(self.spec_remaining() =~= old(self).spec_remaining().drop_first());
            }
            return Some(out);
        }
        if self.pos < self.text.len() {
            let out = clone_str(&self.text[self.pos]);
            self.pos = self.pos + 1;
            proof {
                assert(old(self).spec_remaining().first() == self.text.deep_view()[self.pos
                    - 1]);
                assert(self.spec_remaining() =~= old(self).spec_remaining().drop_first());
            }
            return Some(out);
        }
        if self.pad_right && self.right_index < self.n {
            self.right_index = self.right_index + 1;
            let out = clone_str(&self.right_pad_symbol);
            proof {
                assert(self.spec_remaining() =~= old(self).spec_remaining().drop_first());
            }
            return Some(out);
        }
        proof {
            assert(old(self).spec_remaining() =~= Seq::<Seq<char>>::empty());
        }
        None
    }
}

/// A fresh owned copy of a string with the same characters.
pub(crate) fn clone_str(s: &String) -> (r: String)
    ensures
        r@ == s@,
{
    s.clone()
}

} // verus!
