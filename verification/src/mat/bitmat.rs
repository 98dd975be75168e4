//! A mutable sparse bit matrix: bits are packed into 128-bit words, and the
//! words are stored sparsely by their word coordinates. An unset bit reads
//! as false without allocating anything.

use crate::assoc::{
    distinct_keys, lemma_assoc_map_dom, lemma_assoc_map_index, lemma_assoc_map_push,
    lemma_assoc_map_update, spec_assoc_map,
};
use vstd::prelude::*;

verus! {

/// The stored word rows read as an association list of word maps.
pub open spec fn viewed_bit_rows(rows: Seq<(usize, Vec<(usize, u128)>)>) -> Seq<
    (usize, Map<usize, u128>),
> {
    rows.map_values(|p: (usize, Vec<(usize, u128)>)| (p.0, spec_assoc_map(p.1@)))
}

/// Whether bit `k` of the word `d` is set.
pub open spec fn spec_bit(d: u128, k: nat) -> bool {
    d & (1u128 << k) != 0
}

/// A sparse matrix of booleans, stored as 128-bit words.
pub struct SparseBitMat {
    rows: Vec<(usize, Vec<(usize, u128)>)>,
}

impl SparseBitMat {
    /// The matrix as a map from word-row index to its map of words.
    pub closed spec fn word_map(self) -> Map<usize, Map<usize, u128>> {
        spec_assoc_map(viewed_bit_rows(self.rows@))
    }

    /// The stored word covering the cell, or zero.
    pub open spec fn word_at(self, row_index: usize, col_index: usize) -> u128 {
        let rb = row_index / 128;
        let cb = col_index / 128;
        if self.word_map().contains_key(rb) && self.word_map()[rb].contains_key(cb) {
            self.word_map()[rb][cb]
        } else {
            0
        }
    }

    /// Whether the bit at one cell is set.
    pub open spec fn bit_at(self, row_index: usize, col_index: usize) -> bool {
        spec_bit(self.word_at(row_index, col_index), (col_index % 128) as nat)
    }

    /// Row keys and per-row word keys are unique.
    pub closed spec fn inv(self) -> bool {
        &&& distinct_keys(viewed_bit_rows(self.rows@))
        &&& forall|i: int|
            0 <= i < self.rows@.len() ==> distinct_keys((#[trigger] self.rows@[i]).1@)
    }

    pub fn new() -> (r: Self)
        ensures
            r.inv(),
            forall|i: usize, j: usize| !(#[trigger] r.bit_at(i, j)),
    {
        let r = SparseBitMat { rows: Vec::new() };
        proof {
            assert(viewed_bit_rows(r.rows@) =~= Seq::<(usize, Map<usize, u128>)>::empty());
            assert forall|i: usize, j: usize| !(#[trigger] r.bit_at(i, j)) by {
                lemma_bit_of_zero((j % 128) as u128);
            }
        }
        r
    }

    /// The stored-row index holding word-row `key`, if one does.
    fn find_row(&self, key: usize) -> (r: Option<usize>)
        ensures
            match r {
                Some(i) => i < self.rows@.len() && self.rows@[i as int].0 == key,
                None => forall|j: int|
                    0 <= j < self.rows@.len() ==> (#[trigger] self.rows@[j]).0 != key,
            },
    {
        let mut i: usize = 0;
        while i < self.rows.len()
            invariant
                i <= self.rows@.len(),
                forall|j: int| 0 <= j < i ==> (#[trigger] self.rows@[j]).0 != key,
            decreases self.rows@.len() - i,
        {
            if self.rows[i].0 == key {
                return Some(i);
            }
            i = i + 1;
        }
        None
    }

    /// The word covering one cell, materializing a zero word when none is
    /// stored yet, as the mutable accessors need.
    pub fn get_byte(&mut self, row_index: usize, col_index: usize) -> (d: u128)
        requires
            old(self).inv(),
        ensures
            final(self).inv(),
            d == old(self).word_at(row_index, col_index),
            final(self).word_map() == old(self).word_map().insert(
                (row_index / 128) as usize,
                (if old(self).word_map().contains_key((row_index / 128) as usize) {
                    old(self).word_map()[(row_index / 128) as usize]
                } else {
                    Map::<usize, u128>::empty()
                }).insert((col_index / 128) as usize, d),
            ),
    {
        let rb = row_index / 128;
        let cb = col_index / 128;
        let ghost vr = viewed_bit_rows(old(self).rows@);
        match self.find_row(rb) {
            Some(i) => {
                proof {
                    lemma_assoc_map_index(vr, i as int);
                }
                let row = &self.rows[i].1;
                match find_word(row, cb) {
                    Some(j) => {
                        proof {
                            lemma_assoc_map_index(self.rows@[i as int].1@, j as int);
                        }
                        let d = self.rows[i].1[j].1;
                        let mut newrow = copy_words(&self.rows[i].1);
                        let ghost oldrow = newrow@;
                        newrow[j] = (cb, d);
                        let ghost newmap = spec_assoc_map(newrow@);
                        self.rows[i] = (rb, newrow);
                        proof {
                            assert(newrow@ =~= oldrow.update(j as int, (oldrow[j as int].0, d)));
                            lemma_assoc_map_update(oldrow, j as int, d);
                            assert(viewed_bit_rows(self.rows@) =~= vr.update(
                                i as int,
                                (vr[i as int].0, newmap),
                            ));
                            lemma_assoc_map_update(vr, i as int, newmap);
                            assert(final(self).word_map() =~= old(self).word_map().insert(
                                rb,
                                old(self).word_map()[rb].insert(cb, d),
                            ));
                        }
                        d
                    },
                    None => {
                        proof {
                            lemma_assoc_map_dom(self.rows@[i as int].1@, cb);
                        }
                        let mut newrow = copy_words(&self.rows[i].1);
                        let ghost oldrow = newrow@;
                        newrow.push((cb, 0u128));
                        let ghost newmap = spec_assoc_map(newrow@);
                        self.rows[i] = (rb, newrow);
                        proof {
                            assert(newrow@ =~= oldrow.push((cb, 0u128)));
                            lemma_assoc_map_push(oldrow, (cb, 0u128));
                            assert(viewed_bit_rows(self.rows@) =~= vr.update(
                                i as int,
                                (vr[i as int].0, newmap),
                            ));
                            lemma_assoc_map_update(vr, i as int, newmap);
                            assert(final(self).word_map() =~= old(self).word_map().insert(
                                rb,
                                old(self).word_map()[rb].insert(cb, 0u128),
                            ));
                        }
                        0
                    },
                }
            },
            None => {
                proof {
                    lemma_assoc_map_dom(vr, rb);
                }
                let mut newrow: Vec<(usize, u128)> = Vec::new();
                newrow.push((cb, 0u128));
                let ghost newmap = spec_assoc_map(newrow@);
                proof {
                    assert(newrow@ =~= Seq::<(usize, u128)>::empty().push((cb, 0u128)));
                    lemma_assoc_map_push(Seq::<(usize, u128)>::empty(), (cb, 0u128));
                }
                self.rows.push((rb, newrow));
                proof {
                    assert(viewed_bit_rows(self.rows@) =~= vr.push((rb, newmap)));
                    lemma_assoc_map_push(vr, (rb, newmap));
                    assert(final(self).word_map() =~= old(self).word_map().insert(
                        rb,
                        Map::<usize, u128>::empty().insert(cb, 0u128),
                    ));
                }
                0
            },
        }
    }

    /// Replaces the word covering one cell.
    fn put_byte(&mut self, row_index: usize, col_index: usize, d: u128)
        requires
            old(self).inv(),
        ensures
            final(self).inv(),
            final(self).word_map() == old(self).word_map().insert(
                (row_index / 128) as usize,
                (if old(self).word_map().contains_key((row_index / 128) as usize) {
                    old(self).word_map()[(row_index / 128) as usize]
                } else {
                    Map::<usize, u128>::empty()
                }).insert((col_index / 128) as usize, d),
            ),
    {
        let rb = row_index / 128;
        let cb = col_index / 128;
        let ghost vr = viewed_bit_rows(old(self).rows@);
        match self.find_row(rb) {
            Some(i) => {
                proof {
                    lemma_assoc_map_index(vr, i as int);
                }
                let mut newrow = copy_words(&self.rows[i].1);
                let ghost oldrow = newrow@;
                match find_word(&newrow, cb) {
                    Some(j) => {
                        proof {
                            lemma_assoc_map_index(oldrow, j as int);
                        }
                        newrow[j] = (cb, d);
                        proof {
                            assert(newrow@ =~= oldrow.update(j as int, (oldrow[j as int].0, d)));
                            lemma_assoc_map_update(oldrow, j as int, d);
                        }
                    },
                    None => {
                        proof {
                            lemma_assoc_map_dom(oldrow, cb);
                        }
                        newrow.push((cb, d));
                        proof {
                            assert(newrow@ =~= oldrow.push((cb, d)));
                            lemma_assoc_map_push(oldrow, (cb, d));
                        }
                    },
                }
                let ghost newmap = spec_assoc_map(newrow@);
                self.rows[i] = (rb, newrow);
                proof {
                    assert(viewed_bit_rows(self.rows@) =~= vr.update(
                        i as int,
                        (vr[i as int].0, newmap),
                    ));
                    lemma_assoc_map_update(vr, i as int, newmap);
                    assert(final(self).word_map() =~= old(self).word_map().insert(
                        rb,
                        old(self).word_map()[rb].insert(cb, d),
                    ));
                }
            },
            None => {
                proof {
                    lemma_assoc_map_dom(vr, rb);
                }
                let mut newrow: Vec<(usize, u128)> = Vec::new();
                newrow.push((cb, d));
                let ghost newmap = spec_assoc_map(newrow@);
                proof {
                    assert(newrow@ =~= Seq::<(usize, u128)>::empty().push((cb, d)));
                    lemma_assoc_map_push(Seq::<(usize, u128)>::empty(), (cb, d));
                }
                self.rows.push((rb, newrow));
                proof {
                    assert(viewed_bit_rows(self.rows@) =~= vr.push((rb, newmap)));
                    lemma_assoc_map_push(vr, (rb, newmap));
                    assert(final(self).word_map() =~= old(self).word_map().insert(
                        rb,
                        Map::<usize, u128>::empty().insert(cb, d),
                    ));
                }
            },
        }
    }

    /// Sets the bit covering one cell. Bits are stored once per 128-row
    /// band: every row of the band `row_index / 128` shares the cell's bit,
    /// so all of them read true afterwards.
    pub fn set_true(&mut self, row_index: usize, col_index: usize)
        requires
            old(self).inv(),
        ensures
            final(self).inv(),
            forall|r: usize, c: usize| #[trigger]
                final(self).bit_at(r, c) == (old(self).bit_at(r, c) || (r / 128 == row_index
                    / 128 && c == col_index)),
    {
        let d = self.get_byte(row_index, col_index);
        let ghost mid = *self;
        let nd = d | (1u128 << ((col_index % 128) as u128));
        self.put_byte(row_index, col_index, nd);
        proof {
            lemma_bit_update(*old(self), mid, *self, row_index, col_index, d, nd, true);
        }
    }

    /// Clears the bit covering one cell; every row of the 128-row band
    /// shares it and reads false afterwards.
    pub fn set_false(&mut self, row_index: usize, col_index: usize)
        requires
            old(self).inv(),
        ensures
            final(self).inv(),
            forall|r: usize, c: usize| #[trigger]
                final(self).bit_at(r, c) == (old(self).bit_at(r, c) && !(r / 128 == row_index
                    / 128 && c == col_index)),
    {
        let d = self.get_byte(row_index, col_index);
        let ghost mid = *self;
        let nd = d & !(1u128 << ((col_index % 128) as u128));
        self.put_byte(row_index, col_index, nd);
        proof {
            lemma_bit_update(*old(self), mid, *self, row_index, col_index, d, nd, false);
        }
    }

    /// Whether the bit at one cell is set; an untouched cell reads false.
    pub fn get(&self, row_index: usize, col_index: usize) -> (r: bool)
        requires
            self.inv(),
        ensures
            r == self.bit_at(row_index, col_index),
    {
        let rb = row_index / 128;
        let cb = col_index / 128;
        let ghost vr = viewed_bit_rows(self.rows@);
        match self.find_row(rb) {
            None => {
                proof {
                    lemma_assoc_map_dom(vr, rb);
                    lemma_bit_of_zero((col_index % 128) as u128);
                }
                false
            },
            Some(i) => {
                proof {
                    lemma_assoc_map_index(vr, i as int);
                }
                let row = &self.rows[i].1;
                match find_word(row, cb) {
                    None => {
                        proof {
                            lemma_assoc_map_dom(row@, cb);
                            lemma_bit_of_zero((col_index % 128) as u128);
                        }
                        false
                    },
                    Some(j) => {
                        proof {
                            lemma_assoc_map_index(row@, j as int);
                        }
                        let d = row[j].1;
                        let bit = 1u128 << ((col_index % 128) as u128);
                        (d & bit) != 0
                    },
                }
            },
        }
    }

    /// Writes the bit covering one cell: every row of the 128-row band
    /// shares it.
    pub fn set(&mut self, row_index: usize, col_index: usize, value: bool)
        requires
            old(self).inv(),
        ensures
            final(self).inv(),
            forall|r: usize, c: usize| #[trigger]
                final(self).bit_at(r, c) == (if r / 128 == row_index / 128 && c == col_index {
                    value
                } else {
                    old(self).bit_at(r, c)
                }),
    {
        if value {
            self.set_true(row_index, col_index);
        } else {
            self.set_false(row_index, col_index);
        }
    }
}

/// The entry index of word-column `key` in one stored row, if it holds one.
fn find_word(row: &Vec<(usize, u128)>, key: usize) -> (r: Option<usize>)
    ensures
        match r {
            Some(j) => j < row@.len() && row@[j as int].0 == key,
            None => forall|t: int| 0 <= t < row@.len() ==> (#[trigger] row@[t]).0 != key,
        },
{
    let mut j: usize = 0;
    while j < row.len()
        invariant
            j <= row@.len(),
            forall|t: int| 0 <= t < j ==> (#[trigger] row@[t]).0 != key,
        decreases row@.len() - j,
    {
        if row[j].0 == key {
            return Some(j);
        }
        j = j + 1;
    }
    None
}

/// A fresh copy of one stored word row.
fn copy_words(row: &Vec<(usize, u128)>) -> (r: Vec<(usize, u128)>)
    ensures
        r@ == row@,
{
    let mut r: Vec<(usize, u128)> = Vec::new();
    let mut j: usize = 0;
    while j < row.len()
        invariant
            j <= row@.len(),
            r@ == row@.take(j as int),
        decreases row@.len() - j,
    {
        r.push(row[j]);
        j = j + 1;
        proof {
            assert(r@ =~= row@.take(j as int));
        }
    }
    proof {
        assert(row@.take(row@.len() as int) =~= row@);
    }
    r
}

/// No bit of the zero word is set.
proof fn lemma_bit_of_zero(k: u128)
    requires
        k < 128,
    ensures
        !spec_bit(0, k as nat),
{
    assert(0u128 & (1u128 << k) == 0) by (bit_vector);
}

/// Setting or clearing one bit of the covering word flips exactly the
/// addressed cell.
proof fn lemma_bit_update(
    pre: SparseBitMat,
    mid: SparseBitMat,
    post: SparseBitMat,
    row_index: usize,
    col_index: usize,
    d: u128,
    nd: u128,
    value: bool,
)
    requires
        d == pre.word_at(row_index, col_index),
        mid.word_map() == pre.word_map().insert(
            (row_index / 128) as usize,
            (if pre.word_map().contains_key((row_index / 128) as usize) {
                pre.word_map()[(row_index / 128) as usize]
            } else {
                Map::<usize, u128>::empty()
            }).insert((col_index / 128) as usize, d),
        ),
        post.word_map() == mid.word_map().insert(
            (row_index / 128) as usize,
            (if mid.word_map().contains_key((row_index / 128) as usize) {
                mid.word_map()[(row_index / 128) as usize]
            } else {
                Map::<usize, u128>::empty()
            }).insert((col_index / 128) as usize, nd),
        ),
        value ==> nd == d | (1u128 << ((col_index % 128) as u128)),
        !value ==> nd == d & !(1u128 << ((col_index % 128) as u128)),
    ensures
        forall|r: usize, c: usize| #[trigger]
            post.bit_at(r, c) == (if r / 128 == row_index / 128 && c == col_index {
                value
            } else {
                pre.bit_at(r, c)
            }),
{
    let rb = (row_index / 128) as usize;
    let cb = (col_index / 128) as usize;
    let k = (col_index % 128) as u128;
    assert forall|r: usize, c: usize| #[trigger]
        post.bit_at(r, c) == (if r / 128 == row_index / 128 && c == col_index {
            value
        } else {
            pre.bit_at(r, c)
        }) by {
        if r / 128 == rb && c / 128 == cb {
            // Same covering word: only the addressed bit position changes,
            // and within one word the bit position determines the column.
            assert(post.word_at(r, c) == nd);
            assert(pre.bit_at(r, c) == spec_bit(d, (c % 128) as nat));
            let kk = (c % 128) as u128;
            if value {
                assert(nd == d | (1u128 << k));
                assert(kk < 128 && k < 128 ==> ((d | (1u128 << k)) & (1u128 << kk) != 0) == ((d
                    & (1u128 << kk) != 0) || kk == k)) by (bit_vector);
            } else {
                assert(nd == d & !(1u128 << k));
                assert(kk < 128 && k < 128 ==> ((d & !(1u128 << k)) & (1u128 << kk) != 0) == ((d
                    & (1u128 << kk) != 0) && kk != k)) by (bit_vector);
            }
            assert(c == 128 * (c / 128) + c % 128);
            assert(col_index == 128 * (col_index / 128) + col_index % 128);
            assert((kk == k) == (c == col_index));
        } else {
            assert(post.word_at(r, c) == pre.word_at(r, c));
        }
    }
}

} // verus!
