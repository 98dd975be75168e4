//! A mutable sparse matrix: each stored row is a map from column index to
//! value, and the matrix maps row indexes to rows. Reading an unset cell
//! yields zero; rows exist only while they hold at least one entry.

use crate::assoc::{
    distinct_keys, lemma_assoc_map_dom, lemma_assoc_map_index, lemma_assoc_map_push,
    lemma_assoc_map_update, spec_assoc_map,
};
use crate::mat::{Mat, Numeric, Shape};
use vstd::prelude::*;

verus! {

/// The stored rows read as an association list of row maps.
pub open spec fn viewed_rows<T>(rows: Seq<(usize, Vec<(usize, T)>)>) -> Seq<(usize, Map<usize, T>)> {
    rows.map_values(|p: (usize, Vec<(usize, T)>)| (p.0, spec_assoc_map(p.1@)))
}

/// The largest key of an association list; zero when it is empty.
pub open spec fn spec_max_key<V>(entries: Seq<(usize, V)>) -> int
    decreases entries.len(),
{
    if entries.len() == 0 {
        0
    } else {
        let rest = spec_max_key(entries.drop_last());
        if entries.last().0 > rest {
            entries.last().0 as int
        } else {
            rest
        }
    }
}

/// The largest column key over all stored rows; zero when none is stored.
pub open spec fn spec_max_col<T>(rows: Seq<(usize, Vec<(usize, T)>)>) -> int
    decreases rows.len(),
{
    if rows.len() == 0 {
        0
    } else {
        let rest = spec_max_col(rows.drop_last());
        let this = spec_max_key(rows.last().1@);
        if this > rest {
            this
        } else {
            rest
        }
    }
}

/// A map-of-maps sparse matrix.
pub struct SparseMat<T: Numeric> {
    rows: Vec<(usize, Vec<(usize, T)>)>,
}

impl<T: Numeric> SparseMat<T> {
    /// The matrix as a map from row index to row map.
    pub closed spec fn row_map(self) -> Map<usize, Map<usize, T>> {
        spec_assoc_map(viewed_rows(self.rows@))
    }

    pub fn new() -> (r: Self)
        ensures
            r.inv(),
            r.row_map() == Map::<usize, Map<usize, T>>::empty(),
            forall|i: usize, j: usize| #[trigger] r.entry(i, j) == T::zero(),
    {
        let r = SparseMat { rows: Vec::new() };
        proof {
            assert(viewed_rows(r.rows@) =~= Seq::<(usize, Map<usize, T>)>::empty());
        }
        r
    }

    /// The stored-row index holding row `key`, if one does.
    fn find_row(&self, key: usize) -> (r: Option<usize>)
        ensures
            match r {
                Some(i) => i < self.rows@.len() && self.rows@[i as int].0 == key,
                None => forall|j: int|
                    0 <= j < self.rows@.len() ==> (#[trigger] self.rows@[j]).0 != key,
            },
    {
        let mut i: usize = 0;
        while i < self.rows.len()
            invariant
                i <= self.rows@.len(),
                forall|j: int| 0 <= j < i ==> (#[trigger] self.rows@[j]).0 != key,
            decreases self.rows@.len() - i,
        {
            if self.rows[i].0 == key {
                return Some(i);
            }
            i = i + 1;
        }
        None
    }
}

/// The entry index of column `key` in one stored row, if it holds one.
fn find_col<T: Numeric>(row: &Vec<(usize, T)>, key: usize) -> (r: Option<usize>)
    ensures
        match r {
            Some(j) => j < row@.len() && row@[j as int].0 == key,
            None => forall|t: int| 0 <= t < row@.len() ==> (#[trigger] row@[t]).0 != key,
        },
{
    let mut j: usize = 0;
    while j < row.len()
        invariant
            j <= row@.len(),
            forall|t: int| 0 <= t < j ==> (#[trigger] row@[t]).0 != key,
        decreases row@.len() - j,
    {
        if row[j].0 == key {
            return Some(j);
        }
        j = j + 1;
    }
    None
}

/// A fresh copy of one stored row.
fn copy_row<T: Numeric>(row: &Vec<(usize, T)>) -> (r: Vec<(usize, T)>)
    ensures
        r@ == row@,
{
    let mut r: Vec<(usize, T)> = Vec::new();
    let mut j: usize = 0;
    while j < row.len()
        invariant
            j <= row@.len(),
            r@ == row@.take(j as int),
        decreases row@.len() - j,
    {
        r.push(row[j]);
        j = j + 1;
        proof {
            assert(r@ =~= row@.take(j as int));
        }
    }
    proof {
        assert(row@.take(row@.len() as int) =~= row@);
    }
    r
}

impl<T: Numeric> Mat<T> for SparseMat<T> {
    /// Row keys are unique, each row's column keys are unique, and no
    /// stored row is empty.
    closed spec fn inv(&self) -> bool {
        &&& distinct_keys(viewed_rows(self.rows@))
        &&& forall|i: int|
            0 <= i < self.rows@.len() ==> distinct_keys((#[trigger] self.rows@[i]).1@)
        &&& forall|i: int| 0 <= i < self.rows@.len() ==> (#[trigger] self.rows@[i]).1@.len() >= 1
    }

    closed spec fn entry(&self, row: usize, col: usize) -> T {
        if self.row_map().contains_key(row) && self.row_map()[row].contains_key(col) {
            self.row_map()[row][col]
        } else {
            T::zero()
        }
    }

    /// The reported shape: one more than the largest stored row and column
    /// key, so an empty matrix reports one row and one column.
    closed spec fn spec_shape(&self) -> (int, int) {
        (spec_max_key(self.rows@) + 1, spec_max_col(self.rows@) + 1)
    }

    fn get(&self, row_index: usize, col_index: usize) -> (r: T) {
        let ghost vr = viewed_rows(self.rows@);
        match self.find_row(row_index) {
            None => {
                proof {
                    lemma_assoc_map_dom(vr, row_index);
                }
                T::default()
            },
            Some(i) => {
                proof {
                    lemma_assoc_map_index(vr, i as int);
                }
                let row = &self.rows[i].1;
                match find_col(row, col_index) {
                    None => {
                        proof {
                            lemma_assoc_map_dom(row@, col_index);
                        }
                        T::default()
                    },
                    Some(j) => {
                        proof {
                            lemma_assoc_map_index(row@, j as int);
                        }
                        row[j].1
                    },
                }
            },
        }
    }

    fn set(&mut self, row_index: usize, col_index: usize, value: T) {
        let ghost vr = viewed_rows(old(self).rows@);
        match self.find_row(row_index) {
            Some(i) => {
                proof {
                    lemma_assoc_map_index(vr, i as int);
                }
                let mut row = copy_row(&self.rows[i].1);
                let ghost oldrow = row@;
                match find_col(&row, col_index) {
                    Some(j) => {
                        proof {
                            lemma_assoc_map_index(oldrow, j as int);
                        }
                        row[j] = (col_index, value);
                        proof {
                            assert(row@ =~= oldrow.update(j as int, (oldrow[j as int].0, value)));
                            lemma_assoc_map_update(oldrow, j as int, value);
                        }
                    },
                    None => {
                        proof {
                            lemma_assoc_map_dom(oldrow, col_index);
                        }
                        row.push((col_index, value));
                        proof {
                            assert(row@ =~= oldrow.push((col_index, value)));
                            lemma_assoc_map_push(oldrow, (col_index, value));
                        }
                    },
                }
                let ghost newrowmap = spec_assoc_map(row@);
                self.rows[i] = (row_index, row);
                proof {
                    assert(viewed_rows(self.rows@) =~= vr.update(
                        i as int,
                        (vr[i as int].0, newrowmap),
                    ));
                    lemma_assoc_map_update(vr, i as int, newrowmap);
                    assert(self.row_map() == old(self).row_map().insert(
                        row_index,
                        old(self).row_map()[row_index].insert(col_index, value),
                    ));
                    assert forall|r: usize, c: usize| #[trigger]
                        self.entry(r, c) == (if r == row_index && c == col_index {
                            value
                        } else {
                            old(self).entry(r, c)
                        }) by {}
                }
            },
            None => {
                proof {
                    lemma_assoc_map_dom(vr, row_index);
                }
                let mut row: Vec<(usize, T)> = Vec::new();
                row.push((col_index, value));
                let ghost newrowmap = spec_assoc_map(row@);
                proof {
                    assert(row@ =~= Seq::<(usize, T)>::empty().push((col_index, value)));
                    lemma_assoc_map_push(Seq::<(usize, T)>::empty(), (col_index, value));
                    assert(newrowmap == Map::<usize, T>::empty().insert(col_index, value));
                }
                self.rows.push((row_index, row));
                proof {
                    assert(viewed_rows(self.rows@) =~= vr.push((row_index, newrowmap)));
                    lemma_assoc_map_push(vr, (row_index, newrowmap));
                    assert forall|r: usize, c: usize| #[trigger]
                        self.entry(r, c) == (if r == row_index && c == col_index {
                            value
                        } else {
                            old(self).entry(r, c)
                        }) by {}
                }
            },
        }
    }

    /// One more than the largest stored row and column key; `(1, 1)` for an
    /// empty matrix.
    fn shape(&self) -> (s: Shape) {
        let mut max_rows: usize = 0;
        let mut max_cols: usize = 0;
        let mut i: usize = 0;
        while i < self.rows.len()
            invariant
                self.inv(),
                i <= self.rows@.len(),
                max_rows == spec_max_key(self.rows@.take(i as int)),
                max_cols == spec_max_col(self.rows@.take(i as int)),
            decreases self.rows@.len() - i,
        {
            let row_index = self.rows[i].0;
            if row_index > max_rows {
                max_rows = row_index;
            }
            let row = &self.rows[i].1;
            let mut j: usize = 0;
            let mut last_col: usize = 0;
            while j < row.len()
                invariant
                    j <= row@.len(),
                    last_col == spec_max_key(row@.take(j as int)),
                decreases row@.len() - j,
            {
                if row[j].0 > last_col {
                    last_col = row[j].0;
                }
                j = j + 1;
                proof {
                    assert(row@.take(j as int).drop_last() =~= row@.take(j - 1));
                }
            }
            proof {
                assert(row@.take(row@.len() as int) =~= row@);
            }
            if last_col > max_cols {
                max_cols = last_col;
            }
            i = i + 1;
            proof {
                assert(self.rows@.take(i as int).drop_last() =~= self.rows@.take(i - 1));
            }
        }
        proof {
            assert(self.rows@.take(self.rows@.len() as int) =~= self.rows@);
        }
        Shape::new(max_rows + 1, max_cols + 1)
    }
}

} // verus!
