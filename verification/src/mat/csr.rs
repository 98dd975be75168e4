//! A compressed sparse row matrix: immutable, built from dense rows, with
//! the classic three-array layout.

use crate::mat::{Numeric, Shape};
use vstd::prelude::*;

verus! {

/// The value the row segment `[start, end)` of a CSR layout holds for
/// column `c`: the stored value where some entry carries `c`, zero
/// otherwise.
pub open spec fn segment_value<T: Numeric>(
    indices: Seq<usize>,
    data: Seq<T>,
    start: int,
    end: int,
    c: usize,
) -> T {
    if exists|j: int| start <= j < end && indices[j] == c {
        data[choose|j: int| start <= j < end && indices[j] == c]
    } else {
        T::zero()
    }
}

/// The segment lookup of row `t` under a pointer array.
pub open spec fn seg_of<T: Numeric>(
    indices: Seq<usize>,
    data: Seq<T>,
    pointers: Seq<usize>,
    t: usize,
    c: usize,
) -> T
    recommends
        t + 2 <= pointers.len(),
{
    segment_value(indices, data, pointers[t as int] as int, pointers[t as int + 1] as int, c)
}

/// A compressed sparse row matrix. Immutable: built once from dense rows.
pub struct CsrMat<T: Numeric> {
    index_pointers: Vec<usize>,
    indices: Vec<usize>,
    data: Vec<T>,
}

impl<T: Numeric> CsrMat<T> {
    /// The classic CSR well-formedness: the pointers cover the index and
    /// data arrays monotonically, and each row's column indices strictly
    /// increase. The freshly constructed empty matrix is the one other
    /// shape allowed.
    pub closed spec fn wf(self) -> bool {
        ||| (self.index_pointers@.len() == 0 && self.indices@.len() == 0 && self.data@.len()
            == 0)
        ||| {
            &&& self.index_pointers@.len() >= 1
            &&& self.index_pointers@[0] == 0
            &&& self.index_pointers@.last() == self.indices@.len()
            &&& self.indices@.len() == self.data@.len()
            &&& forall|r: int|
                0 <= r < self.index_pointers@.len() - 1 ==> #[trigger] self.index_pointers@[r]
                    <= self.index_pointers@[r + 1]
            &&& forall|r: int, j: int, k: int|
                #![trigger self.index_pointers@[r], self.indices@[j], self.indices@[k]]
                0 <= r < self.index_pointers@.len() - 1 && self.index_pointers@[r] <= j < k
                    < self.index_pointers@[r + 1] ==> self.indices@[j] < self.indices@[k]
        }
    }

    /// Every stored column index, in storage order.
    pub closed spec fn spec_indices(self) -> Seq<usize> {
        self.indices@
    }

    /// How many rows the matrix holds.
    pub closed spec fn spec_rows(self) -> int {
        if self.index_pointers@.len() == 0 {
            0
        } else {
            self.index_pointers@.len() - 1
        }
    }

    /// The value at one cell: the stored entry, or zero for anything never
    /// stored — including every cell of rows beyond the stored ones.
    pub closed spec fn spec_entry(self, row: usize, col: usize) -> T {
        if row + 2 <= self.index_pointers@.len() {
            segment_value(
                self.indices@,
                self.data@,
                self.index_pointers@[row as int] as int,
                self.index_pointers@[row + 1] as int,
                col,
            )
        } else {
            T::zero()
        }
    }

    /// An empty matrix with no rows at all.
    pub fn new() -> (r: Self)
        ensures
            r.wf(),
            r.spec_rows() == 0,
            forall|i: usize, j: usize| #[trigger] r.spec_entry(i, j) == T::zero(),
    {
        CsrMat { index_pointers: Vec::new(), indices: Vec::new(), data: Vec::new() }
    }

    /// The value at one cell; zero for anything never stored.
    pub fn get(&self, row: usize, column: usize) -> (r: T)
        requires
            self.wf(),
        ensures
            r == self.spec_entry(row, column),
    {
        if row >= self.index_pointers.len() || self.index_pointers.len() - row < 2 {
            return T::default();
        }
        let start_index = self.index_pointers[row];
        let end_index = self.index_pointers[row + 1];
        proof {
            assert(self.index_pointers@[row as int] <= self.index_pointers@[row + 1]);
            assert(self.index_pointers@[row + 1] <= self.indices@.len()) by {
                lemma_pointers_bounded(self.index_pointers@, self.indices@.len() as int, row + 1);
            }
        }
        let mut index = start_index;
        while index < end_index
            invariant
                self.wf(),
                row + 2 <= self.index_pointers@.len(),
                start_index == self.index_pointers@[row as int],
                end_index == self.index_pointers@[row + 1],
                start_index <= index <= end_index,
                end_index <= self.indices@.len(),
                forall|j: int| start_index <= j < index ==> self.indices@[j] != column,
            decreases end_index - index,
        {
            if self.indices[index] == column {
                proof {
                    assert(self.indices@[index as int] == column);
                }
                return self.data[index];
            }
            index = index + 1;
        }
        proof {
            assert(forall|j: int|
                start_index <= j < end_index ==> self.indices@[j] != column);
        }
        T::default()
    }

    /// The shape: the stored row count, and one more than the largest
    /// stored column index (zero columns when nothing is stored).
    pub fn shape(&self) -> (s: Shape)
        requires
            self.wf(),
            self.spec_rows() >= 1,
            forall|j: int|
                0 <= j < self.spec_indices().len() ==> (#[trigger] self.spec_indices()[j])
                    < usize::MAX,
        ensures
            s.spec_rows() == self.spec_rows(),
            s.spec_cols() == spec_max_col_bound(self.spec_indices()),
    {
        let mut max_plus_one: usize = 0;
        let mut j: usize = 0;
        proof {
            assert forall|t: int|
                0 <= t < self.indices@.len() implies #[trigger] self.indices@[t]
                < usize::MAX by {
                assert(self.spec_indices()[t] < usize::MAX);
            }
            assert(self.indices@.take(0) =~= Seq::<usize>::empty());
        }
        while j < self.indices.len()
            invariant
                j <= self.indices@.len(),
                forall|t: int| 0 <= t < self.indices@.len() ==> #[trigger] self.indices@[t]
                    < usize::MAX,
                max_plus_one == spec_max_col_bound(self.indices@.take(j as int)),
            decreases self.indices@.len() - j,
        {
            if self.indices[j] + 1 > max_plus_one {
                max_plus_one = self.indices[j] + 1;
            }
            j = j + 1;
            proof {
                assert(self.indices@.take(j as int).drop_last() =~= self.indices@.take(j - 1));
            }
        }
        proof {
            assert(self.indices@.take(self.indices@.len() as int) =~= self.indices@);
        }
        Shape::new(self.index_pointers.len() - 1, max_plus_one)
    }

    /// Builds the matrix from dense rows: exactly the non-zero values are
    /// stored, and every cell reads back as the dense row gave it — zero
    /// for cells outside the given rows.
    pub fn from(rows: Vec<Vec<T>>) -> (m: Self)
        ensures
            m.wf(),
            m.spec_rows() == rows@.len(),
            forall|r: usize, c: usize| #[trigger]
                m.spec_entry(r, c) == (if r < rows@.len() && c < rows@[r as int]@.len() {
                    rows@[r as int]@[c as int]
                } else {
                    T::zero()
                }),
    {
        let mut index_pointers: Vec<usize> = Vec::new();
        let mut indices: Vec<usize> = Vec::new();
        let mut data: Vec<T> = Vec::new();
        index_pointers.push(0);
        let mut r: usize = 0;
        while r < rows.len()
            invariant
                r <= rows@.len(),
                index_pointers@.len() == r + 1,
                index_pointers@[0] == 0,
                index_pointers@.last() == indices@.len(),
                indices@.len() == data@.len(),
                forall|t: int|
                    0 <= t < r ==> #[trigger] index_pointers@[t] <= index_pointers@[t + 1],
                forall|t: int, j: int, k: int|
                    #![trigger index_pointers@[t], indices@[j], indices@[k]]
                    0 <= t < r && index_pointers@[t] <= j < k < index_pointers@[t + 1]
                        ==> indices@[j] < indices@[k],
                forall|t: usize, c: usize|
                    #![trigger seg_of(indices@, data@, index_pointers@, t, c)]
                    t < r ==> seg_of(indices@, data@, index_pointers@, t, c) == (if c < rows@[
                        t as int
                    ]@.len() {
                        rows@[t as int]@[c as int]
                    } else {
                        T::zero()
                    }),
            decreases rows@.len() - r,
        {
            let ghost pre_indices = indices@;
            let ghost pre_data = data@;
            let ghost pre_pointers = index_pointers@;
            let ghost seg_start = indices@.len() as int;
            push_row(&mut indices, &mut data, &rows[r]);
            let end = indices.len();
            index_pointers.push(end);
            r = r + 1;
            proof {
                lemma_from_step(
                    pre_pointers,
                    pre_indices,
                    pre_data,
                    index_pointers@,
                    indices@,
                    data@,
                    rows@,
                    r as int,
                    rows@[r - 1]@,
                );
            }
        }
        let m = CsrMat { index_pointers, indices, data };
        proof {
            assert(m.wf());
            assert forall|rr: usize, cc: usize| #[trigger]
                m.spec_entry(rr, cc) == (if rr < rows@.len() && cc < rows@[rr as int]@.len() {
                    rows@[rr as int]@[cc as int]
                } else {
                    T::zero()
                }) by {
                if rr < rows@.len() {
                    assert(seg_of(m.indices@, m.data@, m.index_pointers@, rr, cc) == (if cc
                        < rows@[rr as int]@.len() {
                        rows@[rr as int]@[cc as int]
                    } else {
                        T::zero()
                    }));
                }
            }
        }
        m
    }
}

/// Appends the non-zero entries of one dense row to the index and data
/// arrays: the arrays already stored stay untouched, the fresh segment's
/// columns strictly increase and stay within the row, and the segment reads
/// back exactly the dense row.
fn push_row<T: Numeric>(indices: &mut Vec<usize>, data: &mut Vec<T>, row: &Vec<T>)
    requires
        old(indices)@.len() == old(data)@.len(),
    ensures
        final(indices)@.len() == final(data)@.len(),
        final(indices)@.len() >= old(indices)@.len(),
        final(indices)@.take(old(indices)@.len() as int) == old(indices)@,
        final(data)@.take(old(data)@.len() as int) == old(data)@,
        forall|j: int|
            old(indices)@.len() <= j < final(indices)@.len()
                ==> (#[trigger] final(indices)@[j]) < row@.len(),
        forall|j: int, k: int|
            old(indices)@.len() <= j < k < final(indices)@.len()
                ==> (#[trigger] final(indices)@[j]) < (#[trigger] final(indices)@[k]),
        forall|cc: usize| #[trigger]
            segment_value(
                final(indices)@,
                final(data)@,
                old(indices)@.len() as int,
                final(indices)@.len() as int,
                cc,
            ) == (if cc < row@.len() {
                row@[cc as int]
            } else {
                T::zero()
            }),
{
    let ghost seg_start = indices@.len() as int;
    let mut c: usize = 0;
    proof {
        assert(indices@.take(seg_start) =~= old(indices)@);
        assert(data@.take(seg_start) =~= old(data)@);
    }
    while c < row.len()
        invariant
            c <= row@.len(),
            indices@.len() == data@.len(),
            seg_start == old(indices)@.len(),
            seg_start <= indices@.len(),
            indices@.take(seg_start) == old(indices)@,
            data@.take(seg_start) == old(data)@,
            forall|j: int| seg_start <= j < indices@.len() ==> (#[trigger] indices@[j]) < c,
            forall|j: int, k: int|
                seg_start <= j < k < indices@.len() ==> (#[trigger] indices@[j]) < (
                #[trigger] indices@[k]),
            forall|cc: usize|
                cc < c ==> #[trigger] segment_value(
                    indices@,
                    data@,
                    seg_start,
                    indices@.len() as int,
                    cc,
                ) == row@[cc as int],
            forall|cc: usize|
                cc >= c ==> #[trigger] segment_value(
                    indices@,
                    data@,
                    seg_start,
                    indices@.len() as int,
                    cc,
                ) == T::zero(),
        decreases row@.len() - c,
    {
        let ghost pi = indices@;
        let ghost pd = data@;
        let value = row[c];
        if !value.is_zero() {
            indices.push(c);
            data.push(value);
            proof {
                assert(indices@.take(seg_start) =~= pi.take(seg_start));
                assert(data@.take(seg_start) =~= pd.take(seg_start));
                lemma_segment_grow(pi, pd, indices@, data@, seg_start, c, value);
            }
        } else {
            proof {
                lemma_segment_skip(indices@, data@, seg_start, c);
            }
        }
        c = c + 1;
    }
}

/// One more than the largest index of the sequence; zero when it is empty.
pub open spec fn spec_max_col_bound(indices: Seq<usize>) -> int
    decreases indices.len(),
{
    if indices.len() == 0 {
        0
    } else {
        let rest = spec_max_col_bound(indices.drop_last());
        if indices.last() + 1 > rest {
            indices.last() + 1
        } else {
            rest
        }
    }
}

/// In a well-formed pointer array, every pointer is bounded by the final
/// one.
proof fn lemma_pointers_bounded(pointers: Seq<usize>, total: int, upto: int)
    requires
        pointers.len() >= 1,
        pointers.last() == total,
        forall|r: int| 0 <= r < pointers.len() - 1 ==> #[trigger] pointers[r] <= pointers[r + 1],
        0 <= upto < pointers.len(),
    ensures
        pointers[upto] <= total,
    decreases pointers.len() - upto,
{
    if upto < pointers.len() - 1 {
        lemma_pointers_bounded(pointers, total, upto + 1);
    }
}

/// Appending an entry to a segment keeps earlier lookups and adds the new
/// column.
proof fn lemma_segment_grow<T: Numeric>(
    pi: Seq<usize>,
    pd: Seq<T>,
    indices: Seq<usize>,
    data: Seq<T>,
    seg_start: int,
    c: usize,
    value: T,
)
    requires
        indices == pi.push(c),
        data == pd.push(value),
        pi.len() == pd.len(),
        0 <= seg_start <= pi.len(),
        forall|j: int| seg_start <= j < pi.len() ==> (#[trigger] pi[j]) < c,
        forall|j: int, k: int|
            seg_start <= j < k < pi.len() ==> (#[trigger] pi[j]) < (#[trigger] pi[k]),
    ensures
        forall|cc: usize|
            cc != c ==> segment_value(indices, data, seg_start, indices.len() as int, cc)
                == segment_value(pi, pd, seg_start, pi.len() as int, cc),
        segment_value(indices, data, seg_start, indices.len() as int, c) == value,
{
    assert forall|j: int| 0 <= j < pi.len() implies (#[trigger] indices[j]) == pi[j] by {
        assert(indices[j] == pi.push(c)[j]);
    }
    assert(indices[indices.len() - 1] == pi.push(c)[indices.len() - 1]);
    assert(indices[indices.len() - 1] == c);
    assert forall|cc: usize|
        cc != c implies segment_value(indices, data, seg_start, indices.len() as int, cc)
        == segment_value(pi, pd, seg_start, pi.len() as int, cc) by {
        if exists|j: int| seg_start <= j < pi.len() && pi[j] == cc {
            let j = choose|j: int| seg_start <= j < pi.len() && pi[j] == cc;
            assert(indices[j] == cc);
            assert(exists|j2: int| seg_start <= j2 < indices.len() && indices[j2] == cc);
            let j2 = choose|j2: int|
                seg_start <= j2 < indices.len() && indices[j2] == cc;
            assert(j2 < pi.len());
            assert(pi[j2] == cc);
            assert(j2 == j) by {
                if j2 < j {
                    assert(pi[j2] < pi[j]);
                } else if j < j2 {
                    assert(pi[j] < pi[j2]);
                }
            }
            assert(data[j2] == pd.push(value)[j2]);
            assert(data[j2] == pd[j2]);
            assert(segment_value(indices, data, seg_start, indices.len() as int, cc)
                == data[j2]);
            assert(segment_value(pi, pd, seg_start, pi.len() as int, cc) == pd[j]);
        } else {
            assert forall|j: int|
                seg_start <= j < indices.len() implies (#[trigger] indices[j]) != cc by {
                if j < pi.len() {
                    assert(indices[j] == pi[j]);
                }
            }
        }
    }
    assert(exists|j: int| seg_start <= j < indices.len() && indices[j] == c);
    let j = choose|j: int| seg_start <= j < indices.len() && indices[j] == c;
    assert(j == indices.len() - 1) by {
        if j < indices.len() - 1 {
            assert(pi[j] < c);
        }
    }
}

/// A column never stored in the fresh segment still reads as zero.
proof fn lemma_segment_skip<T: Numeric>(indices: Seq<usize>, data: Seq<T>, seg_start: int, c: usize)
    requires
        0 <= seg_start <= indices.len(),
        forall|j: int| seg_start <= j < indices.len() ==> (#[trigger] indices[j]) < c,
    ensures
        segment_value(indices, data, seg_start, indices.len() as int, c) == T::zero(),
{
}

/// A finished segment reads the same after more entries are appended
/// behind it.
proof fn lemma_segment_stable<T: Numeric>(
    pi: Seq<usize>,
    pd: Seq<T>,
    indices: Seq<usize>,
    data: Seq<T>,
    start: int,
    end: int,
    c: usize,
)
    requires
        pi.len() == pd.len(),
        indices.len() == data.len(),
        pi.len() <= indices.len(),
        indices.take(pi.len() as int) == pi,
        data.take(pd.len() as int) == pd,
        0 <= start <= end <= pi.len(),
        forall|j: int, k: int|
            start <= j < k < end ==> (#[trigger] pi[j]) < (#[trigger] pi[k]),
    ensures
        segment_value(indices, data, start, end, c) == segment_value(pi, pd, start, end, c),
{
    assert forall|j: int| 0 <= j < pi.len() implies (#[trigger] indices[j]) == pi[j] by {
        assert(pi[j] == indices.take(pi.len() as int)[j]);
    }
    assert forall|j: int| 0 <= j < pd.len() implies (#[trigger] data[j]) == pd[j] by {
        assert(pd[j] == data.take(pd.len() as int)[j]);
    }
    if exists|j: int| start <= j < end && pi[j] == c {
        let j = choose|j: int| start <= j < end && pi[j] == c;
        assert(indices[j] == c);
        assert(exists|j2: int| start <= j2 < end && indices[j2] == c);
        let j2 = choose|j2: int| start <= j2 < end && indices[j2] == c;
        assert(pi[j2] == c);
        assert(j2 == j) by {
            if j2 < j {
                assert(pi[j2] < pi[j]);
            } else if j < j2 {
                assert(pi[j] < pi[j2]);
            }
        }
        assert(data[j2] == pd[j2]);
        assert(segment_value(indices, data, start, end, c) == data[j2]);
        assert(segment_value(pi, pd, start, end, c) == pd[j]);
    } else {
        assert(forall|j: int| start <= j < end ==> (#[trigger] indices[j]) != c);
    }
}


/// One loop step of the CSR construction: with the previous rows encoded
/// and one more row appended behind them, every row up to the new count is
/// encoded.
#[verifier::rlimit(100)]
proof fn lemma_from_step<T: Numeric>(
    pre_pointers: Seq<usize>,
    pre_indices: Seq<usize>,
    pre_data: Seq<T>,
    pointers: Seq<usize>,
    indices: Seq<usize>,
    data: Seq<T>,
    rows: Seq<Vec<T>>,
    r: int,
    rowv: Seq<T>,
)
    requires
        1 <= r <= rows.len(),
        rowv == rows[r - 1]@,
        pre_pointers.len() == r,
        pre_pointers[0] == 0,
        pre_pointers.last() == pre_indices.len(),
        pre_indices.len() == pre_data.len(),
        forall|t: int|
            0 <= t < r - 1 ==> #[trigger] pre_pointers[t] <= pre_pointers[t + 1],
        forall|t: int, j: int, k: int|
            #![trigger pre_pointers[t], pre_indices[j], pre_indices[k]]
            0 <= t < r - 1 && pre_pointers[t] <= j < k < pre_pointers[t + 1]
                ==> pre_indices[j] < pre_indices[k],
        forall|t: usize, c: usize|
            #![trigger seg_of(pre_indices, pre_data, pre_pointers, t, c)]
            t < r - 1 ==> seg_of(pre_indices, pre_data, pre_pointers, t, c) == (if c < rows[
                t as int
            ]@.len() {
                rows[t as int]@[c as int]
            } else {
                T::zero()
            }),
        pointers == pre_pointers.push(indices.len() as usize),
        indices.len() <= usize::MAX,
        indices.len() == data.len(),
        indices.len() >= pre_indices.len(),
        indices.take(pre_indices.len() as int) == pre_indices,
        data.take(pre_data.len() as int) == pre_data,
        forall|j: int|
            pre_indices.len() <= j < indices.len() ==> (#[trigger] indices[j]) < rowv.len(),
        forall|j: int, k: int|
            pre_indices.len() <= j < k < indices.len() ==> (#[trigger] indices[j]) < (
            #[trigger] indices[k]),
        forall|cc: usize| #[trigger]
            segment_value(
                indices,
                data,
                pre_indices.len() as int,
                indices.len() as int,
                cc,
            ) == (if cc < rowv.len() {
                rowv[cc as int]
            } else {
                T::zero()
            }),
    ensures
        pointers.len() == r + 1,
        pointers[0] == 0,
        pointers.last() == indices.len(),
        forall|t: int| 0 <= t < r ==> #[trigger] pointers[t] <= pointers[t + 1],
        forall|t: int, j: int, k: int|
            #![trigger pointers[t], indices[j], indices[k]]
            0 <= t < r && pointers[t] <= j < k < pointers[t + 1] ==> indices[j] < indices[k],
        forall|t: usize, c: usize|
            #![trigger seg_of(indices, data, pointers, t, c)]
            t < r ==> seg_of(indices, data, pointers, t, c) == (if c < rows[t as int]@.len() {
                rows[t as int]@[c as int]
            } else {
                T::zero()
            }),
{
    let seg_start = pre_indices.len() as int;
    assert(forall|t: int| 0 <= t < pre_pointers.len() ==> #[trigger] pointers[t]
        == pre_pointers[t]);
    assert(pointers[r] == indices.len());
    assert(pointers[r - 1] == pre_pointers.last());
    assert forall|t: int, j: int, k: int|
        #![trigger pointers[t], indices[j], indices[k]]
        0 <= t < r && pointers[t] <= j < k < pointers[t + 1] implies indices[j]
        < indices[k] by {
        if t < r - 1 {
            lemma_pointers_bounded(pre_pointers, seg_start, t + 1);
            assert(j < seg_start && k < seg_start);
            assert(indices[j] == indices.take(seg_start)[j]);
            assert(indices[k] == indices.take(seg_start)[k]);
        }
    }
    assert forall|t: usize, c: usize|
        #![trigger seg_of(indices, data, pointers, t, c)]
        t < r implies seg_of(indices, data, pointers, t, c) == (if c < rows[t as int]@.len() {
        rows[t as int]@[c as int]
    } else {
        T::zero()
    }) by {
        if (t as int) < r - 1 {
            lemma_pointers_bounded(pre_pointers, seg_start, t as int + 1);
            lemma_pointers_bounded(pre_pointers, seg_start, t as int);
            assert forall|j: int, k: int|
                pointers[t as int] <= j < k < pointers[t as int + 1] implies (
            #[trigger] pre_indices[j]) < (#[trigger] pre_indices[k]) by {
                assert(pre_pointers[t as int] <= j < k < pre_pointers[t as int + 1]);
            }
            lemma_segment_stable(
                pre_indices,
                pre_data,
                indices,
                data,
                pointers[t as int] as int,
                pointers[t as int + 1] as int,
                c,
            );
            assert(seg_of(pre_indices, pre_data, pre_pointers, t, c) == seg_of(
                indices,
                data,
                pointers,
                t,
                c,
            ));
        } else {
            assert(pointers[t as int] == seg_start);
            assert(pointers[t as int + 1] == indices.len());
        }
    }
}

} // verus!
