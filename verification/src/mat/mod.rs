//! Sparse matrix representations: a mutable map-backed matrix, a compressed
//! sparse row matrix, and a bit matrix, all over the crate's numeric
//! element types.

pub mod bitmat;
pub mod csr;
pub mod sparse;

use vstd::prelude::*;

verus! {

/// A matrix shape: row and column counts.
#[derive(PartialEq, Eq, Structural, Debug, Clone, Copy)]
pub struct Shape {
    rows: usize,
    cols: usize,
}

impl Shape {
    /// The number of rows.
    pub closed spec fn spec_rows(self) -> int {
        self.rows as int
    }

    /// The number of columns.
    pub closed spec fn spec_cols(self) -> int {
        self.cols as int
    }

    pub fn new(rows: usize, cols: usize) -> (r: Self)
        ensures
            r.spec_rows() == rows,
            r.spec_cols() == cols,
    {
        Shape { rows, cols }
    }

    /// The shape as a row/column pair.
    pub fn into_pair(self) -> (r: (usize, usize))
        ensures
            r.0 == self.spec_rows(),
            r.1 == self.spec_cols(),
    {
        (self.rows, self.cols)
    }
}

/// An element type a matrix can hold: copyable, with a zero that missing
/// entries read as.
pub trait Numeric: Copy + Sized {
    /// The value an absent entry denotes.
    spec fn zero() -> Self;

    /// The zero value, as an executable constant.
    fn default() -> (r: Self)
        ensures
            r == Self::zero(),
    ;

    /// Whether this value is the zero of its type.
    fn is_zero(&self) -> (r: bool)
        ensures
            r == (*self == Self::zero()),
    ;
}

/// A mutable matrix over a numeric element type: reading an unset entry
/// yields zero, and writing affects exactly one entry.
pub trait Mat<T: Numeric>: Sized {
    /// The representation invariant every operation preserves.
    spec fn inv(&self) -> bool;

    /// The value at one cell; zero where nothing was stored.
    spec fn entry(&self, row: usize, col: usize) -> T;

    /// The row and column counts the matrix reports.
    spec fn spec_shape(&self) -> (int, int);

    fn get(&self, row_index: usize, col_index: usize) -> (r: T)
        requires
            self.inv(),
        ensures
            r == self.entry(row_index, col_index),
    ;

    fn set(&mut self, row_index: usize, col_index: usize, value: T)
        requires
            old(self).inv(),
        ensures
            final(self).inv(),
            forall|r: usize, c: usize|
                #[trigger] final(self).entry(r, c) == (if r == row_index && c == col_index {
                    value
                } else {
                    old(self).entry(r, c)
                }),
    ;

    fn shape(&self) -> (s: Shape)
        requires
            self.inv(),
            self.spec_shape().0 <= usize::MAX,
            self.spec_shape().1 <= usize::MAX,
        ensures
            s.spec_rows() == self.spec_shape().0,
            s.spec_cols() == self.spec_shape().1,
    ;
}

impl Numeric for usize {
    open spec fn zero() -> usize {
        0
    }

    fn default() -> usize {
        0
    }

    fn is_zero(&self) -> bool {
        *self == 0
    }
}

impl Numeric for isize {
    open spec fn zero() -> isize {
        0
    }

    fn default() -> isize {
        0
    }

    fn is_zero(&self) -> bool {
        *self == 0
    }
}

impl Numeric for i8 {
    open spec fn zero() -> i8 {
        0
    }

    fn default() -> i8 {
        0
    }

    fn is_zero(&self) -> bool {
        *self == 0
    }
}

impl Numeric for u8 {
    open spec fn zero() -> u8 {
        0
    }

    fn default() -> u8 {
        0
    }

    fn is_zero(&self) -> bool {
        *self == 0
    }
}

impl Numeric for i16 {
    open spec fn zero() -> i16 {
        0
    }

    fn default() -> i16 {
        0
    }

    fn is_zero(&self) -> bool {
        *self == 0
    }
}

impl Numeric for u16 {
    open spec fn zero() -> u16 {
        0
    }

    fn default() -> u16 {
        0
    }

    fn is_zero(&self) -> bool {
        *self == 0
    }
}

impl Numeric for i32 {
    open spec fn zero() -> i32 {
        0
    }

    fn default() -> i32 {
        0
    }

    fn is_zero(&self) -> bool {
        *self == 0
    }
}

impl Numeric for u32 {
    open spec fn zero() -> u32 {
        0
    }

    fn default() -> u32 {
        0
    }

    fn is_zero(&self) -> bool {
        *self == 0
    }
}

impl Numeric for i64 {
    open spec fn zero() -> i64 {
        0
    }

    fn default() -> i64 {
        0
    }

    fn is_zero(&self) -> bool {
        *self == 0
    }
}

impl Numeric for u64 {
    open spec fn zero() -> u64 {
        0
    }

    fn default() -> u64 {
        0
    }

    fn is_zero(&self) -> bool {
        *self == 0
    }
}

impl Numeric for i128 {
    open spec fn zero() -> i128 {
        0
    }

    fn default() -> i128 {
        0
    }

    fn is_zero(&self) -> bool {
        *self == 0
    }
}

impl Numeric for u128 {
    open spec fn zero() -> u128 {
        0
    }

    fn default() -> u128 {
        0
    }

    fn is_zero(&self) -> bool {
        *self == 0
    }
}

impl Numeric for bool {
    open spec fn zero() -> bool {
        false
    }

    fn default() -> bool {
        false
    }

    fn is_zero(&self) -> bool {
        *self == false
    }
}

} // verus!
