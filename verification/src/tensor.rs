//! Matrices of 32-bit floating-point values, each held as its bit pattern.

use vstd::prelude::*;

verus! {

/// A matrix in row-major order.
#[derive(Debug, Clone)]
pub struct Matrix {
    pub rows: usize,
    pub cols: usize,
    /// The bit patterns of the values.
    pub data: Vec<u32>,
}

impl Matrix {
    /// There is a value for every place.
    pub open spec fn well_formed(&self) -> bool {
        self.data@.len() == self.rows * self.cols
    }

    pub open spec fn has_shape(&self, rows: int, cols: int) -> bool {
        self.rows == rows && self.cols == cols
    }

    /// A matrix of zeros.
    pub fn zeros(rows: usize, cols: usize) -> (out: Self)
        requires
            rows * cols <= usize::MAX,
        ensures
            out.well_formed(),
            out.has_shape(rows as int, cols as int),
            forall|i: int| 0 <= i < out.data@.len() ==> #[trigger] out.data@[i] == 0,
            out.rows == rows,
            out.cols == cols,
            out.data@.len() == rows * cols,
    {
        Matrix { rows, cols, data: vec![0u32; rows * cols] }
    }
}

/// A matrix has its dimensions and, where it is well-formed, a value for each
/// of its places.
pub proof fn shape_is_rows_and_columns(matrix: Matrix, rows: int, cols: int)
    ensures
        matrix.has_shape(rows, cols) <==> matrix.rows == rows && matrix.cols == cols,
        matrix.well_formed() <==> matrix.data@.len() == matrix.rows * matrix.cols,
{
}

} // verus!
