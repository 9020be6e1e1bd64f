use vstd::prelude::*;

verus! {

/// A dense, row-major matrix of 32-bit scalar codes with explicit shape
/// metadata.
///
/// The verified core never interprets an entry numerically: an entry is the
/// 32-bit encoding of one parameter or sample value, and the numeric front
/// end decodes it when it evaluates a network. What the core does pin down
/// is the shape of the buffer and the exact position of every entry, which
/// is all that the layer-chaining and genome-layout contracts rest on.
#[derive(Clone, Debug, PartialEq, Eq)]
pub struct Matrix {
    pub rows: usize,
    pub cols: usize,
    pub data: Vec<u32>,
}

impl Matrix {
    /// The buffer holds exactly one entry per cell.
    pub open spec fn wf(self) -> bool {
        self.data@.len() == self.rows * self.cols
    }

    /// The entry in row `r`, column `c`.
    pub open spec fn index(self, r: int, c: int) -> u32 {
        self.data@[r * self.cols + c]
    }

    /// Builds a matrix from a row-major entry buffer of the exact size.
    pub fn new(rows: usize, cols: usize, data: Vec<u32>) -> (m: Matrix)
        requires
            data@.len() == rows * cols,
        ensures
            m.wf(),
            m.rows == rows,
            m.cols == cols,
            m.data == data,
    {
        Matrix { rows, cols, data }
    }

    pub fn nrows(&self) -> (r: usize)
        ensures
            r == self.rows,
    {
        self.rows
    }

    pub fn ncols(&self) -> (c: usize)
        ensures
            c == self.cols,
    {
        self.cols
    }

    /// Reads the entry in row `r`, column `c`.
    pub fn get(&self, r: usize, c: usize) -> (x: u32)
        requires
            self.wf(),
            r < self.rows,
            c < self.cols,
        ensures
            x == self.index(r as int, c as int),
    {
        let n = self.data.len();
        proof {
            lemma_row_major_in_bounds(self.rows as int, self.cols as int, r as int, c as int);
        }
        assert(r * self.cols + c < n);
        self.data[r * self.cols + c]
    }
}

/// A cell's row-major position lies inside the buffer.
proof fn lemma_row_major_in_bounds(rows: int, cols: int, r: int, c: int)
    by (nonlinear_arith)
    requires
        0 <= r < rows,
        0 <= c < cols,
    ensures
        0 <= r * cols + c < rows * cols,
{
}

} // verus!
