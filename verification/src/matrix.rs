//! A matrix of fixed size over a flat buffer in row-major order.

use std::ops::Index;
use vstd::prelude::*;

verus! {

/// A matrix of `N` rows and `M` columns.
pub struct Matrix<T, const N: usize, const M: usize> {
    vec: Vec<T>,
}

impl<T, const N: usize, const M: usize> Matrix<T, N, M> {
    /// The entries of the matrix, row after row.
    pub closed spec fn view(&self) -> Seq<T> {
        self.vec@
    }

    /// The matrix holds one entry for each pair of row and column.
    pub open spec fn wf(&self) -> bool {
        self@.len() == N * M
    }

    /// The matrix whose entries are `values`, row after row.
    pub fn init(values: Vec<T>) -> (r: Self)
        requires
            values@.len() == N * M,
        ensures
            r.wf(),
            r@ == values@,
    {
        Matrix { vec: values }
    }

    /// The same entries as a matrix of `P` rows and `Q` columns.
    pub fn reshape<const P: usize, const Q: usize>(self) -> (r: Matrix<T, P, Q>)
        requires
            self.wf(),
            P * Q == N * M,
        ensures
            r.wf(),
            r@ == self@,
    {
        Matrix { vec: self.vec }
    }
}

impl<T, const N: usize, const M: usize>
    vstd::std_specs::core::IndexSpecImpl<[usize; 2]> for Matrix<T, N, M>
{
    /// Indexing asks for a row and a column whose entry the buffer holds.
    open spec fn index_req(&self, index: &[usize; 2]) -> bool {
        index@[0] * M + index@[1] < self@.len()
    }
}

impl<T, const N: usize, const M: usize> Index<[usize; 2]> for Matrix<T, N, M> {
    type Output = T;

    /// The entry in row `index[0]` and column `index[1]`.
    fn index(&self, index: [usize; 2]) -> (r: &T)
        ensures
            *r == self@[index@[0] * M + index@[1]],
    {
        let i = index[0];
        let j = index[1];
        let len = self.vec.len();
        assert(0 <= i * M <= i * M + j < len) by (nonlinear_arith)
            requires
                0 <= i,
                0 <= M,
                0 <= j,
                i * M + j < len,
        ;
        &self.vec[i * M + j]
    }
}

} // verus!
