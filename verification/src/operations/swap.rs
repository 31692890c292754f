//! Exchanging entries, rows and columns.

use crate::element::lemma_vals_index;
use crate::matrix::{clone_row, g_set, g_swap_rows, lemma_grid_index, Matrix};
use crate::Error;
use vstd::prelude::*;

verus! {

broadcast use lemma_vals_index, lemma_grid_index;

impl Matrix {
    /// Exchanges two entries, writing each through [`Matrix::set`].  On
    /// an out-of-range position the matrix is unchanged.
    pub fn swap(&mut self, pos1: (usize, usize), pos2: (usize, usize)) -> (r: Result<(), Error>)
        requires
            old(self).wf(),
        ensures
            r is Ok <==> pos1.0 < old(self).rows_number && pos1.1 < old(self).cols_number && pos2.0
                < old(self).rows_number && pos2.1 < old(self).cols_number,
            r is Ok ==> final(self)@ == g_set(
                g_set(old(self)@, pos1.0 as int, pos1.1 as int, old(self)@[pos2.0 as int][pos2.1 as int]),
                pos2.0 as int,
                pos2.1 as int,
                old(self)@[pos1.0 as int][pos1.1 as int],
            ),
            r is Err ==> final(self)@ == old(self)@,
            r matches Err(e) ==> e matches Error::IndexOutOfBounds(_),
            final(self).wf(),
            final(self).rows_number == old(self).rows_number,
            final(self).cols_number == old(self).cols_number,
    {
        let (row1, col1) = pos1;
        let (row2, col2) = pos2;
        match self.assert_index(row1, col1) {
            Err(e) => {
                return Err(e);
            },
            Ok(()) => {},
        }
        match self.assert_index(row2, col2) {
            Err(e) => {
                return Err(e);
            },
            Ok(()) => {},
        }
        let temp = match self.get(row1, col1) {
            Ok(e) => e,
            Err(_) => unreached(),
        };
        let other = match self.get(row2, col2) {
            Ok(e) => e,
            Err(_) => unreached(),
        };
        match self.set(row1, col1, other) {
            Ok(()) => {},
            Err(_) => unreached(),
        }
        match self.set(row2, col2, temp) {
            Ok(()) => {},
            Err(_) => unreached(),
        }
        Ok(())
    }

    /// Exchanges two rows.  On an out-of-range index the matrix is
    /// unchanged.
    pub fn swap_rows(&mut self, row1: usize, row2: usize) -> (r: Result<(), Error>)
        requires
            old(self).wf(),
        ensures
            r is Ok <==> row1 < old(self).rows_number && row2 < old(self).rows_number,
            r is Ok ==> final(self)@ == g_swap_rows(old(self)@, row1 as int, row2 as int),
            r is Err ==> final(self)@ == old(self)@,
            r matches Err(e) ==> e matches Error::IndexOutOfBounds(_),
            final(self).wf(),
            final(self).rows_number == old(self).rows_number,
            final(self).cols_number == old(self).cols_number,
    {
        match self.assert_index(row1, 0) {
            Err(e) => {
                return Err(e);
            },
            Ok(()) => {},
        }
        match self.assert_index(row2, 0) {
            Err(e) => {
                return Err(e);
            },
            Ok(()) => {},
        }
        let ghost initial = self@;
        let first = clone_row(&self.elements[row1]);
        let second = clone_row(&self.elements[row2]);
        self.elements[row1] = second;
        self.elements[row2] = first;
        proof {
            assert(self@ =~~= g_swap_rows(initial, row1 as int, row2 as int));
        }
        Ok(())
    }

    /// Exchanges two columns.  On an out-of-range index the matrix is
    /// unchanged.
    pub fn swap_cols(&mut self, col1: usize, col2: usize) -> (r: Result<(), Error>)
        requires
            old(self).wf(),
        ensures
            r is Ok <==> col1 < old(self).cols_number && col2 < old(self).cols_number,
            r is Ok ==> final(self)@ == Seq::new(
                old(self)@.len(),
                |i: int|
                    old(self)@[i].update(col1 as int, old(self)@[i][col2 as int]).update(
                        col2 as int,
                        old(self)@[i][col1 as int],
                    ),
            ),
            r is Err ==> final(self)@ == old(self)@,
            r matches Err(e) ==> e matches Error::IndexOutOfBounds(_),
            final(self).wf(),
            final(self).rows_number == old(self).rows_number,
            final(self).cols_number == old(self).cols_number,
    {
        match self.assert_index(0, col1) {
            Err(e) => {
                return Err(e);
            },
            Ok(()) => {},
        }
        match self.assert_index(0, col2) {
            Err(e) => {
                return Err(e);
            },
            Ok(()) => {},
        }
        let ghost initial = self@;
        let mut i: usize = 0;
        while i < self.rows_number
            invariant
                self.wf(),
                col1 < self.cols_number,
                col2 < self.cols_number,
                i <= self.rows_number,
                self.rows_number == old(self).rows_number,
                self.cols_number == old(self).cols_number,
                initial == old(self)@,
                self@.len() == initial.len(),
                forall|k: int|
                    0 <= k < i ==> #[trigger] self@[k] == initial[k].update(
                        col1 as int,
                        initial[k][col2 as int],
                    ).update(col2 as int, initial[k][col1 as int]),
                forall|k: int| i <= k < self@.len() ==> #[trigger] self@[k] == initial[k],
            decreases self.rows_number - i,
        {
            let ghost mid = self@;
            proof {
                assert(mid[i as int].len() == self.cols_number);
            }
            let row_ref = &mut self.elements[i];
            let a = row_ref[col1];
            let b = row_ref[col2];
            row_ref[col1] = b;
            row_ref[col2] = a;
            proof {
                assert(self@[i as int] =~= mid[i as int].update(
                    col1 as int,
                    mid[i as int][col2 as int],
                ).update(col2 as int, mid[i as int][col1 as int]));
                assert(forall|k: int|
                    0 <= k < self@.len() && k != i ==> #[trigger] self@[k] == mid[k]);
            }
            i = i + 1;
        }
        proof {
            assert(self@ =~~= Seq::new(
                initial.len(),
                |i: int|
                    initial[i].update(col1 as int, initial[i][col2 as int]).update(
                        col2 as int,
                        initial[i][col1 as int],
                    ),
            ));
        }
        Ok(())
    }
}

} // verus!
