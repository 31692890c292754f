//! Row-addition transformations.

use crate::matrix::{lemma_grid_index, row_snap, Matrix};
use crate::vector::{row_add, row_ok, row_scale};
use crate::element::{lemma_vals_index, MatrixElement};
use crate::Error;
use vstd::prelude::*;

verus! {

broadcast use lemma_vals_index, lemma_grid_index;

impl Matrix {
    /// Adds the row at `from` to the row at `to`, entry by entry.  On an
    /// out-of-range index, or where an entry of the exact sum leaves the
    /// representable range, the matrix is unchanged.
    pub fn add_row_from_to(&mut self, from: usize, to: usize) -> (r: Result<(), Error>)
        requires
            old(self).wf(),
        ensures
            r is Ok <==> from < old(self).rows_number && to < old(self).rows_number && row_ok(
                row_add(old(self)@[to as int], old(self)@[from as int]),
            ),
            r is Ok ==> final(self)@ == old(self)@.update(
                to as int,
                row_snap(row_add(old(self)@[to as int], old(self)@[from as int])),
            ),
            r is Err ==> final(self)@ == old(self)@,
            r matches Err(e) ==> if from < old(self).rows_number && to < old(self).rows_number {
                e matches Error::InvalidOperation(_)
            } else {
                e matches Error::IndexOutOfBounds(_)
            },
            final(self).wf(),
            final(self).rows_number == old(self).rows_number,
            final(self).cols_number == old(self).cols_number,
    {
        let row_from = match self.get_row(from) {
            Ok(v) => v,
            Err(e) => {
                return Err(e);
            },
        };
        let row_to = match self.get_row(to) {
            Ok(v) => v,
            Err(e) => {
                return Err(e);
            },
        };
        let sum = match row_to.add(&row_from) {
            Some(v) => v,
            None => {
                return Err(Error::InvalidOperation("Row addition left the representable range"));
            },
        };
        match self.set_row(to, sum) {
            Ok(()) => Ok(()),
            Err(_) => unreached(),
        }
    }

    /// Adds the row at `from`, scaled by `scalar`, to the row at `to`.
    /// On an out-of-range index, or where an entry of the exact result
    /// leaves the representable range, the matrix is unchanged.
    pub fn add_scaled_row_from_to(&mut self, from: usize, to: usize, scalar: MatrixElement) -> (r:
        Result<(), Error>)
        requires
            old(self).wf(),
            scalar.wf(),
        ensures
            r is Ok <==> from < old(self).rows_number && to < old(self).rows_number && row_ok(
                row_add(old(self)@[to as int], row_scale(old(self)@[from as int], scalar@)),
            ),
            r is Ok ==> final(self)@ == old(self)@.update(
                to as int,
                row_snap(
                    row_add(old(self)@[to as int], row_scale(old(self)@[from as int], scalar@)),
                ),
            ),
            r is Err ==> final(self)@ == old(self)@,
            r matches Err(e) ==> if from < old(self).rows_number && to < old(self).rows_number {
                e matches Error::InvalidOperation(_)
            } else {
                e matches Error::IndexOutOfBounds(_)
            },
            final(self).wf(),
            final(self).rows_number == old(self).rows_number,
            final(self).cols_number == old(self).cols_number,
    {
        let row_from = match self.get_row(from) {
            Ok(v) => v,
            Err(e) => {
                return Err(e);
            },
        };
        let row_to = match self.get_row(to) {
            Ok(v) => v,
            Err(e) => {
                return Err(e);
            },
        };
        let scaled = match row_from.scale(scalar) {
            Some(v) => v,
            None => {
                proof {
                    let bad = choose|i: int|
                        0 <= i < row_scale(old(self)@[from as int], scalar@).len() && !crate::rat::r_ok(
                            row_scale(old(self)@[from as int], scalar@)[i],
                        );
                    assert(!row_ok(
                        row_add(old(self)@[to as int], row_scale(old(self)@[from as int], scalar@)),
                    )) by {
                        assert(!crate::rat::r_ok(
                            row_add(
                                old(self)@[to as int],
                                row_scale(old(self)@[from as int], scalar@),
                            )[bad],
                        ));
                    }
                }
                return Err(Error::InvalidOperation("Row scaling left the representable range"));
            },
        };
        let sum = match row_to.add(&scaled) {
            Some(v) => v,
            None => {
                return Err(Error::InvalidOperation("Row addition left the representable range"));
            },
        };
        match self.set_row(to, sum) {
            Ok(()) => Ok(()),
            Err(_) => unreached(),
        }
    }
}

} // verus!
