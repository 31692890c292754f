//! Inversion by full reduction against an identity companion.

use crate::decomposition::lu::id_grid;
use crate::element::lemma_vals_index;
use crate::matrix::{grid_eps_eq, lemma_grid_index, Matrix};
use crate::operations::reduce::{rref_ok, rref_rec};
use crate::Error;
use vstd::prelude::*;

verus! {

broadcast use lemma_vals_index, lemma_grid_index;

impl Matrix {
    /// The inverse of the matrix, computed by reducing it to reduced
    /// row echelon form with an identity companion.  Fails where the
    /// reduced matrix is not, up to the tolerance, the identity, and
    /// where an intermediate value leaves the representable range.
    pub fn inverse(&self) -> (r: Result<Self, Error>)
        requires
            self.wf(),
        ensures
            r is Ok <==> rref_ok(
                self@,
                id_grid(self.rows_number as int),
                self.rows_number as int,
                self.cols_number as int,
            ) && grid_eps_eq(
                rref_rec(
                    self@,
                    id_grid(self.rows_number as int),
                    self.rows_number as int,
                    self.cols_number as int,
                ).0,
                id_grid(self.rows_number as int),
            ),
            r matches Ok(v) ==> v@ == rref_rec(
                self@,
                id_grid(self.rows_number as int),
                self.rows_number as int,
                self.cols_number as int,
            ).1 && v.wf() && v.rows_number == self.rows_number && v.cols_number == self.rows_number,
            r matches Err(e) ==> e matches Error::InvalidOperation(_),
    {
        let identity = Self::identity(self.rows_number);
        proof {
            assert(identity@ =~~= id_grid(self.rows_number as int));
        }
        let (origin, applied) = match self.to_rref_apply_to(identity) {
            Ok(v) => v,
            Err(e) => {
                return Err(e);
            },
        };
        let check = Self::identity(self.rows_number);
        proof {
            assert(check@ =~~= id_grid(self.rows_number as int));
        }
        if !origin.epsilon_equals(&check) {
            return Err(Error::InvalidOperation("The matrix cannot be inverted"));
        }
        Ok(applied)
    }

    /// True where the matrix reduces, up to the tolerance, to the
    /// identity, which is when [`Matrix::inverse`] succeeds.  Fails
    /// only where an intermediate value leaves the representable range.
    pub fn can_be_inverted(&self) -> (r: Result<bool, Error>)
        requires
            self.wf(),
        ensures
            r is Ok <==> rref_ok(self@, self@, self.rows_number as int, self.cols_number as int),
            r matches Ok(b) ==> b == grid_eps_eq(
                rref_rec(self@, self@, self.rows_number as int, self.cols_number as int).0,
                id_grid(self.rows_number as int),
            ),
            r matches Err(e) ==> e matches Error::InvalidOperation(_),
    {
        let reduced = match self.to_rref() {
            Ok(v) => v,
            Err(e) => {
                return Err(e);
            },
        };
        let check = Self::identity(self.rows_number);
        proof {
            assert(check@ =~~= id_grid(self.rows_number as int));
        }
        Ok(reduced.epsilon_equals(&check))
    }
}

} // verus!
