//! Dense linear algebra over exact bounded fractions.
//!
//! The crate provides a matrix type together with the classical
//! elimination-based operations: row echelon reduction, reduced row echelon
//! reduction (optionally replaying the row operations onto a companion
//! matrix), LU decomposition with partial pivoting, determinants, cofactors,
//! adjugates and inversion.  Every element is an exact fraction with bounded
//! numerator and denominator, and every operation is specified against a
//! mathematical model of that fraction arithmetic.

use vstd::prelude::*;

pub mod rat;

pub mod element;
pub mod matrix;
pub mod decomposition;
pub mod display;
pub mod operations;
pub mod vector;

verus! {

/// Errors surfaced by matrix operations.
#[derive(Debug, Clone, Copy, PartialEq, Eq)]
pub enum Error {
    /// An operation is not valid for the given operands: mismatched
    /// dimensions, a companion matrix with the wrong number of rows, a
    /// matrix that cannot be inverted, or a value that left the range
    /// representable by [`crate::element::MatrixElement`].
    InvalidOperation(&'static str),
    /// A row or column index lies beyond the matrix extent.
    IndexOutOfBounds(&'static str),
    /// A square-only operation was applied to a non-square matrix.
    ShouldBeSquare(&'static str),
}

impl Error {
    /// A short description of the error, usable by callers that report it.
    pub fn message(&self) -> (r: &'static str)
        ensures
            r == match *self {
                Error::InvalidOperation(m) => m,
                Error::IndexOutOfBounds(m) => m,
                Error::ShouldBeSquare(m) => m,
            },
    {
        match *self {
            Error::InvalidOperation(m) => m,
            Error::IndexOutOfBounds(m) => m,
            Error::ShouldBeSquare(m) => m,
        }
    }
}

} // verus!
