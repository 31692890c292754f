//! The operation surface of [`crate::matrix::Matrix`], one module per
//! family of operations.

pub mod add;
pub mod cofactor;
pub mod det;
pub mod equals;
pub mod adj;
pub mod get;
pub mod inverse;
pub mod mul;
pub mod mul_vec;
pub mod reduce;
pub mod row_ops;
pub mod scale;
pub mod set;
pub mod swap;
pub mod transpose;
