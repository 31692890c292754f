//! Matrix decompositions.

pub mod lu;
