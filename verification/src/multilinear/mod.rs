//! Multilinear polynomials over the Boolean cube, given by their table of values.
//!
//! Points are low-coordinate-first: coordinate `k` of a point belongs to bit `k` of an index.

pub mod eq;
pub mod exp2;
pub mod mle;
pub mod univariate;
