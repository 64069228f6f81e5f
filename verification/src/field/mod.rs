//! The field GF(2^128) in its GHASH presentation: polynomials over GF(2) modulo
//! `X^128 + X^7 + X^2 + X + 1`.

pub mod bits;
pub mod element;
pub mod inverse;
pub mod ring;
pub mod sums;
