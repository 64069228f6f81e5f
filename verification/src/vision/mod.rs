//! Gadgets for the Vision permutations over GF(2^128).
//!
//! A field element is carried by two 64-bit wires: `lo` holds the coefficients of `1, X, .., X^63`
//! and `hi` those of `X^64, .., X^127`. The expensive maps of a permutation stay out of the
//! constraints: their results are hints, and each hint is pinned down by cheap forward constraints.
//! What every gadget states is therefore twofold: any assignment that satisfies the circuit carries
//! the right values, and the assignment that follows the hints satisfies the circuit.

pub mod circuit;
pub mod gadgets;
pub mod hints;
pub mod permutation;
pub mod words;
