//! Field elements as pairs of words.

use crate::field::bits::xtime;
use crate::field::element::{one, zero, B128};
use crate::word::sar64;
use vstd::prelude::*;

verus! {

/// The element `X`.
#[verifier::allow_in_spec]
pub fn x() -> B128
    returns
        (B128 { bits: 2 }),
{
    B128 { bits: 2 }
}

/// The inverse of `X`: `X^127 + X^6 + X + 1`.
#[verifier::allow_in_spec]
pub fn x_inv() -> B128
    returns
        (B128 { bits: 0x8000_0000_0000_0000_0000_0000_0000_0043 }),
{
    B128 { bits: 0x8000_0000_0000_0000_0000_0000_0000_0043 }
}

/// The coefficients of `1, X, .., X^63`.
pub open spec fn low(x: B128) -> u64 {
    x.bits as u64
}

/// The coefficients of `X^64, .., X^127`.
pub open spec fn high(x: B128) -> u64 {
    (x.bits >> 64u128) as u64
}

/// The element with the given words.
pub open spec fn join(lo: u64, hi: u64) -> B128 {
    B128 { bits: ((hi as u128) << 64u128) | (lo as u128) }
}

/// Splitting and joining undo each other.
proof fn lemma_split_bits(x: u128, lo: u64, hi: u64)
    by (bit_vector)
    ensures
        (((x >> 64u128) as u64) as u128) << 64u128 | ((x as u64) as u128) == x,
        ((((hi as u128) << 64u128) | (lo as u128)) as u64) == lo,
        (((((hi as u128) << 64u128) | (lo as u128)) >> 64u128) as u64) == hi,
{
}

/// Joining keeps exclusive or.
proof fn lemma_join_bits(a: u64, b: u64, c: u64, d: u64)
    by (bit_vector)
    ensures
        (((b as u128) << 64u128) | (a as u128)) ^ (((d as u128) << 64u128) | (c as u128)) == (((b
            ^ d) as u128) << 64u128) | ((a ^ c) as u128),
        (((0u64 as u128) << 64u128) | (0u64 as u128)) == 0u128,
{
}

/// The shift form of multiplication by `X` on words.
proof fn lemma_mul_x_bits(lo: u64, hi: u64)
    by (bit_vector)
    ensures
        ((((hi << 1u64) ^ (lo >> 63u64)) as u128) << 64u128) | (((lo << 1u64) ^ (sar64(hi, 63)
            & 0x87u64)) as u128) == xtime(((hi as u128) << 64u128) | (lo as u128)),
{
}

/// An element is the join of its words, and the words of a join are the words joined.
pub proof fn law_words(x: B128, lo: u64, hi: u64)
    ensures
        join(low(x), high(x)) == x,
        low(join(lo, hi)) == lo,
        high(join(lo, hi)) == hi,
{
    lemma_split_bits(x.bits, lo, hi);
}

/// Adding elements is exclusive or of their words.
pub proof fn law_join_add(a: u64, b: u64, c: u64, d: u64)
    ensures
        join(a, b) + join(c, d) == join(a ^ c, b ^ d),
        join(0, 0) == zero(),
{
    reveal(B128::spec_add);
    lemma_join_bits(a, b, c, d);
}

/// Shifting the words up by one and folding the lost bit back in is multiplication by `X`.
pub proof fn law_mul_x_words(lo: u64, hi: u64)
    ensures
        join((lo << 1u64) ^ (sar64(hi, 63) & 0x87), (hi << 1u64) ^ (lo >> 63u64)) == x() * join(
            lo,
            hi,
        ),
{
    lemma_mul_x_bits(lo, hi);
    let a = join(lo, hi).bits;
    reveal(B128::spec_mul);
    crate::field::bits::lemma_one_mul_bits(a);
    crate::field::bits::lemma_mul_bits_xtime(1, a);
    crate::field::bits::lemma_xtime_values();
}

/// `x_inv` is the inverse of `X`.
pub proof fn law_x_inv()
    ensures
        x() * x_inv() == one(),
{
    reveal(B128::spec_mul);
    crate::field::bits::lemma_xtime_values();
    crate::field::bits::lemma_one_mul_bits(x_inv().bits);
    crate::field::bits::lemma_mul_bits_xtime(1, x_inv().bits);
}

/// The words of an element: first the low one.
pub fn ghash_to_words(x: B128) -> (r: (u64, u64))
    ensures
        r.0 == low(x),
        r.1 == high(x),
{
    (x.bits as u64, (x.bits >> 64) as u64)
}

/// The element with the given words.
pub fn words_to_ghash(lo: u64, hi: u64) -> (x: B128)
    ensures
        x == join(lo, hi),
{
    B128::new(((hi as u128) << 64) | (lo as u128))
}

/// The value of an element's bits: the high word counts `2^64` times.
pub proof fn law_words_value(x: B128, lo: u64, hi: u64)
    ensures
        x.bits as int == high(x) * 0x1_0000_0000_0000_0000 + low(x),
        join(lo, hi).bits as int == hi * 0x1_0000_0000_0000_0000 + lo,
{
    let (l, h) = (low(x), high(x));
    law_words(x, l, h);
    lemma_join_value(l, h);
    lemma_join_value(lo, hi);
}

/// Joining two words, as arithmetic.
proof fn lemma_join_value(lo: u64, hi: u64)
    by (bit_vector)
    ensures
        (((hi as u128) << 64u128) | (lo as u128)) == hi * 0x1_0000_0000_0000_0000 + lo,
{
}

} // verus!
