//! Elements of GF(2^128) and their arithmetic.

use crate::field::bits::{mul_bits, mul_low, xtime};
use vstd::prelude::*;

verus! {

/// An element of GF(2^128). Bit `i` of `bits` is the coefficient of `X^i`; every word is an
/// element, so there is nothing to keep valid.
#[derive(Debug, Clone, Copy, PartialEq, Eq, Structural)]
pub struct B128 {
    pub bits: u128,
}

/// The additive neutral element.
#[verifier::allow_in_spec]
pub fn zero() -> B128
    returns
        (B128 { bits: 0 }),
{
    B128 { bits: 0 }
}

/// The multiplicative neutral element.
#[verifier::allow_in_spec]
pub fn one() -> B128
    returns
        (B128 { bits: 1 }),
{
    B128 { bits: 1 }
}

impl B128 {
    /// Field addition: exclusive or of the coefficients.
    #[verifier::opaque]
    pub open spec fn spec_add(self, rhs: B128) -> B128 {
        B128 { bits: self.bits ^ rhs.bits }
    }

    /// Field multiplication: the reduced product of the two polynomials.
    #[verifier::opaque]
    pub open spec fn spec_mul(self, rhs: B128) -> B128 {
        B128 { bits: mul_bits(self.bits, rhs.bits) }
    }

    /// The element with the given coefficient word.
    pub fn new(bits: u128) -> (r: B128)
        ensures
            r == (B128 { bits }),
    {
        B128 { bits }
    }

    /// The coefficient word.
    pub fn val(self) -> (r: u128)
        ensures
            r == self.bits,
    {
        self.bits
    }
}

impl core::ops::Add for B128 {
    type Output = B128;

    fn add(self, rhs: B128) -> (r: B128) {
        proof {
            reveal(B128::spec_add);
        }
        B128 { bits: self.bits ^ rhs.bits }
    }
}

impl vstd::std_specs::ops::AddSpecImpl for B128 {
    open spec fn obeys_add_spec() -> bool {
        true
    }

    open spec fn add_req(self, rhs: B128) -> bool {
        true
    }

    open spec fn add_spec(self, rhs: B128) -> B128 {
        self.spec_add(rhs)
    }
}

impl core::ops::Mul for B128 {
    type Output = B128;

    fn mul(self, rhs: B128) -> (r: B128) {
        proof {
            reveal(B128::spec_mul);
        }
        let mut a: u128 = self.bits;
        let mut b: u128 = rhs.bits;
        let mut acc: u128 = 0;
        let mut k: u32 = 128;
        proof {
            crate::field::bits::lemma_xor(mul_low(a, b, 128), 0, 0, 0);
        }
        while k > 0
            invariant
                k <= 128,
                acc ^ mul_low(a, b, k as nat) == mul_bits(self.bits, rhs.bits),
            decreases k,
        {
            let term: u128 = if b & 1 == 1 {
                a
            } else {
                0
            };
            let fold: u128 = if a >> 127 == 1 {
                0x87
            } else {
                0
            };
            proof {
                crate::field::bits::lemma_xor(
                    acc,
                    term,
                    mul_low(xtime(a), b >> 1u128, (k - 1) as nat),
                    0,
                );
            }
            acc = acc ^ term;
            a = (a << 1) ^ fold;
            b = b >> 1;
            k = k - 1;
        }
        proof {
            crate::field::bits::lemma_xor(acc, 0, 0, 0);
        }
        B128 { bits: acc }
    }
}

impl vstd::std_specs::ops::MulSpecImpl for B128 {
    open spec fn obeys_mul_spec() -> bool {
        true
    }

    open spec fn mul_req(self, rhs: B128) -> bool {
        true
    }

    open spec fn mul_spec(self, rhs: B128) -> B128 {
        self.spec_mul(rhs)
    }
}

} // verus!
