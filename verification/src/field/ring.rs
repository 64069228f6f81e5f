//! The laws of a commutative ring of characteristic two, proved of [`B128`].

use crate::field::bits::{
    lemma_mul_bits_associates, lemma_mul_bits_commutes, lemma_mul_bits_xor, lemma_one_mul_bits,
    lemma_xor,
};
use crate::field::element::{one, zero, B128};
use vstd::prelude::*;

verus! {

/// Addition is commutative.
pub broadcast proof fn law_add_commutes(a: B128, b: B128)
    ensures
        #[trigger] (a + b) == b + a,
{
    reveal(B128::spec_add);
    lemma_xor(a.bits, b.bits, 0, 0);
}

/// Addition is associative.
pub broadcast proof fn law_add_associates(a: B128, b: B128, c: B128)
    ensures
        #[trigger] ((a + b) + c) == a + (b + c),
{
    reveal(B128::spec_add);
    lemma_xor(a.bits, b.bits, c.bits, 0);
}

/// Every element is its own negative.
pub broadcast proof fn law_add_self(a: B128)
    ensures
        #[trigger] (a + a) == zero(),
{
    reveal(B128::spec_add);
    lemma_xor(a.bits, 0, 0, 0);
}

/// Zero is neutral for addition.
pub broadcast proof fn law_add_zero(a: B128)
    ensures
        #[trigger] (a + zero()) == a,
{
    reveal(B128::spec_add);
    lemma_xor(a.bits, 0, 0, 0);
}

/// Zero is neutral for addition.
pub broadcast proof fn law_zero_add(a: B128)
    ensures
        #[trigger] (zero() + a) == a,
{
    reveal(B128::spec_add);
    lemma_xor(a.bits, 0, 0, 0);
}

/// Multiplication is commutative.
pub broadcast proof fn law_mul_commutes(a: B128, b: B128)
    ensures
        #[trigger] (a * b) == b * a,
{
    reveal(B128::spec_mul);
    lemma_mul_bits_commutes(a.bits, b.bits);
}

/// Multiplication is associative.
pub broadcast proof fn law_mul_associates(a: B128, b: B128, c: B128)
    ensures
        #[trigger] ((a * b) * c) == a * (b * c),
{
    reveal(B128::spec_mul);
    lemma_mul_bits_associates(a.bits, b.bits, c.bits);
}

/// One is neutral for multiplication.
pub broadcast proof fn law_one_mul(a: B128)
    ensures
        #[trigger] (one() * a) == a,
{
    reveal(B128::spec_mul);
    lemma_one_mul_bits(a.bits);
}

/// One is neutral for multiplication.
pub broadcast proof fn law_mul_one(a: B128)
    ensures
        #[trigger] (a * one()) == a,
{
    law_mul_commutes(a, one());
    law_one_mul(a);
}

/// A product with zero is zero.
pub broadcast proof fn law_mul_zero(a: B128)
    ensures
        #[trigger] (a * zero()) == zero(),
{
    reveal(B128::spec_mul);
    lemma_mul_bits_xor(0, 0, a.bits);
}

/// A product with zero is zero.
pub broadcast proof fn law_zero_mul(a: B128)
    ensures
        #[trigger] (zero() * a) == zero(),
{
    law_mul_commutes(zero(), a);
    law_mul_zero(a);
}

/// Multiplication distributes over addition.
pub broadcast proof fn law_distributes(a: B128, b: B128, c: B128)
    ensures
        #[trigger] (a * (b + c)) == a * b + a * c,
{
    reveal(B128::spec_mul);
    reveal(B128::spec_add);
    lemma_mul_bits_xor(b.bits, c.bits, a.bits);
}

/// Multiplication distributes over addition.
pub broadcast proof fn law_distributes_right(a: B128, b: B128, c: B128)
    ensures
        #[trigger] ((a + b) * c) == a * c + b * c,
{
    reveal(B128::spec_mul);
    reveal(B128::spec_add);
    lemma_mul_bits_xor(a.bits, b.bits, c.bits);
}

/// The facts about zero and one, and that equal summands cancel.
pub broadcast group group_units {
    law_add_self,
    law_add_zero,
    law_zero_add,
    law_mul_one,
    law_one_mul,
    law_mul_zero,
    law_zero_mul,
}

/// Commutativity and associativity of addition.
pub broadcast group group_add_ac {
    law_add_commutes,
    law_add_associates,
}

/// Commutativity and associativity of multiplication.
pub broadcast group group_mul_ac {
    law_mul_commutes,
    law_mul_associates,
}

/// Both forms of distributivity.
pub broadcast group group_distributes {
    law_distributes,
    law_distributes_right,
}

/// `(a + b) + (c + d) == (a + c) + (b + d)`.
pub proof fn lemma_add_exchange(a: B128, b: B128, c: B128, d: B128)
    ensures
        (a + b) + (c + d) == (a + c) + (b + d),
{
    reveal(B128::spec_add);
    lemma_xor(a.bits, b.bits, c.bits, d.bits);
}

/// `(a * b) * (c * d) == (a * c) * (b * d)`.
pub proof fn lemma_mul_exchange(a: B128, b: B128, c: B128, d: B128)
    ensures
        (a * b) * (c * d) == (a * c) * (b * d),
{
    law_mul_associates(a, b, c * d);
    law_mul_associates(b, c, d);
    law_mul_commutes(b, c);
    law_mul_associates(c, b, d);
    law_mul_associates(a, c, b * d);
}

/// A sum is zero exactly when its two summands are equal.
pub proof fn lemma_sum_zero(a: B128, b: B128)
    ensures
        (a + b == zero()) == (a == b),
{
    broadcast use group_units;

    law_add_associates(a, b, b);
    law_add_associates(b, a, a);
    if a + b == zero() {
        assert((a + b) + b == zero() + b);
    }
}

/// Adding the same element twice changes nothing.
pub proof fn lemma_add_cancel(a: B128, b: B128)
    ensures
        (a + b) + b == a,
        b + (b + a) == a,
{
    broadcast use group_units;

    law_add_associates(a, b, b);
    law_add_associates(b, b, a);
}

/// Adding is exclusive or of the coefficient words.
pub proof fn law_add_is_xor(a: B128, b: B128)
    ensures
        (a + b).bits == a.bits ^ b.bits,
{
    reveal(B128::spec_add);
}

/// Multiplying by `X` doubles the coefficient word, and where that loses the top bit, `X^7 + X^2 + X + 1`
/// is added for it.
pub proof fn law_mul_x(a: B128)
    ensures
        a.bits < 0x8000_0000_0000_0000_0000_0000_0000_0000 ==> (B128 { bits: 2 } * a).bits == 2 * a.bits,
        a.bits >= 0x8000_0000_0000_0000_0000_0000_0000_0000 ==> (B128 { bits: 2 } * a).bits == ((2 * (
        a.bits - 0x8000_0000_0000_0000_0000_0000_0000_0000)) as u128) ^ 0x87,
{
    let w = a.bits;
    reveal(B128::spec_mul);
    crate::field::bits::lemma_one_mul_bits(w);
    crate::field::bits::lemma_mul_bits_xtime(1, w);
    crate::field::bits::lemma_xtime_values();
    lemma_xtime_value(w);
}

/// `xtime` in arithmetic.
proof fn lemma_xtime_value(w: u128)
    by (bit_vector)
    ensures
        w < 0x8000_0000_0000_0000_0000_0000_0000_0000 ==> crate::field::bits::xtime(w) == 2 * w,
        w >= 0x8000_0000_0000_0000_0000_0000_0000_0000 ==> crate::field::bits::xtime(w) == ((2 * (w
            - 0x8000_0000_0000_0000_0000_0000_0000_0000)) as u128) ^ 0x87,
{
}

} // verus!
