//! Every nonzero element of GF(2^128) has an inverse.
//!
//! The proof goes by the squaring map `s`. It is additive, and `s` applied 128 times fixes `X`,
//! hence every element; so `e = a^(2^128 - 1)` satisfies `e * a == a` and `e * e == e`. The only
//! elements that squaring fixes are zero and one, and `e == 0` would force `a == 0`.

use crate::field::bits::{
    lemma_basis_induction, lemma_mul_bits_commutes, lemma_mul_bits_xor, lemma_mul_bits_xtime,
    lemma_one_mul_bits, lemma_xpow_one, mul_bits, xpow, xtime,
};
use crate::field::element::{one, zero, B128};
use crate::field::ring::{
    group_units, law_add_associates, law_distributes, law_distributes_right, law_mul_associates,
    law_mul_commutes, lemma_mul_exchange,
};
use vstd::prelude::*;

verus! {

/// Moves bit `i` of the low half of a word to position `2 * i`.
pub open spec fn spread(x: u128) -> u128 {
    let a = (x | (x << 32u128)) & 0x0000_0000_FFFF_FFFF_0000_0000_FFFF_FFFFu128;
    let b = (a | (a << 16u128)) & 0x0000_FFFF_0000_FFFF_0000_FFFF_0000_FFFFu128;
    let c = (b | (b << 8u128)) & 0x00FF_00FF_00FF_00FF_00FF_00FF_00FF_00FFu128;
    let d = (c | (c << 4u128)) & 0x0F0F_0F0F_0F0F_0F0F_0F0F_0F0F_0F0F_0F0Fu128;
    let e = (d | (d << 2u128)) & 0x3333_3333_3333_3333_3333_3333_3333_3333u128;
    (e | (e << 1u128)) & 0x5555_5555_5555_5555_5555_5555_5555_5555u128
}

/// The square of a polynomial over GF(2), modulo `X^128 + X^7 + X^2 + X + 1`: the coefficients
/// spread out, and the upper half folded back in.
pub open spec fn square_bits(a: u128) -> u128 {
    let lo = spread(a & 0xFFFF_FFFF_FFFF_FFFFu128);
    let h = spread(a >> 64u128);
    let t = (h >> 127u128) ^ (h >> 126u128) ^ (h >> 121u128);
    lo ^ h ^ (h << 1u128) ^ (h << 2u128) ^ (h << 7u128) ^ t ^ (t << 1u128) ^ (t << 2u128) ^ (t
        << 7u128)
}

spec fn square_bits_4(a: u128) -> u128 {
    let b = square_bits(a);
    let c = square_bits(b);
    let d = square_bits(c);
    square_bits(d)
}

spec fn square_bits_16(a: u128) -> u128 {
    let b = square_bits_4(a);
    let c = square_bits_4(b);
    let d = square_bits_4(c);
    square_bits_4(d)
}

spec fn square_bits_64(a: u128) -> u128 {
    let b = square_bits_16(a);
    let c = square_bits_16(b);
    let d = square_bits_16(c);
    square_bits_16(d)
}

proof fn lemma_square_bits_xpow(i: nat)
    ensures
        mul_bits(xpow(1, i), xpow(1, i)) == square_bits(xpow(1, i)),
    decreases i,
{
    if i == 0 {
        lemma_one_mul_bits(1);
        assert(square_bits(1) == 1) by (bit_vector);
    } else {
        let a = xpow(1, (i - 1) as nat);
        lemma_square_bits_xpow((i - 1) as nat);
        lemma_mul_bits_xtime(a, xtime(a));
        lemma_mul_bits_xtime(a, a);
        assert(square_bits(xtime(a)) == xtime(xtime(square_bits(a)))) by (bit_vector);
    }
}

/// The bit formula for squares agrees with multiplication.
proof fn lemma_square_bits(a: u128)
    ensures
        mul_bits(a, a) == square_bits(a),
{
    let p = |x: u128| mul_bits(x, x) == square_bits(x);
    assert(p(0)) by {
        lemma_mul_bits_xor(0, 0, 0);
        assert(square_bits(0) == 0) by (bit_vector);
    }
    assert forall|i: u128| i < 128 implies #[trigger] p(1u128 << i) by {
        lemma_xpow_one(i);
        lemma_square_bits_xpow(i as nat);
    }
    assert forall|x: u128, y: u128| p(x) && p(y) implies #[trigger] p(x ^ y) by {
        lemma_mul_bits_xor(x, y, x ^ y);
        lemma_mul_bits_xor(x, y, x);
        lemma_mul_bits_xor(x, y, y);
        lemma_mul_bits_commutes(x, y);
        let (xx, xy, yy) = (mul_bits(x, x), mul_bits(x, y), mul_bits(y, y));
        assert((xx ^ xy) ^ (xy ^ yy) == xx ^ yy) by (bit_vector);
        assert(square_bits(x ^ y) == square_bits(x) ^ square_bits(y)) by (bit_vector);
    }
    lemma_basis_induction(p);
    assert(p(a));
}

/// `a` squared `n` times, which is `a` to the power `2^n`.
pub open spec fn frobenius(a: B128, n: nat) -> B128
    decreases n,
{
    if n == 0 {
        a
    } else {
        let b = frobenius(a, (n - 1) as nat);
        b * b
    }
}

/// Squaring is additive and multiplicative, however often it is applied.
pub(crate) proof fn lemma_frobenius_hom(a: B128, b: B128, n: nat)
    ensures
        frobenius(a + b, n) == frobenius(a, n) + frobenius(b, n),
        frobenius(a * b, n) == frobenius(a, n) * frobenius(b, n),
    decreases n,
{
    if n > 0 {
        lemma_frobenius_hom(a, b, (n - 1) as nat);
        let x = frobenius(a, (n - 1) as nat);
        let y = frobenius(b, (n - 1) as nat);
        broadcast use group_units;

        law_distributes(x + y, x, y);
        law_distributes_right(x, y, x);
        law_distributes_right(x, y, y);
        law_mul_commutes(x, y);
        law_add_associates(x * x, x * y, x * y + y * y);
        law_add_associates(x * y, x * y, y * y);
        lemma_mul_exchange(x, y, x, y);
    }
}

proof fn lemma_frobenius_adds(a: B128, m: nat, n: nat)
    ensures
        frobenius(frobenius(a, m), n) == frobenius(a, m + n),
    decreases n,
{
    if n > 0 {
        lemma_frobenius_adds(a, m, (n - 1) as nat);
    }
}

proof fn lemma_frobenius_4(a: u128)
    ensures
        frobenius(B128 { bits: a }, 4) == (B128 { bits: square_bits_4(a) }),
{
    reveal(B128::spec_mul);
    reveal_with_fuel(frobenius, 5);
    lemma_square_bits(a);
    let b = square_bits(a);
    lemma_square_bits(b);
    let c = square_bits(b);
    lemma_square_bits(c);
    lemma_square_bits(square_bits(c));
}

proof fn lemma_frobenius_16(a: u128)
    ensures
        frobenius(B128 { bits: a }, 16) == (B128 { bits: square_bits_16(a) }),
{
    let e = B128 { bits: a };
    let b = square_bits_4(a);
    let c = square_bits_4(b);
    lemma_frobenius_4(a);
    lemma_frobenius_4(b);
    lemma_frobenius_4(c);
    lemma_frobenius_4(square_bits_4(c));
    lemma_frobenius_adds(e, 4, 4);
    lemma_frobenius_adds(e, 8, 4);
    lemma_frobenius_adds(e, 12, 4);
}

proof fn lemma_frobenius_64(a: u128)
    ensures
        frobenius(B128 { bits: a }, 64) == (B128 { bits: square_bits_64(a) }),
{
    let e = B128 { bits: a };
    let b = square_bits_16(a);
    let c = square_bits_16(b);
    lemma_frobenius_16(a);
    lemma_frobenius_16(b);
    lemma_frobenius_16(c);
    lemma_frobenius_16(square_bits_16(c));
    lemma_frobenius_adds(e, 16, 16);
    lemma_frobenius_adds(e, 32, 16);
    lemma_frobenius_adds(e, 48, 16);
}

/// Squaring 128 times fixes `X`.
proof fn lemma_frobenius_128_of_x()
    ensures
        frobenius(B128 { bits: 2 }, 128) == (B128 { bits: 2 }),
{
    lemma_frobenius_64(2);
    lemma_frobenius_64(square_bits_64(2));
    lemma_frobenius_adds(B128 { bits: 2 }, 64, 64);
    assert(square_bits_64(square_bits_64(2u128)) == 2u128) by (bit_vector);
}

proof fn lemma_frobenius_of_unit(n: nat)
    ensures
        frobenius(one(), n) == one(),
        frobenius(zero(), n) == zero(),
    decreases n,
{
    broadcast use group_units;

    if n > 0 {
        lemma_frobenius_of_unit((n - 1) as nat);
    }
}

proof fn lemma_frobenius_128_of_power(i: nat)
    ensures
        frobenius(B128 { bits: xpow(1, i) }, 128) == (B128 { bits: xpow(1, i) }),
    decreases i,
{
    if i == 0 {
        lemma_frobenius_of_unit(128);
    } else {
        let a = xpow(1, (i - 1) as nat);
        lemma_frobenius_128_of_power((i - 1) as nat);
        lemma_frobenius_128_of_x();
        lemma_frobenius_hom(B128 { bits: a }, B128 { bits: 2 }, 128);
        assert((B128 { bits: a }) * (B128 { bits: 2 }) == (B128 { bits: xtime(a) })) by {
            reveal(B128::spec_mul);
            lemma_mul_bits_xtime(a, 1);
            lemma_one_mul_bits(a);
            lemma_mul_bits_commutes(a, 1);
            crate::field::bits::lemma_xtime_values();
        }
    }
}

/// `a` to the power `2^128` is `a`.
pub proof fn law_frobenius_128(a: B128)
    ensures
        frobenius(a, 128) == a,
{
    let p = |x: u128| frobenius(B128 { bits: x }, 128) == (B128 { bits: x });
    assert(p(0)) by {
        lemma_frobenius_of_unit(128);
    }
    assert forall|i: u128| i < 128 implies #[trigger] p(1u128 << i) by {
        lemma_xpow_one(i);
        lemma_frobenius_128_of_power(i as nat);
    }
    assert forall|x: u128, y: u128| p(x) && p(y) implies #[trigger] p(x ^ y) by {
        lemma_frobenius_hom(B128 { bits: x }, B128 { bits: y }, 128);
        reveal(B128::spec_add);
    }
    lemma_basis_induction(p);
    assert(p(a.bits));
}

/// Squaring fixes only zero and one.
pub proof fn law_idempotents(e: B128)
    requires
        e * e == e,
    ensures
        e == zero() || e == one(),
{
    reveal(B128::spec_mul);
    lemma_square_bits(e.bits);
    let a = e.bits;
    assert(square_bits(a) == a ==> a == 0 || a == 1) by (bit_vector);
}

/// The product of `a^(2^k)` over `1 <= k <= n`.
pub open spec fn inverse_product(a: B128, n: nat) -> B128
    decreases n,
{
    if n == 0 {
        one()
    } else {
        inverse_product(a, (n - 1) as nat) * frobenius(a, n)
    }
}

/// `a * inverse_product(a, n)` squared is that product with `n + 1`, times `a`.
proof fn lemma_inverse_product(a: B128, n: nat)
    ensures
        (a * inverse_product(a, n)) * (a * inverse_product(a, n)) == inverse_product(
            a,
            (n + 1) as nat,
        ),
    decreases n,
{
    broadcast use group_units;

    let q = inverse_product(a, n);
    if n == 0 {
        reveal_with_fuel(frobenius, 2);
        reveal_with_fuel(inverse_product, 2);
    } else {
        let r = inverse_product(a, (n - 1) as nat);
        let f = frobenius(a, n);
        lemma_inverse_product(a, (n - 1) as nat);
        law_mul_associates(a, r, f);
        lemma_mul_exchange(a * r, f, a * r, f);
    }
}

/// For a nonzero element, the product of its conjugates other than itself is its inverse.
proof fn lemma_inverse_product_inverts(a: B128)
    requires
        a != zero(),
    ensures
        a * inverse_product(a, 127) == one(),
{
    broadcast use group_units;

    let g = inverse_product(a, 127);
    let e = a * g;
    lemma_inverse_product(a, 127);
    law_frobenius_128(a);
    // e * e == g * a^(2^128) == g * a == e
    law_mul_commutes(g, a);
    law_idempotents(e);
    if e == zero() {
        // a == a * e would then be zero: unroll the conjugate product once more.
        lemma_product_times_conjugate(a);
    }
}

/// `a^(2^128 - 1) * a == a^(2^128)`.
proof fn lemma_product_times_conjugate(a: B128)
    ensures
        (a * inverse_product(a, 127)) * a == a,
{
    law_frobenius_128(a);
    lemma_power_chain(a, 127);
    law_mul_commutes(a, inverse_product(a, 127));
    law_mul_associates(inverse_product(a, 127), a, a);
    reveal_with_fuel(frobenius, 2);
}

/// `inverse_product(a, n) * (a * a) == a^(2^(n+1))`.
proof fn lemma_power_chain(a: B128, n: nat)
    ensures
        inverse_product(a, n) * (a * a) == frobenius(a, (n + 1) as nat),
    decreases n,
{
    broadcast use group_units;

    reveal_with_fuel(frobenius, 2);
    if n > 0 {
        lemma_power_chain(a, (n - 1) as nat);
        let r = inverse_product(a, (n - 1) as nat);
        let f = frobenius(a, n);
        law_mul_associates(r, f, a * a);
        law_mul_commutes(f, a * a);
        law_mul_associates(r, a * a, f);
    }
}

/// The inverse of a nonzero element, and zero for zero.
pub open spec fn inv(a: B128) -> B128 {
    if a == zero() {
        zero()
    } else {
        choose|w: B128| #[trigger] (a * w) == one()
    }
}

/// A nonzero element times its inverse is one.
pub proof fn law_inverse(a: B128)
    requires
        a != zero(),
    ensures
        a * inv(a) == one(),
        inv(a) * a == one(),
        inv(a) != zero(),
{
    broadcast use group_units;

    lemma_inverse_product_inverts(a);
    let w = choose|w: B128| #[trigger] (a * w) == one();
    assert(a * w == one());
    law_mul_commutes(a, inv(a));
}

/// An inverse is unique.
pub proof fn law_inverse_unique(a: B128, w: B128)
    requires
        a * w == one(),
    ensures
        a != zero(),
        w == inv(a),
{
    broadcast use group_units;

    if a == zero() {
        assert(zero() * w == zero());
    }
    law_inverse(a);
    law_mul_associates(inv(a), a, w);
}

/// A product is zero only when one of its factors is.
pub proof fn law_no_zero_divisors(a: B128, b: B128)
    ensures
        (a * b == zero()) == (a == zero() || b == zero()),
{
    broadcast use group_units;

    if a != zero() && a * b == zero() {
        law_inverse(a);
        law_mul_associates(inv(a), a, b);
    }
}

/// The inverse of a product is the product of the inverses.
pub proof fn law_inverse_of_product(a: B128, b: B128)
    ensures
        inv(a * b) == inv(a) * inv(b),
{
    broadcast use group_units;

    law_no_zero_divisors(a, b);
    if a != zero() && b != zero() {
        law_inverse(a);
        law_inverse(b);
        lemma_mul_exchange(a, b, inv(a), inv(b));
        law_inverse_unique(a * b, inv(a) * inv(b));
    }
}

/// A common nonzero factor may be cancelled.
pub proof fn law_mul_cancel(a: B128, b: B128, c: B128)
    requires
        a != zero(),
        a * b == a * c,
    ensures
        b == c,
{
    broadcast use group_units;

    law_inverse(a);
    law_mul_associates(inv(a), a, b);
    law_mul_associates(inv(a), a, c);
}

impl B128 {
    /// The multiplicative inverse, with zero sent to zero.
    pub fn invert_or_zero(self) -> (r: B128)
        ensures
            r == inv(self),
            self != zero() ==> self * r == one(),
            self == zero() ==> r == zero(),
    {
        broadcast use group_units;

        if self == zero() {
            return zero();
        }
        let mut power = self;
        let mut acc = one();
        let mut k: u32 = 0;
        while k < 127
            invariant
                k <= 127,
                power == frobenius(self, k as nat),
                acc == inverse_product(self, k as nat),
            decreases 127 - k,
        {
            power = power * power;
            acc = acc * power;
            k = k + 1;
        }
        proof {
            lemma_inverse_product_inverts(self);
            law_inverse_unique(self, acc);
        }
        acc
    }
}

} // verus!
