//! Carry-less arithmetic on 128-bit words: the product of two polynomials over GF(2)
//! reduced modulo `X^128 + X^7 + X^2 + X + 1`. Bit `i` of a word is the coefficient of `X^i`.

use vstd::prelude::*;

verus! {

/// Multiplication by `X`: shift up by one, and fold a lost `X^128` back in as
/// `X^7 + X^2 + X + 1`.
pub open spec fn xtime(a: u128) -> u128 {
    (a << 1u128) ^ (if a >> 127u128 == 1 {
        0x87u128
    } else {
        0u128
    })
}

/// `X` times one is `X`, and `X` times `X^127 + X^6 + X + 1` is one.
pub proof fn lemma_xtime_values()
    by (bit_vector)
    ensures
        xtime(1) == 2,
        xtime(0x8000_0000_0000_0000_0000_0000_0000_0043) == 1,
{
}

/// `X^i * a`.
pub open spec fn xpow(a: u128, i: nat) -> u128
    decreases i,
{
    if i == 0 {
        a
    } else {
        xtime(xpow(a, (i - 1) as nat))
    }
}

/// The sum of `X^i * a` over the bits `i < k` that are set in `b`.
pub open spec fn mul_low(a: u128, b: u128, k: nat) -> u128
    decreases k,
{
    if k == 0 {
        0
    } else {
        (if b & 1 == 1 {
            a
        } else {
            0
        }) ^ mul_low(xtime(a), b >> 1u128, (k - 1) as nat)
    }
}

/// The product of `a` and `b` as polynomials over GF(2), modulo
/// `X^128 + X^7 + X^2 + X + 1`.
pub open spec fn mul_bits(a: u128, b: u128) -> u128 {
    mul_low(a, b, 128)
}

/// A property of words that holds of zero and of every single bit, and that is kept by
/// exclusive or, holds of every word.
pub proof fn lemma_basis_induction(p: spec_fn(u128) -> bool)
    requires
        p(0),
        forall|i: u128| i < 128 ==> #[trigger] p(1u128 << i),
        forall|a: u128, b: u128| p(a) && p(b) ==> #[trigger] p(a ^ b),
    ensures
        forall|a: u128| #[trigger] p(a),
{
    assert forall|a: u128| #[trigger] p(a) by {
        let top = 1u128 << 127u128;
        let rest = a & 0x7FFF_FFFF_FFFF_FFFF_FFFF_FFFF_FFFF_FFFFu128;
        assert(rest >> 127u128 == 0 && (a == rest || a == rest ^ (1u128 << 127u128)))
            by (bit_vector)
            requires
                rest == a & 0x7FFF_FFFF_FFFF_FFFF_FFFF_FFFF_FFFF_FFFFu128,
        ;
        lemma_basis_induction_below(p, rest, 127);
        assert(p(top));
    }
}

proof fn lemma_basis_induction_below(p: spec_fn(u128) -> bool, a: u128, k: u128)
    requires
        p(0),
        forall|i: u128| i < 128 ==> #[trigger] p(1u128 << i),
        forall|a: u128, b: u128| p(a) && p(b) ==> #[trigger] p(a ^ b),
        k <= 127,
        a >> k == 0,
    ensures
        p(a),
    decreases k,
{
    if k == 0 {
        assert(a == 0) by (bit_vector)
            requires
                a >> 0u128 == 0,
        ;
    } else {
        let j = (k - 1) as u128;
        let bit = 1u128 << j;
        let rest = if a & bit == 0 {
            a
        } else {
            a ^ bit
        };
        assert(rest >> j == 0 && (a == rest || a == rest ^ bit)) by (bit_vector)
            requires
                k <= 127,
                j < k,
                k == j + 1,
                a >> k == 0,
                bit == 1u128 << j,
                rest == if a & bit == 0 {
                    a
                } else {
                    a ^ bit
                },
        ;
        lemma_basis_induction_below(p, rest, j);
        assert(p(bit));
    }
}

/// Exclusive or is commutative, associative and its own inverse.
pub proof fn lemma_xor(a: u128, b: u128, c: u128, d: u128)
    ensures
        a ^ b == b ^ a,
        (a ^ b) ^ c == a ^ (b ^ c),
        (a ^ b) ^ (c ^ d) == (a ^ c) ^ (b ^ d),
        a ^ a == 0,
        a ^ 0 == a,
        0 ^ a == a,
{
    assert(a ^ b == b ^ a && (a ^ b) ^ c == a ^ (b ^ c) && (a ^ b) ^ (c ^ d) == (a ^ c) ^ (b ^ d)
        && a ^ a == 0 && a ^ 0 == a && 0 ^ a == a) by (bit_vector);
}

/// Multiplication by `X` is additive.
pub proof fn lemma_xtime_xor(a: u128, b: u128)
    ensures
        xtime(a ^ b) == xtime(a) ^ xtime(b),
        xtime(0) == 0,
{
    assert(xtime(a ^ b) == xtime(a) ^ xtime(b) && xtime(0) == 0) by (bit_vector);
}

pub proof fn lemma_mul_low_xor_left(a: u128, c: u128, b: u128, k: nat)
    ensures
        mul_low(a ^ c, b, k) == mul_low(a, b, k) ^ mul_low(c, b, k),
    decreases k,
{
    lemma_xor(0, 0, 0, 0);
    if k > 0 {
        let j = (k - 1) as nat;
        lemma_xtime_xor(a, c);
        lemma_mul_low_xor_left(xtime(a), xtime(c), b >> 1u128, j);
        let ta = if b & 1 == 1 {
            a
        } else {
            0
        };
        let tc = if b & 1 == 1 {
            c
        } else {
            0
        };
        lemma_xor(ta, tc, mul_low(xtime(a), b >> 1u128, j), mul_low(xtime(c), b >> 1u128, j));
    }
}

pub proof fn lemma_mul_low_xor_right(a: u128, b: u128, d: u128, k: nat)
    ensures
        mul_low(a, b ^ d, k) == mul_low(a, b, k) ^ mul_low(a, d, k),
    decreases k,
{
    lemma_xor(a, 0, 0, 0);
    lemma_xor(0, 0, 0, 0);
    if k > 0 {
        let j = (k - 1) as nat;
        assert((b ^ d) >> 1u128 == (b >> 1u128) ^ (d >> 1u128) && ((b ^ d) & 1 == 1) == ((b & 1
            == 1) != (d & 1 == 1))) by (bit_vector);
        lemma_mul_low_xor_right(xtime(a), b >> 1u128, d >> 1u128, j);
        let tb = if b & 1 == 1 {
            a
        } else {
            0
        };
        let td = if d & 1 == 1 {
            a
        } else {
            0
        };
        lemma_xor(tb, td, mul_low(xtime(a), b >> 1u128, j), mul_low(xtime(a), d >> 1u128, j));
    }
}

pub proof fn lemma_mul_low_xtime(a: u128, b: u128, k: nat)
    ensures
        mul_low(xtime(a), b, k) == xtime(mul_low(a, b, k)),
    decreases k,
{
    lemma_xtime_xor(0, 0);
    if k > 0 {
        let j = (k - 1) as nat;
        let t = if b & 1 == 1 {
            a
        } else {
            0
        };
        lemma_mul_low_xtime(xtime(a), b >> 1u128, j);
        lemma_xtime_xor(t, mul_low(xtime(a), b >> 1u128, j));
    }
}

proof fn lemma_mul_low_zero(a: u128, k: nat)
    ensures
        mul_low(a, 0, k) == 0,
    decreases k,
{
    if k > 0 {
        assert(0u128 >> 1u128 == 0 && 0u128 & 1 == 0 && 0u128 ^ 0u128 == 0) by (bit_vector);
        lemma_mul_low_zero(xtime(a), (k - 1) as nat);
    }
}

proof fn lemma_xpow_shift(a: u128, i: nat)
    ensures
        xpow(xtime(a), i) == xtime(xpow(a, i)),
    decreases i,
{
    if i > 0 {
        lemma_xpow_shift(a, (i - 1) as nat);
    }
}

/// Multiplying by the single bit `i` is multiplying by `X` that many times.
proof fn lemma_mul_low_bit(a: u128, i: u128, k: nat)
    requires
        i < k <= 128,
    ensures
        mul_low(a, 1u128 << i, k) == xpow(a, i as nat),
    decreases k,
{
    lemma_xor(a, 0, 0, 0);
    let j = (k - 1) as nat;
    if i == 0 {
        assert((1u128 << 0u128) & 1 == 1 && (1u128 << 0u128) >> 1u128 == 0) by (bit_vector);
        lemma_mul_low_zero(xtime(a), j);
    } else {
        let h = (i - 1) as u128;
        assert((1u128 << i) & 1 == 0 && (1u128 << i) >> 1u128 == 1u128 << h) by (bit_vector)
            requires
                0 < i < 128,
                i == h + 1,
        ;
        lemma_xor(mul_low(xtime(a), 1u128 << h, j), 0, 0, 0);
        lemma_mul_low_bit(xtime(a), h, j);
        lemma_xpow_shift(a, h as nat);
    }
}

/// A single bit is a power of `X`.
pub proof fn lemma_xpow_one(i: u128)
    requires
        i < 128,
    ensures
        xpow(1, i as nat) == 1u128 << i,
    decreases i,
{
    if i == 0 {
        assert(1u128 << 0u128 == 1) by (bit_vector);
    } else {
        let h = (i - 1) as u128;
        lemma_xpow_one(h);
        assert(xtime(1u128 << h) == 1u128 << i) by (bit_vector)
            requires
                0 < i < 128,
                i == h + 1,
        ;
    }
}

proof fn lemma_mul_bits_xpow(a: u128, b: u128, i: nat)
    ensures
        mul_bits(xpow(a, i), b) == xpow(mul_bits(a, b), i),
    decreases i,
{
    if i > 0 {
        lemma_mul_bits_xpow(a, b, (i - 1) as nat);
        lemma_mul_low_xtime(xpow(a, (i - 1) as nat), b, 128);
    }
}

/// The product is additive in both factors.
pub proof fn lemma_mul_bits_xor(a: u128, b: u128, c: u128)
    ensures
        mul_bits(a ^ b, c) == mul_bits(a, c) ^ mul_bits(b, c),
        mul_bits(c, a ^ b) == mul_bits(c, a) ^ mul_bits(c, b),
        mul_bits(c, 0) == 0,
{
    lemma_mul_low_xor_left(a, b, c, 128);
    lemma_mul_low_xor_right(c, a, b, 128);
    lemma_mul_low_zero(c, 128);
}

/// One is neutral on the left.
pub proof fn lemma_one_mul_bits(b: u128)
    ensures
        mul_bits(1, b) == b,
{
    let p = |x: u128| mul_bits(1, x) == x;
    lemma_mul_bits_xor(0, 0, 1);
    assert forall|i: u128| i < 128 implies #[trigger] p(1u128 << i) by {
        lemma_mul_low_bit(1, i, 128);
        lemma_xpow_one(i);
    }
    assert forall|x: u128, y: u128| p(x) && p(y) implies #[trigger] p(x ^ y) by {
        lemma_mul_bits_xor(x, y, 1);
    }
    lemma_basis_induction(p);
    assert(p(b));
}

/// The product is commutative.
pub proof fn lemma_mul_bits_commutes(a: u128, b: u128)
    ensures
        mul_bits(a, b) == mul_bits(b, a),
{
    let p = |x: u128| mul_bits(a, x) == mul_bits(x, a);
    assert(p(0)) by {
        lemma_mul_bits_xor(0, 0, a);
        lemma_mul_low_xor_left(0, 0, a, 128);
        lemma_xor(0, 0, 0, 0);
        lemma_xor(mul_bits(0, a), 0, 0, 0);
    }
    assert forall|i: u128| i < 128 implies #[trigger] p(1u128 << i) by {
        lemma_mul_low_bit(a, i, 128);
        lemma_xpow_one(i);
        lemma_mul_bits_xpow(1, a, i as nat);
        lemma_one_mul_bits(a);
    }
    assert forall|x: u128, y: u128| p(x) && p(y) implies #[trigger] p(x ^ y) by {
        lemma_mul_bits_xor(x, y, a);
    }
    lemma_basis_induction(p);
    assert(p(b));
}

/// Multiplication by `X` may be done before or after a product.
pub proof fn lemma_mul_bits_xtime(a: u128, b: u128)
    ensures
        mul_bits(xtime(a), b) == xtime(mul_bits(a, b)),
        mul_bits(a, xtime(b)) == xtime(mul_bits(a, b)),
{
    lemma_mul_low_xtime(a, b, 128);
    lemma_mul_low_xtime(b, a, 128);
    lemma_mul_bits_commutes(a, b);
    lemma_mul_bits_commutes(a, xtime(b));
}

/// The product is associative.
pub proof fn lemma_mul_bits_associates(a: u128, b: u128, c: u128)
    ensures
        mul_bits(mul_bits(a, b), c) == mul_bits(a, mul_bits(b, c)),
{
    let p = |x: u128| mul_bits(mul_bits(a, b), x) == mul_bits(a, mul_bits(b, x));
    assert(p(0)) by {
        lemma_mul_bits_xor(0, 0, mul_bits(a, b));
        lemma_mul_bits_xor(0, 0, b);
        lemma_mul_bits_xor(0, 0, a);
    }
    assert forall|i: u128| i < 128 implies #[trigger] p(1u128 << i) by {
        lemma_mul_low_bit(mul_bits(a, b), i, 128);
        lemma_mul_low_bit(b, i, 128);
        lemma_mul_bits_commutes(a, xpow(b, i as nat));
        lemma_mul_bits_xpow(b, a, i as nat);
        lemma_mul_bits_commutes(a, b);
    }
    assert forall|x: u128, y: u128| p(x) && p(y) implies #[trigger] p(x ^ y) by {
        lemma_mul_bits_xor(x, y, mul_bits(a, b));
        lemma_mul_bits_xor(x, y, b);
        lemma_mul_bits_xor(mul_bits(b, x), mul_bits(b, y), a);
    }
    lemma_basis_induction(p);
    assert(p(c));
}

} // verus!
