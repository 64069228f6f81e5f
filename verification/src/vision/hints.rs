//! The hints: values that a prover computes outside of the constraints.

use crate::field::element::{zero, B128};
use crate::field::inverse::{frobenius, inv, lemma_frobenius_hom};
use crate::field::ring::{
    group_units, law_add_associates, law_add_commutes, law_distributes, lemma_add_exchange,
};
use crate::field::sums::{law_power_add, lemma_sum_ext, power, sum};
use crate::multilinear::exp2::exp2;
use crate::vision::words::{ghash_to_words, high, join, low, words_to_ghash};
use vstd::prelude::*;

verus! {

/// The value of an affine map: the first coefficient, plus each further coefficient times the
/// argument squared once more than before.
pub open spec fn affine(coeffs: Seq<B128>, x: B128) -> B128 {
    coeffs[0] + sum(|i: int| coeffs[i + 1] * frobenius(x, i as nat), (coeffs.len() - 1) as nat)
}

/// A hint for the inverse of an element, or zero for zero.
#[derive(Debug, Clone, Copy)]
pub struct GhashInvertHint;

impl GhashInvertHint {
    /// The name of the hint.
    pub fn name(&self) -> (s: &'static str)
        ensures
            s@ == "binius.vision.ghash_invert_or_zero"@,
    {
        "binius.vision.ghash_invert_or_zero"
    }

    /// The numbers of words that go in and come out.
    pub fn shape(&self) -> (r: (usize, usize))
        ensures
            r == (2usize, 2usize),
    {
        (2, 2)
    }

    /// The words of the inverse.
    pub fn execute(&self, lo: u64, hi: u64) -> (r: (u64, u64))
        ensures
            r.0 == low(inv(join(lo, hi))),
            r.1 == high(inv(join(lo, hi))),
    {
        ghash_to_words(words_to_ghash(lo, hi).invert_or_zero())
    }
}

/// A hint for the inverse affine map of the S-box, given by its coefficients.
#[derive(Debug)]
pub struct VisionBInvHint {
    pub coeffs: Vec<B128>,
}

impl VisionBInvHint {
    /// The name of the hint.
    pub fn name(&self) -> (s: &'static str)
        ensures
            s@ == "binius.vision.b_inv_affine"@,
    {
        "binius.vision.b_inv_affine"
    }

    /// The numbers of words that go in and come out.
    pub fn shape(&self) -> (r: (usize, usize))
        ensures
            r == (2usize, 2usize),
    {
        (2, 2)
    }

    /// The words of the map's value.
    pub fn execute(&self, lo: u64, hi: u64) -> (r: (u64, u64))
        requires
            self.coeffs@.len() > 0,
        ensures
            r.0 == low(affine(self.coeffs@, join(lo, hi))),
            r.1 == high(affine(self.coeffs@, join(lo, hi))),
    {
        let x = words_to_ghash(lo, hi);
        let mut power = x;
        let mut acc = zero();
        let ghost f = |i: int| self.coeffs@[i + 1] * frobenius(x, i as nat);
        let mut i: usize = 1;
        while i < self.coeffs.len()
            invariant
                1 <= i <= self.coeffs@.len(),
                power == frobenius(x, (i - 1) as nat),
                f == (|i: int| self.coeffs@[i + 1] * frobenius(x, i as nat)),
                acc == sum(f, (i - 1) as nat),
            decreases self.coeffs@.len() - i,
        {
            acc = acc + self.coeffs[i] * power;
            power = power * power;
            i = i + 1;
        }
        ghash_to_words(self.coeffs[0] + acc)
    }
}

/// Squaring `n` times raises to the power `2^n`.
pub proof fn law_frobenius_is_power(x: B128, n: nat)
    ensures
        frobenius(x, n) == power(x, exp2(n)),
    decreases n,
{
    broadcast use group_units;

    if n == 0 {
        assert(power(x, 1) == power(x, 0) * x);
    } else {
        law_frobenius_is_power(x, (n - 1) as nat);
        let m = exp2((n - 1) as nat);
        law_power_add(x, m, m);
    }
}

/// The affine map of a list of coefficients: the first one, plus, for every further position `i`, its
/// coefficient times the argument to the power `2^i`. All coefficients count, however many there are.
pub proof fn law_affine_powers(c: Seq<B128>, x: B128)
    requires
        c.len() > 0,
    ensures
        affine(c, x) == c[0] + sum(
            |i: int| c[i + 1] * power(x, exp2(i as nat)),
            (c.len() - 1) as nat,
        ),
{
    let f = |i: int| c[i + 1] * frobenius(x, i as nat);
    let g = |i: int| c[i + 1] * power(x, exp2(i as nat));
    assert forall|i: int| 0 <= i < c.len() - 1 implies #[trigger] f(i) == g(i) by {
        law_frobenius_is_power(x, i as nat);
    }
    lemma_sum_ext(f, g, (c.len() - 1) as nat);
}

/// One coefficient alone is a constant map, and each further coefficient adds its own power of the
/// argument: the one of position `n + 1` adds the power `2^n`.
pub proof fn law_affine_grows(c: Seq<B128>, k: B128, x: B128)
    requires
        c.len() > 0,
    ensures
        affine(seq![k], x) == k,
        affine(c.push(k), x) == affine(c, x) + k * power(x, exp2((c.len() - 1) as nat)),
{
    broadcast use group_units;

    let n = (c.len() - 1) as nat;
    let d = c.push(k);
    let f = |i: int| c[i + 1] * frobenius(x, i as nat);
    let g = |i: int| d[i + 1] * frobenius(x, i as nat);
    lemma_sum_ext(f, g, n);
    law_frobenius_is_power(x, n);
    assert(sum(g, n + 1) == sum(g, n) + g(n as int));
    law_add_associates(c[0], sum(f, n), k * power(x, exp2(n)));
    assert(sum(|i: int| seq![k][i + 1] * frobenius(x, i as nat), 0) == zero());
}

/// The map is affine: it takes sums to sums, up to its value at zero, which is the first coefficient.
pub proof fn law_affine_adds(c: Seq<B128>, x: B128, y: B128)
    requires
        c.len() > 0,
    ensures
        affine(c, zero()) == c[0],
        affine(c, x + y) == affine(c, x) + affine(c, y) + c[0],
    decreases c.len(),
{
    broadcast use group_units;

    if c.len() == 1 {
        assert(c =~= seq![c[0]]);
        law_affine_grows(c, c[0], x);
        law_affine_grows(c, c[0], y);
        law_affine_grows(c, c[0], x + y);
        law_affine_grows(c, c[0], zero());
    } else {
        let (d, k, n) = (c.drop_last(), c.last(), (c.len() - 2) as nat);
        assert(c =~= d.push(k));
        law_affine_adds(d, x, y);
        law_affine_grows(d, k, x);
        law_affine_grows(d, k, y);
        law_affine_grows(d, k, x + y);
        law_affine_grows(d, k, zero());
        law_frobenius_is_power(x, n);
        law_frobenius_is_power(y, n);
        law_frobenius_is_power(x + y, n);
        law_frobenius_is_power(zero(), n);
        lemma_frobenius_hom(x, y, n);
        lemma_frobenius_hom(zero(), zero(), n);
        let (a, b) = (frobenius(x, n), frobenius(y, n));
        law_distributes(k, a, b);
        // (d(x) + d(y) + c0) + (ka + kb) == (d(x) + ka) + (d(y) + kb) + c0
        lemma_add_exchange(affine(d, x), affine(d, y), k * a, k * b);
        let s = affine(d, x) + affine(d, y);
        let t = k * a + k * b;
        law_add_associates(s, c[0], t);
        law_add_commutes(c[0], t);
        law_add_associates(s, t, c[0]);
    }
}

} // verus!
