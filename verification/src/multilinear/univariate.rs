//! Univariate polynomials given by their coefficients.

use crate::field::element::{one, zero, B128};
use crate::field::ring::{group_units, law_distributes_right, law_mul_associates};
use crate::field::sums::{lemma_sum_front, lemma_sum_scale, power, sum};
use vstd::prelude::*;

verus! {

/// The value at `x` of the polynomial with the given coefficients, constant term first.
pub open spec fn univariate(c: Seq<B128>, x: B128) -> B128 {
    sum(|i: int| c[i] * power(x, i as nat), c.len())
}

/// Horner's rule.
pub proof fn lemma_horner(c: Seq<B128>, x: B128)
    requires
        c.len() > 0,
    ensures
        univariate(c, x) == c[0] + univariate(c.skip(1), x) * x,
{
    broadcast use group_units;

    let rest = c.skip(1);
    let f = |i: int| c[i] * power(x, i as nat);
    let g = |i: int| c[i + 1] * power(x, (i + 1) as nat);
    let h = |i: int| rest[i] * power(x, i as nat);
    let n = rest.len();
    lemma_sum_front(f, g, n);
    assert forall|i: int| 0 <= i < n implies #[trigger] g(i) == x * h(i) by {
        law_mul_associates(rest[i], power(x, i as nat), x);
        crate::field::ring::law_mul_commutes(h(i), x);
    }
    lemma_sum_scale(x, h, g, n);
    crate::field::ring::law_mul_commutes(x, sum(h, n));
}

/// The quotient of a polynomial by a linear factor.
spec fn quotient(c: Seq<B128>, s: B128) -> Seq<B128>
    decreases c.len(),
{
    if c.len() <= 1 {
        Seq::empty()
    } else {
        seq![univariate(c.skip(1), s)] + quotient(c.skip(1), s)
    }
}

/// Division by a linear factor leaves the value at the factor's root.
proof fn lemma_division(c: Seq<B128>, s: B128, x: B128)
    requires
        c.len() > 0,
    ensures
        quotient(c, s).len() == c.len() - 1,
        univariate(c, x) == univariate(c, s) + (x + s) * univariate(quotient(c, s), x),
    decreases c.len(),
{
    broadcast use group_units;

    lemma_horner(c, x);
    lemma_horner(c, s);
    let rest = c.skip(1);
    let q = quotient(c, s);
    if c.len() == 1 {
        assert(rest =~= Seq::empty());
        assert(q =~= Seq::empty());
        assert(univariate(q, x) == zero());
        assert(univariate(rest, x) == zero() && univariate(rest, s) == zero());
    } else {
        lemma_division(rest, s, x);
        let qr = quotient(rest, s);
        let (rx, rs, u) = (univariate(rest, x), univariate(rest, s), univariate(qr, x));
        lemma_horner(q, x);
        assert(q.skip(1) =~= qr);
        // x R(x) + s R(s) = (x + s) (R(s) + U x), with R(x) = R(s) + (x + s) U
        let d = x + s;
        law_distributes_right(rs, d * u, x);
        crate::field::ring::law_distributes(d, rs, u * x);
        law_mul_associates(d, u, x);
        crate::field::ring::law_mul_commutes(d, rs);
        crate::field::ring::law_distributes(rs, x, s);
        assert(rx * x == rs * x + d * (u * x));
        assert(d * (rs + u * x) == (rs * x + rs * s) + d * (u * x));
        crate::field::ring::law_add_associates(c[0] + rs * s, rs * x + rs * s, d * (u * x));
        crate::field::ring::law_add_commutes(rs * x, rs * s);
        crate::field::ring::law_add_associates(c[0] + rs * s, rs * s, rs * x);
        crate::field::ring::law_add_associates(c[0], rs * s, rs * s);
        crate::field::ring::law_add_self(rs * s);
        crate::field::ring::law_add_associates(c[0], rs * x, d * (u * x));
    }
}

/// A polynomial with as many distinct roots as coefficients is zero.
pub proof fn law_few_roots(c: Seq<B128>, roots: Seq<B128>)
    requires
        roots.len() >= c.len(),
        roots.no_duplicates(),
        forall|k: int| 0 <= k < roots.len() ==> univariate(c, #[trigger] roots[k]) == zero(),
    ensures
        forall|i: int| 0 <= i < c.len() ==> c[i] == zero(),
    decreases c.len(),
{
    broadcast use group_units;

    if c.len() > 0 {
        let s = roots.last();
        let rest = roots.drop_last();
        let q = quotient(c, s);
        lemma_division(c, s, s);
        assert(univariate(c, roots[roots.len() - 1]) == zero());
        assert forall|k: int| 0 <= k < rest.len() implies univariate(q, #[trigger] rest[k])
            == zero() by {
            let x = rest[k];
            assert(x == roots[k]);
            assert(roots[k] != roots[roots.len() - 1]);
            lemma_division(c, s, x);
            crate::field::ring::lemma_sum_zero(x, s);
            crate::field::inverse::law_no_zero_divisors(x + s, univariate(q, x));
        }
        law_few_roots(q, rest);
        // The quotient is zero, so the polynomial is constant, with a root.
        lemma_quotient_zero(c, s);
        let f = |i: int| c[i] * power(s, i as nat);
        assert forall|i: int| 0 <= i < c.len() && i != 0 implies #[trigger] f(i) == zero() by {}
        crate::field::sums::lemma_sum_single(f, c.len(), 0);
        assert(power(s, 0) == one());
        assert(c[0] == zero());
    }
}

/// A polynomial whose quotient is zero is constant.
proof fn lemma_quotient_zero(c: Seq<B128>, s: B128)
    requires
        c.len() > 0,
        forall|i: int| 0 <= i < quotient(c, s).len() ==> quotient(c, s)[i] == zero(),
    ensures
        forall|i: int| 1 <= i < c.len() ==> c[i] == zero(),
    decreases c.len(),
{
    broadcast use group_units;

    if c.len() > 1 {
        let rest = c.skip(1);
        let q = quotient(c, s);
        let qr = quotient(rest, s);
        assert(q.skip(1) =~= qr);
        assert forall|i: int| 0 <= i < qr.len() implies qr[i] == zero() by {
            assert(qr[i] == q[i + 1]);
        }
        lemma_quotient_zero(rest, s);
        assert(q[0] == univariate(rest, s));
        let f = |i: int| rest[i] * power(s, i as nat);
        assert forall|i: int| 0 <= i < rest.len() && i != 0 implies #[trigger] f(i) == zero() by {}
        crate::field::sums::lemma_sum_single(f, rest.len(), 0);
        assert(power(s, 0) == one());
        assert(rest[0] == zero());
        assert forall|i: int| 1 <= i < c.len() implies c[i] == zero() by {
            assert(c[i] == rest[i - 1]);
        }
    }
}

/// Two lists of values whose batches agree at as many challenges as there are values are equal: a
/// batch of false values agrees with the true batch at fewer challenges than it has values.
pub proof fn law_batch_binds(a: Seq<B128>, b: Seq<B128>, challenges: Seq<B128>)
    requires
        a.len() == b.len(),
        challenges.len() >= a.len(),
        challenges.no_duplicates(),
        forall|k: int|
            0 <= k < challenges.len() ==> univariate(a, #[trigger] challenges[k]) == univariate(
                b,
                challenges[k],
            ),
    ensures
        a == b,
{
    broadcast use group_units;

    let d = Seq::new(a.len(), |i: int| a[i] + b[i]);
    assert forall|k: int| 0 <= k < challenges.len() implies univariate(d, #[trigger] challenges[k])
        == zero() by {
        let x = challenges[k];
        let f = |i: int| a[i] * power(x, i as nat);
        let g = |i: int| b[i] * power(x, i as nat);
        let h = |i: int| d[i] * power(x, i as nat);
        assert forall|i: int| 0 <= i < d.len() implies #[trigger] h(i) == f(i) + g(i) by {
            law_distributes_right(a[i], b[i], power(x, i as nat));
        }
        crate::field::sums::lemma_sum_add(f, g, h, d.len());
        assert(univariate(a, x) == univariate(b, x));
    }
    law_few_roots(d, challenges);
    assert forall|i: int| 0 <= i < a.len() implies a[i] == b[i] by {
        assert(d[i] == zero());
        crate::field::ring::lemma_sum_zero(a[i], b[i]);
    }
    assert(a =~= b);
}

/// The value of a polynomial.
pub fn evaluate_univariate(c: &[B128], x: B128) -> (r: B128)
    ensures
        r == univariate(c@, x),
{
    let mut acc = zero();
    let mut i: usize = c.len();
    assert(c@.skip(i as int) =~= Seq::empty());
    while i > 0
        invariant
            i <= c.len(),
            acc == univariate(c@.skip(i as int), x),
        decreases i,
    {
        proof {
            let s = c@.skip(i - 1);
            assert(s.skip(1) =~= c@.skip(i as int));
            lemma_horner(s, x);
        }
        acc = c[i - 1] + acc * x;
        i = i - 1;
    }
    assert(c@.skip(0) =~= c@);
    acc
}

/// The coefficients of one round of a sumcheck.
#[derive(Debug, Clone, PartialEq, Eq)]
pub struct RoundCoeffs(pub Vec<B128>);

impl RoundCoeffs {
    /// The value of the round polynomial.
    pub fn evaluate(&self, x: B128) -> (r: B128)
        ensures
            r == univariate(self.0@, x),
    {
        evaluate_univariate(&self.0, x)
    }

    /// The sum of the values at zero and one: the claim that the round was made for.
    pub fn sum_over_endpoints(&self) -> (r: B128)
        ensures
            r == univariate(self.0@, zero()) + univariate(self.0@, one()),
    {
        evaluate_univariate(&self.0, zero()) + evaluate_univariate(&self.0, one())
    }
}

/// A cubic, written out.
pub proof fn lemma_univariate_four(c: Seq<B128>, x: B128)
    requires
        c.len() == 4,
    ensures
        univariate(c, x) == c[0] + c[1] * x + c[2] * (x * x) + c[3] * (x * x * x),
{
    broadcast use group_units;

    let f = |i: int| c[i] * power(x, i as nat);
    reveal_with_fuel(sum, 5);
    reveal_with_fuel(power, 4);
    assert(sum(f, 4) == sum(f, 3) + f(3));
    assert(power(x, 0) == one());
    assert(power(x, 1) == x);
    assert(power(x, 2) == x * x);
    assert(power(x, 3) == x * x * x);
}

} // verus!
