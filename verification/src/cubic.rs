//! A sumcheck prover for the product of three multilinears.
//!
//! Variables are bound from the top. In a round, each slot holds three lines, whose product is a
//! cubic; the round polynomial is the sum of these cubics.

use crate::field::element::{one, zero, B128};
use crate::field::ring::{
    group_units, law_add_associates, law_add_commutes, law_distributes, law_distributes_right,
    law_mul_associates, law_mul_commutes, lemma_add_exchange, lemma_mul_exchange,
};
use crate::field::sums::{lemma_sum_add, lemma_sum_ext, lemma_sum_scale, lemma_sum_split, sum};
use crate::multilinear::exp2::{exp2, lemma_exp2_injective, log2_exact};
use crate::multilinear::mle::{
    fold_highest_var_inplace, fold_top, law_mle_constant, law_mle_fold, line, lower, mle, upper,
};
use crate::multilinear::univariate::{lemma_univariate_four, univariate, RoundCoeffs};
use vstd::prelude::*;

verus! {

/// The sum of the products of three tables.
pub open spec fn product_sum(a: Seq<B128>, b: Seq<B128>, g: Seq<B128>) -> B128 {
    sum(|i: int| a[i] * b[i] * g[i], a.len())
}

/// The sum that is left when the top variable is bound to `x`.
pub open spec fn bound_sum(a: Seq<B128>, b: Seq<B128>, g: Seq<B128>, x: B128) -> B128 {
    product_sum(fold_top(a, x), fold_top(b, x), fold_top(g, x))
}

/// The coefficients of the round polynomial: its value at every `x` is the sum that is left when
/// the top variable is bound to `x`.
pub open spec fn is_round(c: Seq<B128>, a: Seq<B128>, b: Seq<B128>, g: Seq<B128>) -> bool {
    &&& c.len() == 4
    &&& forall|x: B128| #[trigger] univariate(c, x) == bound_sum(a, b, g, x)
}

/// What the prover holds between rounds: the claim that the next round is for, or the round
/// polynomial that waits for its challenge.
#[derive(Debug, Clone, PartialEq, Eq)]
pub enum RoundCoeffsOrSum {
    Coeffs(RoundCoeffs),
    Sum(B128),
}

/// The prover's state.
#[derive(Debug, Clone, PartialEq, Eq)]
pub struct CubicProductSumcheckProver {
    pub a: Vec<B128>,
    pub b: Vec<B128>,
    pub g: Vec<B128>,
    pub last_coeffs_or_sum: RoundCoeffsOrSum,
}

/// The coefficients that one slot adds to a round.
pub open spec fn slot_coeff(a0: B128, a1: B128, b0: B128, b1: B128, g0: B128, g1: B128, k: int) -> B128 {
    let (da, db, dg) = (a0 + a1, b0 + b1, g0 + g1);
    let (ab, mid, dd) = (a0 * b0, a0 * db + da * b0, da * db);
    if k == 0 {
        ab * g0
    } else if k == 1 {
        ab * dg + mid * g0
    } else if k == 2 {
        mid * dg + dd * g0
    } else {
        dd * dg
    }
}

/// The product of three lines is the cubic with the slot's coefficients.
proof fn lemma_slot_cubic(a0: B128, a1: B128, b0: B128, b1: B128, g0: B128, g1: B128, x: B128)
    ensures
        line(a0, a1, x) * line(b0, b1, x) * line(g0, g1, x) == slot_coeff(a0, a1, b0, b1, g0, g1, 0)
            + slot_coeff(a0, a1, b0, b1, g0, g1, 1) * x + slot_coeff(a0, a1, b0, b1, g0, g1, 2) * (x
            * x) + slot_coeff(a0, a1, b0, b1, g0, g1, 3) * (x * x * x),
{
    let (da, db, dg) = (a0 + a1, b0 + b1, g0 + g1);
    let (ab, mid, dd) = (a0 * b0, a0 * db + da * b0, da * db);
    let x2 = x * x;
    // (a0 + da x)(b0 + db x) = ab + mid x + dd x^2
    let p = line(a0, a1, x) * line(b0, b1, x);
    assert(p == ab + mid * x + dd * x2) by {
        let (u, v) = (da * x, db * x);
        law_distributes_right(a0, u, b0 + v);
        law_distributes(a0, b0, v);
        law_distributes(u, b0, v);
        // (ab + a0 v) + (u b0 + u v)
        law_mul_associates(a0, db, x);
        law_mul_associates(da, x, b0);
        law_mul_commutes(x, b0);
        law_mul_associates(da, b0, x);
        lemma_mul_exchange(da, x, db, x);
        law_distributes_right(a0 * db, da * b0, x);
        law_add_associates(ab, a0 * v, u * b0 + u * v);
        law_add_associates(a0 * v, u * b0, u * v);
        law_add_associates(ab, mid * x, dd * x2);
    }
    // times (g0 + dg x)
    let w = dg * x;
    law_distributes(p, g0, w);
    law_distributes_right(ab + mid * x, dd * x2, g0);
    law_distributes_right(ab, mid * x, g0);
    law_distributes_right(ab + mid * x, dd * x2, w);
    law_distributes_right(ab, mid * x, w);
    let (e0, e1, e2) = (ab * g0, (mid * x) * g0, (dd * x2) * g0);
    let (f1, f2, f3) = (ab * w, (mid * x) * w, (dd * x2) * w);
    assert(e1 == (mid * g0) * x) by {
        law_mul_associates(mid, x, g0);
        law_mul_commutes(x, g0);
        law_mul_associates(mid, g0, x);
    }
    assert(e2 == (dd * g0) * x2) by {
        law_mul_associates(dd, x2, g0);
        law_mul_commutes(x2, g0);
        law_mul_associates(dd, g0, x2);
    }
    assert(f1 == (ab * dg) * x) by {
        law_mul_associates(ab, dg, x);
    }
    assert(f2 == (mid * dg) * x2) by {
        lemma_mul_exchange(mid, x, dg, x);
    }
    assert(f3 == (dd * dg) * (x * x * x)) by {
        lemma_mul_exchange(dd, x2, dg, x);
    }
    // (e0 + e1 + e2) + (f1 + f2 + f3) == e0 + (f1 + e1) + (f2 + e2) + f3
    law_distributes_right(ab * dg, mid * g0, x);
    law_distributes_right(mid * dg, dd * g0, x2);
    lemma_regroup(e0, e1, e2, f1, f2, f3);
}

proof fn lemma_regroup(e0: B128, e1: B128, e2: B128, f1: B128, f2: B128, f3: B128)
    ensures
        (e0 + e1 + e2) + (f1 + f2 + f3) == e0 + (f1 + e1) + (f2 + e2) + f3,
{
    law_add_associates(e0 + e1 + e2, f1 + f2, f3);
    lemma_add_exchange(e0 + e1, e2, f1, f2);
    law_add_associates(e0, e1, f1);
    law_add_commutes(e1, f1);
    law_add_commutes(e2, f2);
}

/// The coefficients of a round, summed over the slots.
spec fn coeff_sum(a: Seq<B128>, b: Seq<B128>, g: Seq<B128>, k: int, n: nat) -> B128 {
    sum(
        |i: int|
            slot_coeff(
                lower(a)[i],
                upper(a)[i],
                lower(b)[i],
                upper(b)[i],
                lower(g)[i],
                upper(g)[i],
                k,
            ),
        n,
    )
}

proof fn lemma_round(c: Seq<B128>, a: Seq<B128>, b: Seq<B128>, g: Seq<B128>)
    requires
        a.len() == b.len(),
        a.len() == g.len(),
        c.len() == 4,
        forall|k: int|
            0 <= k < 4 ==> #[trigger] c[k] == coeff_sum(a, b, g, k, (a.len() / 2) as nat),
    ensures
        is_round(c, a, b, g),
{
    let n = (a.len() / 2) as nat;
    assert forall|x: B128| #[trigger] univariate(c, x) == bound_sum(a, b, g, x) by {
        let cf = |k: int|
            |i: int|
                slot_coeff(
                    lower(a)[i],
                    upper(a)[i],
                    lower(b)[i],
                    upper(b)[i],
                    lower(g)[i],
                    upper(g)[i],
                    k,
                );
        let (c0, c1, c2, c3) = (cf(0), cf(1), cf(2), cf(3));
        let (x2, x3) = (x * x, x * x * x);
        let s1 = |i: int| x * c1(i);
        let s2 = |i: int| x2 * c2(i);
        let s3 = |i: int| x3 * c3(i);
        let t1 = |i: int| c0(i) + s1(i);
        let t2 = |i: int| t1(i) + s2(i);
        let t3 = |i: int| t2(i) + s3(i);
        lemma_sum_scale(x, c1, s1, n);
        lemma_sum_scale(x2, c2, s2, n);
        lemma_sum_scale(x3, c3, s3, n);
        lemma_sum_add(c0, s1, t1, n);
        lemma_sum_add(t1, s2, t2, n);
        lemma_sum_add(t2, s3, t3, n);
        let (fa, fb, fg) = (fold_top(a, x), fold_top(b, x), fold_top(g, x));
        let p = |i: int| fa[i] * fb[i] * fg[i];
        assert forall|i: int| 0 <= i < n implies #[trigger] t3(i) == p(i) by {
            lemma_slot_cubic(
                lower(a)[i],
                upper(a)[i],
                lower(b)[i],
                upper(b)[i],
                lower(g)[i],
                upper(g)[i],
                x,
            );
            law_mul_commutes(c1(i), x);
            law_mul_commutes(c2(i), x2);
            law_mul_commutes(c3(i), x3);
        }
        lemma_sum_ext(t3, p, n);
        assert(c[0] == sum(c0, n));
        assert(c[1] == sum(c1, n));
        assert(c[2] == sum(c2, n));
        assert(c[3] == sum(c3, n));
        lemma_univariate_four(c, x);
        law_mul_commutes(c[1], x);
        law_mul_commutes(c[2], x2);
        law_mul_commutes(c[3], x3);
    }
}

/// A round polynomial's values at zero and one add up to the sum that the round is for.
pub proof fn law_round_endpoints(c: Seq<B128>, a: Seq<B128>, b: Seq<B128>, g: Seq<B128>, n: nat)
    requires
        is_round(c, a, b, g),
        n > 0,
        a.len() == exp2(n),
        b.len() == exp2(n),
        g.len() == exp2(n),
    ensures
        univariate(c, zero()) + univariate(c, one()) == product_sum(a, b, g),
{
    broadcast use group_units;

    let h = exp2((n - 1) as nat);
    assert(a.len() == 2 * h);
    lemma_fold_ends(a);
    lemma_fold_ends(b);
    lemma_fold_ends(g);
    let f = |i: int| a[i] * b[i] * g[i];
    let fl = |i: int| lower(a)[i] * lower(b)[i] * lower(g)[i];
    let fu = |i: int| upper(a)[i] * upper(b)[i] * upper(g)[i];
    lemma_sum_split(f, fu, h, h);
    lemma_sum_ext(f, fl, h);
    assert(univariate(c, zero()) == bound_sum(a, b, g, zero()));
    assert(univariate(c, one()) == bound_sum(a, b, g, one()));
}

/// Binding the top variable to zero or one gives the lower or the upper half.
proof fn lemma_fold_ends(v: Seq<B128>)
    requires
        v.len() % 2 == 0,
    ensures
        fold_top(v, zero()) =~= lower(v),
        fold_top(v, one()) =~= upper(v),
{
    broadcast use group_units;

    assert forall|i: int| 0 <= i < v.len() / 2 implies fold_top(v, one())[i] == upper(v)[i] by {
        law_add_associates(lower(v)[i], lower(v)[i], upper(v)[i]);
    }
}

/// Binding the variables of a table one after the other, from the top.
pub open spec fn fold_all(v: Seq<B128>, challenges: Seq<B128>) -> Seq<B128>
    decreases challenges.len(),
{
    if challenges.len() == 0 {
        v
    } else {
        fold_all(fold_top(v, challenges[0]), challenges.skip(1))
    }
}

/// Binding all variables, from the top, evaluates the table at the challenges in reverse: the last
/// challenge belongs to the lowest variable.
pub proof fn law_fold_all_evaluates(v: Seq<B128>, challenges: Seq<B128>)
    requires
        v.len() == exp2(challenges.len()),
    ensures
        fold_all(v, challenges).len() == 1,
        fold_all(v, challenges)[0] == mle(v, challenges.reverse()),
    decreases challenges.len(),
{
    if challenges.len() == 0 {
        assert(challenges.reverse() =~= Seq::<B128>::empty());
        law_mle_constant(v);
    } else {
        let c = challenges[0];
        let rest = challenges.skip(1);
        law_fold_all_evaluates(fold_top(v, c), rest);
        let r = challenges.reverse();
        assert(r.last() == c);
        assert(r.drop_last() =~= rest.reverse());
        law_mle_fold(v, r);
    }
}

/// The sum of the slots' coefficients.
fn slot_sums(a: &Vec<B128>, b: &Vec<B128>, g: &Vec<B128>) -> (c: [B128; 4])
    requires
        a@.len() == b@.len(),
        a@.len() == g@.len(),
        a@.len() % 2 == 0,
    ensures
        forall|k: int|
            0 <= k < 4 ==> #[trigger] c@[k] == coeff_sum(a@, b@, g@, k, (a@.len() / 2) as nat),
{
    let half: usize = a.len() / 2;
    let mut c0 = zero();
    let mut c1 = zero();
    let mut c2 = zero();
    let mut c3 = zero();
    let mut i: usize = 0;
    while i < half
        invariant
            i <= half,
            a@.len() == 2 * half,
            b@.len() == 2 * half,
            g@.len() == 2 * half,
            2 * half <= usize::MAX,
            c0 == coeff_sum(a@, b@, g@, 0, i as nat),
            c1 == coeff_sum(a@, b@, g@, 1, i as nat),
            c2 == coeff_sum(a@, b@, g@, 2, i as nat),
            c3 == coeff_sum(a@, b@, g@, 3, i as nat),
        decreases half - i,
    {
        let (a0, a1) = (a[i], a[half + i]);
        let (b0, b1) = (b[i], b[half + i]);
        let (g0, g1) = (g[i], g[half + i]);
        let da = a0 + a1;
        let db = b0 + b1;
        let dg = g0 + g1;
        let p_ab = a0 * b0;
        let p_mid = a0 * db + da * b0;
        let p_dd = da * db;
        c0 = c0 + p_ab * g0;
        c1 = c1 + (p_ab * dg + p_mid * g0);
        c2 = c2 + (p_mid * dg + p_dd * g0);
        c3 = c3 + p_dd * dg;
        i = i + 1;
    }
    [c0, c1, c2, c3]
}

/// The coefficients of the round polynomial of three tables.
fn round_coefficients(a: &Vec<B128>, b: &Vec<B128>, g: &Vec<B128>) -> (c: Vec<B128>)
    requires
        exists|n: nat| n > 0 && a@.len() == #[trigger] exp2(n),
        a@.len() == b@.len(),
        a@.len() == g@.len(),
    ensures
        c@.len() == 4,
        is_round(c@, a@, b@, g@),
{
    proof {
        let n = choose|n: nat| n > 0 && a@.len() == #[trigger] exp2(n);
        assert(exp2(n) == 2 * exp2((n - 1) as nat));
    }
    let s = slot_sums(a, b, g);
    let mut c: Vec<B128> = Vec::new();
    c.push(s[0]);
    c.push(s[1]);
    c.push(s[2]);
    c.push(s[3]);
    proof {
        lemma_round(c@, a@, b@, g@);
    }
    c
}

/// A copy of four coefficients.
fn copy_four(c: &Vec<B128>) -> (d: Vec<B128>)
    requires
        c@.len() == 4,
    ensures
        d@ == c@,
{
    let mut d: Vec<B128> = Vec::new();
    d.push(c[0]);
    d.push(c[1]);
    d.push(c[2]);
    d.push(c[3]);
    assert(d@ =~= c@);
    d
}

impl CubicProductSumcheckProver {
    /// The three tables have `2^n` entries each.
    pub open spec fn wf(self, n: nat) -> bool {
        &&& self.a@.len() == exp2(n)
        &&& self.b@.len() == exp2(n)
        &&& self.g@.len() == exp2(n)
    }

    /// A prover for three tables of the same length and the claimed sum of their products.
    pub fn new(a: Vec<B128>, b: Vec<B128>, g: Vec<B128>, sum: B128) -> (r: Self)
        requires
            exists|n: nat| a@.len() == #[trigger] exp2(n),
            a@.len() == b@.len(),
            a@.len() == g@.len(),
        ensures
            r.a == a,
            r.b == b,
            r.g == g,
            r.last_coeffs_or_sum == RoundCoeffsOrSum::Sum(sum),
            exists|n: nat| #[trigger] r.wf(n),
    {
        let r = CubicProductSumcheckProver {
            a,
            b,
            g,
            last_coeffs_or_sum: RoundCoeffsOrSum::Sum(sum),
        };
        proof {
            let n = choose|n: nat| a@.len() == #[trigger] exp2(n);
            assert(r.wf(n));
        }
        r
    }

    /// The number of variables that are left.
    pub fn n_vars(&self) -> (n: usize)
        requires
            exists|k: nat| #[trigger] self.wf(k),
        ensures
            self.wf(n as nat),
    {
        let ghost k = choose|k: nat| #[trigger] self.wf(k);
        match log2_exact(self.a.len()) {
            Some(n) => {
                proof {
                    lemma_exp2_injective(n as nat, k);
                }
                n
            },
            None => 0,
        }
    }

    /// The number of claims that the prover batches.
    pub fn n_claims(&self) -> (n: usize)
        ensures
            n == 1,
    {
        1
    }

    /// The claim that the current round is for.
    pub fn round_claim(&self) -> (r: Vec<B128>)
        ensures
            r@.len() == 1,
            match self.last_coeffs_or_sum {
                RoundCoeffsOrSum::Sum(s) => r@[0] == s,
                RoundCoeffsOrSum::Coeffs(c) => r@[0] == univariate(c.0@, zero()) + univariate(
                    c.0@,
                    one(),
                ),
            },
    {
        let claim = match &self.last_coeffs_or_sum {
            RoundCoeffsOrSum::Sum(s) => *s,
            RoundCoeffsOrSum::Coeffs(c) => c.sum_over_endpoints(),
        };
        let mut r: Vec<B128> = Vec::new();
        r.push(claim);
        r
    }

    /// Computes the round polynomial.
    pub fn execute(&mut self) -> (r: Vec<RoundCoeffs>)
        requires
            exists|n: nat| n > 0 && #[trigger] old(self).wf(n),
            old(self).last_coeffs_or_sum is Sum,
        ensures
            r@.len() == 1,
            is_round(r@[0].0@, old(self).a@, old(self).b@, old(self).g@),
            final(self).a == old(self).a,
            final(self).b == old(self).b,
            final(self).g == old(self).g,
            final(self).last_coeffs_or_sum is Coeffs,
            final(self).last_coeffs_or_sum->Coeffs_0.0@ == r@[0].0@,
    {
        let c = round_coefficients(&self.a, &self.b, &self.g);
        let d = copy_four(&c);
        self.last_coeffs_or_sum = RoundCoeffsOrSum::Coeffs(RoundCoeffs(d));
        let mut r: Vec<RoundCoeffs> = Vec::new();
        r.push(RoundCoeffs(c));
        r
    }

    /// Binds the top variable to the challenge.
    pub fn fold(&mut self, challenge: B128)
        requires
            exists|n: nat| n > 0 && #[trigger] old(self).wf(n),
            old(self).last_coeffs_or_sum is Coeffs,
        ensures
            final(self).a@ == fold_top(old(self).a@, challenge),
            final(self).b@ == fold_top(old(self).b@, challenge),
            final(self).g@ == fold_top(old(self).g@, challenge),
            final(self).last_coeffs_or_sum == RoundCoeffsOrSum::Sum(
                univariate(old(self).last_coeffs_or_sum->Coeffs_0.0@, challenge),
            ),
            forall|n: nat| n > 0 && #[trigger] old(self).wf(n) ==> final(self).wf((n - 1) as nat),
    {
        let ghost n = choose|n: nat| n > 0 && #[trigger] self.wf(n);
        proof {
            assert(exp2(n) == 2 * exp2((n - 1) as nat));
        }
        let s = match &self.last_coeffs_or_sum {
            RoundCoeffsOrSum::Coeffs(c) => c.evaluate(challenge),
            RoundCoeffsOrSum::Sum(s) => *s,
        };
        fold_highest_var_inplace(&mut self.a, challenge);
        fold_highest_var_inplace(&mut self.b, challenge);
        fold_highest_var_inplace(&mut self.g, challenge);
        self.last_coeffs_or_sum = RoundCoeffsOrSum::Sum(s);
        proof {
            assert forall|m: nat| m > 0 && #[trigger] old(self).wf(m) implies self.wf(
                (m - 1) as nat,
            ) by {
                lemma_exp2_injective(m, n);
            }
        }
    }

    /// The three values that are left when all variables are bound.
    pub fn finish(self) -> (r: Vec<B128>)
        requires
            self.wf(0),
        ensures
            r@ == seq![self.a@[0], self.b@[0], self.g@[0]],
    {
        let mut r: Vec<B128> = Vec::new();
        r.push(self.a[0]);
        r.push(self.b[0]);
        r.push(self.g[0]);
        assert(r@ =~= seq![self.a@[0], self.b@[0], self.g@[0]]);
        r
    }
}

/// A true claim stays true through a round: bound to a challenge, the round polynomial's value is
/// the sum of the products of the folded tables.
pub proof fn law_round_keeps_truth(c: Seq<B128>, a: Seq<B128>, b: Seq<B128>, g: Seq<B128>, challenge: B128)
    requires
        is_round(c, a, b, g),
    ensures
        univariate(c, challenge) == product_sum(
            fold_top(a, challenge),
            fold_top(b, challenge),
            fold_top(g, challenge),
        ),
{
    assert(univariate(c, challenge) == bound_sum(a, b, g, challenge));
}

/// The sum of products grows by the product of the three further entries.
pub proof fn law_product_sum_grows(
    a: Seq<B128>,
    b: Seq<B128>,
    g: Seq<B128>,
    x: B128,
    y: B128,
    z: B128,
)
    requires
        b.len() == a.len(),
        g.len() == a.len(),
    ensures
        product_sum(Seq::<B128>::empty(), b, g) == zero(),
        product_sum(a.push(x), b.push(y), g.push(z)) == product_sum(a, b, g) + x * y * z,
{
    let (p, q, r) = (a.push(x), b.push(y), g.push(z));
    let n = a.len();
    let f = |i: int| a[i] * b[i] * g[i];
    let h = |i: int| p[i] * q[i] * r[i];
    assert(product_sum(a, b, g) == sum(f, n));
    assert(product_sum(p, q, r) == sum(h, (n + 1) as nat));
    crate::field::sums::lemma_sum_ext(f, h, n);
}

} // verus!
