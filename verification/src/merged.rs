//! The opening of both tables together.
//!
//! Two evaluation claims, on a table of more and one of fewer variables, are reduced to one shared
//! point; there, the two tables are combined by one challenge into a single table, whose evaluation
//! the code opening checks.

use crate::error::{DischargeError, VerifyError};
use crate::field::element::{one, zero, B128};
use crate::field::ring::{
    group_units, law_add_zero, law_mul_associates, law_mul_commutes, law_mul_zero,
};
use crate::field::sums::sum;
use crate::histogram::{padded, zero_table};
use crate::multilinear::eq::{
    eq_at, eq_ind, eq_ind_partial_eval_scalars, eq_ind_zero, eq_points, eq_tensor, eq_zero,
};
use crate::multilinear::exp2::{exp2, exp2_usize, lemma_exp2_mono, lemma_exp2_pos};
use crate::multilinear::mle::{
    law_mle_linear, law_mle_of_tensor, law_mle_padded, law_mle_repeated, mle, table_add,
    table_scale, zeros,
};
use crate::multilinear::univariate::{evaluate_univariate, univariate};
use crate::step2::common::{copy_elems, reversed};
use crate::vk::FriParams;
use vstd::prelude::*;

verus! {

/// A sumcheck over a batch of claims.
pub struct BatchSumcheck {
    pub n_vars: usize,
    pub degree: usize,
    pub sums: Vec<B128>,
}

/// What a batched sumcheck reduces to: the batching challenge, the reduced evaluation, and the
/// round challenges in order, from the top variable down.
#[derive(Debug, Clone)]
pub struct BatchReduced {
    pub batch_coeff: B128,
    pub eval: B128,
    pub challenges: Vec<B128>,
}

/// What one oracle contributes to the reduced evaluation.
pub open spec fn contribution(point: Seq<B128>, alpha: B128, r: Seq<B128>) -> B128 {
    alpha * eq_points(point, r.take(point.len() as int)) * eq_zero(r.skip(point.len() as int))
}

/// What one oracle contributes to the combined evaluation.
pub open spec fn lifted_eval(n: nat, log_lift: nat, e: B128, alpha: B128, r: Seq<B128>) -> B128 {
    e * alpha * eq_zero(r.subrange(n as int, (n + log_lift) as int))
}

/// The combined evaluation of two oracles.
pub open spec fn combined_target(
    n: (nat, nat),
    lift: (nat, nat),
    alphas: Seq<B128>,
    outer: B128,
    r: Seq<B128>,
) -> B128 {
    lifted_eval(n.0, lift.0, eq_tensor(seq![outer])[0], alphas[0], r) + lifted_eval(
        n.1,
        lift.1,
        eq_tensor(seq![outer])[1],
        alphas[1],
        r,
    )
}

/// A verifier of the opening that awaits the reduction.
pub struct MergedReduction {
    pub points: (Vec<B128>, Vec<B128>),
    pub lifts: (usize, usize),
}

/// A verifier of the opening that awaits the two evaluations.
pub struct MergedAlphas {
    pub points: (Vec<B128>, Vec<B128>),
    pub lifts: (usize, usize),
    pub batch_coeff: B128,
    pub reduced: B128,
    /// The shared point, low-coordinate-first.
    pub point: Vec<B128>,
}

/// A verifier of the opening that awaits the combining challenge.
pub struct MergedOuter {
    pub n: (usize, usize),
    pub lifts: (usize, usize),
    pub alphas: [B128; 2],
    pub point: Vec<B128>,
}

/// The code opening that is left to check.
pub struct MergedOpening {
    pub s_prime: B128,
    pub point: Vec<B128>,
    pub outer: B128,
}

/// What is wrong with an opening, if anything.
pub open spec fn opening_error(n_oracles: nat, n: (nat, nat)) -> Option<DischargeError> {
    if n_oracles != 2 {
        Some(DischargeError::OracleCount)
    } else if n.0 < n.1 {
        Some(DischargeError::OracleOrder)
    } else {
        None
    }
}

/// Begins the verification of an opening: the claims, each a point and its value, in the order of
/// the oracles.
pub fn verify_merged_openings(
    params: &FriParams,
    points: (Vec<B128>, Vec<B128>),
    evals: (B128, B128),
) -> (r: Result<(MergedReduction, BatchSumcheck), VerifyError>)
    ensures
        match r {
            Ok((state, request)) => {
                &&& opening_error(
                    params.input_oracles@.len(),
                    (points.0@.len(), points.1@.len()),
                ) is None
                &&& state.points == points
                &&& state.lifts.0 == params.input_oracles@[0].log_lift
                &&& state.lifts.1 == params.input_oracles@[1].log_lift
                &&& request.n_vars == points.0@.len()
                &&& request.degree == 2
                &&& request.sums@ == seq![evals.0, evals.1]
            },
            Err(e) => {
                let why = opening_error(
                    params.input_oracles@.len(),
                    (points.0@.len(), points.1@.len()),
                );
                why is Some && e == VerifyError::Precondition(why->Some_0)
            },
        },
        r is Ok <==> params.input_oracles@.len() == 2 && points.1@.len() <= points.0@.len(),
        params.input_oracles@.len() != 2 ==> r->Err_0 == VerifyError::Precondition(
            DischargeError::OracleCount,
        ),
        params.input_oracles@.len() == 2 && points.0@.len() < points.1@.len() ==> r->Err_0
            == VerifyError::Precondition(DischargeError::OracleOrder),
{
    if params.input_oracles.len() != 2 {
        return Err(VerifyError::Precondition(DischargeError::OracleCount));
    }
    if points.0.len() < points.1.len() {
        return Err(VerifyError::Precondition(DischargeError::OracleOrder));
    }
    let n_vars: usize = points.0.len();
    let lifts = (params.input_oracles[0].log_lift, params.input_oracles[1].log_lift);
    let mut sums: Vec<B128> = Vec::new();
    sums.push(evals.0);
    sums.push(evals.1);
    assert(sums@ =~= seq![evals.0, evals.1]);
    Ok((MergedReduction { points, lifts }, BatchSumcheck { n_vars, degree: 2, sums }))
}

impl MergedReduction {
    /// The reduction was verified; two evaluations are to be received.
    pub fn reduced(self, out: BatchReduced) -> (r: MergedAlphas)
        ensures
            r.points == self.points,
            r.lifts == self.lifts,
            r.batch_coeff == out.batch_coeff,
            r.reduced == out.eval,
            r.point@ == out.challenges@.reverse(),
    {
        let point = reversed(&out.challenges);
        MergedAlphas {
            points: self.points,
            lifts: self.lifts,
            batch_coeff: out.batch_coeff,
            reduced: out.eval,
            point,
        }
    }

    /// The reduction was rejected.
    pub fn failed(self, reason: String) -> (e: VerifyError)
        ensures
            e == (VerifyError::Sumcheck { phase: "merged opening reduction batch_verify", reason }),
    {
        VerifyError::Sumcheck { phase: "merged opening reduction batch_verify", reason }
    }
}

impl MergedAlphas {
    /// The reduced evaluation that the two evaluations amount to.
    pub open spec fn expected(self, alphas: Seq<B128>) -> B128 {
        univariate(
            seq![
                contribution(self.points.0@, alphas[0], self.point@),
                contribution(self.points.1@, alphas[1], self.point@),
            ],
            self.batch_coeff,
        )
    }

    /// The two evaluations were received: they must recombine to the reduced evaluation. A
    /// combining challenge is to be drawn.
    pub fn received(self, alphas: [B128; 2]) -> (r: Result<MergedOuter, VerifyError>)
        requires
            self.points.0@.len() == self.point@.len(),
            self.points.1@.len() <= self.point@.len(),
        ensures
            match r {
                Ok(next) => {
                    &&& self.reduced == self.expected(alphas@)
                    &&& next.n.0 == self.points.0@.len()
                    &&& next.n.1 == self.points.1@.len()
                    &&& next.lifts == self.lifts
                    &&& next.alphas == alphas
                    &&& next.point == self.point
                },
                Err(e) => self.reduced != self.expected(alphas@) && e
                    == VerifyError::ReductionRecombination,
            },
    {
        let c0 = oracle_contribution(&self.points.0, alphas[0], &self.point);
        let c1 = oracle_contribution(&self.points.1, alphas[1], &self.point);
        let mut cs: Vec<B128> = Vec::new();
        cs.push(c0);
        cs.push(c1);
        assert(cs@ =~= seq![c0, c1]);
        let expected = evaluate_univariate(&cs, self.batch_coeff);
        if self.reduced != expected {
            return Err(VerifyError::ReductionRecombination);
        }
        let n = (self.points.0.len(), self.points.1.len());
        Ok(MergedOuter { n, lifts: self.lifts, alphas, point: self.point })
    }

    /// The evaluations could not be received.
    pub fn failed(self, reason: String) -> (e: VerifyError)
        ensures
            e == (VerifyError::Channel { phase: "merged opening reduction alphas", reason }),
    {
        VerifyError::Channel { phase: "merged opening reduction alphas", reason }
    }
}

/// What one oracle contributes to the reduced evaluation.
fn oracle_contribution(point: &Vec<B128>, alpha: B128, r: &Vec<B128>) -> (c: B128)
    requires
        point@.len() <= r@.len(),
    ensures
        c == contribution(point@, alpha, r@),
{
    let n: usize = point.len();
    let low = vstd::slice::slice_subrange(r.as_slice(), 0, n);
    let high = vstd::slice::slice_subrange(r.as_slice(), n, r.len());
    assert(low@ =~= r@.take(n as int));
    assert(high@ =~= r@.skip(n as int));
    alpha * eq_ind(point, low) * eq_ind_zero(high)
}

/// The combined evaluation of two oracles.
fn combine_target(n: (usize, usize), lifts: (usize, usize), alphas: &[B128; 2], outer: B128, r: &Vec<B128>) -> (s:
    B128)
    requires
        n.0 + lifts.0 <= r@.len(),
        n.1 + lifts.1 <= r@.len(),
    ensures
        s == combined_target(
            (n.0 as nat, n.1 as nat),
            (lifts.0 as nat, lifts.1 as nat),
            alphas@,
            outer,
            r@,
        ),
{
    let eq = outer_tensor(outer);
    let len: usize = r.len();
    let z0 = vstd::slice::slice_subrange(r.as_slice(), n.0, n.0 + lifts.0);
    let z1 = vstd::slice::slice_subrange(r.as_slice(), n.1, n.1 + lifts.1);
    assert(z0@ =~= r@.subrange(n.0 as int, n.0 + lifts.0));
    assert(z1@ =~= r@.subrange(n.1 as int, n.1 + lifts.1));
    eq[0] * alphas[0] * eq_ind_zero(z0) + eq[1] * alphas[1] * eq_ind_zero(z1)
}

/// The weights of the two oracles.
fn outer_tensor(outer: B128) -> (v: Vec<B128>)
    ensures
        v@ == eq_tensor(seq![outer]),
        v@.len() == 2,
{
    let mut p: Vec<B128> = Vec::new();
    p.push(outer);
    assert(p@ =~= seq![outer]);
    assert(exp2(1) == 2 * exp2(0));
    eq_ind_partial_eval_scalars(&p)
}

impl MergedOuter {
    /// The combining challenge was drawn; the code opening is to be verified.
    pub fn sampled(self, outer: B128) -> (r: MergedOpening)
        requires
            self.n.0 + self.lifts.0 <= self.point@.len(),
            self.n.1 + self.lifts.1 <= self.point@.len(),
        ensures
            r.s_prime == combined_target(
                (self.n.0 as nat, self.n.1 as nat),
                (self.lifts.0 as nat, self.lifts.1 as nat),
                self.alphas@,
                outer,
                self.point@,
            ),
            r.point == self.point,
            r.outer == outer,
    {
        let s_prime = combine_target(self.n, self.lifts, &self.alphas, outer, &self.point);
        MergedOpening { s_prime, point: self.point, outer }
    }
}

impl MergedOpening {
    /// The code opening was verified; `consistent` says whether its last codeword value and its
    /// last claim agree.
    pub fn finished(self, consistent: bool) -> (r: Result<(), VerifyError>)
        ensures
            r == (if consistent {
                Ok::<(), VerifyError>(())
            } else {
                Err(VerifyError::FriMleInconsistency)
            }),
    {
        if !consistent {
            return Err(VerifyError::FriMleInconsistency);
        }
        Ok(())
    }

    /// The code opening was rejected.
    pub fn failed(self, reason: String) -> (e: VerifyError)
        ensures
            e == (VerifyError::Basefold { reason }),
    {
        VerifyError::Basefold { reason }
    }
}

/// An evaluation claim on a committed table.
pub struct OpenClaim {
    pub message: Vec<B128>,
    pub point: Vec<B128>,
    pub eval: B128,
}

/// A product of two tables whose sum is claimed, and the number of variables by which it is padded
/// at the top.
pub struct PaddedProduct {
    pub message: Vec<B128>,
    pub transparent: Vec<B128>,
    pub eval: B128,
    pub padding: usize,
}

/// A prover of the opening that awaits the reduction.
pub struct MergedProve {
    pub messages: (Vec<B128>, Vec<B128>),
    pub n: (usize, usize),
    pub lifts: (usize, usize),
}

/// What is wrong with a prover's opening claims, if anything.
pub open spec fn open_claims_error(
    n_oracles: nat,
    n_codewords: nat,
    n: (nat, nat),
    arity: (nat, nat),
) -> Option<DischargeError> {
    if n_oracles != 2 {
        Some(DischargeError::OracleCount)
    } else if n_codewords != 2 {
        Some(DischargeError::CodewordCount)
    } else if n.0 < n.1 {
        Some(DischargeError::OracleOrder)
    } else if arity.0 != n.0 {
        Some(DischargeError::OpeningArity { claim: 0 })
    } else if arity.1 != n.1 {
        Some(DischargeError::OpeningArity { claim: 1 })
    } else {
        None
    }
}

/// Begins the proof of an opening over `n_codewords` committed codewords: the two products whose sums
/// the claims amount to. `n` holds the numbers of variables of the two messages.
pub fn prove_merged_openings(
    params: &FriParams,
    c0: OpenClaim,
    c1: OpenClaim,
    n: (usize, usize),
    n_codewords: usize,
) -> (r: Result<(MergedProve, PaddedProduct, PaddedProduct), DischargeError>)
    requires
        c0.message@.len() == exp2(n.0 as nat),
        c1.message@.len() == exp2(n.1 as nat),
    ensures
        match r {
            Ok((state, p0, p1)) => {
                &&& open_claims_error(
                    params.input_oracles@.len(),
                    n_codewords as nat,
                    (n.0 as nat, n.1 as nat),
                    (c0.point@.len(), c1.point@.len()),
                ) is None
                &&& state.messages.0@ == c0.message@
                &&& state.messages.1@ == c1.message@
                &&& state.n == n
                &&& state.lifts.0 == params.input_oracles@[0].log_lift
                &&& state.lifts.1 == params.input_oracles@[1].log_lift
                &&& p0.message@ == c0.message@
                &&& p0.transparent@ == eq_tensor(c0.point@)
                &&& p0.eval == c0.eval
                &&& p0.padding == 0
                &&& p1.message@ == c1.message@
                &&& p1.transparent@ == eq_tensor(c1.point@)
                &&& p1.eval == c1.eval
                &&& p1.padding == n.0 - n.1
            },
            Err(e) => open_claims_error(
                params.input_oracles@.len(),
                n_codewords as nat,
                (n.0 as nat, n.1 as nat),
                (c0.point@.len(), c1.point@.len()),
            ) == Some(e),
        },
        r is Ok <==> params.input_oracles@.len() == 2 && n_codewords == 2 && n.1 <= n.0
            && c0.point@.len() == n.0 && c1.point@.len() == n.1,
        params.input_oracles@.len() != 2 ==> r->Err_0 == DischargeError::OracleCount,
        params.input_oracles@.len() == 2 && n_codewords != 2 ==> r->Err_0
            == DischargeError::CodewordCount,
        params.input_oracles@.len() == 2 && n_codewords == 2 && n.0 < n.1 ==> r->Err_0
            == DischargeError::OracleOrder,
        params.input_oracles@.len() == 2 && n_codewords == 2 && n.0 >= n.1 && c0.point@.len() != n.0
            ==> r->Err_0 == (DischargeError::OpeningArity { claim: 0 }),
        params.input_oracles@.len() == 2 && n_codewords == 2 && n.0 >= n.1 && c0.point@.len() == n.0
            && c1.point@.len() != n.1 ==> r->Err_0 == (DischargeError::OpeningArity { claim: 1 }),
{
    if params.input_oracles.len() != 2 {
        return Err(DischargeError::OracleCount);
    }
    if n_codewords != 2 {
        return Err(DischargeError::CodewordCount);
    }
    if n.0 < n.1 {
        return Err(DischargeError::OracleOrder);
    }
    if c0.point.len() != n.0 {
        return Err(DischargeError::OpeningArity { claim: 0 });
    }
    if c1.point.len() != n.1 {
        return Err(DischargeError::OpeningArity { claim: 1 });
    }
    let len0: usize = c0.message.len();
    let len1: usize = c1.message.len();
    assert(exp2(c0.point@.len()) == len0);
    assert(exp2(c1.point@.len()) == len1);
    let t0 = eq_ind_partial_eval_scalars(&c0.point);
    let t1 = eq_ind_partial_eval_scalars(&c1.point);
    let lifts = (params.input_oracles[0].log_lift, params.input_oracles[1].log_lift);
    let m0 = copy_elems(&c0.message);
    let m1 = copy_elems(&c1.message);
    Ok(
        (
            MergedProve { messages: (c0.message, c1.message), n, lifts },
            PaddedProduct { message: m0, transparent: t0, eval: c0.eval, padding: 0 },
            PaddedProduct { message: m1, transparent: t1, eval: c1.eval, padding: n.0 - n.1 },
        ),
    )
}

/// A table placed at the low entries of every block of `chunk` entries, the rest zero.
pub open spec fn lifted(v: Seq<B128>, chunk: nat, n: nat) -> Seq<B128> {
    Seq::new(n, |j: int| padded(v, chunk)[j % (chunk as int)])
}

/// Adds a multiple of a lifted table.
fn accumulate_lifted(dst: &mut Vec<B128>, src: &Vec<B128>, chunk: usize, scalar: B128)
    requires
        chunk > 0,
        src@.len() <= chunk,
    ensures
        final(dst)@ == table_add(
            old(dst)@,
            table_scale(scalar, lifted(src@, chunk as nat, old(dst)@.len())),
        ),
{
    let ghost before = dst@;
    let ghost add = lifted(src@, chunk as nat, before.len());
    let mut j: usize = 0;
    while j < dst.len()
        invariant
            j <= before.len(),
            dst@.len() == before.len(),
            chunk > 0,
            src@.len() <= chunk,
            add == lifted(src@, chunk as nat, before.len()),
            forall|i: int| 0 <= i < j ==> #[trigger] dst@[i] == before[i] + scalar * add[i],
            forall|i: int| j <= i < before.len() ==> #[trigger] dst@[i] == before[i],
        decreases before.len() - j,
    {
        let b: usize = j % chunk;
        if b < src.len() {
            let v = dst[j] + scalar * src[b];
            dst.set(j, v);
        } else {
            proof {
                law_mul_zero(scalar);
                law_add_zero(before[j as int]);
            }
        }
        j = j + 1;
    }
    assert(dst@ =~= table_add(before, table_scale(scalar, add)));
}

/// The combination of two tables over the shared variables.
pub open spec fn combined_table(
    m: (Seq<B128>, Seq<B128>),
    n: (nat, nat),
    lift: (nat, nat),
    outer: B128,
) -> Seq<B128> {
    let len = exp2(n.0);
    let e = eq_tensor(seq![outer]);
    table_add(
        table_add(zeros(len), table_scale(e[0], lifted(m.0, exp2(n.0 + lift.0), len))),
        table_scale(e[1], lifted(m.1, exp2(n.1 + lift.1), len)),
    )
}

impl MergedProve {
    /// The reduction was proved at this point; its number of rounds must be that of the larger
    /// message's variables. The two evaluations are to be sent, and a combining challenge is to be
    /// drawn.
    pub fn reduced(self, point: Vec<B128>, alphas: [B128; 2]) -> (r: Result<
        MergedCombine,
        DischargeError,
    >)
        ensures
            match r {
                Ok(next) => {
                    &&& point@.len() == self.n.0
                    &&& next.messages == self.messages
                    &&& next.n == self.n
                    &&& next.lifts == self.lifts
                    &&& next.point == point
                    &&& next.alphas == alphas
                },
                Err(e) => point@.len() != self.n.0 && e == DischargeError::ReductionRounds,
            },
    {
        if point.len() != self.n.0 {
            return Err(DischargeError::ReductionRounds);
        }
        Ok(
            MergedCombine {
                messages: self.messages,
                n: self.n,
                lifts: self.lifts,
                point,
                alphas,
            },
        )
    }
}

/// A prover of the opening that awaits the combining challenge.
pub struct MergedCombine {
    pub messages: (Vec<B128>, Vec<B128>),
    pub n: (usize, usize),
    pub lifts: (usize, usize),
    pub point: Vec<B128>,
    pub alphas: [B128; 2],
}

impl MergedCombine {
    /// The combining challenge was drawn: the combined table and its claimed evaluation, which the
    /// code opening is to prove.
    pub fn combined(&self, outer: B128) -> (r: (Vec<B128>, B128))
        requires
            self.messages.0@.len() == exp2(self.n.0 as nat),
            self.messages.1@.len() == exp2(self.n.1 as nat),
            self.point@.len() == self.n.0,
            self.n.0 + self.lifts.0 <= self.n.0,
            self.n.1 + self.lifts.1 <= self.n.0,
        ensures
            r.0@ == combined_table(
                (self.messages.0@, self.messages.1@),
                (self.n.0 as nat, self.n.1 as nat),
                (self.lifts.0 as nat, self.lifts.1 as nat),
                outer,
            ),
            r.1 == combined_target(
                (self.n.0 as nat, self.n.1 as nat),
                (self.lifts.0 as nat, self.lifts.1 as nat),
                self.alphas@,
                outer,
                self.point@,
            ),
    {
        let len: usize = self.messages.0.len();
        proof {
            assert(len == exp2(self.n.0 as nat));
            lemma_exp2_mono((self.n.1 + self.lifts.1) as nat, self.n.0 as nat);
            lemma_exp2_mono(self.n.1 as nat, (self.n.1 + self.lifts.1) as nat);
            lemma_exp2_pos((self.n.0 + self.lifts.0) as nat);
            lemma_exp2_pos((self.n.1 + self.lifts.1) as nat);
        }
        let e = outer_tensor(outer);
        let mut combined = zero_table(self.n.0);
        let chunk0: usize = exp2_usize(self.n.0 + self.lifts.0);
        let chunk1: usize = exp2_usize(self.n.1 + self.lifts.1);
        accumulate_lifted(&mut combined, &self.messages.0, chunk0, e[0]);
        accumulate_lifted(&mut combined, &self.messages.1, chunk1, e[1]);
        let s_prime = combine_target(self.n, self.lifts, &self.alphas, outer, &self.point);
        (combined, s_prime)
    }
}

/// The extension of a lifted table: the table's own at the low coordinates, times `eq(0, .)` at
/// those that lift it.
pub proof fn law_lifted_eval(v: Seq<B128>, n: nat, log_lift: nat, r: Seq<B128>)
    requires
        v.len() == exp2(n),
        n + log_lift <= r.len(),
    ensures
        mle(lifted(v, exp2(n + log_lift), exp2(r.len())), r) == mle(v, r.take(n as int)) * eq_zero(
            r.subrange(n as int, (n + log_lift) as int),
        ),
{
    let a = r.take(n as int);
    let b = r.subrange(n as int, (n + log_lift) as int);
    let ab = r.take((n + log_lift) as int);
    let c = r.skip((n + log_lift) as int);
    assert(a + b =~= ab);
    assert(ab + c =~= r);
    let chunk = exp2(n + log_lift);
    lemma_exp2_mono(n, n + log_lift);
    lemma_exp2_pos(n + log_lift);
    let p = padded(v, chunk);
    law_mle_padded(v, p, a, b);
    law_mle_repeated(p, lifted(v, chunk, exp2(r.len())), ab, c);
}

/// A table repeated over `n` entries.
pub open spec fn repeated(v: Seq<B128>, n: nat) -> Seq<B128> {
    Seq::new(n, |j: int| v[j % (v.len() as int)])
}

/// What an oracle contributes to the reduced evaluation is the product, at the shared point, of its
/// message padded with zeros and its weights repeated.
pub proof fn law_contribution(m: Seq<B128>, point: Seq<B128>, r: Seq<B128>)
    requires
        m.len() == exp2(point.len()),
        point.len() <= r.len(),
    ensures
        contribution(point, mle(m, r.take(point.len() as int)), r) == mle(
            padded(m, exp2(r.len())),
            r,
        ) * mle(repeated(eq_tensor(point), exp2(r.len())), r),
{
    let a = r.take(point.len() as int);
    let b = r.skip(point.len() as int);
    assert(a + b =~= r);
    lemma_exp2_mono(point.len(), r.len());
    lemma_exp2_pos(point.len());
    law_mle_padded(m, padded(m, exp2(r.len())), a, b);
    law_mle_repeated(eq_tensor(point), repeated(eq_tensor(point), exp2(r.len())), a, b);
    law_mle_of_tensor(point, a);
    let (x, y, z) = (mle(m, a), eq_points(point, a), eq_zero(b));
    law_mul_associates(x, y, z);
    law_mul_commutes(y, z);
    law_mul_associates(x, z, y);
}

/// The combined table takes the combined evaluation at the shared point, when the two evaluations
/// are those of the two tables.
pub proof fn law_combined_eval(
    m: (Seq<B128>, Seq<B128>),
    n: (nat, nat),
    lift: (nat, nat),
    outer: B128,
    r: Seq<B128>,
    alphas: Seq<B128>,
)
    requires
        m.0.len() == exp2(n.0),
        m.1.len() == exp2(n.1),
        r.len() == n.0,
        n.0 + lift.0 <= r.len(),
        n.1 + lift.1 <= r.len(),
        alphas[0] == mle(m.0, r.take(n.0 as int)),
        alphas[1] == mle(m.1, r.take(n.1 as int)),
    ensures
        mle(combined_table(m, n, lift, outer), r) == combined_target(n, lift, alphas, outer, r),
{
    broadcast use group_units;

    let len = exp2(n.0);
    let e = eq_tensor(seq![outer]);
    let l0 = lifted(m.0, exp2(n.0 + lift.0), len);
    let l1 = lifted(m.1, exp2(n.1 + lift.1), len);
    let z = zeros(len);
    law_mle_linear(e[0], l0, l0, r);
    law_mle_linear(e[1], l1, l1, r);
    law_mle_linear(e[0], z, table_scale(e[0], l0), r);
    law_mle_linear(e[0], table_add(z, table_scale(e[0], l0)), table_scale(e[1], l1), r);
    crate::multilinear::mle::law_mle_zeros(z, r);
    law_lifted_eval(m.0, n.0, lift.0, r);
    law_lifted_eval(m.1, n.1, lift.1, r);
    let z0 = eq_zero(r.subrange(n.0 as int, (n.0 + lift.0) as int));
    let z1 = eq_zero(r.subrange(n.1 as int, (n.1 + lift.1) as int));
    law_mul_associates(e[0], alphas[0], z0);
    law_mul_associates(e[1], alphas[1], z1);
}

/// The two weights of a combining challenge.
proof fn lemma_outer_weights(outer: B128)
    ensures
        eq_tensor(seq![outer]).len() == 2,
        eq_tensor(seq![outer])[0] == one() + outer,
        eq_tensor(seq![outer])[1] == outer,
{
    broadcast use group_units;

    reveal_with_fuel(eq_at, 2);
    assert(exp2(1) == 2 * exp2(0));
    assert(seq![outer].drop_last() =~= Seq::empty());
    assert(exp2(0) == 1);
}

/// Entry by entry, the combined table is the first table weighted by `1 + outer` plus the second
/// weighted by `outer`, each placed at the low entries of its blocks.
pub proof fn law_combined_entries(
    m: (Seq<B128>, Seq<B128>),
    n: (nat, nat),
    lift: (nat, nat),
    outer: B128,
    j: int,
)
    requires
        m.0.len() == exp2(n.0),
        m.1.len() == exp2(n.1),
        0 <= j < exp2(n.0),
    ensures
        combined_table(m, n, lift, outer).len() == exp2(n.0),
        ({
            let j0 = j % (exp2(n.0 + lift.0) as int);
            let j1 = j % (exp2(n.1 + lift.1) as int);
            combined_table(m, n, lift, outer)[j] == (one() + outer) * (if j0 < m.0.len() {
                m.0[j0]
            } else {
                zero()
            }) + outer * (if j1 < m.1.len() {
                m.1[j1]
            } else {
                zero()
            })
        }),
{
    broadcast use group_units;

    lemma_outer_weights(outer);
    lemma_exp2_pos(n.0 + lift.0);
    lemma_exp2_pos(n.1 + lift.1);
    vstd::arithmetic::div_mod::lemma_mod_bound(j, exp2(n.0 + lift.0) as int);
    vstd::arithmetic::div_mod::lemma_mod_bound(j, exp2(n.1 + lift.1) as int);
}

/// The combined evaluation is the first evaluation weighted by `1 + outer` plus the second weighted by
/// `outer`, each times the product of `1 + r[k]` over the coordinates that lift its table.
pub proof fn law_combined_target(
    n: (nat, nat),
    lift: (nat, nat),
    alphas: Seq<B128>,
    outer: B128,
    r: Seq<B128>,
)
    ensures
        combined_target(n, lift, alphas, outer, r) == (one() + outer) * alphas[0] * eq_zero(
            r.subrange(n.0 as int, (n.0 + lift.0) as int),
        ) + outer * alphas[1] * eq_zero(r.subrange(n.1 as int, (n.1 + lift.1) as int)),
{
    lemma_outer_weights(outer);
}

/// The evaluation that the verifier expects of the reduction is the sum of the two oracles'
/// contributions, the second weighted by the batching challenge.
pub proof fn law_expected_reduction(state: MergedAlphas, alphas: Seq<B128>)
    requires
        alphas.len() == 2,
    ensures
        state.expected(alphas) == contribution(state.points.0@, alphas[0], state.point@)
            + contribution(state.points.1@, alphas[1], state.point@) * state.batch_coeff,
{
    broadcast use group_units;

    let c = seq![
        contribution(state.points.0@, alphas[0], state.point@),
        contribution(state.points.1@, alphas[1], state.point@),
    ];
    let x = state.batch_coeff;
    crate::multilinear::univariate::lemma_horner(c, x);
    let d = c.skip(1);
    crate::multilinear::univariate::lemma_horner(d, x);
    assert(d.skip(1) =~= Seq::empty());
    assert(univariate(d.skip(1), x) == zero());
}

} // verus!
