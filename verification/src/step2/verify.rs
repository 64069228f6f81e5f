//! The verifier, one step at a time. Each state awaits one outside result: a sub-protocol's
//! outcome, a message, or a challenge. Its method for that result makes the check that the result
//! allows and says what comes next; its `failed` method is for an outside step that was rejected.

use crate::claim::gamma;
use crate::cs::SHIFT_VARIANT_COUNT;
use crate::discharge::{
    check_claims, checked_contexts, ctx_of, first_claim_error, no_claim_error, statement_elems,
    ClaimCtx, DischargeStatement,
};
use crate::encode::embed;
use crate::error::{DischargeError, VerifyError};
use crate::field::element::{one, zero, B128};
use crate::field::sums::{power, sum};
use crate::histogram::{eq_point, padded, points_view};
use crate::merged::{verify_merged_openings, BatchReduced, BatchSumcheck, MergedReduction};
use crate::multilinear::eq::eq_points;
use crate::multilinear::exp2::exp2;
use crate::multilinear::univariate::{evaluate_univariate, univariate};
use crate::step2::common::{
    batch_evals, batch_points, block_eq, block_indicators, check_statement_against_vkm, copy_elems,
    corner_claim, ctxs_fit, digest_eq, phase_b_claims, reversed, statement_error, vk_claim,
};
use crate::table::ShapeDims;
use crate::vk::{
    beta, build_pcs, check_dims_coherence, check_vkm, dims_error, fold_mismatch,
    law_coherent_is_derived, lemma_exp2_shift, vkm_elems, vkm_error, DischargeVkm, FriParams, Pcs,
};
use vstd::prelude::*;

verus! {

/// A sumcheck for one claim.
pub struct SumcheckRequest {
    pub n_vars: usize,
    pub degree: usize,
    pub sum: B128,
}

/// What a sumcheck reduces to.
#[derive(Debug, Clone)]
pub struct Reduced {
    pub eval: B128,
    /// The round challenges in order, from the top variable down.
    pub challenges: Vec<B128>,
}

/// A fraction check: the root fraction has numerator zero and this denominator.
pub struct FracCheck {
    pub n_vars: usize,
    pub den_eval: B128,
}

/// The claim on the leaves that a fraction check reduces to.
#[derive(Debug, Clone)]
pub struct LeafClaim {
    pub num_eval: B128,
    pub den_eval: B128,
    pub point: Vec<B128>,
}

/// A commitment: its root, and the shape of its tree.
#[derive(Debug, Clone, Copy, PartialEq, Eq)]
pub struct Commitment {
    pub root: [u8; 32],
    pub depth: usize,
    pub leaf_size: usize,
}

/// What every state knows: the shape, the claims in context, the opening's parameters and the
/// digest of the row table.
pub struct VerifierBase {
    pub dims: ShapeDims,
    pub ctxs: Vec<ClaimCtx>,
    pub pcs: Pcs,
    pub vk_digest: [u8; 32],
}

/// The opening's parameters are for two oracles, and their leaves and trees fit.
pub open spec fn fri_fits(params: FriParams) -> bool {
    &&& params.input_oracles@.len() == 2
    &&& exp2(params.input_oracles@[0].log_batch_size as nat) <= usize::MAX
    &&& exp2(params.input_oracles@[1].log_batch_size as nat) <= usize::MAX
    &&& params.input_oracles@[0].log_lift <= params.log_dim
    &&& params.input_oracles@[1].log_lift <= params.log_dim
    &&& params.log_dim + params.log_inv_rate <= usize::MAX
}

/// The commitment of an oracle with a given root.
pub open spec fn commitment_of(params: FriParams, oracle: int, root: [u8; 32], c: Commitment) -> bool {
    &&& c.root == root
    &&& c.depth == params.log_dim - params.input_oracles@[oracle].log_lift + params.log_inv_rate
    &&& c.leaf_size == exp2(params.input_oracles@[oracle].log_batch_size as nat)
}

impl VerifierBase {
    /// The dimensions are coherent, the contexts are for them, and the parameters fit.
    pub open spec fn wf(self) -> bool {
        &&& self.dims.derived()
        &&& self.dims.n_a + 2 <= 64
        &&& ctxs_fit(self.dims, self.ctxs@)
        &&& self.ctxs@.len() >= 1
        &&& 8 * self.ctxs@.len() <= usize::MAX
        &&& fri_fits(self.pcs.params)
    }
}

/// The claims' sums, in order.
pub open spec fn ctx_sums(ctxs: Seq<ClaimCtx>) -> Seq<B128> {
    ctxs.map_values(|c: ClaimCtx| c.sum)
}

/// What is wrong with a key and a statement before any claim is read, if anything. Dimensions that
/// do not cohere are rejected before they are used.
pub open spec fn intake_error(vkm: DischargeVkm, stmt: DischargeStatement, min_test_queries: usize) -> Option<
    DischargeError,
> {
    match statement_error(vkm.cs_digest, vkm.dims, stmt) {
        Some(e) => Some(e),
        None => if dims_error(vkm.dims) is Some {
            vkm_error(vkm, min_test_queries)
        } else {
            None
        },
    }
}

/// What a successful intake gives.
pub open spec fn committed_started(
    state: AwaitPhaseA,
    absorb: (Seq<B128>, Seq<B128>),
    request: BatchSumcheck,
    vkm: DischargeVkm,
    stmt: DischargeStatement,
    h_ops: Seq<[B128; 8]>,
    min_test_queries: usize,
    params: FriParams,
) -> bool {
    &&& statement_error(vkm.cs_digest, vkm.dims, stmt) is None
    &&& vkm_error(vkm, min_test_queries) is None
    &&& no_claim_error(vkm.dims, stmt.claims@)
    &&& params.fold_arities@ == vkm.fri_batch.fold_arities@
    &&& state.base.wf()
    &&& state.base.dims == vkm.dims
    &&& state.base.pcs.params == params
    &&& state.base.vk_digest@ == vkm.vk_digest@
    &&& state.base.ctxs@.len() == stmt.claims@.len()
    &&& forall|l: int|
        0 <= l < stmt.claims@.len() ==> ctx_of(
            #[trigger] state.base.ctxs@[l],
            vkm.dims,
            stmt.parity,
            stmt.claims@[l],
            h_ops[l]@,
            true,
        )
    &&& absorb.0 == vkm_elems(vkm)
    &&& absorb.1 == statement_elems(stmt)
    &&& request.n_vars == vkm.dims.n_t
    &&& request.degree == 3
    &&& request.sums@ == ctx_sums(state.base.ctxs@)
}

/// Why key and statement are refused before anything is derived from them: the statement, the
/// dimensions, the first faulty claim, or the rest of the metadata, in this order.
pub open spec fn precheck_fails(
    vkm: DischargeVkm,
    stmt: DischargeStatement,
    min_test_queries: usize,
    e: DischargeError,
) -> bool {
    ||| intake_error(vkm, stmt, min_test_queries) == Some(e)
    ||| intake_error(vkm, stmt, min_test_queries) is None && first_claim_error(
        vkm.dims,
        stmt.claims@,
        e,
    )
    ||| {
        &&& intake_error(vkm, stmt, min_test_queries) is None
        &&& no_claim_error(vkm.dims, stmt.claims@)
        &&& vkm_error(vkm, min_test_queries) == Some(e)
    }
}

/// Key and statement are admitted.
pub open spec fn precheck_ok(
    vkm: DischargeVkm,
    stmt: DischargeStatement,
    min_test_queries: usize,
) -> bool {
    &&& statement_error(vkm.cs_digest, vkm.dims, stmt) is None
    &&& vkm_error(vkm, min_test_queries) is None
    &&& no_claim_error(vkm.dims, stmt.claims@)
}

/// Why an intake fails: key and statement are refused, or the fold arities derived for the key are
/// not those that it pins.
pub open spec fn committed_fails(
    vkm: DischargeVkm,
    stmt: DischargeStatement,
    min_test_queries: usize,
    params: FriParams,
    e: DischargeError,
) -> bool {
    ||| precheck_fails(vkm, stmt, min_test_queries, e)
    ||| precheck_ok(vkm, stmt, min_test_queries) && fold_mismatch(
        params.fold_arities@,
        vkm.fri_batch.fold_arities@,
        e,
    )
}

/// A key and a statement that were admitted. The shift evaluations of the claims and the code
/// parameters of the key can now be derived.
pub struct CommittedIntake<'a> {
    pub vkm: &'a DischargeVkm,
    pub stmt: &'a DischargeStatement,
    pub min_test_queries: usize,
}

/// The first half of the verifier's intake: checks key and statement. `min_test_queries` is what the
/// security target asks for.
pub fn check_key<'a>(
    vkm: &'a DischargeVkm,
    stmt: &'a DischargeStatement,
    min_test_queries: usize,
) -> (r: Result<CommittedIntake<'a>, VerifyError>)
    ensures
        match r {
            Ok(intake) => {
                &&& *intake.vkm == *vkm
                &&& *intake.stmt == *stmt
                &&& intake.min_test_queries == min_test_queries
                &&& precheck_ok(*vkm, *stmt, min_test_queries)
            },
            Err(VerifyError::Precondition(e)) => precheck_fails(*vkm, *stmt, min_test_queries, e),
            Err(_) => false,
        },
{
    match check_statement_against_vkm(vkm, stmt) {
        Ok(_) => {},
        Err(e) => {
            return Err(VerifyError::Precondition(e));
        },
    }
    match check_dims_coherence(&vkm.dims) {
        Ok(_) => {},
        Err(d) => {
            return Err(
                VerifyError::Precondition(
                    match check_vkm(vkm, min_test_queries) {
                        Ok(_) => d,
                        Err(e) => e,
                    },
                ),
            );
        },
    }
    proof {
        law_coherent_is_derived(vkm.dims);
    }
    match check_claims(&vkm.dims, stmt) {
        Ok(_) => {},
        Err(e) => {
            return Err(VerifyError::Precondition(e));
        },
    }
    match check_vkm(vkm, min_test_queries) {
        Ok(_) => {},
        Err(e) => {
            return Err(VerifyError::Precondition(e));
        },
    }
    Ok(CommittedIntake { vkm, stmt, min_test_queries })
}

impl<'a> CommittedIntake<'a> {
    /// Key and statement are admitted.
    pub open spec fn wf(self) -> bool {
        precheck_ok(*self.vkm, *self.stmt, self.min_test_queries)
    }

    /// The second half of the intake. On success, the two lists of elements are to be absorbed, the
    /// key's first, and the row sumcheck is to be verified.
    ///
    /// `h_ops` holds, for each claim, the evaluations of the eight shift kinds; `params` is derived
    /// from the key's dimensions and its number of queries.
    pub fn verify(self, h_ops: &Vec<[B128; 8]>, params: FriParams) -> (r: Result<
        (AwaitPhaseA, (Vec<B128>, Vec<B128>), BatchSumcheck),
        VerifyError,
    >)
        requires
            self.wf(),
            h_ops@.len() == self.stmt.claims@.len(),
            self.vkm.vk_digest@.len() == 32,
            fri_fits(params),
            8 * self.stmt.claims@.len() <= usize::MAX,
        ensures
            match r {
                Ok((state, absorb, request)) => committed_started(
                    state,
                    (absorb.0@, absorb.1@),
                    request,
                    *self.vkm,
                    *self.stmt,
                    h_ops@,
                    self.min_test_queries,
                    params,
                ),
                Err(VerifyError::Precondition(e)) => fold_mismatch(
                    params.fold_arities@,
                    self.vkm.fri_batch.fold_arities@,
                    e,
                ),
                Err(_) => false,
            },
    {
        let vkm = self.vkm;
        let stmt = self.stmt;
        proof {
            law_coherent_is_derived(vkm.dims);
        }
        let ctxs = checked_contexts(&vkm.dims, stmt.parity, stmt, h_ops, true);
        let pcs = match build_pcs(vkm, self.min_test_queries, params) {
            Ok(pcs) => pcs,
            Err(e) => {
                return Err(VerifyError::Precondition(e));
            },
        };
        let vk_digest = match vkm.vk_digest_typed() {
            Ok(d) => d,
            Err(e) => {
                return Err(VerifyError::Precondition(e));
            },
        };
        assert(vkm.vk_digest@.subrange(0, 32) =~= vkm.vk_digest@);
        let absorb = (vkm.to_elems(), stmt.to_elems());
        let sums = sums_of(&ctxs);
        let dims = vkm.dims;
        let request = BatchSumcheck { n_vars: dims.n_t, degree: 3, sums };
        Ok((AwaitPhaseA { base: VerifierBase { dims, ctxs, pcs, vk_digest } }, absorb, request))
    }
}

/// The verifier's first step: the intake of key and statement in one go. On success, the two lists of
/// elements are to be absorbed, the key's first, and the row sumcheck is to be verified.
///
/// `h_ops` holds, for each claim, the evaluations of the eight shift kinds; `min_test_queries` is
/// what the security target asks for; `params` is derived from the key's dimensions and its number
/// of queries.
pub fn discharge_verify_step2(
    vkm: &DischargeVkm,
    stmt: &DischargeStatement,
    h_ops: &Vec<[B128; 8]>,
    min_test_queries: usize,
    params: FriParams,
) -> (r: Result<(AwaitPhaseA, (Vec<B128>, Vec<B128>), BatchSumcheck), VerifyError>)
    requires
        h_ops@.len() == stmt.claims@.len(),
        vkm.vk_digest@.len() == 32,
        fri_fits(params),
        8 * stmt.claims@.len() <= usize::MAX,
    ensures
        match r {
            Ok((state, absorb, request)) => committed_started(
                state,
                (absorb.0@, absorb.1@),
                request,
                *vkm,
                *stmt,
                h_ops@,
                min_test_queries,
                params,
            ),
            Err(VerifyError::Precondition(e)) => committed_fails(
                *vkm,
                *stmt,
                min_test_queries,
                params,
                e,
            ),
            Err(_) => false,
        },
{
    match check_key(vkm, stmt, min_test_queries) {
        Ok(intake) => intake.verify(h_ops, params),
        Err(e) => Err(e),
    }
}

/// The claims' sums, in order.
pub fn sums_of(ctxs: &Vec<ClaimCtx>) -> (r: Vec<B128>)
    ensures
        r@ == ctx_sums(ctxs@),
{
    let mut r: Vec<B128> = Vec::new();
    let mut i: usize = 0;
    while i < ctxs.len()
        invariant
            i <= ctxs@.len(),
            r@ == ctx_sums(ctxs@).take(i as int),
        decreases ctxs@.len() - i,
    {
        r.push(ctxs[i].sum);
        i = i + 1;
        assert(r@ =~= ctx_sums(ctxs@).take(i as int));
    }
    assert(r@ =~= ctx_sums(ctxs@));
    r
}

/// Awaits the row sumcheck.
pub struct AwaitPhaseA {
    pub base: VerifierBase,
}

impl AwaitPhaseA {
    /// The row sumcheck was verified. Three evaluations per claim are to be received.
    pub fn reduced(self, out: BatchReduced) -> (r: AwaitFinish)
        ensures
            r.base == self.base,
            r.mu == out.batch_coeff,
            r.e_a == out.eval,
            r.rho@ == out.challenges@.reverse(),
    {
        let rho = reversed(&out.challenges);
        AwaitFinish { base: self.base, mu: out.batch_coeff, e_a: out.eval, rho }
    }

    /// The row sumcheck was rejected.
    pub fn failed(self, reason: String) -> (e: VerifyError)
        ensures
            e == (VerifyError::Sumcheck { phase: "phase A batch_verify", reason }),
    {
        VerifyError::Sumcheck { phase: "phase A batch_verify", reason }
    }
}

/// The products of the claims' three evaluations.
pub open spec fn finish_products(finish: Seq<B128>, k: nat) -> Seq<B128> {
    Seq::new(k, |l: int| finish[3 * l] * finish[3 * l + 1] * finish[3 * l + 2])
}

/// Whether the products of the claims' evaluations recombine to the reduced evaluation.
pub fn finish_recombines(finish: &Vec<B128>, k: usize, mu: B128, e_a: B128) -> (r: bool)
    requires
        finish@.len() == 3 * k,
    ensures
        r == (univariate(finish_products(finish@, k as nat), mu) == e_a),
{
    let n: usize = finish.len();
    let mut prods: Vec<B128> = Vec::new();
    let mut l: usize = 0;
    while l < k
        invariant
            l <= k,
            n == finish@.len(),
            n == 3 * k,
            prods@ == finish_products(finish@, l as nat),
        decreases k - l,
    {
        prods.push(finish[3 * l] * finish[3 * l + 1] * finish[3 * l + 2]);
        l = l + 1;
        assert(prods@ =~= finish_products(finish@, l as nat));
    }
    evaluate_univariate(&prods, mu) == e_a
}

/// Awaits three evaluations per claim.
pub struct AwaitFinish {
    pub base: VerifierBase,
    pub mu: B128,
    pub e_a: B128,
    /// The row challenge, low-coordinate-first.
    pub rho: Vec<B128>,
}

impl AwaitFinish {
    /// The evaluations were received: their products must recombine to the reduced evaluation.
    /// Eight histogram values per claim are to be received.
    pub fn received(self, finish: Vec<B128>) -> (r: Result<AwaitDValues, VerifyError>)
        requires
            finish@.len() == 3 * self.base.ctxs@.len(),
        ensures
            match r {
                Ok(next) => {
                    &&& univariate(
                        finish_products(finish@, self.base.ctxs@.len()),
                        self.mu,
                    ) == self.e_a
                    &&& next.base == self.base
                    &&& next.rho == self.rho
                    &&& next.finish == finish
                },
                Err(e) => {
                    &&& univariate(
                        finish_products(finish@, self.base.ctxs@.len()),
                        self.mu,
                    ) != self.e_a
                    &&& e == VerifyError::PhaseARecombination
                },
            },
    {
        if !finish_recombines(&finish, self.base.ctxs.len(), self.mu, self.e_a) {
            return Err(VerifyError::PhaseARecombination);
        }
        Ok(AwaitDValues { base: self.base, rho: self.rho, finish })
    }

    /// The evaluations could not be received.
    pub fn failed(self, reason: String) -> (e: VerifyError)
        ensures
            e == (VerifyError::Channel { phase: "phase A finish evals", reason }),
    {
        VerifyError::Channel { phase: "phase A finish evals", reason }
    }
}

/// A claim's meta evaluation is the combination of its eight histogram values.
pub open spec fn meta_ok(ctx: ClaimCtx, finish: Seq<B128>, d_vals: Seq<B128>, l: int) -> bool {
    finish[3 * l + 2] == sum(
        |o: int| gamma(ctx.tr.parsed.lambda_and, ctx.tr.h_ops@[o]) * d_vals[8 * l + o],
        8,
    )
}

/// The first claim whose meta evaluation is not the combination of its histogram values, if any.
pub fn first_meta_failure(ctxs: &Vec<ClaimCtx>, finish: &Vec<B128>, d_vals: &Vec<B128>) -> (r: Option<
    usize,
>)
    requires
        finish@.len() == 3 * ctxs@.len(),
        d_vals@.len() == 8 * ctxs@.len(),
    ensures
        match r {
            None => forall|l: int|
                0 <= l < ctxs@.len() ==> meta_ok(#[trigger] ctxs@[l], finish@, d_vals@, l),
            Some(l) => {
                &&& l < ctxs@.len()
                &&& !meta_ok(ctxs@[l as int], finish@, d_vals@, l as int)
                &&& forall|j: int|
                    0 <= j < l ==> meta_ok(#[trigger] ctxs@[j], finish@, d_vals@, j)
            },
        },
{
    let k: usize = ctxs.len();
    let n: usize = finish.len();
    let n_d: usize = d_vals.len();
    let mut l: usize = 0;
    while l < k
        invariant
            l <= k,
            k == ctxs@.len(),
            n == finish@.len(),
            n == 3 * k,
            n_d == d_vals@.len(),
            n_d == 8 * k,
            forall|j: int| 0 <= j < l ==> meta_ok(#[trigger] ctxs@[j], finish@, d_vals@, j),
        decreases k - l,
    {
        let ctx = &ctxs[l];
        let gammas = ctx.tr.gammas();
        let mut rhs = zero();
        let mut o: usize = 0;
        while o < SHIFT_VARIANT_COUNT
            invariant
                o <= 8,
                l < k,
                n_d == d_vals@.len(),
                n_d == 8 * k,
                forall|o: int|
                    0 <= o < 8 ==> #[trigger] gammas@[o] == gamma(
                        ctx.tr.parsed.lambda_and,
                        ctx.tr.h_ops@[o],
                    ),
                rhs == sum(
                    |o: int|
                        gamma(ctx.tr.parsed.lambda_and, ctx.tr.h_ops@[o]) * d_vals@[8 * l + o],
                    o as nat,
                ),
            decreases 8 - o,
        {
            rhs = rhs + gammas[o] * d_vals[8 * l + o];
            o = o + 1;
        }
        if finish[3 * l + 2] != rhs {
            assert(!meta_ok(ctxs@[l as int], finish@, d_vals@, l as int));
            return Some(l);
        }
        assert(meta_ok(ctxs@[l as int], finish@, d_vals@, l as int));
        l = l + 1;
    }
    None
}

/// Awaits eight histogram values per claim.
pub struct AwaitDValues {
    pub base: VerifierBase,
    pub rho: Vec<B128>,
    pub finish: Vec<B128>,
}

impl AwaitDValues {
    /// The histogram values were received: each claim's meta evaluation must be their combination.
    /// The histogram table's digest is to be read.
    pub fn received(self, d_vals: Vec<B128>) -> (r: Result<AwaitDigest, VerifyError>)
        requires
            self.finish@.len() == 3 * self.base.ctxs@.len(),
            d_vals@.len() == 8 * self.base.ctxs@.len(),
        ensures
            match r {
                Ok(next) => {
                    &&& forall|l: int|
                        0 <= l < self.base.ctxs@.len() ==> meta_ok(
                            #[trigger] self.base.ctxs@[l],
                            self.finish@,
                            d_vals@,
                            l,
                        )
                    &&& next.base == self.base
                    &&& next.rho == self.rho
                    &&& next.finish == self.finish
                    &&& next.d_vals == d_vals
                },
                Err(e) => exists|l: int|
                    {
                        &&& 0 <= l < self.base.ctxs@.len()
                        &&& !meta_ok(#[trigger] self.base.ctxs@[l], self.finish@, d_vals@, l)
                        &&& forall|j: int|
                            0 <= j < l ==> meta_ok(
                                #[trigger] self.base.ctxs@[j],
                                self.finish@,
                                d_vals@,
                                j,
                            )
                        &&& e == (VerifyError::PhaseGRecombination { claim: l as usize })
                    },
            },
    {
        match first_meta_failure(&self.base.ctxs, &self.finish, &d_vals) {
            Some(l) => {
                assert(!meta_ok(self.base.ctxs@[l as int], self.finish@, d_vals@, l as int));
                return Err(VerifyError::PhaseGRecombination { claim: l });
            },
            None => {},
        }
        Ok(AwaitDigest { base: self.base, rho: self.rho, finish: self.finish, d_vals })
    }

    /// The histogram values could not be received.
    pub fn failed(self, reason: String) -> (e: VerifyError)
        ensures
            e == (VerifyError::Channel { phase: "phase A d values", reason }),
    {
        VerifyError::Channel { phase: "phase A d values", reason }
    }
}

/// Awaits the histogram table's digest.
pub struct AwaitDigest {
    pub base: VerifierBase,
    pub rho: Vec<B128>,
    pub finish: Vec<B128>,
    pub d_vals: Vec<B128>,
}

impl AwaitDigest {
    /// The digest was read. It is the histogram table's commitment, with the shape that the
    /// parameters give it. The pole challenge is to be drawn.
    pub fn read(self, root: [u8; 32]) -> (r: AwaitTau)
        requires
            self.base.wf(),
        ensures
            r.base == self.base,
            r.rho == self.rho,
            r.finish == self.finish,
            r.d_vals == self.d_vals,
            commitment_of(self.base.pcs.params, 1, root, r.commitment),
    {
        let commitment = Commitment {
            root,
            depth: self.base.pcs.depth(1),
            leaf_size: self.base.pcs.leaf_size(1),
        };
        AwaitTau {
            base: self.base,
            rho: self.rho,
            finish: self.finish,
            d_vals: self.d_vals,
            commitment,
        }
    }

    /// The digest could not be read.
    pub fn failed(self, reason: String) -> (e: VerifyError)
        ensures
            e == (VerifyError::Transcript { phase: "digest_D read", reason }),
    {
        VerifyError::Transcript { phase: "digest_D read", reason }
    }
}

/// Awaits the pole challenge.
pub struct AwaitTau {
    pub base: VerifierBase,
    pub rho: Vec<B128>,
    pub finish: Vec<B128>,
    pub d_vals: Vec<B128>,
    pub commitment: Commitment,
}

impl AwaitTau {
    /// The pole challenge was drawn: it must lie beyond all committed values. The root denominator
    /// is to be received.
    pub fn sampled(self, tau: B128) -> (r: Result<AwaitRoot, VerifyError>)
        requires
            self.base.wf(),
        ensures
            match r {
                Ok(next) => {
                    &&& tau.bits >= exp2((self.base.dims.n_a + 2) as nat)
                    &&& next.base == self.base
                    &&& next.rho == self.rho
                    &&& next.finish == self.finish
                    &&& next.d_vals == self.d_vals
                    &&& next.commitment == self.commitment
                    &&& next.tau == tau
                },
                Err(e) => tau.bits < exp2((self.base.dims.n_a + 2) as nat) && e
                    == VerifyError::TauInPoleRange,
            },
    {
        proof {
            lemma_exp2_shift((self.base.dims.n_a + 2) as nat);
        }
        let bound: u128 = 1u128 << ((self.base.dims.n_a + 2) as u128);
        if tau.val() < bound {
            return Err(VerifyError::TauInPoleRange);
        }
        Ok(
            AwaitRoot {
                base: self.base,
                rho: self.rho,
                finish: self.finish,
                d_vals: self.d_vals,
                commitment: self.commitment,
                tau,
            },
        )
    }
}

/// Awaits the root denominator.
pub struct AwaitRoot {
    pub base: VerifierBase,
    pub rho: Vec<B128>,
    pub finish: Vec<B128>,
    pub d_vals: Vec<B128>,
    pub commitment: Commitment,
    pub tau: B128,
}

impl AwaitRoot {
    /// The root denominator was received: it must not be zero. The fraction check is to be
    /// verified.
    pub fn received(self, d_root: B128) -> (r: Result<(AwaitLeaf, FracCheck), VerifyError>)
        requires
            self.base.wf(),
        ensures
            match r {
                Ok((next, request)) => {
                    &&& d_root != zero()
                    &&& next.base == self.base
                    &&& next.rho == self.rho
                    &&& next.finish == self.finish
                    &&& next.d_vals == self.d_vals
                    &&& next.commitment == self.commitment
                    &&& next.tau == self.tau
                    &&& request.n_vars == self.base.dims.n_d + 2
                    &&& request.den_eval == d_root
                },
                Err(e) => d_root == zero() && e == VerifyError::PhaseCRootDenominatorZero,
            },
    {
        if d_root == zero() {
            return Err(VerifyError::PhaseCRootDenominatorZero);
        }
        let n_vars: usize = self.base.dims.n_d + 2;
        Ok(
            (
                AwaitLeaf {
                    base: self.base,
                    rho: self.rho,
                    finish: self.finish,
                    d_vals: self.d_vals,
                    commitment: self.commitment,
                    tau: self.tau,
                },
                FracCheck { n_vars, den_eval: d_root },
            ),
        )
    }

    /// The root denominator could not be received.
    pub fn failed(self, reason: String) -> (e: VerifyError)
        ensures
            e == (VerifyError::Channel { phase: "phase C d_root", reason }),
    {
        VerifyError::Channel { phase: "phase C d_root", reason }
    }
}

/// Awaits the claim on the leaves.
pub struct AwaitLeaf {
    pub base: VerifierBase,
    pub rho: Vec<B128>,
    pub finish: Vec<B128>,
    pub d_vals: Vec<B128>,
    pub commitment: Commitment,
    pub tau: B128,
}

impl AwaitLeaf {
    /// The fraction check was verified: the leaf point must be one of the leaves' variables. Four
    /// values are to be received.
    pub fn reduced(self, leaf: LeafClaim) -> (r: Result<AwaitCorners, VerifyError>)
        requires
            self.base.wf(),
        ensures
            match r {
                Ok(next) => {
                    &&& leaf.point@.len() == self.base.dims.n_d + 2
                    &&& next.base == self.base
                    &&& next.rho == self.rho
                    &&& next.finish == self.finish
                    &&& next.d_vals == self.d_vals
                    &&& next.commitment == self.commitment
                    &&& next.tau == self.tau
                    &&& next.leaf == leaf
                },
                Err(e) => leaf.point@.len() != self.base.dims.n_d + 2 && e
                    == VerifyError::PhaseCLeafArity,
            },
    {
        if leaf.point.len() != self.base.dims.n_d + 2 {
            return Err(VerifyError::PhaseCLeafArity);
        }
        Ok(
            AwaitCorners {
                base: self.base,
                rho: self.rho,
                finish: self.finish,
                d_vals: self.d_vals,
                commitment: self.commitment,
                tau: self.tau,
                leaf,
            },
        )
    }

    /// The fraction check was rejected.
    pub fn failed(self, reason: String) -> (e: VerifyError)
        ensures
            e == (VerifyError::FracAdd { reason }),
    {
        VerifyError::FracAdd { reason }
    }
}

/// What the leaves' numerators evaluate to: the row weights in three blocks, and the histogram
/// table in the fourth.
pub open spec fn leaf_num_eval(
    dims: ShapeDims,
    rho: Seq<B128>,
    pi_lo: Seq<B128>,
    pi_hi: Seq<B128>,
    m_pi: B128,
) -> B128 {
    (block_eq(pi_hi, 0) + block_eq(pi_hi, 1) + block_eq(pi_hi, 2)) * eq_points(
        pi_lo,
        padded(rho, dims.n_d as nat),
    ) + block_eq(pi_hi, 3) * m_pi
}

/// The evaluation of the table of embedded indices.
pub open spec fn index_eval(pi_lo: Seq<B128>, n: nat) -> B128 {
    sum(|k: int| pi_lo[k] * embed(exp2(k as nat) as int), n)
}

/// What the leaves' denominators evaluate to: the distances of the three blocks of the row table
/// and of the indices from the pole challenge.
pub open spec fn leaf_den_eval(tau: B128, pi_lo: Seq<B128>, pi_hi: Seq<B128>, v: Seq<B128>) -> B128 {
    block_eq(pi_hi, 0) * (tau + v[0]) + block_eq(pi_hi, 1) * (tau + v[1]) + block_eq(pi_hi, 2) * (
    tau + v[2]) + block_eq(pi_hi, 3) * (tau + index_eval(pi_lo, pi_lo.len()))
}

/// Awaits the evaluations at the leaf point: the three blocks of the row table, and the histogram
/// table.
pub struct AwaitCorners {
    pub base: VerifierBase,
    pub rho: Vec<B128>,
    pub finish: Vec<B128>,
    pub d_vals: Vec<B128>,
    pub commitment: Commitment,
    pub tau: B128,
    pub leaf: LeafClaim,
}

impl AwaitCorners {
    /// The low coordinates of the leaf point.
    pub open spec fn pi_lo(self) -> Seq<B128> {
        self.leaf.point@.take(self.base.dims.n_d as int)
    }

    /// The selectors of the leaf point.
    pub open spec fn pi_hi(self) -> Seq<B128> {
        self.leaf.point@.skip(self.base.dims.n_d as int)
    }

    /// The evaluations were received: the claims on the leaves must be what they amount to. The
    /// batching challenge is to be drawn.
    pub fn received(self, vals: [B128; 4]) -> (r: Result<AwaitPhi, VerifyError>)
        requires
            self.base.wf(),
            self.leaf.point@.len() == self.base.dims.n_d + 2,
            self.rho@.len() == self.base.dims.n_t,
        ensures
            ({
                let num = leaf_num_eval(
                    self.base.dims,
                    self.rho@,
                    self.pi_lo(),
                    self.pi_hi(),
                    vals@[3],
                );
                let den = leaf_den_eval(self.tau, self.pi_lo(), self.pi_hi(), vals@);
                match r {
                    Ok(next) => {
                        &&& num == self.leaf.num_eval
                        &&& den == self.leaf.den_eval
                        &&& next.base == self.base
                        &&& next.finish == self.finish
                        &&& next.d_vals == self.d_vals
                        &&& next.commitment == self.commitment
                        &&& next.pi_lo@ == self.pi_lo()
                        &&& next.corners@ == vals@.take(3)
                        &&& next.m_pi == vals@[3]
                    },
                    Err(e) => if num != self.leaf.num_eval {
                        e == VerifyError::PhaseCNumeratorTransparent
                    } else {
                        den != self.leaf.den_eval && e == VerifyError::PhaseCDenominatorTransparent
                    },
                }
            }),
    {
        let n_l: usize = self.base.dims.n_d;
        let point = &self.leaf.point;
        let pi_lo = copy_elems(vstd::slice::slice_subrange(point.as_slice(), 0, n_l));
        let pi_hi = vstd::slice::slice_subrange(point.as_slice(), n_l, n_l + 2);
        assert(pi_lo@ =~= self.pi_lo());
        assert(pi_hi@ =~= self.pi_hi());
        let eq_blk = block_indicators(pi_hi);
        let rho_ext = extended(&self.rho, n_l);
        let m_pi = vals[3];
        let num_expected = (eq_blk[0] + eq_blk[1] + eq_blk[2]) * eq_point(&pi_lo, &rho_ext)
            + eq_blk[3] * m_pi;
        if num_expected != self.leaf.num_eval {
            return Err(VerifyError::PhaseCNumeratorTransparent);
        }
        let col_emb = index_column(&pi_lo);
        let tau = self.tau;
        let den_expected = eq_blk[0] * (tau + vals[0]) + eq_blk[1] * (tau + vals[1]) + eq_blk[2] * (
        tau + vals[2]) + eq_blk[3] * (tau + col_emb);
        if den_expected != self.leaf.den_eval {
            return Err(VerifyError::PhaseCDenominatorTransparent);
        }
        let corners = [vals[0], vals[1], vals[2]];
        assert(corners@ =~= vals@.take(3));
        Ok(
            AwaitPhi {
                base: self.base,
                finish: self.finish,
                d_vals: self.d_vals,
                commitment: self.commitment,
                pi_lo,
                corners,
                m_pi,
            },
        )
    }

    /// The evaluations could not be received.
    pub fn failed(self, reason: String) -> (e: VerifyError)
        ensures
            e == (VerifyError::Channel { phase: "phase C corner values", reason }),
    {
        VerifyError::Channel { phase: "phase C corner values", reason }
    }
}

/// A point, extended by zeros to `n` coordinates.
fn extended(rho: &Vec<B128>, n: usize) -> (r: Vec<B128>)
    requires
        rho@.len() <= n,
    ensures
        r@ == padded(rho@, n as nat),
{
    let mut r = copy_elems(rho);
    while r.len() < n
        invariant
            rho@.len() <= r@.len() <= n,
            r@ == padded(rho@, r@.len()),
        decreases n - r@.len(),
    {
        let ghost before = r@;
        r.push(zero());
        assert(r@ =~= padded(rho@, r@.len()));
    }
    r
}

/// The evaluation of the table of embedded indices.
fn index_column(pi_lo: &Vec<B128>) -> (r: B128)
    requires
        pi_lo@.len() <= 128,
    ensures
        r == index_eval(pi_lo@, pi_lo@.len()),
{
    let mut acc = zero();
    let mut k: usize = 0;
    while k < pi_lo.len()
        invariant
            k <= pi_lo@.len() <= 128,
            acc == index_eval(pi_lo@, k as nat),
        decreases pi_lo@.len() - k,
    {
        acc = acc + pi_lo[k] * beta(k);
        k = k + 1;
    }
    acc
}

/// Awaits the batching challenge.
pub struct AwaitPhi {
    pub base: VerifierBase,
    pub finish: Vec<B128>,
    pub d_vals: Vec<B128>,
    pub commitment: Commitment,
    pub pi_lo: Vec<B128>,
    pub corners: [B128; 3],
    pub m_pi: B128,
}

impl AwaitPhi {
    /// The points of all evaluations of the histogram table.
    pub open spec fn all_points(self) -> Seq<Seq<B128>> {
        batch_points(self.base.dims, self.base.ctxs@, self.base.ctxs@.len()).push(self.pi_lo@)
    }

    /// All claimed evaluations of the histogram table.
    pub open spec fn all_evals(self) -> Seq<B128> {
        batch_evals(self.finish@, self.d_vals@, self.base.ctxs@.len()).push(self.m_pi)
    }

    /// The batching challenge was drawn. The batched sumcheck is to be verified.
    pub fn sampled(self, phi: B128) -> (r: (AwaitPhaseB, SumcheckRequest))
        requires
            self.base.wf(),
            self.finish@.len() == 3 * self.base.ctxs@.len(),
            self.d_vals@.len() == 8 * self.base.ctxs@.len(),
        ensures
            r.0.base == self.base,
            r.0.commitment == self.commitment,
            r.0.pi_lo == self.pi_lo,
            r.0.corners == self.corners,
            r.0.phi == phi,
            points_view(r.0.points@) == self.all_points(),
            r.1.n_vars == self.base.dims.n_d,
            r.1.degree == 2,
            r.1.sum == univariate(self.all_evals(), phi),
    {
        let (points, evals) = phase_b_claims(
            &self.base.dims,
            &self.base.ctxs,
            &self.finish,
            &self.d_vals,
            &self.pi_lo,
            self.m_pi,
        );
        let combined = evaluate_univariate(&evals, phi);
        let n_vars: usize = self.base.dims.n_d;
        (
            AwaitPhaseB {
                base: self.base,
                commitment: self.commitment,
                pi_lo: self.pi_lo,
                corners: self.corners,
                phi,
                points,
            },
            SumcheckRequest { n_vars, degree: 2, sum: combined },
        )
    }
}

/// Awaits the batched sumcheck.
pub struct AwaitPhaseB {
    pub base: VerifierBase,
    pub commitment: Commitment,
    pub pi_lo: Vec<B128>,
    pub corners: [B128; 3],
    pub phi: B128,
    pub points: Vec<Vec<B128>>,
}

impl AwaitPhaseB {
    /// The batched sumcheck was verified. One evaluation is to be received.
    pub fn reduced(self, out: Reduced) -> (r: AwaitM)
        ensures
            r.base == self.base,
            r.commitment == self.commitment,
            r.pi_lo == self.pi_lo,
            r.corners == self.corners,
            r.phi == self.phi,
            r.points == self.points,
            r.e_b == out.eval,
            r.sigma@ == out.challenges@.reverse(),
    {
        let sigma = reversed(&out.challenges);
        AwaitM {
            base: self.base,
            commitment: self.commitment,
            pi_lo: self.pi_lo,
            corners: self.corners,
            phi: self.phi,
            points: self.points,
            e_b: out.eval,
            sigma,
        }
    }

    /// The batched sumcheck was rejected.
    pub fn failed(self, reason: String) -> (e: VerifyError)
        ensures
            e == (VerifyError::Sumcheck { phase: "phase B verify", reason }),
    {
        VerifyError::Sumcheck { phase: "phase B verify", reason }
    }
}

/// The batched indicators of the points at `sigma`.
pub open spec fn batched_indicators(points: Seq<Seq<B128>>, phi: B128, sigma: Seq<B128>, k: nat) -> B128 {
    sum(|j: int| power(phi, j as nat) * eq_points(points[j], sigma), k)
}

/// Awaits the histogram table's evaluation.
pub struct AwaitM {
    pub base: VerifierBase,
    pub commitment: Commitment,
    pub pi_lo: Vec<B128>,
    pub corners: [B128; 3],
    pub phi: B128,
    pub points: Vec<Vec<B128>>,
    pub e_b: B128,
    /// The reduced point, low-coordinate-first.
    pub sigma: Vec<B128>,
}

impl AwaitM {
    /// The evaluation was received: times the batched indicators, it must be the reduced
    /// evaluation. Two selectors are to be drawn.
    pub fn received(self, m: B128) -> (r: Result<AwaitRhoC, VerifyError>)
        requires
            forall|j: int|
                0 <= j < self.points@.len() ==> (#[trigger] self.points@[j])@.len()
                    == self.sigma@.len(),
        ensures
            ({
                let w = batched_indicators(
                    points_view(self.points@),
                    self.phi,
                    self.sigma@,
                    self.points@.len(),
                );
                match r {
                    Ok(next) => {
                        &&& m * w == self.e_b
                        &&& next.base == self.base
                        &&& next.commitment == self.commitment
                        &&& next.pi_lo == self.pi_lo
                        &&& next.corners == self.corners
                        &&& next.sigma == self.sigma
                        &&& next.m == m
                    },
                    Err(e) => m * w != self.e_b && e == VerifyError::PhaseBFinalCheck,
                }
            }),
    {
        let w = batched_eq(&self.points, self.phi, &self.sigma);
        if m * w != self.e_b {
            return Err(VerifyError::PhaseBFinalCheck);
        }
        Ok(
            AwaitRhoC {
                base: self.base,
                commitment: self.commitment,
                pi_lo: self.pi_lo,
                corners: self.corners,
                sigma: self.sigma,
                m,
            },
        )
    }

    /// The evaluation could not be received.
    pub fn failed(self, reason: String) -> (e: VerifyError)
        ensures
            e == (VerifyError::Channel { phase: "phase B m", reason }),
    {
        VerifyError::Channel { phase: "phase B m", reason }
    }
}

/// The batched indicators of the points at `sigma`.
pub fn batched_eq(points: &Vec<Vec<B128>>, phi: B128, sigma: &Vec<B128>) -> (w: B128)
    requires
        forall|j: int|
            0 <= j < points@.len() ==> (#[trigger] points@[j])@.len() == sigma@.len(),
    ensures
        w == batched_indicators(points_view(points@), phi, sigma@, points@.len()),
{
    let mut w = zero();
    let mut phi_pow = one();
    let mut j: usize = 0;
    while j < points.len()
        invariant
            j <= points@.len(),
            forall|j: int|
                0 <= j < points@.len() ==> (#[trigger] points@[j])@.len() == sigma@.len(),
            phi_pow == power(phi, j as nat),
            w == batched_indicators(points_view(points@), phi, sigma@, j as nat),
        decreases points@.len() - j,
    {
        assert(points@[j as int]@.len() == sigma@.len());
        w = w + phi_pow * eq_point(&points[j], sigma);
        phi_pow = phi_pow * phi;
        j = j + 1;
    }
    w
}

/// Awaits two selectors.
pub struct AwaitRhoC {
    pub base: VerifierBase,
    pub commitment: Commitment,
    pub pi_lo: Vec<B128>,
    pub corners: [B128; 3],
    pub sigma: Vec<B128>,
    pub m: B128,
}

/// The shape of the row table's commitment, which is to be received.
pub struct CommitmentShape {
    pub leaf_size: usize,
    pub depth: usize,
}

impl AwaitRhoC {
    /// The selectors were drawn. The row table's commitment is to be received.
    pub fn sampled(self, rho_c: Vec<B128>) -> (r: (AwaitVk, CommitmentShape))
        requires
            self.base.wf(),
            rho_c@.len() == 2,
        ensures
            r.0.base == self.base,
            r.0.commitment == self.commitment,
            r.0.vk_point@ == self.pi_lo@ + rho_c@,
            r.0.claim_vk == corner_claim(self.corners@, rho_c@),
            r.0.sigma == self.sigma,
            r.0.m == self.m,
            r.1.leaf_size == exp2(
                self.base.pcs.params.input_oracles@[0].log_batch_size as nat,
            ),
            r.1.depth == self.base.pcs.params.log_dim
                - self.base.pcs.params.input_oracles@[0].log_lift
                + self.base.pcs.params.log_inv_rate,
    {
        let claim_vk = vk_claim(&self.corners, &rho_c);
        let mut vk_point = copy_elems(&self.pi_lo);
        vk_point.push(rho_c[0]);
        vk_point.push(rho_c[1]);
        assert(vk_point@ =~= self.pi_lo@ + rho_c@);
        let shape = CommitmentShape {
            leaf_size: self.base.pcs.leaf_size(0),
            depth: self.base.pcs.depth(0),
        };
        (
            AwaitVk {
                base: self.base,
                commitment: self.commitment,
                vk_point,
                claim_vk,
                sigma: self.sigma,
                m: self.m,
            },
            shape,
        )
    }
}

/// Awaits the row table's commitment.
pub struct AwaitVk {
    pub base: VerifierBase,
    pub commitment: Commitment,
    pub vk_point: Vec<B128>,
    pub claim_vk: B128,
    pub sigma: Vec<B128>,
    pub m: B128,
}

impl AwaitVk {
    /// The row table's commitment was received: its root must be the key's digest. The opening of
    /// both tables is to be verified.
    pub fn received(self, root: [u8; 32]) -> (r: Result<(MergedReduction, BatchSumcheck), VerifyError>)
        requires
            self.base.wf(),
            self.sigma@.len() <= self.vk_point@.len(),
        ensures
            match r {
                Ok((next, request)) => {
                    &&& root@ == self.base.vk_digest@
                    &&& next.points.0 == self.vk_point
                    &&& next.points.1 == self.sigma
                    &&& next.lifts.0 == self.base.pcs.params.input_oracles@[0].log_lift
                    &&& next.lifts.1 == self.base.pcs.params.input_oracles@[1].log_lift
                    &&& request.n_vars == self.vk_point@.len()
                    &&& request.degree == 2
                    &&& request.sums@ == seq![self.claim_vk, self.m]
                },
                Err(e) => root@ != self.base.vk_digest@ && e == VerifyError::VkDigestPin,
            },
    {
        if !digest_eq(&root, &self.base.vk_digest) {
            return Err(VerifyError::VkDigestPin);
        }
        verify_merged_openings(
            &self.base.pcs.params,
            (self.vk_point, self.sigma),
            (self.claim_vk, self.m),
        )
    }

    /// The commitment could not be received.
    pub fn failed(self, reason: String) -> (e: VerifyError)
        ensures
            e == (VerifyError::MerkleChannel { reason }),
    {
        VerifyError::MerkleChannel { reason }
    }
}

} // verus!
