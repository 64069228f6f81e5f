//! A whole run of the verifier, over everything that it receives, draws and learns from outside
//! checks.

use crate::discharge::{ctx_of, no_claim_error, ClaimCtx, DischargeStatement};
use crate::error::VerifyError;
use crate::field::element::{zero, B128};
use crate::histogram::points_view;
use crate::merged::{contribution, BatchReduced};
use crate::multilinear::exp2::exp2;
use crate::multilinear::univariate::univariate;
use crate::step2::common::{batch_points, statement_error};
use crate::step2::prove::lemma_batch_points;
use crate::step2::verify::{
    batched_indicators, committed_fails, discharge_verify_step2, finish_products, fri_fits,
    leaf_den_eval, leaf_num_eval, meta_ok, AwaitPhaseA, LeafClaim, Reduced,
};
use crate::table::ShapeDims;
use crate::vk::{vkm_error, DischargeVkm, FriParams};
use vstd::prelude::*;

verus! {

/// What a run brings from outside, in order: messages, challenges, and what sub-protocols reduce
/// to. A message that is missing and a sub-protocol that is rejected bring
/// the reason instead.
#[derive(Debug)]
pub struct CommittedRun {
    pub phase_a: Result<BatchReduced, String>,
    pub finish: Result<Vec<B128>, String>,
    pub d_vals: Result<Vec<B128>, String>,
    pub digest_d: Result<[u8; 32], String>,
    pub tau: B128,
    pub d_root: Result<B128, String>,
    pub leaf: Result<LeafClaim, String>,
    pub corners: Result<[B128; 4], String>,
    pub phi: B128,
    pub phase_b: Result<Reduced, String>,
    pub m: Result<B128, String>,
    pub rho_c: Vec<B128>,
    pub vk_root: Result<[u8; 32], String>,
    pub reduction: Result<BatchReduced, String>,
    pub alphas: Result<[B128; 2], String>,
    pub outer: B128,
    /// Whether the opening's last codeword value and its last claim agree.
    pub opening: Result<bool, String>,
}

impl CommittedRun {
    /// Messages and points have the lengths that were asked for.
    pub open spec fn fits(self, dims: ShapeDims, k: nat) -> bool {
        &&& self.phase_a is Ok ==> self.phase_a->Ok_0.challenges@.len() == dims.n_t
        &&& self.finish is Ok ==> self.finish->Ok_0@.len() == 3 * k
        &&& self.d_vals is Ok ==> self.d_vals->Ok_0@.len() == 8 * k
        &&& self.phase_b is Ok ==> self.phase_b->Ok_0.challenges@.len() == dims.n_d
        &&& self.rho_c@.len() == 2
        &&& self.reduction is Ok ==> self.reduction->Ok_0.challenges@.len() == dims.n_d + 2
    }

    /// The row challenge, low-coordinate-first.
    pub open spec fn rho(self) -> Seq<B128> {
        self.phase_a->Ok_0.challenges@.reverse()
    }

    /// The low coordinates of the leaf point.
    pub open spec fn pi_lo(self, dims: ShapeDims) -> Seq<B128> {
        self.leaf->Ok_0.point@.take(dims.n_d as int)
    }

    /// The selectors of the leaf point.
    pub open spec fn pi_hi(self, dims: ShapeDims) -> Seq<B128> {
        self.leaf->Ok_0.point@.skip(dims.n_d as int)
    }

    /// The points of all evaluations of the histogram table.
    pub open spec fn points(self, dims: ShapeDims, ctxs: Seq<ClaimCtx>) -> Seq<Seq<B128>> {
        batch_points(dims, ctxs, ctxs.len()).push(self.pi_lo(dims))
    }

    /// The batched sumcheck's point, low-coordinate-first.
    pub open spec fn sigma(self) -> Seq<B128> {
        self.phase_b->Ok_0.challenges@.reverse()
    }

    /// The point at which the row table is opened.
    pub open spec fn vk_point(self, dims: ShapeDims) -> Seq<B128> {
        self.pi_lo(dims) + self.rho_c@
    }

    /// The point that both openings share, low-coordinate-first.
    pub open spec fn shared_point(self) -> Seq<B128> {
        self.reduction->Ok_0.challenges@.reverse()
    }
}

/// The first of `k` claims whose meta evaluation is not the combination of its histogram values.
pub open spec fn first_meta_fault(
    ctxs: Seq<ClaimCtx>,
    finish: Seq<B128>,
    d_vals: Seq<B128>,
    k: nat,
) -> Option<int>
    decreases k,
{
    if k == 0 {
        None
    } else {
        match first_meta_fault(ctxs, finish, d_vals, (k - 1) as nat) {
            Some(l) => Some(l),
            None => if meta_ok(ctxs[k - 1], finish, d_vals, k - 1) {
                None
            } else {
                Some(k - 1)
            },
        }
    }
}

pub(crate) proof fn lemma_meta_fault(ctxs: Seq<ClaimCtx>, finish: Seq<B128>, d_vals: Seq<B128>, k: nat, l: int)
    requires
        0 <= l <= k <= ctxs.len(),
        forall|j: int| 0 <= j < l ==> meta_ok(#[trigger] ctxs[j], finish, d_vals, j),
        l < k ==> !meta_ok(ctxs[l], finish, d_vals, l),
    ensures
        first_meta_fault(ctxs, finish, d_vals, k) == (if l < k {
            Some(l)
        } else {
            None
        }),
    decreases k,
{
    if k > 0 {
        if l == k {
            lemma_meta_fault(ctxs, finish, d_vals, (k - 1) as nat, l - 1);
            assert(meta_ok(ctxs[k - 1], finish, d_vals, k - 1));
        } else {
            lemma_meta_fault(ctxs, finish, d_vals, (k - 1) as nat, l);
        }
    }
}

/// What fails first between the row sumcheck and the histogram values, if anything.
pub open spec fn rows_error(ctxs: Seq<ClaimCtx>, run: CommittedRun) -> Option<VerifyError> {
    if run.phase_a is Err {
        Some(VerifyError::Sumcheck { phase: "phase A batch_verify", reason: run.phase_a->Err_0 })
    } else if run.finish is Err {
        Some(VerifyError::Channel { phase: "phase A finish evals", reason: run.finish->Err_0 })
    } else if univariate(
        finish_products(run.finish->Ok_0@, ctxs.len()),
        run.phase_a->Ok_0.batch_coeff,
    ) != run.phase_a->Ok_0.eval {
        Some(VerifyError::PhaseARecombination)
    } else if run.d_vals is Err {
        Some(VerifyError::Channel { phase: "phase A d values", reason: run.d_vals->Err_0 })
    } else {
        match first_meta_fault(ctxs, run.finish->Ok_0@, run.d_vals->Ok_0@, ctxs.len()) {
            Some(l) => Some(VerifyError::PhaseGRecombination { claim: l as usize }),
            None => None,
        }
    }
}

/// What fails first between the histogram table's digest and the leaves, if anything.
pub open spec fn leaves_error(dims: ShapeDims, run: CommittedRun) -> Option<VerifyError> {
    if run.digest_d is Err {
        Some(VerifyError::Transcript { phase: "digest_D read", reason: run.digest_d->Err_0 })
    } else if run.tau.bits < exp2((dims.n_a + 2) as nat) {
        Some(VerifyError::TauInPoleRange)
    } else if run.d_root is Err {
        Some(VerifyError::Channel { phase: "phase C d_root", reason: run.d_root->Err_0 })
    } else if run.d_root->Ok_0 == zero() {
        Some(VerifyError::PhaseCRootDenominatorZero)
    } else if run.leaf is Err {
        Some(VerifyError::FracAdd { reason: run.leaf->Err_0 })
    } else if run.leaf->Ok_0.point@.len() != dims.n_d + 2 {
        Some(VerifyError::PhaseCLeafArity)
    } else if run.corners is Err {
        Some(VerifyError::Channel { phase: "phase C corner values", reason: run.corners->Err_0 })
    } else if leaf_num_eval(
        dims,
        run.rho(),
        run.pi_lo(dims),
        run.pi_hi(dims),
        run.corners->Ok_0@[3],
    ) != run.leaf->Ok_0.num_eval {
        Some(VerifyError::PhaseCNumeratorTransparent)
    } else if leaf_den_eval(run.tau, run.pi_lo(dims), run.pi_hi(dims), run.corners->Ok_0@)
        != run.leaf->Ok_0.den_eval {
        Some(VerifyError::PhaseCDenominatorTransparent)
    } else {
        None
    }
}

/// What fails first in the batched sumcheck, if anything.
pub open spec fn batch_error(dims: ShapeDims, ctxs: Seq<ClaimCtx>, run: CommittedRun) -> Option<
    VerifyError,
> {
    let points = run.points(dims, ctxs);
    if run.phase_b is Err {
        Some(VerifyError::Sumcheck { phase: "phase B verify", reason: run.phase_b->Err_0 })
    } else if run.m is Err {
        Some(VerifyError::Channel { phase: "phase B m", reason: run.m->Err_0 })
    } else if run.m->Ok_0 * batched_indicators(points, run.phi, run.sigma(), points.len())
        != run.phase_b->Ok_0.eval {
        Some(VerifyError::PhaseBFinalCheck)
    } else {
        None
    }
}

/// The reduced evaluation that the two evaluations of the opening amount to.
pub open spec fn recombined(dims: ShapeDims, run: CommittedRun) -> B128 {
    univariate(
        seq![
            contribution(run.vk_point(dims), run.alphas->Ok_0@[0], run.shared_point()),
            contribution(run.sigma(), run.alphas->Ok_0@[1], run.shared_point()),
        ],
        run.reduction->Ok_0.batch_coeff,
    )
}

/// What fails first in the opening, if anything.
pub open spec fn opened_error(dims: ShapeDims, vk_digest: Seq<u8>, run: CommittedRun) -> Option<
    VerifyError,
> {
    if run.vk_root is Err {
        Some(VerifyError::MerkleChannel { reason: run.vk_root->Err_0 })
    } else if run.vk_root->Ok_0@ != vk_digest {
        Some(VerifyError::VkDigestPin)
    } else if run.reduction is Err {
        Some(VerifyError::Sumcheck { phase: "merged opening reduction batch_verify", reason: run.reduction->Err_0 })
    } else if run.alphas is Err {
        Some(VerifyError::Channel { phase: "merged opening reduction alphas", reason: run.alphas->Err_0 })
    } else if run.reduction->Ok_0.eval != recombined(dims, run) {
        Some(VerifyError::ReductionRecombination)
    } else if run.opening is Err {
        Some(VerifyError::Basefold { reason: run.opening->Err_0 })
    } else if !run.opening->Ok_0 {
        Some(VerifyError::FriMleInconsistency)
    } else {
        None
    }
}

/// The error with which a run ends, or none if it is accepted.
pub open spec fn run_error(
    dims: ShapeDims,
    ctxs: Seq<ClaimCtx>,
    vk_digest: Seq<u8>,
    run: CommittedRun,
) -> Option<VerifyError> {
    if rows_error(ctxs, run) is Some {
        rows_error(ctxs, run)
    } else if leaves_error(dims, run) is Some {
        leaves_error(dims, run)
    } else if batch_error(dims, ctxs, run) is Some {
        batch_error(dims, ctxs, run)
    } else {
        opened_error(dims, vk_digest, run)
    }
}

/// The lifts of the two oracles fit the shared point.
pub open spec fn lifts_fit(params: FriParams) -> bool {
    &&& params.input_oracles@[0].log_lift == 0
    &&& params.input_oracles@[1].log_lift <= 2
}

/// Runs a verifier, from the end of its intake, over what a run brings.
pub fn replay(start: AwaitPhaseA, run: CommittedRun) -> (r: Result<(), VerifyError>)
    requires
        start.base.wf(),
        lifts_fit(start.base.pcs.params),
        run.fits(start.base.dims, start.base.ctxs@.len()),
    ensures
        run_error(start.base.dims, start.base.ctxs@, start.base.vk_digest@, run) == match r {
            Ok(_) => None::<VerifyError>,
            Err(e) => Some(e),
        },
{
    let ghost dims = start.base.dims;
    let ghost ctxs = start.base.ctxs@;
    let ghost all = run;
    let CommittedRun {
        phase_a,
        finish,
        d_vals,
        digest_d,
        tau,
        d_root,
        leaf,
        corners,
        phi,
        phase_b,
        m,
        rho_c,
        vk_root,
        reduction,
        alphas,
        outer,
        opening,
    } = run;
    let state = match phase_a {
        Ok(out) => start.reduced(out),
        Err(reason) => {
            return Err(start.failed(reason));
        },
    };
    let state = match finish {
        Ok(finish) => match state.received(finish) {
            Ok(next) => next,
            Err(e) => {
                return Err(e);
            },
        },
        Err(reason) => {
            return Err(state.failed(reason));
        },
    };
    let state = match d_vals {
        Ok(d_vals) => match state.received(d_vals) {
            Ok(next) => {
                proof {
                    lemma_meta_fault(
                        ctxs,
                        all.finish->Ok_0@,
                        all.d_vals->Ok_0@,
                        ctxs.len(),
                        ctxs.len() as int,
                    );
                }
                next
            },
            Err(e) => {
                proof {
                    let (f, d) = (all.finish->Ok_0@, all.d_vals->Ok_0@);
                    let l = choose|l: int|
                        {
                            &&& 0 <= l < ctxs.len()
                            &&& !meta_ok(#[trigger] ctxs[l], f, d, l)
                            &&& forall|j: int|
                                0 <= j < l ==> meta_ok(#[trigger] ctxs[j], f, d, j)
                            &&& e == (VerifyError::PhaseGRecombination { claim: l as usize })
                        };
                    lemma_meta_fault(ctxs, f, d, ctxs.len(), l);
                }
                return Err(e);
            },
        },
        Err(reason) => {
            return Err(state.failed(reason));
        },
    };
    assert(rows_error(ctxs, all) is None);
    let state = match digest_d {
        Ok(root) => state.read(root),
        Err(reason) => {
            return Err(state.failed(reason));
        },
    };
    let state = match state.sampled(tau) {
        Ok(next) => next,
        Err(e) => {
            return Err(e);
        },
    };
    let state = match d_root {
        Ok(d_root) => match state.received(d_root) {
            Ok((next, _)) => next,
            Err(e) => {
                return Err(e);
            },
        },
        Err(reason) => {
            return Err(state.failed(reason));
        },
    };
    let state = match leaf {
        Ok(leaf) => match state.reduced(leaf) {
            Ok(next) => next,
            Err(e) => {
                return Err(e);
            },
        },
        Err(reason) => {
            return Err(state.failed(reason));
        },
    };
    let state = match corners {
        Ok(vals) => match state.received(vals) {
            Ok(next) => next,
            Err(e) => {
                return Err(e);
            },
        },
        Err(reason) => {
            return Err(state.failed(reason));
        },
    };
    assert(leaves_error(dims, all) is None);
    let (state, _) = state.sampled(phi);
    let state = match phase_b {
        Ok(out) => state.reduced(out),
        Err(reason) => {
            return Err(state.failed(reason));
        },
    };
    proof {
        lemma_batch_points(dims, ctxs, ctxs.len());
        let points = all.points(dims, ctxs);
        assert(points_view(state.points@) == points);
        assert forall|j: int| 0 <= j < state.points@.len() implies (#[trigger] state.points@[j])@.len()
            == state.sigma@.len() by {
            assert(points_view(state.points@)[j] == points[j]);
        }
    }
    let state = match m {
        Ok(m) => match state.received(m) {
            Ok(next) => next,
            Err(e) => {
                return Err(e);
            },
        },
        Err(reason) => {
            return Err(state.failed(reason));
        },
    };
    assert(batch_error(dims, ctxs, all) is None);
    let (state, _) = state.sampled(rho_c);
    let state = match vk_root {
        Ok(root) => match state.received(root) {
            Ok((next, _)) => next,
            Err(e) => {
                return Err(e);
            },
        },
        Err(reason) => {
            return Err(state.failed(reason));
        },
    };
    let state = match reduction {
        Ok(out) => state.reduced(out),
        Err(reason) => {
            return Err(state.failed(reason));
        },
    };
    let state = match alphas {
        Ok(alphas) => match state.received(alphas) {
            Ok(next) => next,
            Err(e) => {
                return Err(e);
            },
        },
        Err(reason) => {
            return Err(state.failed(reason));
        },
    };
    let state = state.sampled(outer);
    match opening {
        Ok(consistent) => state.finished(consistent),
        Err(reason) => Err(state.failed(reason)),
    }
}

/// The contexts of a statement's claims, as a verifier makes them.
pub open spec fn verifier_contexts(
    ctxs: Seq<ClaimCtx>,
    dims: ShapeDims,
    stmt: DischargeStatement,
    h_ops: Seq<[B128; 8]>,
) -> bool {
    &&& ctxs.len() == stmt.claims@.len()
    &&& forall|l: int|
        0 <= l < ctxs.len() ==> ctx_of(
            #[trigger] ctxs[l],
            dims,
            stmt.parity,
            stmt.claims@[l],
            h_ops[l]@,
            true,
        )
}

/// Verifies a statement against a key over a whole run: the intake, and then every check in order.
pub fn verify_run(
    vkm: &DischargeVkm,
    stmt: &DischargeStatement,
    h_ops: &Vec<[B128; 8]>,
    min_test_queries: usize,
    params: FriParams,
    run: CommittedRun,
) -> (r: Result<(), VerifyError>)
    requires
        h_ops@.len() == stmt.claims@.len(),
        vkm.vk_digest@.len() == 32,
        fri_fits(params),
        lifts_fit(params),
        8 * stmt.claims@.len() <= usize::MAX,
        run.fits(vkm.dims, stmt.claims@.len()),
    ensures
        match r {
            Err(VerifyError::Precondition(e)) => committed_fails(
                *vkm,
                *stmt,
                min_test_queries,
                params,
                e,
            ),
            _ => {
                &&& statement_error(vkm.cs_digest, vkm.dims, *stmt) is None
                &&& vkm_error(*vkm, min_test_queries) is None
                &&& no_claim_error(vkm.dims, stmt.claims@)
                &&& params.fold_arities@ == vkm.fri_batch.fold_arities@
                &&& exists|ctxs: Seq<ClaimCtx>|
                    {
                        &&& #[trigger] verifier_contexts(ctxs, vkm.dims, *stmt, h_ops@)
                        &&& run_error(vkm.dims, ctxs, vkm.vk_digest@, run) == match r {
                            Ok(_) => None::<VerifyError>,
                            Err(e) => Some(e),
                        }
                    }
            },
        },
{
    match discharge_verify_step2(vkm, stmt, h_ops, min_test_queries, params) {
        Ok((state, _, _)) => {
            assert(verifier_contexts(state.base.ctxs@, vkm.dims, *stmt, h_ops@));
            replay(state, run)
        },
        Err(e) => Err(e),
    }
}

} // verus!
