//! A whole run of the prover, over everything that it draws and learns from the sub-protocols.

use crate::discharge::{batch_weights, ClaimCtx};
use crate::error::DischargeError;
use crate::field::element::B128;
use crate::fracadd::tree_root;
use crate::histogram::histogram;
use crate::merged::OpenClaim;
use crate::multilinear::eq::eq_tensor;
use crate::multilinear::exp2::exp2;
use crate::multilinear::mle::mle;
use crate::multilinear::univariate::univariate;
use crate::poles::{leaf_den, leaf_num};
use crate::reduction::m_d;
use crate::step2::common::{batch_evals, batch_points, corner_claim, Step2Tamper};
use crate::step2::laws::{honest_finish, honest_messages};
use crate::step2::prove::{committed_table, meta_values, ProductClaim, ProveRows};
use crate::step2::run::CommittedRun;
use crate::table::{ShapeDims, Term};
use crate::vk::{row_table, vk_column};
use vstd::prelude::*;

verus! {

/// What a prover draws and learns, in order: challenges, and the points and evaluations at which
/// sub-protocols end.
#[derive(Debug, Clone)]
pub struct ProverReplies {
    /// The row challenge, low-coordinate-first.
    pub rho: Vec<B128>,
    pub finish: Vec<B128>,
    pub tau: B128,
    /// The leaf point.
    pub pi: Vec<B128>,
    pub phi: B128,
    /// The challenges of the batched sumcheck in order, from the top variable down.
    pub challenges: Vec<B128>,
    pub m: B128,
    pub rho_c: Vec<B128>,
}

/// What a prover sends, or hands to a sub-protocol, beside its row sumchecks.
pub struct ProverMessages {
    pub d_vals: Vec<B128>,
    pub den_root: B128,
    pub corners: [B128; 4],
    pub batch: ProductClaim,
    /// The row table's opening.
    pub open_vk: OpenClaim,
    /// The opening of the histogram table, which was committed before the pole challenge.
    pub open_d: OpenClaim,
}

/// The error with which a prover's run ends, or none if it ends well.
pub open spec fn session_error(dims: ShapeDims, replies: ProverReplies) -> Option<DischargeError> {
    if replies.rho@.len() != dims.n_t {
        Some(DischargeError::RowRounds)
    } else if replies.tau.bits < exp2((dims.n_a + 2) as nat) {
        Some(DischargeError::TauInPoleRange)
    } else if replies.pi@.len() != dims.n_d + 2 {
        Some(DischargeError::LeafArity)
    } else if replies.challenges@.len() != dims.n_d {
        Some(DischargeError::BatchRounds)
    } else {
        None
    }
}

/// What a prover with a given term table sends.
pub open spec fn sends(
    dims: ShapeDims,
    terms: Seq<Term>,
    ctxs: Seq<ClaimCtx>,
    tamper: Step2Tamper,
    replies: ProverReplies,
    msgs: ProverMessages,
) -> bool {
    let rho = replies.rho@;
    let table = committed_table(dims, terms, rho, tamper);
    let pi_lo = replies.pi@.take(dims.n_d as int);
    let points = batch_points(dims, ctxs, ctxs.len()).push(pi_lo);
    &&& msgs.d_vals@ == meta_values(histogram(dims, terms, 2, rho), ctxs, ctxs.len())
    &&& msgs.den_root == tree_root(
        leaf_num(dims, eq_tensor(rho), table),
        leaf_den(dims, terms, replies.tau),
        (dims.n_d + 2) as nat,
    ).1
    &&& forall|blk: int|
        0 <= blk < 3 ==> #[trigger] msgs.corners@[blk] == mle(vk_column(dims, terms, blk), pi_lo)
    &&& msgs.corners@[3] == mle(table, pi_lo)
    &&& msgs.batch.a@ == batch_weights(points, replies.phi, dims.n_d as nat, points.len())
    &&& msgs.batch.b@ == table
    &&& msgs.batch.sum == univariate(
        batch_evals(replies.finish@, msgs.d_vals@, ctxs.len()).push(msgs.corners@[3]),
        replies.phi,
    )
    &&& msgs.open_vk.message@ == row_table(dims, terms)
    &&& msgs.open_vk.point@ == pi_lo + replies.rho_c@
    &&& msgs.open_vk.eval == corner_claim(msgs.corners@, replies.rho_c@)
    &&& msgs.open_d.message@ == table
    &&& msgs.open_d.point@ == replies.challenges@.reverse()
    &&& msgs.open_d.eval == replies.m
}

/// Runs a prover, from the end of its intake, over what it draws and learns.
pub fn prove_run(start: ProveRows, replies: ProverReplies) -> (r: Result<
    ProverMessages,
    DischargeError,
>)
    requires
        start.base.wf(),
        replies.finish@.len() == 3 * start.base.ctxs@.len(),
        replies.rho_c@.len() == 2,
    ensures
        match r {
            Ok(msgs) => {
                &&& session_error(start.base.table.dims, replies) is None
                &&& sends(
                    start.base.table.dims,
                    start.base.table.terms@,
                    start.base.ctxs@,
                    start.base.tamper,
                    replies,
                    msgs,
                )
            },
            Err(e) => session_error(start.base.table.dims, replies) == Some(e),
        },
{
    let ProverReplies { rho, finish, tau, pi, phi, challenges, m, rho_c } = replies;
    let (state, d_vals) = match start.proved(rho, finish) {
        Ok(next) => next,
        Err(e) => {
            return Err(e);
        },
    };
    let (state, den_root, _, _) = match state.sampled(tau) {
        Ok(next) => next,
        Err(e) => {
            return Err(e);
        },
    };
    let (state, corners) = match state.walked(pi) {
        Ok(next) => next,
        Err(e) => {
            return Err(e);
        },
    };
    let (state, batch) = state.sampled(phi);
    let state = match state.proved(challenges, m) {
        Ok(next) => next,
        Err(e) => {
            return Err(e);
        },
    };
    let (open_vk, open_d) = state.sampled(rho_c);
    Ok(ProverMessages { d_vals, den_root, corners, batch, open_vk, open_d })
}

/// A prover that does not lie sends the messages that a verifier accepts, as long as its
/// sub-protocols end at true evaluations: those of the claims' columns, of the histogram table, and
/// of both tables at the shared point.
pub proof fn law_prover_is_honest(
    dims: ShapeDims,
    terms: Seq<Term>,
    ctxs: Seq<ClaimCtx>,
    replies: ProverReplies,
    msgs: ProverMessages,
    run: CommittedRun,
)
    requires
        sends(dims, terms, ctxs, Step2Tamper::Honest, replies, msgs),
        run.rho() == replies.rho@,
        run.tau == replies.tau,
        run.leaf->Ok_0.point@ == replies.pi@,
        run.phase_b->Ok_0.challenges@ == replies.challenges@,
        run.finish->Ok_0@ == replies.finish@,
        run.d_vals->Ok_0@ == msgs.d_vals@,
        run.d_root->Ok_0 == msgs.den_root,
        run.corners->Ok_0@ == msgs.corners@,
        run.m->Ok_0 == replies.m,
        replies.finish@ == honest_finish(dims, terms, ctxs, replies.rho@, ctxs.len()),
        replies.m == mle(msgs.batch.b@, msgs.open_d.point@),
        run.alphas->Ok_0@[0] == mle(msgs.open_vk.message@, run.shared_point()),
        run.alphas->Ok_0@[1] == mle(
            msgs.open_d.message@,
            run.shared_point().take(dims.n_d as int),
        ),
    ensures
        honest_messages(dims, terms, ctxs, run),
{
    assert(committed_table(dims, terms, replies.rho@, Step2Tamper::Honest) == m_d(
        dims,
        terms,
        replies.rho@,
    ));
}

} // verus!
