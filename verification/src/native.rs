//! A whole run of the verifier without commitments, over everything that it receives, draws and
//! learns from outside checks.

use crate::cs::ConstraintSystem;
use crate::cubic::product_sum;
use crate::discharge::{
    batch_weights, law_batch_weights, no_claim_error, ClaimCtx, DischargeStatement,
};
use crate::error::VerifyError;
use crate::field::element::B128;
use crate::field::ring::law_mul_commutes;
use crate::field::sums::{power, sum};
use crate::histogram::{histogram, points_view};
use crate::merged::BatchReduced;
use crate::multilinear::eq::eq_points;
use crate::multilinear::exp2::{exp2, lemma_exp2_add, lemma_exp2_small};
use crate::multilinear::mle::{dot, mle};
use crate::multilinear::univariate::univariate;
use crate::reduction::{claim_columns, m_d};
use crate::step1::{
    discharge_verify, intake_fails, is_native_table, law_honest_step1, NativeRows,
};
use crate::step2::checks::{lemma_no_meta_fault, lemma_products, meta_sum};
use crate::step2::common::{batch_evals, batch_points, ctxs_fit, statement_error};
use crate::step2::laws::{
    honest_finish, law_honest_meta, law_honest_sum, lemma_finish_at, row_products, true_claim,
};
use crate::step2::prove::{lemma_batch_points, meta_values, shape_fits};
use crate::step2::run::{first_meta_fault, lemma_meta_fault, verifier_contexts};
use crate::step2::verify::{batched_indicators, finish_products, meta_ok, Reduced};
use crate::table::{has_table, is_shape_of, term_in, ShapeDims, Term, TermTable};
use vstd::prelude::*;

verus! {

/// What a run brings from outside, in order: messages, challenges, and what sub-protocols reduce
/// to. A message that is missing and a sub-protocol that is rejected bring
/// the reason instead.
#[derive(Debug)]
pub struct NativeRun {
    pub phase_a: Result<BatchReduced, String>,
    pub finish: Result<Vec<B128>, String>,
    pub d_vals: Result<Vec<B128>, String>,
    pub phi: B128,
    pub phase_b: Result<Reduced, String>,
    pub m: Result<B128, String>,
}

impl NativeRun {
    /// Messages and points have the lengths that were asked for.
    pub open spec fn fits(self, dims: ShapeDims, k: nat) -> bool {
        &&& self.phase_a is Ok ==> self.phase_a->Ok_0.challenges@.len() == dims.n_t
        &&& self.finish is Ok ==> self.finish->Ok_0@.len() == 3 * k
        &&& self.d_vals is Ok ==> self.d_vals->Ok_0@.len() == 8 * k
        &&& self.phase_b is Ok ==> self.phase_b->Ok_0.challenges@.len() == dims.n_d
    }

    /// The row challenge, low-coordinate-first.
    pub open spec fn rho(self) -> Seq<B128> {
        self.phase_a->Ok_0.challenges@.reverse()
    }

    /// The batched sumcheck's point, low-coordinate-first.
    pub open spec fn sigma(self) -> Seq<B128> {
        self.phase_b->Ok_0.challenges@.reverse()
    }
}

/// The error with which a run ends, or none if it is accepted.
pub open spec fn native_error(
    dims: ShapeDims,
    terms: Seq<Term>,
    ctxs: Seq<ClaimCtx>,
    run: NativeRun,
) -> Option<VerifyError> {
    let points = batch_points(dims, ctxs, ctxs.len());
    if run.phase_a is Err {
        Some(VerifyError::Sumcheck { phase: "phase A batch_verify", reason: run.phase_a->Err_0 })
    } else if run.finish is Err {
        Some(VerifyError::Channel { phase: "phase A finish evals", reason: run.finish->Err_0 })
    } else if univariate(
        finish_products(run.finish->Ok_0@, ctxs.len()),
        run.phase_a->Ok_0.batch_coeff,
    ) != run.phase_a->Ok_0.eval {
        Some(VerifyError::PhaseARecombination)
    } else if run.d_vals is Err {
        Some(VerifyError::Channel { phase: "phase A d values", reason: run.d_vals->Err_0 })
    } else if first_meta_fault(
        ctxs,
        run.finish->Ok_0@,
        run.d_vals->Ok_0@,
        ctxs.len(),
    ) is Some {
        Some(
            VerifyError::PhaseGRecombination {
                claim: first_meta_fault(
                    ctxs,
                    run.finish->Ok_0@,
                    run.d_vals->Ok_0@,
                    ctxs.len(),
                )->Some_0 as usize,
            },
        )
    } else if run.phase_b is Err {
        Some(VerifyError::Sumcheck { phase: "phase B verify", reason: run.phase_b->Err_0 })
    } else if run.m is Err {
        Some(VerifyError::Channel { phase: "phase B m", reason: run.m->Err_0 })
    } else if run.m->Ok_0 * batched_indicators(points, run.phi, run.sigma(), points.len())
        != run.phase_b->Ok_0.eval {
        Some(VerifyError::PhaseBFinalCheck)
    } else if run.m->Ok_0 != mle(m_d(dims, terms, run.rho()), run.sigma()) {
        Some(VerifyError::NativeFinalCheck)
    } else {
        None
    }
}

/// Runs a verifier, from the end of its intake, over what a run brings.
pub fn replay_native(start: NativeRows, run: NativeRun) -> (r: Result<(), VerifyError>)
    requires
        start.base.wf(),
        run.fits(start.base.table.dims, start.base.ctxs@.len()),
    ensures
        native_error(
            start.base.table.dims,
            start.base.table.terms@,
            start.base.ctxs@,
            run,
        ) == match r {
            Ok(_) => None::<VerifyError>,
            Err(e) => Some(e),
        },
{
    let ghost dims = start.base.table.dims;
    let ghost ctxs = start.base.ctxs@;
    let ghost all = run;
    let NativeRun { phase_a, finish, d_vals, phi, phase_b, m } = run;
    let state = match phase_a {
        Ok(out) => start.reduced(out),
        Err(reason) => {
            return Err(start.failed(reason));
        },
    };
    let state = match finish {
        Ok(finish) => match state.received(finish) {
            Ok(next) => next,
            Err(e) => {
                return Err(e);
            },
        },
        Err(reason) => {
            return Err(state.failed(reason));
        },
    };
    let state = match d_vals {
        Ok(d_vals) => match state.received(d_vals) {
            Ok(next) => {
                proof {
                    lemma_meta_fault(
                        ctxs,
                        all.finish->Ok_0@,
                        all.d_vals->Ok_0@,
                        ctxs.len(),
                        ctxs.len() as int,
                    );
                }
                next
            },
            Err(e) => {
                proof {
                    let (f, d) = (all.finish->Ok_0@, all.d_vals->Ok_0@);
                    let l = choose|l: int|
                        {
                            &&& 0 <= l < ctxs.len()
                            &&& !meta_ok(#[trigger] ctxs[l], f, d, l)
                            &&& forall|j: int|
                                0 <= j < l ==> meta_ok(#[trigger] ctxs[j], f, d, j)
                            &&& e == (VerifyError::PhaseGRecombination { claim: l as usize })
                        };
                    lemma_meta_fault(ctxs, f, d, ctxs.len(), l);
                }
                return Err(e);
            },
        },
        Err(reason) => {
            return Err(state.failed(reason));
        },
    };
    let (state, _) = state.sampled(phi);
    let state = match phase_b {
        Ok(out) => state.reduced(out),
        Err(reason) => {
            return Err(state.failed(reason));
        },
    };
    proof {
        lemma_batch_points(dims, ctxs, ctxs.len());
        let points = batch_points(dims, ctxs, ctxs.len());
        assert forall|j: int| 0 <= j < state.points@.len() implies (#[trigger] state.points@[j])@.len()
            == state.sigma@.len() by {
            assert(points_view(state.points@)[j] == points[j]);
        }
    }
    match m {
        Ok(m) => state.received(m),
        Err(reason) => Err(state.failed(reason)),
    }
}

/// Verifies a statement against a constraint system over a whole run: the intake, and then every
/// check in order.
pub fn verify_native_run(
    cs: &ConstraintSystem,
    encoding: &[u8],
    stmt: &DischargeStatement,
    h_ops: &Vec<[B128; 8]>,
    run: NativeRun,
) -> (r: Result<(), VerifyError>)
    requires
        shape_fits(*cs),
        h_ops@.len() == stmt.claims@.len(),
        forall|dims: ShapeDims|
            #[trigger] is_shape_of(dims, *cs) ==> run.fits(dims, stmt.claims@.len()),
    ensures
        match r {
            Err(VerifyError::Precondition(e)) => intake_fails(*cs, encoding@, *stmt, e),
            _ => has_table(*cs) && exists|table: TermTable, ctxs: Seq<ClaimCtx>|
                {
                    &&& #[trigger] is_native_table(table, *cs, encoding@)
                    &&& statement_error(table.cs_digest, table.dims, *stmt) is None
                    &&& no_claim_error(table.dims, stmt.claims@)
                    &&& #[trigger] verifier_contexts(ctxs, table.dims, *stmt, h_ops@)
                    &&& native_error(table.dims, table.terms@, ctxs, run) == match r {
                        Ok(_) => None::<VerifyError>,
                        Err(e) => Some(e),
                    }
                },
        },
{
    match discharge_verify(cs, encoding, stmt, h_ops) {
        Ok((state, _, _)) => {
            assert(is_native_table(state.base.table, *cs, encoding@));
            assert(verifier_contexts(state.base.ctxs@, state.base.table.dims, *stmt, h_ops@));
            replay_native(state, run)
        },
        Err(e) => Err(e),
    }
}

/// The messages of a run all came and are those of the honest prover.
pub open spec fn honest_native_messages(
    dims: ShapeDims,
    terms: Seq<Term>,
    ctxs: Seq<ClaimCtx>,
    run: NativeRun,
) -> bool {
    let rho = run.rho();
    &&& run.finish is Ok
    &&& run.d_vals is Ok
    &&& run.m is Ok
    &&& run.finish->Ok_0@ == honest_finish(dims, terms, ctxs, rho, ctxs.len())
    &&& run.d_vals->Ok_0@ == meta_values(histogram(dims, terms, 2, rho), ctxs, ctxs.len())
    &&& run.m->Ok_0 == mle(m_d(dims, terms, rho), run.sigma())
}

/// The batched weights of a run.
pub open spec fn native_weights(dims: ShapeDims, ctxs: Seq<ClaimCtx>, run: NativeRun) -> Seq<B128> {
    let points = batch_points(dims, ctxs, ctxs.len());
    batch_weights(points, run.phi, dims.n_d as nat, points.len())
}

/// The two sumchecks of a run were not rejected and tell the truth: what they reduce to are the
/// evaluations of what they are about.
pub open spec fn truthful_native(
    dims: ShapeDims,
    terms: Seq<Term>,
    ctxs: Seq<ClaimCtx>,
    run: NativeRun,
) -> bool {
    &&& run.phase_a is Ok
    &&& run.phase_b is Ok
    &&& run.phase_a->Ok_0.eval == univariate(
        row_products(dims, terms, ctxs, run.rho()),
        run.phase_a->Ok_0.batch_coeff,
    )
    &&& run.phase_b->Ok_0.eval == mle(native_weights(dims, ctxs, run), run.sigma()) * mle(
        m_d(dims, terms, run.rho()),
        run.sigma(),
    )
}

/// An honest prover is accepted. For a term table, claims in context whose values are the sums over
/// the table, and any challenges: the claims that the verifier hands to the two sumchecks are true,
/// and with sumchecks that tell the truth every check passes.
pub proof fn law_honest_native_accepted(
    dims: ShapeDims,
    terms: Seq<Term>,
    ctxs: Seq<ClaimCtx>,
    values: Seq<B128>,
    run: NativeRun,
)
    requires
        dims.segmented(),
        terms.len() == dims.n_terms,
        forall|i: int| 0 <= i < terms.len() ==> term_in(dims, #[trigger] terms[i]),
        ctxs_fit(dims, ctxs),
        values.len() == ctxs.len(),
        forall|l: int|
            0 <= l < ctxs.len() ==> true_claim(dims, terms, #[trigger] ctxs[l], values[l]),
        run.fits(dims, ctxs.len()),
        honest_native_messages(dims, terms, ctxs, run),
        truthful_native(dims, terms, ctxs, run),
    ensures
        native_error(dims, terms, ctxs, run) is None,
        forall|l: int|
            0 <= l < ctxs.len() ==> {
                let (cx, cy, cg) = claim_columns(
                    dims,
                    terms,
                    ctxs[l].tr.parsed,
                    ctxs[l].tr.h_ops@,
                );
                (#[trigger] ctxs[l]).sum == product_sum(cx, cy, cg)
            },
        univariate(
            batch_evals(run.finish->Ok_0@, run.d_vals->Ok_0@, ctxs.len()),
            run.phi,
        ) == dot(native_weights(dims, ctxs, run), m_d(dims, terms, run.rho()), exp2(dims.n_d as nat)),
{
    let rho = run.rho();
    let finish = run.finish->Ok_0@;
    let d_vals = run.d_vals->Ok_0@;
    assert forall|l: int| 0 <= l < ctxs.len() implies {
        let (cx, cy, cg) = claim_columns(dims, terms, ctxs[l].tr.parsed, ctxs[l].tr.h_ops@);
        (#[trigger] ctxs[l]).sum == product_sum(cx, cy, cg)
    } by {
        law_honest_sum(dims, terms, ctxs[l], values[l]);
    }
    assert forall|l: int| 0 <= l < ctxs.len() implies meta_ok(
        #[trigger] ctxs[l],
        finish,
        d_vals,
        l,
    ) by {
        law_honest_meta(dims, terms, ctxs, rho, l);
    }
    lemma_meta_fault(ctxs, finish, d_vals, ctxs.len(), ctxs.len() as int);
    assert(finish_products(finish, ctxs.len()) =~= row_products(dims, terms, ctxs, rho)) by {
        assert forall|l: int| 0 <= l < ctxs.len() implies #[trigger] finish_products(
            finish,
            ctxs.len(),
        )[l] == row_products(dims, terms, ctxs, rho)[l] by {
            lemma_finish_at(dims, terms, ctxs, rho, ctxs.len(), l);
        }
    }
    law_honest_step1(dims, terms, ctxs, rho, run.phi, run.sigma());
    law_mul_commutes(
        mle(m_d(dims, terms, rho), run.sigma()),
        mle(native_weights(dims, ctxs, run), run.sigma()),
    );
}

/// What an accepted run says: the claim to which the batched sumcheck was reduced is true of the
/// histogram table of the constraint system, whatever the prover did.
pub proof fn law_native_accepted_reduction(
    dims: ShapeDims,
    terms: Seq<Term>,
    ctxs: Seq<ClaimCtx>,
    run: NativeRun,
)
    requires
        dims.derived(),
        run.fits(dims, ctxs.len()),
        native_error(dims, terms, ctxs, run) is None,
    ensures
        run.m->Ok_0 == mle(m_d(dims, terms, run.rho()), run.sigma()),
        run.phase_b->Ok_0.eval == mle(native_weights(dims, ctxs, run), run.sigma()) * mle(
            m_d(dims, terms, run.rho()),
            run.sigma(),
        ),
{
    let table = m_d(dims, terms, run.rho());
    lemma_exp2_add(dims.n_a as nat, 2);
    lemma_exp2_small();
    assert(table.len() == exp2(dims.n_d as nat));
    let points = batch_points(dims, ctxs, ctxs.len());
    lemma_batch_points(dims, ctxs, ctxs.len());
    assert forall|j: int| 0 <= j < points.len() implies (#[trigger] points[j]).len() == dims.n_d by {}
    law_batch_weights(points, run.phi, dims.n_d as nat, points.len(), table, run.sigma());
    law_mul_commutes(
        mle(table, run.sigma()),
        mle(native_weights(dims, ctxs, run), run.sigma()),
    );
}

/// Without commitments, a run is accepted exactly when both sumchecks passed and all messages came, the
/// products of every claim's three evaluations, batched, are the reduced evaluation, every claim's third
/// evaluation is the combination of its eight histogram values, the one evaluation times the batched
/// indicators is what the batched sumcheck was reduced to, and it is that of the histogram table which
/// the verifier builds itself.
pub proof fn law_native_accepted(
    dims: ShapeDims,
    terms: Seq<Term>,
    ctxs: Seq<ClaimCtx>,
    run: NativeRun,
)
    ensures
        native_error(dims, terms, ctxs, run) is None <==> {
            let finish = run.finish->Ok_0@;
            let points = batch_points(dims, ctxs, ctxs.len());
            let sigma = run.phase_b->Ok_0.challenges@.reverse();
            &&& run.phase_a is Ok && run.finish is Ok && run.d_vals is Ok
            &&& run.phase_b is Ok && run.m is Ok
            &&& run.phase_a->Ok_0.eval == sum(
                |l: int|
                    finish[3 * l] * finish[3 * l + 1] * finish[3 * l + 2] * power(
                        run.phase_a->Ok_0.batch_coeff,
                        l as nat,
                    ),
                ctxs.len(),
            )
            &&& forall|l: int|
                0 <= l < ctxs.len() ==> finish[3 * l + 2] == #[trigger] meta_sum(
                    ctxs[l],
                    run.d_vals->Ok_0@,
                    l,
                )
            &&& run.m->Ok_0 * sum(
                |j: int| power(run.phi, j as nat) * eq_points(points[j], sigma),
                points.len(),
            ) == run.phase_b->Ok_0.eval
            &&& run.m->Ok_0 == mle(
                m_d(dims, terms, run.phase_a->Ok_0.challenges@.reverse()),
                sigma,
            )
        },
{
    lemma_products(run.finish->Ok_0@, ctxs.len(), run.phase_a->Ok_0.batch_coeff);
    lemma_no_meta_fault(ctxs, run.finish->Ok_0@, run.d_vals->Ok_0@, ctxs.len());
}

} // verus!
