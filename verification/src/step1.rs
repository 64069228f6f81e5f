//! The discharge without commitments: the verifier holds the constraint system and rebuilds the
//! histogram table to check its one evaluation.

use crate::claim::parsed_fits;
use crate::cs::ConstraintSystem;
use crate::cubic::CubicProductSumcheckProver;
use crate::digest::sha256_of;
use crate::discharge::{
    batch_weights, check_claims, checked_contexts, ctx_of, first_claim_error, law_batch_weights,
    no_claim_error, statement_elems, ClaimCtx, DischargeStatement,
};
use crate::error::{DischargeError, VerifyError};
use crate::field::element::{one, zero, B128};
use crate::field::ring::{group_units, law_distributes_right};
use crate::field::sums::{lemma_sum_add, lemma_sum_ext, lemma_sum_single, power, sum};
use crate::histogram::{
    assemble_m_d, build_histograms, histogram, lemma_block_in, points_view, zero_table,
};
use crate::merged::{BatchReduced, BatchSumcheck};
use crate::multilinear::eq::{eq_at, eq_tensor};
use crate::multilinear::exp2::{exp2, lemma_exp2_add, lemma_exp2_small};
use crate::multilinear::mle::{dot, evaluate, mle};
use crate::multilinear::univariate::{evaluate_univariate, univariate};
use crate::reduction::m_d;
use crate::step2::common::{
    batch_evals, batch_points, check_statement, copy_elems, ctxs_fit, phase_b_claims, reversed,
    statement_error, Step2Tamper,
};
use crate::step2::laws::{honest_finish, lemma_honest_evals};
use crate::step2::prove::{
    add_claim_weights, batch_table, committed_table, meta_values, row_prover, row_provers,
    shape_fits, table_fits, tampered_index, ProductClaim,
};
use crate::step2::verify::{
    batched_eq, batched_indicators, ctx_sums, finish_products, finish_recombines,
    first_meta_failure, meta_ok, sums_of, Reduced, SumcheckRequest,
};
use crate::table::{
    all_occurrences, extract_table, first_operand_error, has_table, is_shape_of, shape_error, term_in, term_of,
    Occurrence, ShapeDims, Term, TermTable,
};
use vstd::prelude::*;

verus! {

/// Ways in which a test can make the prover lie.
#[derive(Debug, Clone, Copy, PartialEq, Eq, Structural)]
pub enum Step1Tamper {
    /// Not at all.
    Honest,
    /// One entry of the histogram table's zero block is changed.
    MdBlock3,
}

/// A term table is that of a constraint system with the given encoding.
pub open spec fn is_native_table(table: TermTable, cs: ConstraintSystem, encoding: Seq<u8>) -> bool {
    &&& is_shape_of(table.dims, cs)
    &&& table.terms@ == all_occurrences(cs).map_values(|o: Occurrence| term_of(o))
    &&& table_fits(table)
    &&& table.cs_digest@ == sha256_of(encoding)
}

/// Why a constraint system has no term table.
pub open spec fn native_table_error(cs: ConstraintSystem, e: DischargeError) -> bool {
    ||| shape_error(cs) == Some(e)
    ||| shape_error(cs) is None && first_operand_error(
        all_occurrences(cs),
        (cs.value_vec_layout.offset_witness + cs.value_vec_layout.n_hidden_words) as nat,
        e,
    )
}

/// A constraint system's term table and a statement that were admitted. The shift evaluations of the
/// claims can now be derived.
pub struct NativeIntake<'a> {
    pub table: TermTable,
    pub stmt: &'a DischargeStatement,
}

/// The first half of the intake, common to both sides: checks constraint system and statement.
pub fn check_native<'a>(
    cs: &ConstraintSystem,
    encoding: &[u8],
    stmt: &'a DischargeStatement,
) -> (r: Result<NativeIntake<'a>, DischargeError>)
    requires
        shape_fits(*cs),
    ensures
        match r {
            Ok(intake) => {
                &&& has_table(*cs)
                &&& is_native_table(intake.table, *cs, encoding@)
                &&& *intake.stmt == *stmt
                &&& intake.wf()
            },
            Err(e) => intake_fails(*cs, encoding@, *stmt, e),
        },
{
    let table = match extract_table(cs, encoding) {
        Ok(table) => table,
        Err(e) => {
            return Err(e);
        },
    };
    assert(is_native_table(table, *cs, encoding@));
    match check_statement(&table.cs_digest, &table.dims, stmt) {
        Ok(_) => {},
        Err(e) => {
            return Err(e);
        },
    }
    match check_claims(&table.dims, stmt) {
        Ok(_) => {},
        Err(e) => {
            return Err(e);
        },
    }
    Ok(NativeIntake { table, stmt })
}

impl<'a> NativeIntake<'a> {
    /// The statement is admitted for the table.
    pub open spec fn wf(self) -> bool {
        &&& table_fits(self.table)
        &&& statement_error(self.table.cs_digest, self.table.dims, *self.stmt) is None
        &&& no_claim_error(self.table.dims, self.stmt.claims@)
    }

    /// The second half of the prover's intake. The elements are to be absorbed, and the row
    /// sumchecks are to be proved as one batch.
    pub fn prove(self, h_ops: &Vec<[B128; 8]>, tamper: Step1Tamper) -> (r: (
        Step1Rows,
        Vec<B128>,
        Vec<CubicProductSumcheckProver>,
    ))
        requires
            self.wf(),
            h_ops@.len() == self.stmt.claims@.len(),
            10 * self.stmt.claims@.len() + 1 <= usize::MAX,
        ensures
            r.0.base.table == self.table,
            is_step1_start(r.0, r.1@, r.2@, *self.stmt, h_ops@, tamper),
    {
        let NativeIntake { table, stmt } = self;
        let ctxs = checked_contexts(&table.dims, stmt.parity, stmt, h_ops, false);
        proof {
            assert forall|l: int| 0 <= l < ctxs@.len() implies (#[trigger] ctxs@[l]).tr.has_tables(
                table.dims,
            ) && parsed_fits(table.dims, ctxs@[l].tr.parsed) by {
                assert(ctx_of(
                    ctxs@[l],
                    table.dims,
                    stmt.parity,
                    stmt.claims@[l],
                    h_ops@[l]@,
                    false,
                ));
            }
        }
        let provers = row_provers(&table, &ctxs);
        let absorb = stmt.to_elems();
        (Step1Rows { base: Step1Prover { table, ctxs, tamper } }, absorb, provers)
    }

    /// The second half of the verifier's intake. The elements are to be absorbed, and the row
    /// sumcheck is to be verified.
    pub fn verify(self, h_ops: &Vec<[B128; 8]>) -> (r: (NativeRows, Vec<B128>, BatchSumcheck))
        requires
            self.wf(),
            h_ops@.len() == self.stmt.claims@.len(),
        ensures
            r.0.base.table == self.table,
            is_native_start(r.0, r.1@, r.2, *self.stmt, h_ops@),
    {
        let NativeIntake { table, stmt } = self;
        let ctxs = checked_contexts(&table.dims, stmt.parity, stmt, h_ops, true);
        let absorb = stmt.to_elems();
        let sums = sums_of(&ctxs);
        let request = BatchSumcheck { n_vars: table.dims.n_t, degree: 3, sums };
        (NativeRows { base: Step1Verifier { table, ctxs } }, absorb, request)
    }
}

/// Why an intake fails.
pub open spec fn intake_fails(
    cs: ConstraintSystem,
    encoding: Seq<u8>,
    stmt: DischargeStatement,
    e: DischargeError,
) -> bool {
    native_table_error(cs, e) || has_table(cs) && exists|table: TermTable|
        {
            &&& #[trigger] is_native_table(table, cs, encoding)
            &&& {
                ||| statement_error(table.cs_digest, table.dims, stmt) == Some(e)
                ||| statement_error(table.cs_digest, table.dims, stmt) is None
                    && first_claim_error(table.dims, stmt.claims@, e)
            }
        }
}

/// What the prover knows.
pub struct Step1Prover {
    pub table: TermTable,
    pub ctxs: Vec<ClaimCtx>,
    pub tamper: Step1Tamper,
}

impl Step1Prover {
    /// The table is well-formed and the contexts are for it.
    pub open spec fn wf(self) -> bool {
        &&& table_fits(self.table)
        &&& ctxs_fit(self.table.dims, self.ctxs@)
        &&& 10 * self.ctxs@.len() + 1 <= usize::MAX
    }
}

/// Begins a proof. The elements are to be absorbed, and the row sumchecks are to be proved as one
/// batch.
pub fn discharge_prove(
    cs: &ConstraintSystem,
    encoding: &[u8],
    stmt: &DischargeStatement,
    h_ops: &Vec<[B128; 8]>,
) -> (r: Result<(Step1Rows, Vec<B128>, Vec<CubicProductSumcheckProver>), DischargeError>)
    requires
        shape_fits(*cs),
        h_ops@.len() == stmt.claims@.len(),
        10 * stmt.claims@.len() + 1 <= usize::MAX,
    ensures
        match r {
            Ok((state, absorb, provers)) => {
                &&& has_table(*cs)
                &&& is_native_table(state.base.table, *cs, encoding@)
                &&& statement_error(state.base.table.cs_digest, state.base.table.dims, *stmt) is None
                &&& no_claim_error(state.base.table.dims, stmt.claims@)
                &&& is_step1_start(state, absorb@, provers@, *stmt, h_ops@, Step1Tamper::Honest)
            },
            Err(e) => intake_fails(*cs, encoding@, *stmt, e),
        },
{
    discharge_prove_tampered(cs, encoding, stmt, h_ops, Step1Tamper::Honest)
}

/// What beginning a proof gives.
pub open spec fn is_step1_start(
    state: Step1Rows,
    absorb: Seq<B128>,
    provers: Seq<CubicProductSumcheckProver>,
    stmt: DischargeStatement,
    h_ops: Seq<[B128; 8]>,
    tamper: Step1Tamper,
) -> bool {
    let table = state.base.table;
    &&& state.base.wf()
    &&& state.base.tamper == tamper
    &&& state.base.ctxs@.len() == stmt.claims@.len()
    &&& forall|l: int|
        0 <= l < stmt.claims@.len() ==> ctx_of(
            #[trigger] state.base.ctxs@[l],
            table.dims,
            stmt.parity,
            stmt.claims@[l],
            h_ops[l]@,
            false,
        )
    &&& absorb == statement_elems(stmt)
    &&& provers.len() == stmt.claims@.len()
    &&& forall|l: int|
        0 <= l < provers.len() ==> row_prover(
            #[trigger] provers[l],
            table.dims,
            table.terms@,
            state.base.ctxs@[l],
        )
}

/// Begins a proof that follows the protocol but for one lie.
pub fn discharge_prove_tampered(
    cs: &ConstraintSystem,
    encoding: &[u8],
    stmt: &DischargeStatement,
    h_ops: &Vec<[B128; 8]>,
    tamper: Step1Tamper,
) -> (r: Result<(Step1Rows, Vec<B128>, Vec<CubicProductSumcheckProver>), DischargeError>)
    requires
        shape_fits(*cs),
        h_ops@.len() == stmt.claims@.len(),
        10 * stmt.claims@.len() + 1 <= usize::MAX,
    ensures
        match r {
            Ok((state, absorb, provers)) => {
                &&& has_table(*cs)
                &&& is_native_table(state.base.table, *cs, encoding@)
                &&& statement_error(state.base.table.cs_digest, state.base.table.dims, *stmt) is None
                &&& no_claim_error(state.base.table.dims, stmt.claims@)
                &&& is_step1_start(state, absorb@, provers@, *stmt, h_ops@, tamper)
            },
            Err(e) => intake_fails(*cs, encoding@, *stmt, e),
        },
{
    match check_native(cs, encoding, stmt) {
        Ok(intake) => Ok(intake.prove(h_ops, tamper)),
        Err(e) => Err(e),
    }
}

/// Awaits the row sumchecks.
pub struct Step1Rows {
    pub base: Step1Prover,
}

/// The histogram table that is used.
pub open spec fn used_table(dims: ShapeDims, terms: Seq<Term>, rho: Seq<B128>, tamper: Step1Tamper) -> Seq<B128> {
    committed_table(
        dims,
        terms,
        rho,
        if tamper == Step1Tamper::MdBlock3 {
            Step2Tamper::MdBlock3
        } else {
            Step2Tamper::Honest
        },
    )
}

impl Step1Rows {
    /// The row sumchecks were proved at the row challenge, with three evaluations per claim. The
    /// histogram values are to be sent, and the batching challenge is to be drawn.
    pub fn proved(self, rho: Vec<B128>, finish: Vec<B128>) -> (r: Result<
        (Step1Phi, Vec<B128>),
        DischargeError,
    >)
        requires
            self.base.wf(),
            finish@.len() == 3 * self.base.ctxs@.len(),
        ensures
            match r {
                Ok((next, d_vals)) => {
                    let dims = self.base.table.dims;
                    let terms = self.base.table.terms@;
                    &&& rho@.len() == dims.n_t
                    &&& d_vals@ == meta_values(
                        histogram(dims, terms, 2, rho@),
                        self.base.ctxs@,
                        self.base.ctxs@.len(),
                    )
                    &&& d_vals@.len() == 8 * self.base.ctxs@.len()
                    &&& next.base == self.base
                    &&& next.finish == finish
                    &&& next.d_vals@ == d_vals@
                    &&& next.m_d@ == used_table(dims, terms, rho@, self.base.tamper)
                    &&& next.m_d@.len() == exp2(dims.n_d as nat)
                },
                Err(e) => rho@.len() != self.base.table.dims.n_t && e == DischargeError::RowRounds,
            },
    {
        if rho.len() != self.base.table.dims.n_t {
            return Err(DischargeError::RowRounds);
        }
        let (d_vals, table) = batch_table(
            &self.base.table,
            &self.base.ctxs,
            &rho,
            self.base.tamper == Step1Tamper::MdBlock3,
        );
        let sent = copy_elems(&d_vals);
        Ok((Step1Phi { base: self.base, finish, d_vals, m_d: table }, sent))
    }
}

/// All points of a batch without a leaf point, with their evaluations.
fn claims_only(dims: &ShapeDims, ctxs: &Vec<ClaimCtx>, finish: &Vec<B128>, d_vals: &Vec<B128>) -> (r: (
    Vec<Vec<B128>>,
    Vec<B128>,
))
    requires
        dims.derived(),
        ctxs_fit(*dims, ctxs@),
        finish@.len() == 3 * ctxs@.len(),
        d_vals@.len() == 8 * ctxs@.len(),
    ensures
        points_view(r.0@) == batch_points(*dims, ctxs@, ctxs@.len()),
        r.1@ == batch_evals(finish@, d_vals@, ctxs@.len()),
{
    let none: Vec<B128> = Vec::new();
    let (mut points, mut evals) = phase_b_claims(dims, ctxs, finish, d_vals, &none, zero());
    let ghost (p, e) = (points@, evals@);
    assert(points_view(p).len() == p.len());
    points.pop();
    evals.pop();
    assert(points_view(points@) =~= batch_points(*dims, ctxs@, ctxs@.len())) by {
        assert forall|j: int| 0 <= j < points@.len() implies #[trigger] points_view(points@)[j]
            == batch_points(*dims, ctxs@, ctxs@.len())[j] by {
            assert(points_view(p)[j] == p[j]@);
        }
    }
    assert(evals@ =~= batch_evals(finish@, d_vals@, ctxs@.len()));
    (points, evals)
}

/// Awaits the batching challenge.
pub struct Step1Phi {
    pub base: Step1Prover,
    pub finish: Vec<B128>,
    pub d_vals: Vec<B128>,
    pub m_d: Vec<B128>,
}

impl Step1Phi {
    /// The batching challenge was drawn. The product of the batched weights and the histogram
    /// table is to be proved, and the table's evaluation is to be sent.
    pub fn sampled(self, phi: B128) -> (r: ProductClaim)
        requires
            self.base.wf(),
            self.finish@.len() == 3 * self.base.ctxs@.len(),
            self.d_vals@.len() == 8 * self.base.ctxs@.len(),
        ensures
            r.a@ == batch_weights(
                batch_points(self.base.table.dims, self.base.ctxs@, self.base.ctxs@.len()),
                phi,
                self.base.table.dims.n_d as nat,
                (10 * self.base.ctxs@.len()) as nat,
            ),
            r.b == self.m_d,
            r.sum == univariate(
                batch_evals(self.finish@, self.d_vals@, self.base.ctxs@.len()),
                phi,
            ),
    {
        let dims = &self.base.table.dims;
        let (points, evals) = claims_only(dims, &self.base.ctxs, &self.finish, &self.d_vals);
        let sum = evaluate_univariate(&evals, phi);
        let mut w_eq = zero_table(dims.n_d);
        proof {
            crate::step2::prove::lemma_batch_points(*dims, self.base.ctxs@, self.base.ctxs@.len());
            assert(points_view(points@).len() == points@.len());
            assert forall|j: int| 0 <= j < points@.len() implies (#[trigger] points@[j])@
                == batch_points(*dims, self.base.ctxs@, self.base.ctxs@.len())[j] by {
                assert(points_view(points@)[j] == points@[j]@);
            }
        }
        add_claim_weights(&mut w_eq, dims, &self.base.ctxs, &points, phi);
        ProductClaim { a: w_eq, b: self.m_d, sum }
    }
}

/// What the verifier knows.
pub struct Step1Verifier {
    pub table: TermTable,
    pub ctxs: Vec<ClaimCtx>,
}

impl Step1Verifier {
    /// The table is well-formed and the contexts are for it.
    pub open spec fn wf(self) -> bool {
        &&& table_fits(self.table)
        &&& ctxs_fit(self.table.dims, self.ctxs@)
    }
}

/// What the second half of the verifier's intake gives: the state, the elements to absorb, and the
/// row sumcheck.
pub open spec fn is_native_start(
    state: NativeRows,
    absorb: Seq<B128>,
    request: BatchSumcheck,
    stmt: DischargeStatement,
    h_ops: Seq<[B128; 8]>,
) -> bool {
    &&& state.base.wf()
    &&& state.base.ctxs@.len() == stmt.claims@.len()
    &&& forall|l: int|
        0 <= l < stmt.claims@.len() ==> ctx_of(
            #[trigger] state.base.ctxs@[l],
            state.base.table.dims,
            stmt.parity,
            stmt.claims@[l],
            h_ops[l]@,
            true,
        )
    &&& absorb == statement_elems(stmt)
    &&& request.n_vars == state.base.table.dims.n_t
    &&& request.degree == 3
    &&& request.sums@ == ctx_sums(state.base.ctxs@)
}

/// What a successful intake gives.
pub open spec fn native_started(
    state: NativeRows,
    absorb: Seq<B128>,
    request: BatchSumcheck,
    cs: ConstraintSystem,
    encoding: Seq<u8>,
    stmt: DischargeStatement,
    h_ops: Seq<[B128; 8]>,
) -> bool {
    &&& has_table(cs)
    &&& is_native_table(state.base.table, cs, encoding)
    &&& statement_error(state.base.table.cs_digest, state.base.table.dims, stmt) is None
    &&& no_claim_error(state.base.table.dims, stmt.claims@)
    &&& is_native_start(state, absorb, request, stmt, h_ops)
}

/// The verifier's first step: the intake of constraint system and statement. On success, the
/// elements are to be absorbed, and the row sumcheck is to be verified.
pub fn discharge_verify(
    cs: &ConstraintSystem,
    encoding: &[u8],
    stmt: &DischargeStatement,
    h_ops: &Vec<[B128; 8]>,
) -> (r: Result<(NativeRows, Vec<B128>, BatchSumcheck), VerifyError>)
    requires
        shape_fits(*cs),
        h_ops@.len() == stmt.claims@.len(),
    ensures
        match r {
            Ok((state, absorb, request)) => native_started(
                state,
                absorb@,
                request,
                *cs,
                encoding@,
                *stmt,
                h_ops@,
            ),
            Err(VerifyError::Precondition(e)) => intake_fails(*cs, encoding@, *stmt, e),
            Err(_) => false,
        },
{
    match check_native(cs, encoding, stmt) {
        Ok(intake) => Ok(intake.verify(h_ops)),
        Err(e) => Err(VerifyError::Precondition(e)),
    }
}

/// Awaits the row sumcheck.
pub struct NativeRows {
    pub base: Step1Verifier,
}

impl NativeRows {
    /// The row sumcheck was verified. Three evaluations per claim are to be received.
    pub fn reduced(self, out: BatchReduced) -> (r: NativeFinish)
        ensures
            r.base == self.base,
            r.mu == out.batch_coeff,
            r.e_a == out.eval,
            r.rho@ == out.challenges@.reverse(),
    {
        let rho = reversed(&out.challenges);
        NativeFinish { base: self.base, mu: out.batch_coeff, e_a: out.eval, rho }
    }

    /// The row sumcheck was rejected.
    pub fn failed(self, reason: String) -> (e: VerifyError)
        ensures
            e == (VerifyError::Sumcheck { phase: "phase A batch_verify", reason }),
    {
        VerifyError::Sumcheck { phase: "phase A batch_verify", reason }
    }
}

/// Awaits three evaluations per claim.
pub struct NativeFinish {
    pub base: Step1Verifier,
    pub mu: B128,
    pub e_a: B128,
    pub rho: Vec<B128>,
}

impl NativeFinish {
    /// The evaluations were received: their products must recombine to the reduced evaluation.
    pub fn received(self, finish: Vec<B128>) -> (r: Result<NativeDValues, VerifyError>)
        requires
            finish@.len() == 3 * self.base.ctxs@.len(),
        ensures
            match r {
                Ok(next) => {
                    &&& univariate(
                        finish_products(finish@, self.base.ctxs@.len()),
                        self.mu,
                    ) == self.e_a
                    &&& next.base == self.base
                    &&& next.rho == self.rho
                    &&& next.finish == finish
                },
                Err(e) => {
                    &&& univariate(
                        finish_products(finish@, self.base.ctxs@.len()),
                        self.mu,
                    ) != self.e_a
                    &&& e == VerifyError::PhaseARecombination
                },
            },
    {
        if !finish_recombines(&finish, self.base.ctxs.len(), self.mu, self.e_a) {
            return Err(VerifyError::PhaseARecombination);
        }
        Ok(NativeDValues { base: self.base, rho: self.rho, finish })
    }

    /// The evaluations could not be received.
    pub fn failed(self, reason: String) -> (e: VerifyError)
        ensures
            e == (VerifyError::Channel { phase: "phase A finish evals", reason }),
    {
        VerifyError::Channel { phase: "phase A finish evals", reason }
    }
}

/// Awaits eight histogram values per claim.
pub struct NativeDValues {
    pub base: Step1Verifier,
    pub rho: Vec<B128>,
    pub finish: Vec<B128>,
}

impl NativeDValues {
    /// The histogram values were received: each claim's meta evaluation must be their combination.
    /// The batching challenge is to be drawn.
    pub fn received(self, d_vals: Vec<B128>) -> (r: Result<NativePhi, VerifyError>)
        requires
            self.finish@.len() == 3 * self.base.ctxs@.len(),
            d_vals@.len() == 8 * self.base.ctxs@.len(),
        ensures
            match r {
                Ok(next) => {
                    &&& forall|l: int|
                        0 <= l < self.base.ctxs@.len() ==> meta_ok(
                            #[trigger] self.base.ctxs@[l],
                            self.finish@,
                            d_vals@,
                            l,
                        )
                    &&& next.base == self.base
                    &&& next.rho == self.rho
                    &&& next.finish == self.finish
                    &&& next.d_vals == d_vals
                },
                Err(e) => exists|l: int|
                    {
                        &&& 0 <= l < self.base.ctxs@.len()
                        &&& !meta_ok(#[trigger] self.base.ctxs@[l], self.finish@, d_vals@, l)
                        &&& forall|j: int|
                            0 <= j < l ==> meta_ok(
                                #[trigger] self.base.ctxs@[j],
                                self.finish@,
                                d_vals@,
                                j,
                            )
                        &&& e == (VerifyError::PhaseGRecombination { claim: l as usize })
                    },
            },
    {
        match first_meta_failure(&self.base.ctxs, &self.finish, &d_vals) {
            Some(l) => {
                assert(!meta_ok(self.base.ctxs@[l as int], self.finish@, d_vals@, l as int));
                return Err(VerifyError::PhaseGRecombination { claim: l });
            },
            None => {},
        }
        Ok(NativePhi { base: self.base, rho: self.rho, finish: self.finish, d_vals })
    }

    /// The histogram values could not be received.
    pub fn failed(self, reason: String) -> (e: VerifyError)
        ensures
            e == (VerifyError::Channel { phase: "phase A d values", reason }),
    {
        VerifyError::Channel { phase: "phase A d values", reason }
    }
}

/// Awaits the batching challenge.
pub struct NativePhi {
    pub base: Step1Verifier,
    pub rho: Vec<B128>,
    pub finish: Vec<B128>,
    pub d_vals: Vec<B128>,
}

impl NativePhi {
    /// The batching challenge was drawn. The batched sumcheck is to be verified.
    pub fn sampled(self, phi: B128) -> (r: (NativeBatch, SumcheckRequest))
        requires
            self.base.wf(),
            self.finish@.len() == 3 * self.base.ctxs@.len(),
            self.d_vals@.len() == 8 * self.base.ctxs@.len(),
        ensures
            r.0.base == self.base,
            r.0.rho == self.rho,
            r.0.phi == phi,
            points_view(r.0.points@) == batch_points(
                self.base.table.dims,
                self.base.ctxs@,
                self.base.ctxs@.len(),
            ),
            r.1.n_vars == self.base.table.dims.n_d,
            r.1.degree == 2,
            r.1.sum == univariate(
                batch_evals(self.finish@, self.d_vals@, self.base.ctxs@.len()),
                phi,
            ),
    {
        let (points, evals) = claims_only(
            &self.base.table.dims,
            &self.base.ctxs,
            &self.finish,
            &self.d_vals,
        );
        let sum = evaluate_univariate(&evals, phi);
        let n_vars: usize = self.base.table.dims.n_d;
        (
            NativeBatch { base: self.base, rho: self.rho, phi, points },
            SumcheckRequest { n_vars, degree: 2, sum },
        )
    }
}

/// Awaits the batched sumcheck.
pub struct NativeBatch {
    pub base: Step1Verifier,
    pub rho: Vec<B128>,
    pub phi: B128,
    pub points: Vec<Vec<B128>>,
}

impl NativeBatch {
    /// The batched sumcheck was verified. One evaluation is to be received.
    pub fn reduced(self, out: Reduced) -> (r: NativeM)
        ensures
            r.base == self.base,
            r.rho == self.rho,
            r.phi == self.phi,
            r.points == self.points,
            r.e_b == out.eval,
            r.sigma@ == out.challenges@.reverse(),
    {
        let sigma = reversed(&out.challenges);
        NativeM {
            base: self.base,
            rho: self.rho,
            phi: self.phi,
            points: self.points,
            e_b: out.eval,
            sigma,
        }
    }

    /// The batched sumcheck was rejected.
    pub fn failed(self, reason: String) -> (e: VerifyError)
        ensures
            e == (VerifyError::Sumcheck { phase: "phase B verify", reason }),
    {
        VerifyError::Sumcheck { phase: "phase B verify", reason }
    }
}

/// Awaits the histogram table's evaluation.
pub struct NativeM {
    pub base: Step1Verifier,
    pub rho: Vec<B128>,
    pub phi: B128,
    pub points: Vec<Vec<B128>>,
    pub e_b: B128,
    pub sigma: Vec<B128>,
}

impl NativeM {
    /// The evaluation was received: times the batched indicators it must be the reduced evaluation,
    /// and it must be the evaluation of the histogram table rebuilt from the constraint system.
    pub fn received(self, m: B128) -> (r: Result<(), VerifyError>)
        requires
            self.base.wf(),
            self.rho@.len() == self.base.table.dims.n_t,
            self.sigma@.len() == self.base.table.dims.n_d,
            forall|j: int|
                0 <= j < self.points@.len() ==> (#[trigger] self.points@[j])@.len()
                    == self.sigma@.len(),
        ensures
            ({
                let w = batched_indicators(
                    points_view(self.points@),
                    self.phi,
                    self.sigma@,
                    self.points@.len(),
                );
                let table = m_d(self.base.table.dims, self.base.table.terms@, self.rho@);
                match r {
                    Ok(_) => m * w == self.e_b && mle(table, self.sigma@) == m,
                    Err(e) => if m * w != self.e_b {
                        e == VerifyError::PhaseBFinalCheck
                    } else {
                        mle(table, self.sigma@) != m && e == VerifyError::NativeFinalCheck
                    },
                }
            }),
    {
        let w = batched_eq(&self.points, self.phi, &self.sigma);
        if m * w != self.e_b {
            return Err(VerifyError::PhaseBFinalCheck);
        }
        let dims = &self.base.table.dims;
        let hist = build_histograms(&self.base.table, &self.rho);
        proof {
            lemma_block_in(*dims, 0);
            lemma_block_in(*dims, 1);
            lemma_block_in(*dims, 2);
        }
        let table = assemble_m_d(dims, &hist);
        if evaluate(&table, &self.sigma) != m {
            return Err(VerifyError::NativeFinalCheck);
        }
        Ok(())
    }

    /// The evaluation could not be received.
    pub fn failed(self, reason: String) -> (e: VerifyError)
        ensures
            e == (VerifyError::Channel { phase: "phase B m", reason }),
    {
        VerifyError::Channel { phase: "phase B m", reason }
    }
}

/// An honest batch passes the verifier's last checks: the batched sumcheck's claim is true, its
/// weights evaluate to the batched indicators, and the table it is about is the rebuilt one.
pub proof fn law_honest_step1(
    dims: ShapeDims,
    terms: Seq<Term>,
    ctxs: Seq<ClaimCtx>,
    rho: Seq<B128>,
    phi: B128,
    sigma: Seq<B128>,
)
    requires
        dims.segmented(),
        forall|i: int| 0 <= i < terms.len() ==> term_in(dims, #[trigger] terms[i]),
        ctxs_fit(dims, ctxs),
        rho.len() == dims.n_t,
        forall|l: int| 0 <= l < ctxs.len() ==> (#[trigger] ctxs[l]).tr.parsed.lambda_and != one(),
        sigma.len() == dims.n_d,
    ensures
        ({
            let m = used_table(dims, terms, rho, Step1Tamper::Honest);
            let points = batch_points(dims, ctxs, ctxs.len());
            let evals = batch_evals(
                honest_finish(dims, terms, ctxs, rho, ctxs.len()),
                meta_values(histogram(dims, terms, 2, rho), ctxs, ctxs.len()),
                ctxs.len(),
            );
            let n = dims.n_d as nat;
            let w = batch_weights(points, phi, n, points.len());
            &&& m == m_d(dims, terms, rho)
            &&& univariate(evals, phi) == dot(w, m, exp2(n))
            &&& mle(w, sigma) == batched_indicators(points, phi, sigma, points.len())
        }),
{
    let m = m_d(dims, terms, rho);
    let k = ctxs.len();
    lemma_honest_evals(dims, terms, ctxs, rho, k);
    let points = batch_points(dims, ctxs, k);
    let evals = batch_evals(
        honest_finish(dims, terms, ctxs, rho, k),
        meta_values(histogram(dims, terms, 2, rho), ctxs, k),
        k,
    );
    let n = dims.n_d as nat;
    assert(m.len() == exp2(n)) by {
        lemma_exp2_add(dims.n_a as nat, 2);
        lemma_exp2_small();
    }
    law_batch_weights(points, phi, n, points.len(), m, sigma);
    let f = |j: int| mle(m, points[j]) * power(phi, j as nat);
    let g = |j: int| evals[j] * power(phi, j as nat);
    assert forall|j: int| 0 <= j < points.len() implies #[trigger] f(j) == g(j) by {
        assert(evals[j] == mle(m, points[j]));
    }
    lemma_sum_ext(f, g, points.len());
}

/// A prover that changes an entry of the zero block sends another evaluation than the rebuilt
/// table has: they differ by the indicator of the entry, so only the last check can tell.
pub proof fn law_tamper_shifts_eval(dims: ShapeDims, terms: Seq<Term>, rho: Seq<B128>, sigma: Seq<B128>)
    requires
        dims.segmented(),
        sigma.len() == dims.n_d,
    ensures
        mle(used_table(dims, terms, rho, Step1Tamper::MdBlock3), sigma) == mle(
            m_d(dims, terms, rho),
            sigma,
        ) + eq_at(tampered_index(dims), sigma),
{
    broadcast use group_units;

    let m = m_d(dims, terms, rho);
    let t = used_table(dims, terms, rho, Step1Tamper::MdBlock3);
    let i = tampered_index(dims);
    let q = exp2(dims.n_a as nat) as int;
    lemma_exp2_add(dims.n_a as nat, 2);
    lemma_exp2_small();
    crate::multilinear::exp2::lemma_exp2_pos(dims.n_a as nat);
    assert(3 * q <= i < 4 * q) by {
        vstd::arithmetic::div_mod::lemma_mod_bound(12345, q);
    }
    let n = exp2(sigma.len());
    let e = eq_tensor(sigma);
    let f = |j: int| m[j] * e[j];
    let g = |j: int| t[j] * e[j];
    let d = |j: int| if j == i { e[i] } else { zero() };
    assert forall|j: int| 0 <= j < n implies #[trigger] g(j) == f(j) + d(j) by {
        if j == i {
            law_distributes_right(m[i], one(), e[i]);
        }
    }
    lemma_sum_add(f, d, g, n);
    lemma_sum_single(d, n, i);
}

} // verus!
