//! What it takes for a statement to be admitted and for a run to be accepted, written out in what the
//! verifier receives.

use crate::claim::ParsedClaim;
use crate::cs::ConstraintSystem;
use crate::cubic::{CubicProductSumcheckProver, RoundCoeffsOrSum};
use crate::digest::sha256_of;
use crate::discharge::{
    first_claim_error, law_batch_claims, law_context, statement_elems, ClaimCtx, DischargeStatement,
};
use crate::error::{DischargeError, VerifyError};
use crate::field::element::{one, zero, B128};
use crate::field::inverse::inv;
use crate::field::ring::group_units;
use crate::field::sums::{lemma_sum_ext, power, sum};
use crate::histogram::{meta_address, padded};
use crate::merged::{BatchReduced, BatchSumcheck};
use crate::multilinear::eq::{bits_of, eq_points};
use crate::multilinear::exp2::{exp2, lemma_exp2_pos};
use crate::multilinear::mle::mle;
use crate::multilinear::univariate::univariate;
use crate::reduction::m_d;
use crate::step1::{
    intake_fails, is_native_start, is_native_table, is_step1_start, native_started,
    native_table_error, NativeIntake, NativeRows, Step1Rows, Step1Tamper,
};
use crate::step2::common::{
    batch_points, law_block_indicators, law_statement_admission, statement_error, Step2Tamper,
};
use crate::step2::prove::{
    committed_table, is_keyed, is_start, is_table_for, meta_values, row_prover, start_error,
    table_error, table_fits, table_precheck_fails, table_precheck_ok, tampered_index, ProveRows,
};
use crate::step2::run::{
    batch_error, first_meta_fault, leaves_error, opened_error, recombined, rows_error, run_error,
    verifier_contexts, CommittedRun,
};
use crate::step2::session::{session_error, ProverReplies};
use crate::step2::verify::{
    commitment_of, committed_fails, committed_started, finish_products, intake_error, meta_ok,
    precheck_fails, precheck_ok, AwaitPhaseA, Commitment,
};
use crate::table::{
    all_occurrences, first_operand_error, has_table, is_shape_of, law_first_operand_error,
    operand_error, operands_ok, rows_of, shape_error, ShapeDims, Term, TermTable,
};
use crate::vk::{
    dims_error, law_coherent_is_derived, law_key_checks, vkm_error, DischargeVkm, FriParams,
};
use vstd::prelude::*;

verus! {

/// A key and a statement are admitted exactly when the statement's digest and metadata are the key's,
/// it has a claim, each of its points has the shape's number of coordinates and a batching challenge
/// other than zero and one, and the key passes its checks. No pair is both admitted and refused.
pub proof fn law_admission(
    vkm: DischargeVkm,
    stmt: DischargeStatement,
    min_test_queries: usize,
    e: DischargeError,
)
    ensures
        precheck_ok(vkm, stmt, min_test_queries) <==> {
            &&& stmt.cs_digest@ == vkm.cs_digest@
            &&& stmt.n_terms == vkm.dims.n_terms
            &&& stmt.n_pad == vkm.dims.n_pad
            &&& stmt.parity == vkm.dims.parity
            &&& stmt.claims@.len() > 0
            &&& forall|i: int|
                0 <= i < stmt.claims@.len() ==> {
                    let p = (#[trigger] stmt.claims@[i]).point@;
                    p.len() == vkm.dims.arity && p[1] != zero() && p[1] != one()
                }
            &&& vkm_error(vkm, min_test_queries) is None
        },
        precheck_ok(vkm, stmt, min_test_queries) ==> !precheck_fails(
            vkm,
            stmt,
            min_test_queries,
            e,
        ),
{
    law_statement_admission(vkm.cs_digest, vkm.dims, stmt);
    law_batch_claims(vkm.dims, stmt.claims@, e);
}

/// Honest batches are admitted, of any size: a statement made from a term table, with claims of the
/// table's arity whose batching challenges are neither zero nor one, and a key made for that table with
/// enough queries.
pub proof fn law_honest_admission(
    table: TermTable,
    vkm: DischargeVkm,
    stmt: DischargeStatement,
    min_test_queries: usize,
)
    requires
        table.wf(),
        table.dims.n_a <= 62,
        vkm.layout_version == 4,
        vkm.row_order_version == 1,
        vkm.hash_suite_id == 1,
        vkm.log_inv_rate == 1,
        vkm.lane_andonly,
        vkm.tag_bits.0 == table.dims.n_a,
        vkm.tag_bits.1 == table.dims.n_a + 1,
        vkm.cs_digest@ == table.cs_digest@,
        vkm.dims == table.dims,
        vkm.n_test_queries >= min_test_queries,
        stmt.cs_digest@ == table.cs_digest@,
        stmt.n_terms == table.dims.n_terms,
        stmt.n_pad == table.dims.n_pad,
        stmt.parity == table.dims.parity,
        stmt.claims@.len() >= 1,
        forall|i: int|
            0 <= i < stmt.claims@.len() ==> {
                let p = (#[trigger] stmt.claims@[i]).point@;
                p.len() == table.dims.arity && p[1] != zero() && p[1] != one()
            },
    ensures
        precheck_ok(vkm, stmt, min_test_queries),
{
    law_key_checks(vkm, min_test_queries);
    law_coherent_is_derived(table.dims);
    law_admission(vkm, stmt, min_test_queries, DischargeError::EmptyBatch);
}

/// Nothing is refused without reason: where key and statement are refused, one of the conditions of
/// admission fails.
pub proof fn law_refused_for_reason(
    vkm: DischargeVkm,
    stmt: DischargeStatement,
    min_test_queries: usize,
    e: DischargeError,
)
    requires
        precheck_fails(vkm, stmt, min_test_queries, e),
    ensures
        ({
            ||| stmt.cs_digest@ != vkm.cs_digest@
            ||| stmt.n_terms != vkm.dims.n_terms
            ||| stmt.n_pad != vkm.dims.n_pad
            ||| stmt.parity != vkm.dims.parity
            ||| stmt.claims@.len() == 0
            ||| exists|i: int|
                {
                    let p = (#[trigger] stmt.claims@[i]).point@;
                    &&& 0 <= i < stmt.claims@.len()
                    &&& p.len() != vkm.dims.arity || p[1] == zero() || p[1] == one()
                }
            ||| vkm_error(vkm, min_test_queries) is Some
        }),
        e == DischargeError::EmptyBatch ==> stmt.claims@.len() == 0,
        stmt.claims@.len() == 0 && stmt.cs_digest@ == vkm.cs_digest@ && stmt.n_terms
            == vkm.dims.n_terms && stmt.n_pad == vkm.dims.n_pad && stmt.parity == vkm.dims.parity
            ==> e == DischargeError::EmptyBatch,
{
    law_statement_admission(vkm.cs_digest, vkm.dims, stmt);
    law_batch_claims(vkm.dims, stmt.claims@, e);
    law_key_checks(vkm, min_test_queries);
    law_admission(vkm, stmt, min_test_queries, e);
    crate::vk::law_dims_checks(vkm.dims);
}

/// The products of three consecutive values, batched by powers of a coefficient.
pub(crate) proof fn lemma_products(finish: Seq<B128>, k: nat, mu: B128)
    ensures
        univariate(finish_products(finish, k), mu) == sum(
            |l: int| finish[3 * l] * finish[3 * l + 1] * finish[3 * l + 2] * power(mu, l as nat),
            k,
        ),
{
    let p = finish_products(finish, k);
    lemma_sum_ext(
        |i: int| p[i] * power(mu, i as nat),
        |l: int| finish[3 * l] * finish[3 * l + 1] * finish[3 * l + 2] * power(mu, l as nat),
        k,
    );
}

/// The meta evaluation of a claim, from its eight histogram values.
proof fn lemma_meta(ctx: ClaimCtx, finish: Seq<B128>, d_vals: Seq<B128>, l: int)
    ensures
        meta_ok(ctx, finish, d_vals, l) <==> finish[3 * l + 2] == meta_sum(ctx, d_vals, l),
{
    let c = ctx.tr.parsed.lambda_and + one();
    lemma_sum_ext(
        |o: int|
            crate::claim::gamma(ctx.tr.parsed.lambda_and, ctx.tr.h_ops@[o]) * d_vals[8 * l + o],
        |o: int|
            ctx.tr.h_ops@[o] * (ctx.tr.parsed.lambda_and * c * c * c) * d_vals[8 * l + o],
        8,
    );
}

/// The eight histogram values of claim `l`, each times its shift kind's evaluation and
/// `lambda * (lambda + 1)^3`.
pub open spec fn meta_sum(ctx: ClaimCtx, d_vals: Seq<B128>, l: int) -> B128 {
    let c = ctx.tr.parsed.lambda_and + one();
    sum(
        |o: int| ctx.tr.h_ops@[o] * (ctx.tr.parsed.lambda_and * c * c * c) * d_vals[8 * l + o],
        8,
    )
}

/// There is no faulty claim when every claim meets its check, and a faulty one is the first.
pub(crate) proof fn lemma_no_meta_fault(ctxs: Seq<ClaimCtx>, finish: Seq<B128>, d_vals: Seq<B128>, k: nat)
    requires
        k <= ctxs.len(),
    ensures
        first_meta_fault(ctxs, finish, d_vals, k) is None <==> forall|l: int|
            0 <= l < k ==> finish[3 * l + 2] == #[trigger] meta_sum(ctxs[l], d_vals, l),
        first_meta_fault(ctxs, finish, d_vals, k) matches Some(l) ==> {
            &&& 0 <= l < k
            &&& finish[3 * l + 2] != meta_sum(ctxs[l], d_vals, l)
            &&& forall|j: int|
                0 <= j < l ==> finish[3 * j + 2] == #[trigger] meta_sum(ctxs[j], d_vals, j)
        },
    decreases k,
{
    if k > 0 {
        lemma_no_meta_fault(ctxs, finish, d_vals, (k - 1) as nat);
        lemma_meta(ctxs[k - 1], finish, d_vals, k - 1);
        if first_meta_fault(ctxs, finish, d_vals, k) is None {
            assert forall|l: int| 0 <= l < k implies finish[3 * l + 2] == #[trigger] meta_sum(
                ctxs[l],
                d_vals,
                l,
            ) by {
                if l < k - 1 {
                    assert(finish[3 * l + 2] == meta_sum(ctxs[l], d_vals, l));
                }
            }
        } else if forall|l: int|
            0 <= l < k ==> finish[3 * l + 2] == #[trigger] meta_sum(ctxs[l], d_vals, l) {
            assert(finish[3 * (k - 1) + 2] == meta_sum(ctxs[k - 1], d_vals, k - 1));
        }
    }
}

/// The rows are accepted exactly when the row sumcheck passed, the two lists of values came, the
/// products of each claim's three evaluations, batched, are the reduced evaluation, and every claim's
/// third evaluation is the combination of its own eight histogram values. All claims count.
pub proof fn law_rows_accepted(ctxs: Seq<ClaimCtx>, run: CommittedRun)
    ensures
        rows_error(ctxs, run) is None <==> {
            let finish = run.finish->Ok_0@;
            &&& run.phase_a is Ok
            &&& run.finish is Ok
            &&& run.d_vals is Ok
            &&& run.phase_a->Ok_0.eval == sum(
                |l: int|
                    finish[3 * l] * finish[3 * l + 1] * finish[3 * l + 2] * power(
                        run.phase_a->Ok_0.batch_coeff,
                        l as nat,
                    ),
                ctxs.len(),
            )
            &&& forall|l: int|
                0 <= l < ctxs.len() ==> finish[3 * l + 2] == #[trigger] meta_sum(
                    ctxs[l],
                    run.d_vals->Ok_0@,
                    l,
                )
        },
{
    lemma_products(run.finish->Ok_0@, ctxs.len(), run.phase_a->Ok_0.batch_coeff);
    lemma_no_meta_fault(ctxs, run.finish->Ok_0@, run.d_vals->Ok_0@, ctxs.len());
}

/// The leaves are accepted exactly when the digest, the root, the leaf claim and the four values came,
/// the pole challenge lies beyond all indices, the root denominator is not zero, the leaf point has a
/// coordinate for each variable, and both leaf evaluations are what the four values amount to in the
/// four blocks.
pub proof fn law_leaves_accepted(dims: ShapeDims, run: CommittedRun)
    requires
        run.phase_a->Ok_0.challenges@.len() == dims.n_t,
        dims.n_t <= dims.n_d,
    ensures
        leaves_error(dims, run) is None <==> {
            let point = run.leaf->Ok_0.point@;
            let n = dims.n_d as int;
            let v = run.corners->Ok_0@;
            let (p, q, lo) = (point[n], point[n + 1], point.take(n));
            let rho = run.phase_a->Ok_0.challenges@.reverse();
            let rows = Seq::new(n as nat, |i: int| if i < rho.len() { rho[i] } else { zero() });
            let b0 = (one() + p) * (one() + q);
            let b1 = p * (one() + q);
            let b2 = (one() + p) * q;
            let tau = run.tau;
            &&& run.digest_d is Ok
            &&& run.d_root is Ok
            &&& run.leaf is Ok
            &&& run.corners is Ok
            &&& tau.bits >= 4 * exp2(dims.n_a as nat)
            &&& run.d_root->Ok_0 != zero()
            &&& point.len() == n + 2
            &&& run.leaf->Ok_0.num_eval == (b0 + b1 + b2) * eq_points(lo, rows) + p * q * v[3]
            &&& run.leaf->Ok_0.den_eval == b0 * (tau + v[0]) + b1 * (tau + v[1]) + b2 * (tau
                + v[2]) + p * q * (tau + sum(
                |k: int| lo[k] * crate::encode::embed(exp2(k as nat) as int),
                dims.n_d as nat,
            ))
        },
{
    assert(exp2((dims.n_a + 2) as nat) == 2 * exp2((dims.n_a + 1) as nat));
    let point = run.leaf->Ok_0.point@;
    let n = dims.n_d as int;
    let rho = run.rho();
    assert(padded(rho, n as nat) =~= Seq::new(
        n as nat,
        |i: int| if i < rho.len() { rho[i] } else { zero() },
    ));
    if point.len() == n + 2 {
        let (p, q) = (point[n], point[n + 1]);
        assert(point.skip(n) =~= seq![p, q]);
        law_block_indicators(p, q);
        assert(point.take(n).len() == dims.n_d as nat);
    }
}

/// The batched sumcheck is accepted exactly when it passed, the evaluation came, and the evaluation
/// times the batched indicators of all points is what it was reduced to.
pub proof fn law_batch_accepted(dims: ShapeDims, ctxs: Seq<ClaimCtx>, run: CommittedRun)
    ensures
        batch_error(dims, ctxs, run) is None <==> {
            let own = batch_points(dims, ctxs, ctxs.len());
            let points = own.push(run.leaf->Ok_0.point@.take(dims.n_d as int));
            &&& run.phase_b is Ok
            &&& run.m is Ok
            &&& run.m->Ok_0 * sum(
                |j: int|
                    power(run.phi, j as nat) * eq_points(
                        points[j],
                        run.phase_b->Ok_0.challenges@.reverse(),
                    ),
                own.len() + 1,
            ) == run.phase_b->Ok_0.eval
        },
{
    let own = batch_points(dims, ctxs, ctxs.len());
    let points = own.push(run.leaf->Ok_0.point@.take(dims.n_d as int));
    assert(points.len() == own.len() + 1);
    assert(run.points(dims, ctxs) == points);
}

/// The opening is accepted exactly when the opened root is the key's digest, the reduction passed, the
/// two evaluations came and recombine to the reduced evaluation, and the queries passed with the last
/// values in agreement.
pub proof fn law_opening_accepted(dims: ShapeDims, vk_digest: Seq<u8>, run: CommittedRun)
    requires
        run.leaf->Ok_0.point@.len() == dims.n_d + 2,
        run.rho_c@.len() == 2,
        run.phase_b->Ok_0.challenges@.len() == dims.n_d,
        run.reduction->Ok_0.challenges@.len() == dims.n_d + 2,
    ensures
        opened_error(dims, vk_digest, run) is None <==> {
            let r = run.reduction->Ok_0.challenges@.reverse();
            let n = dims.n_d as int;
            let a = run.alphas->Ok_0@;
            let vk_point = run.leaf->Ok_0.point@.take(n) + run.rho_c@;
            let sigma = run.phase_b->Ok_0.challenges@.reverse();
            &&& run.vk_root is Ok
            &&& run.reduction is Ok
            &&& run.alphas is Ok
            &&& run.opening == Ok::<bool, String>(true)
            &&& run.vk_root->Ok_0@ == vk_digest
            &&& run.reduction->Ok_0.eval == a[0] * eq_points(vk_point, r) + run.reduction->Ok_0.batch_coeff
                * (a[1] * eq_points(sigma, r.take(n)) * ((one() + r[n]) * (one() + r[n + 1])))
        },
{
    broadcast use group_units;

    let r = run.shared_point();
    let n = dims.n_d as int;
    let a = run.alphas->Ok_0@;
    let vk_point = run.vk_point(dims);
    let sigma = run.sigma();
    let mu = run.reduction->Ok_0.batch_coeff;
    assert(r.take(n + 2) =~= r);
    assert(r.skip(n + 2) =~= Seq::<B128>::empty());
    let hi = r.skip(n);
    assert(hi =~= seq![r[n], r[n + 1]]);
    assert(seq![r[n], r[n + 1]].drop_last() =~= seq![r[n]]);
    assert(seq![r[n]].drop_last() =~= Seq::<B128>::empty());
    reveal_with_fuel(crate::multilinear::eq::eq_zero, 3);
    let c0 = crate::merged::contribution(vk_point, a[0], r);
    let c1 = crate::merged::contribution(sigma, a[1], r);
    let c = seq![c0, c1];
    let f = |i: int| c[i] * power(mu, i as nat);
    reveal_with_fuel(sum, 3);
    reveal_with_fuel(power, 3);
    assert(recombined(dims, run) == sum(f, 2));
    assert(sum(f, 2) == c0 + c1 * mu);
    crate::field::ring::law_mul_commutes(c1, mu);
}

/// A run is accepted exactly when its rows, its leaves, its batched sumcheck and its opening are, and
/// the error is that of the first part that is not.
pub proof fn law_run_accepted(dims: ShapeDims, ctxs: Seq<ClaimCtx>, vk_digest: Seq<u8>, run: CommittedRun)
    ensures
        run_error(dims, ctxs, vk_digest, run) is None <==> {
            &&& rows_error(ctxs, run) is None
            &&& leaves_error(dims, run) is None
            &&& batch_error(dims, ctxs, run) is None
            &&& opened_error(dims, vk_digest, run) is None
        },
        rows_error(ctxs, run) is Some ==> run_error(dims, ctxs, vk_digest, run) == rows_error(
            ctxs,
            run,
        ),
{
}

/// The combination of a claim's eight histogram values, written out.
pub proof fn law_meta_sum(ctx: ClaimCtx, d_vals: Seq<B128>, l: int)
    ensures
        ({
            let c = ctx.tr.parsed.lambda_and + one();
            let g = ctx.tr.parsed.lambda_and * c * c * c;
            let h = ctx.tr.h_ops@;
            let at = 8 * l;
            meta_sum(ctx, d_vals, l) == h[0] * g * d_vals[at] + h[1] * g * d_vals[at + 1] + h[2] * g
                * d_vals[at + 2] + h[3] * g * d_vals[at + 3] + h[4] * g * d_vals[at + 4] + h[5] * g
                * d_vals[at + 5] + h[6] * g * d_vals[at + 6] + h[7] * g * d_vals[at + 7]
        }),
{
    broadcast use group_units;

    reveal_with_fuel(sum, 9);
}

/// The prover admits a key and a statement for its table exactly on the verifier's conditions, with the
/// table's arity; and it refuses nothing else.
pub proof fn law_prover_admission(
    dims: ShapeDims,
    vkm: DischargeVkm,
    stmt: DischargeStatement,
    min_test_queries: usize,
    e: DischargeError,
)
    ensures
        table_precheck_ok(dims, vkm, stmt, min_test_queries) <==> {
            &&& stmt.cs_digest@ == vkm.cs_digest@
            &&& stmt.n_terms == vkm.dims.n_terms
            &&& stmt.n_pad == vkm.dims.n_pad
            &&& stmt.parity == vkm.dims.parity
            &&& stmt.claims@.len() > 0
            &&& forall|i: int|
                0 <= i < stmt.claims@.len() ==> {
                    let p = (#[trigger] stmt.claims@[i]).point@;
                    p.len() == dims.arity && p[1] != zero() && p[1] != one()
                }
            &&& vkm_error(vkm, min_test_queries) is None
        },
        table_precheck_ok(dims, vkm, stmt, min_test_queries) ==> !table_precheck_fails(
            dims,
            vkm,
            stmt,
            min_test_queries,
            e,
        ),
        dims == vkm.dims ==> (table_precheck_ok(dims, vkm, stmt, min_test_queries) == precheck_ok(
            vkm,
            stmt,
            min_test_queries,
        )),
        e == DischargeError::EmptyBatch && table_precheck_fails(
            dims,
            vkm,
            stmt,
            min_test_queries,
            e,
        ) ==> stmt.claims@.len() == 0,
{
    law_statement_admission(vkm.cs_digest, vkm.dims, stmt);
    law_batch_claims(dims, stmt.claims@, e);
    law_key_checks(vkm, min_test_queries);
    crate::vk::law_dims_checks(vkm.dims);
}

/// A constraint system is taken for the key's exactly when it has a term table, the digest of its
/// encoding is the key's and so are its dimensions; a table that is made for it has its rows and the
/// key's digest and dimensions.
pub proof fn law_keyed(
    cs: ConstraintSystem,
    encoding: Seq<u8>,
    vkm: DischargeVkm,
    table: TermTable,
    e: DischargeError,
)
    ensures
        is_keyed(cs, encoding, vkm) <==> {
            &&& shape_error(cs) is None
            &&& operands_ok(
                all_occurrences(cs),
                (cs.value_vec_layout.offset_witness + cs.value_vec_layout.n_hidden_words) as nat,
            )
            &&& sha256_of(encoding) == vkm.cs_digest@
            &&& is_shape_of(vkm.dims, cs)
        },
        is_keyed(cs, encoding, vkm) ==> !table_error(cs, encoding, vkm, e),
        is_table_for(table, cs, vkm) ==> {
            &&& table.dims == vkm.dims
            &&& table.cs_digest@ == vkm.cs_digest@
            &&& table.terms@ == rows_of(cs.and_constraints@)
        },
{
    if first_operand_error(
        all_occurrences(cs),
        (cs.value_vec_layout.offset_witness + cs.value_vec_layout.n_hidden_words) as nat,
        e,
    ) {
        let occ = all_occurrences(cs);
        let len = (cs.value_vec_layout.offset_witness + cs.value_vec_layout.n_hidden_words) as nat;
        let i = choose|i: int|
            {
                &&& 0 <= i < occ.len()
                &&& #[trigger] operand_error(occ[i].svi, len) == Some(e)
                &&& forall|j: int|
                    0 <= j < i ==> #[trigger] operand_error(occ[j].svi, len) is None
            };
        assert(operand_error(occ[i].svi, len) is Some);
    }
}

/// Without commitments, a statement is admitted for a constraint system's table on the same conditions.
pub proof fn law_native_admission(intake: NativeIntake, e: DischargeError)
    requires
        table_fits(intake.table),
    ensures
        intake.wf() <==> {
            let stmt = *intake.stmt;
            let table = intake.table;
            &&& stmt.cs_digest@ == table.cs_digest@
            &&& stmt.n_terms == table.dims.n_terms
            &&& stmt.n_pad == table.dims.n_pad
            &&& stmt.parity == table.dims.parity
            &&& stmt.claims@.len() > 0
            &&& forall|i: int|
                0 <= i < stmt.claims@.len() ==> {
                    let p = (#[trigger] stmt.claims@[i]).point@;
                    p.len() == table.dims.arity && p[1] != zero() && p[1] != one()
                }
        },
{
    law_statement_admission(intake.table.cs_digest, intake.table.dims, *intake.stmt);
    law_batch_claims(intake.table.dims, intake.stmt.claims@, e);
}

/// A refused intake has a reason: the constraint system has no term table; or the statement's digest or
/// metadata are not those of its table, it is empty, or a claim of it is faulty.
pub proof fn law_native_refused(
    cs: ConstraintSystem,
    encoding: Seq<u8>,
    stmt: DischargeStatement,
    e: DischargeError,
)
    requires
        intake_fails(cs, encoding, stmt, e),
    ensures
        !has_table(cs) || exists|table: TermTable|
            {
                &&& #[trigger] is_native_table(table, cs, encoding)
                &&& {
                    ||| stmt.cs_digest@ != table.cs_digest@
                    ||| stmt.n_terms != table.dims.n_terms
                    ||| stmt.n_pad != table.dims.n_pad
                    ||| stmt.parity != table.dims.parity
                    ||| stmt.claims@.len() == 0
                    ||| exists|i: int|
                        {
                            let p = (#[trigger] stmt.claims@[i]).point@;
                            &&& 0 <= i < stmt.claims@.len()
                            &&& p.len() != table.dims.arity || p[1] == zero() || p[1] == one()
                        }
                }
            },
        e == DischargeError::EmptyBatch ==> stmt.claims@.len() == 0,
{
    let len = (cs.value_vec_layout.offset_witness + cs.value_vec_layout.n_hidden_words) as nat;
    if native_table_error(cs, e) {
        if shape_error(cs) is None {
            let occ = all_occurrences(cs);
            let i = choose|i: int|
                {
                    &&& 0 <= i < occ.len()
                    &&& #[trigger] operand_error(occ[i].svi, len) == Some(e)
                    &&& forall|j: int|
                        0 <= j < i ==> #[trigger] operand_error(occ[j].svi, len) is None
                };
            assert(operand_error(occ[i].svi, len) is Some);
        }
    } else {
        let table = choose|table: TermTable|
            {
                &&& #[trigger] is_native_table(table, cs, encoding)
                &&& {
                    ||| statement_error(table.cs_digest, table.dims, stmt) == Some(e)
                    ||| statement_error(table.cs_digest, table.dims, stmt) is None
                        && first_claim_error(table.dims, stmt.claims@, e)
                }
            };
        law_statement_admission(table.cs_digest, table.dims, stmt);
        law_batch_claims(table.dims, stmt.claims@, e);
        assert(is_native_table(table, cs, encoding));
    }
}

/// The tables that a prover commits to: the true one, but for one entry of its last quarter when it
/// lies there.
pub proof fn law_committed_table(dims: ShapeDims, terms: Seq<Term>, rho: Seq<B128>, i: int)
    requires
        0 <= i < 4 * exp2(dims.n_a as nat),
    ensures
        committed_table(dims, terms, rho, Step2Tamper::Honest) == m_d(dims, terms, rho),
        committed_table(dims, terms, rho, Step2Tamper::DigestD) == m_d(dims, terms, rho),
        committed_table(dims, terms, rho, Step2Tamper::MdBlock3)[i] != m_d(dims, terms, rho)[i] ==> i
            >= 3 * exp2(dims.n_a as nat),
        exists|j: int|
            0 <= j < 4 * exp2(dims.n_a as nat) && #[trigger] committed_table(
                dims,
                terms,
                rho,
                Step2Tamper::MdBlock3,
            )[j] == m_d(dims, terms, rho)[j] + one(),
{
    let q = exp2(dims.n_a as nat) as int;
    lemma_exp2_pos(dims.n_a as nat);
    vstd::arithmetic::div_mod::lemma_mod_bound(12345, q);
    let j = tampered_index(dims);
    assert(3 * q <= j < 4 * q);
    let m = m_d(dims, terms, rho);
    assert(m.len() == 4 * q);
    assert(committed_table(dims, terms, rho, Step2Tamper::MdBlock3)[j] == m[j] + one());
}

/// What ends a prover's run: a row challenge, a leaf point or a batched point with the wrong number of
/// coordinates, or a pole challenge among the committed values.
pub proof fn law_session_ends(dims: ShapeDims, replies: ProverReplies)
    ensures
        session_error(dims, replies) is None <==> {
            &&& replies.rho@.len() == dims.n_t
            &&& replies.tau.bits >= 4 * exp2(dims.n_a as nat)
            &&& replies.pi@.len() == dims.n_d + 2
            &&& replies.challenges@.len() == dims.n_d
        },
        match session_error(dims, replies) {
            None => true,
            Some(DischargeError::RowRounds) => replies.rho@.len() != dims.n_t,
            Some(DischargeError::TauInPoleRange) => replies.tau.bits < 4 * exp2(dims.n_a as nat),
            Some(DischargeError::LeafArity) => replies.pi@.len() != dims.n_d + 2,
            Some(DischargeError::BatchRounds) => replies.challenges@.len() != dims.n_d,
            Some(_) => false,
        },
{
    assert(exp2((dims.n_a + 2) as nat) == 2 * exp2((dims.n_a + 1) as nat));
}

/// The error of the row phase: that of the first of its steps that fails. A message that does not come
/// is named by its step, the recombination comes before the claims' own checks, and among those the
/// first claim that fails is named.
pub proof fn law_rows_refused(ctxs: Seq<ClaimCtx>, run: CommittedRun)
    requires
        ctxs.len() <= usize::MAX,
    ensures
        match rows_error(ctxs, run) {
            None => run.phase_a is Ok && run.finish is Ok && run.d_vals is Ok,
            Some(VerifyError::Sumcheck { phase, reason }) => {
                &&& run.phase_a == Err::<BatchReduced, String>(reason)
                &&& phase == "phase A batch_verify"
            },
            Some(VerifyError::Channel { phase, reason }) => {
                &&& run.phase_a is Ok
                &&& run.finish is Err ==> reason == run.finish->Err_0 && phase
                    == "phase A finish evals"
                &&& run.finish is Ok ==> run.d_vals is Err && reason == run.d_vals->Err_0 && phase
                    == "phase A d values"
            },
            Some(VerifyError::PhaseARecombination) => {
                let finish = run.finish->Ok_0@;
                &&& run.phase_a is Ok
                &&& run.finish is Ok
                &&& run.phase_a->Ok_0.eval != sum(
                    |l: int|
                        finish[3 * l] * finish[3 * l + 1] * finish[3 * l + 2] * power(
                            run.phase_a->Ok_0.batch_coeff,
                            l as nat,
                        ),
                    ctxs.len(),
                )
            },
            Some(VerifyError::PhaseGRecombination { claim }) => {
                &&& run.phase_a is Ok && run.finish is Ok && run.d_vals is Ok
                &&& claim < ctxs.len()
                &&& run.finish->Ok_0@[3 * claim + 2] != meta_sum(
                    ctxs[claim as int],
                    run.d_vals->Ok_0@,
                    claim as int,
                )
                &&& forall|j: int|
                    0 <= j < claim ==> run.finish->Ok_0@[3 * j + 2] == #[trigger] meta_sum(
                        ctxs[j],
                        run.d_vals->Ok_0@,
                        j,
                    )
            },
            Some(_) => false,
        },
{
    lemma_products(run.finish->Ok_0@, ctxs.len(), run.phase_a->Ok_0.batch_coeff);
    lemma_no_meta_fault(ctxs, run.finish->Ok_0@, run.d_vals->Ok_0@, ctxs.len());
}

/// The error of the leaf phase: that of the first of its steps that fails.
pub proof fn law_leaves_refused(dims: ShapeDims, run: CommittedRun)
    ensures
        ({
            let e = leaves_error(dims, run);
            let low = run.tau.bits < 4 * exp2(dims.n_a as nat);
            &&& run.digest_d is Err ==> e == Some(
                VerifyError::Transcript { phase: "digest_D read", reason: run.digest_d->Err_0 },
            )
            &&& run.digest_d is Ok && low ==> e == Some(VerifyError::TauInPoleRange)
            &&& run.digest_d is Ok && !low && run.d_root is Err ==> e == Some(
                VerifyError::Channel { phase: "phase C d_root", reason: run.d_root->Err_0 },
            )
            &&& run.digest_d is Ok && !low && run.d_root == Ok::<B128, String>(zero()) ==> e
                == Some(VerifyError::PhaseCRootDenominatorZero)
            &&& run.digest_d is Ok && !low && run.d_root is Ok && run.d_root->Ok_0 != zero() ==> {
                let point = run.leaf->Ok_0.point@;
                &&& run.leaf is Err ==> e == Some(
                    VerifyError::FracAdd { reason: run.leaf->Err_0 },
                )
                &&& run.leaf is Ok && point.len() != dims.n_d + 2 ==> e == Some(
                    VerifyError::PhaseCLeafArity,
                )
                &&& run.leaf is Ok && point.len() == dims.n_d + 2 ==> {
                    &&& run.corners is Err ==> e == Some(
                        VerifyError::Channel {
                            phase: "phase C corner values",
                            reason: run.corners->Err_0,
                        },
                    )
                    &&& run.corners is Ok ==> e is None || e == Some(
                        VerifyError::PhaseCNumeratorTransparent,
                    ) || e == Some(VerifyError::PhaseCDenominatorTransparent)
                }
            }
        }),
{
    assert(exp2((dims.n_a + 2) as nat) == 2 * exp2((dims.n_a + 1) as nat));
}

/// The error of the batch phase: that of the first of its steps that fails.
pub proof fn law_batch_refused(dims: ShapeDims, ctxs: Seq<ClaimCtx>, run: CommittedRun)
    ensures
        ({
            let e = batch_error(dims, ctxs, run);
            &&& run.phase_b is Err ==> e == Some(
                VerifyError::Sumcheck { phase: "phase B verify", reason: run.phase_b->Err_0 },
            )
            &&& run.phase_b is Ok && run.m is Err ==> e == Some(
                VerifyError::Channel { phase: "phase B m", reason: run.m->Err_0 },
            )
            &&& run.phase_b is Ok && run.m is Ok ==> e is None || e == Some(
                VerifyError::PhaseBFinalCheck,
            )
        }),
{
}

/// The error of the opening: that of the first of its steps that fails.
pub proof fn law_opening_refused(dims: ShapeDims, vk_digest: Seq<u8>, run: CommittedRun)
    ensures
        ({
            let e = opened_error(dims, vk_digest, run);
            &&& run.vk_root is Err ==> e == Some(
                VerifyError::MerkleChannel { reason: run.vk_root->Err_0 },
            )
            &&& run.vk_root is Ok && run.vk_root->Ok_0@ != vk_digest ==> e == Some(
                VerifyError::VkDigestPin,
            )
            &&& run.vk_root is Ok && run.vk_root->Ok_0@ == vk_digest ==> {
                &&& run.reduction is Err ==> e == Some(
                    VerifyError::Sumcheck {
                        phase: "merged opening reduction batch_verify",
                        reason: run.reduction->Err_0,
                    },
                )
                &&& run.reduction is Ok && run.alphas is Err ==> e == Some(
                    VerifyError::Channel {
                        phase: "merged opening reduction alphas",
                        reason: run.alphas->Err_0,
                    },
                )
                &&& run.reduction is Ok && run.alphas is Ok && e
                    != Some(VerifyError::ReductionRecombination) ==> {
                    &&& run.opening is Err ==> e == Some(
                        VerifyError::Basefold { reason: run.opening->Err_0 },
                    )
                    &&& run.opening == Ok::<bool, String>(false) ==> e == Some(
                        VerifyError::FriMleInconsistency,
                    )
                    &&& run.opening == Ok::<bool, String>(true) ==> e is None
                }
            }
        }),
{
}

/// The first error of a run is that of the first phase that has one.
pub proof fn law_run_refused(dims: ShapeDims, ctxs: Seq<ClaimCtx>, vk_digest: Seq<u8>, run: CommittedRun)
    ensures
        rows_error(ctxs, run) is None && leaves_error(dims, run) is Some ==> run_error(
            dims,
            ctxs,
            vk_digest,
            run,
        ) == leaves_error(dims, run),
        rows_error(ctxs, run) is None && leaves_error(dims, run) is None && batch_error(
            dims,
            ctxs,
            run,
        ) is Some ==> run_error(dims, ctxs, vk_digest, run) == batch_error(dims, ctxs, run),
        rows_error(ctxs, run) is None && leaves_error(dims, run) is None && batch_error(
            dims,
            ctxs,
            run,
        ) is None ==> run_error(dims, ctxs, vk_digest, run) == opened_error(dims, vk_digest, run),
{
}

/// What a verifier asks for first: a sumcheck of degree three over the row variables, with one sum for
/// each claim, which is its value, or that and a padding row's weight where the parity is odd.
pub proof fn law_committed_start(
    state: AwaitPhaseA,
    absorb: (Seq<B128>, Seq<B128>),
    request: BatchSumcheck,
    vkm: DischargeVkm,
    stmt: DischargeStatement,
    h_ops: Seq<[B128; 8]>,
    min_test_queries: usize,
    params: FriParams,
)
    requires
        committed_started(state, absorb, request, vkm, stmt, h_ops, min_test_queries, params),
    ensures
        stmt.claims@.len() > 0,
        stmt.cs_digest@ == vkm.cs_digest@,
        params.fold_arities@ == vkm.fri_batch.fold_arities@,
        request.n_vars == vkm.dims.n_t,
        request.degree == 3,
        request.sums@.len() == stmt.claims@.len(),
        forall|l: int|
            0 <= l < stmt.claims@.len() ==> #[trigger] request.sums@[l] == if stmt.parity {
                stmt.claims@[l].value + state.base.ctxs@[l].tr.dummy_weight
            } else {
                stmt.claims@[l].value
            },
        forall|l: int|
            0 <= l < stmt.claims@.len() ==> (
            #[trigger] state.base.ctxs@[l]).tr.parsed.lambda_and == stmt.claims@[l].point@[1],
{
    law_statement_admission(vkm.cs_digest, vkm.dims, stmt);
    assert forall|l: int| 0 <= l < stmt.claims@.len() implies #[trigger] request.sums@[l]
        == if stmt.parity {
        stmt.claims@[l].value + state.base.ctxs@[l].tr.dummy_weight
    } else {
        stmt.claims@[l].value
    } by {
        let ctx = state.base.ctxs@[l];
        law_context(ctx, vkm.dims, stmt.parity, stmt.claims@[l], h_ops[l]@, true);
    }
    assert forall|l: int| 0 <= l < stmt.claims@.len() implies (
    #[trigger] state.base.ctxs@[l]).tr.parsed.lambda_and == stmt.claims@[l].point@[1] by {
        let ctx = state.base.ctxs@[l];
        law_context(ctx, vkm.dims, stmt.parity, stmt.claims@[l], h_ops[l]@, true);
    }
}

/// The same of a verifier that rebuilds the table.
pub proof fn law_native_start(
    state: NativeRows,
    absorb: Seq<B128>,
    request: BatchSumcheck,
    stmt: DischargeStatement,
    h_ops: Seq<[B128; 8]>,
)
    requires
        is_native_start(state, absorb, request, stmt, h_ops),
    ensures
        request.n_vars == state.base.table.dims.n_t,
        request.degree == 3,
        request.sums@.len() == stmt.claims@.len(),
        forall|l: int|
            0 <= l < stmt.claims@.len() ==> #[trigger] request.sums@[l] == if stmt.parity {
                stmt.claims@[l].value + state.base.ctxs@[l].tr.dummy_weight
            } else {
                stmt.claims@[l].value
            },
{
    assert forall|l: int| 0 <= l < stmt.claims@.len() implies #[trigger] request.sums@[l]
        == if stmt.parity {
        stmt.claims@[l].value + state.base.ctxs@[l].tr.dummy_weight
    } else {
        stmt.claims@[l].value
    } by {
        let ctx = state.base.ctxs@[l];
        let dims = state.base.table.dims;
        law_context(ctx, dims, stmt.parity, stmt.claims@[l], h_ops[l]@, true);
    }
}

/// The three columns that a prover multiplies for a claim, row by row: for a row of the table the weights
/// of its constraint, its word and its meta index, and for a padding row those of index zero.
pub proof fn law_prover_columns(
    p: CubicProductSumcheckProver,
    dims: ShapeDims,
    terms: Seq<Term>,
    ctx: ClaimCtx,
    t: int,
)
    requires
        row_prover(p, dims, terms, ctx),
        ctx.tr.has_tables(dims),
        0 <= t < dims.n_pad,
    ensures
        p.a@.len() == dims.n_pad,
        p.b@.len() == dims.n_pad,
        p.g@.len() == dims.n_pad,
        t < terms.len() ==> {
            &&& p.a@[t] == ctx.tr.x_tensor@[terms[t].x as int]
            &&& p.b@[t] == ctx.tr.y_tensor@[terms[t].y as int]
            &&& p.g@[t] == ctx.tr.g_tab@[terms[t].u as int]
        },
        t >= terms.len() ==> {
            &&& p.a@[t] == ctx.tr.x_tensor@[0]
            &&& p.b@[t] == ctx.tr.y_tensor@[0]
            &&& p.g@[t] == ctx.tr.g_tab@[0]
        },
        p.last_coeffs_or_sum == RoundCoeffsOrSum::Sum(ctx.sum),
{
}

/// The tampered table differs from the honest one in one entry, in the block that holds zeros, by one.
pub proof fn law_tampered_entry(dims: ShapeDims, terms: Seq<Term>, rho: Seq<B128>, i: int)
    requires
        0 <= i < 4 * exp2(dims.n_a as nat),
    ensures
        ({
            let n = exp2(dims.n_a as nat) as int;
            committed_table(dims, terms, rho, Step2Tamper::MdBlock3)[i] == if i == 3 * n + 12345int % n {
                m_d(dims, terms, rho)[i] + one()
            } else {
                m_d(dims, terms, rho)[i]
            }
        }),
{
    lemma_exp2_pos(dims.n_a as nat);
    vstd::arithmetic::div_mod::lemma_mod_bound(12345int, exp2(dims.n_a as nat) as int);
}

/// Where the histogram values that a prover sends stand: eight for each claim, one for each shift kind,
/// claim after claim.
pub proof fn law_meta_values(d_g: Seq<B128>, ctxs: Seq<ClaimCtx>, l: int, o: int)
    requires
        0 <= l < ctxs.len(),
        0 <= o < 8,
    ensures
        meta_values(d_g, ctxs, ctxs.len()).len() == 8 * ctxs.len(),
        meta_values(d_g, ctxs, ctxs.len())[8 * l + o] == mle(
            d_g,
            meta_address(ctxs[l].tr.parsed, o),
        ),
{
    lemma_meta_values(d_g, ctxs, ctxs.len(), l, o);
}

/// The histogram values of the first `k` claims.
proof fn lemma_meta_values(d_g: Seq<B128>, ctxs: Seq<ClaimCtx>, k: nat, l: int, o: int)
    requires
        k <= ctxs.len(),
        0 <= l,
        0 <= o < 8,
    ensures
        meta_values(d_g, ctxs, k).len() == 8 * k,
        l < k ==> meta_values(d_g, ctxs, k)[8 * l + o] == mle(
            d_g,
            meta_address(ctxs[l].tr.parsed, o),
        ),
    decreases k,
{
    if k > 0 {
        lemma_meta_values(d_g, ctxs, (k - 1) as nat, l, o);
    }
}

/// The coordinates at which a claim's meta histogram is evaluated for shift kind `o`: the amount's
/// challenges, the three bits of the kind, and two coordinates `s0`, `s1` for the slot, which `1 + lambda`
/// undoes: `(1 + s0) (1 + lambda) = 1` and `(1 + s1) (1 + lambda)^2 = 1`.
pub proof fn law_meta_address(parsed: ParsedClaim, o: int)
    requires
        parsed.r_s@.len() == 6,
        parsed.lambda_and != one(),
        0 <= o < 8,
    ensures
        ({
            let p = meta_address(parsed, o);
            let c = parsed.lambda_and + one();
            &&& p.len() == 11
            &&& p.take(6) == parsed.r_s@
            &&& p[6] == (if o % 2 == 1 { one() } else { zero() })
            &&& p[7] == (if (o / 2) % 2 == 1 { one() } else { zero() })
            &&& p[8] == (if o / 4 == 1 { one() } else { zero() })
            &&& (one() + p[9]) * c == one()
            &&& (one() + p[10]) * (c * c) == one()
        }),
{
    broadcast use group_units;

    let c = parsed.lambda_and + one();
    let p = meta_address(parsed, o);
    assert(p.take(6) =~= parsed.r_s@);
    if c == zero() {
        crate::field::ring::lemma_sum_zero(parsed.lambda_and, one());
    }
    crate::field::inverse::law_no_zero_divisors(c, c);
    crate::field::inverse::law_inverse(c);
    crate::field::inverse::law_inverse(c * c);
    lemma_undo_one(inv(c));
    lemma_undo_one(inv(c * c));
    reveal_with_fuel(bits_of, 4);
    assert(bits_of(o, 3).len() == 3);
}

/// Adding one twice changes nothing.
proof fn lemma_undo_one(a: B128)
    ensures
        one() + (a + one()) == a,
{
    broadcast use group_units;

    crate::field::ring::law_add_commutes(a, one());
    crate::field::ring::law_add_associates(one(), one(), a);
    crate::field::ring::law_add_self(one());
}

/// What a prover starts with: one context and one row prover for each claim, the row prover's sum being the
/// claim's value, or that and a padding row's weight where the parity is odd.
pub proof fn law_prover_start(
    state: ProveRows,
    absorb: (Seq<B128>, Seq<B128>),
    provers: Seq<CubicProductSumcheckProver>,
    vkm: DischargeVkm,
    stmt: DischargeStatement,
    h_ops: Seq<[B128; 8]>,
    params: FriParams,
    tamper: Step2Tamper,
)
    requires
        is_start(state, absorb, provers, vkm, stmt, h_ops, params, tamper),
    ensures
        provers.len() == stmt.claims@.len(),
        state.base.ctxs@.len() == stmt.claims@.len(),
        state.base.tamper == tamper,
        forall|l: int|
            0 <= l < stmt.claims@.len() ==> (#[trigger] provers[l]).last_coeffs_or_sum
                == RoundCoeffsOrSum::Sum(
                if stmt.parity {
                    stmt.claims@[l].value + state.base.ctxs@[l].tr.dummy_weight
                } else {
                    stmt.claims@[l].value
                },
            ) && provers[l].a@.len() == state.base.table.dims.n_pad,
{
    let dims = state.base.table.dims;
    assert forall|l: int| 0 <= l < stmt.claims@.len() implies (
    #[trigger] provers[l]).last_coeffs_or_sum == RoundCoeffsOrSum::Sum(
        if stmt.parity {
            stmt.claims@[l].value + state.base.ctxs@[l].tr.dummy_weight
        } else {
            stmt.claims@[l].value
        },
    ) && provers[l].a@.len() == dims.n_pad by {
        let ctx = state.base.ctxs@[l];
        law_context(ctx, dims, stmt.parity, stmt.claims@[l], h_ops[l]@, false);
        assert(row_prover(provers[l], dims, state.base.table.terms@, ctx));
    }
}

/// Beyond what is checked of a key and a statement, the verifier and the prover refuse only fold arities
/// that are not the key's.
pub proof fn law_admitted_refused_for_arities(
    vkm: DischargeVkm,
    stmt: DischargeStatement,
    min_test_queries: usize,
    params: FriParams,
    e: DischargeError,
)
    requires
        precheck_ok(vkm, stmt, min_test_queries),
    ensures
        committed_fails(vkm, stmt, min_test_queries, params, e) ==> params.fold_arities@
            != vkm.fri_batch.fold_arities@ && e is FoldArities,
        start_error(vkm.dims, vkm, stmt, min_test_queries, params, e) ==> params.fold_arities@
            != vkm.fri_batch.fold_arities@ && e is FoldArities,
        params.fold_arities@ != vkm.fri_batch.fold_arities@ && e is FoldArities && e->derived@
            == params.fold_arities@ && e->pinned@ == vkm.fri_batch.fold_arities@
            ==> committed_fails(vkm, stmt, min_test_queries, params, e) && start_error(
            vkm.dims,
            vkm,
            stmt,
            min_test_queries,
            params,
            e,
        ),
{
    law_admission(vkm, stmt, min_test_queries, e);
    law_prover_admission(vkm.dims, vkm, stmt, min_test_queries, e);
}

/// Before any claim is read, a key and a statement are refused for the statement's metadata or an empty
/// batch, and else for dimensions that do not cohere.
pub proof fn law_intake(vkm: DischargeVkm, stmt: DischargeStatement, min_test_queries: usize)
    requires
        stmt.cs_digest@ == vkm.cs_digest@,
        stmt.n_terms == vkm.dims.n_terms,
        stmt.n_pad == vkm.dims.n_pad,
        stmt.parity == vkm.dims.parity,
        stmt.claims@.len() > 0,
    ensures
        intake_error(vkm, stmt, min_test_queries) is None <==> dims_error(vkm.dims) is None,
        dims_error(vkm.dims) is Some ==> intake_error(vkm, stmt, min_test_queries) == vkm_error(
            vkm,
            min_test_queries,
        ),
{
    law_statement_admission(vkm.cs_digest, vkm.dims, stmt);
    law_key_checks(vkm, min_test_queries);
}

/// The table that a verifier rebuilds: the rows of the constraints in order, with the dimensions of the
/// system and the hash of its encoding.
pub proof fn law_native_table(table: TermTable, cs: ConstraintSystem, encoding: Seq<u8>)
    requires
        is_native_table(table, cs, encoding),
    ensures
        table.terms@ == rows_of(cs.and_constraints@),
        table.cs_digest@ == sha256_of(encoding),
        is_shape_of(table.dims, cs),
        table.dims.n_terms == rows_of(cs.and_constraints@).len(),
        exp2(table.dims.n_x as nat) == cs.and_constraints@.len(),
        table.dims.combined_len == cs.value_vec_layout.offset_witness
            + cs.value_vec_layout.n_hidden_words,
{
}

/// Why there is no table: the shape of the system is refused, or an operand is the first out of range.
pub proof fn law_native_table_error(cs: ConstraintSystem, e: DischargeError)
    requires
        native_table_error(cs, e),
    ensures
        shape_error(cs) is Some ==> shape_error(cs) == Some(e),
        shape_error(cs) is None ==> {
            let len = (cs.value_vec_layout.offset_witness + cs.value_vec_layout.n_hidden_words) as nat;
            !operands_ok(all_occurrences(cs), len)
        },
        !has_table(cs),
{
    let len = (cs.value_vec_layout.offset_witness + cs.value_vec_layout.n_hidden_words) as nat;
    law_first_operand_error(all_occurrences(cs), len, e);
}

/// A run against a rebuilt table starts only from an admitted statement.
pub proof fn law_native_started(
    state: NativeRows,
    absorb: Seq<B128>,
    request: BatchSumcheck,
    cs: ConstraintSystem,
    encoding: Seq<u8>,
    stmt: DischargeStatement,
    h_ops: Seq<[B128; 8]>,
)
    requires
        native_started(state, absorb, request, cs, encoding, stmt, h_ops),
    ensures
        stmt.cs_digest@ == sha256_of(encoding),
        stmt.n_terms == rows_of(cs.and_constraints@).len(),
        stmt.claims@.len() > 0,
        forall|i: int|
            0 <= i < stmt.claims@.len() ==> {
                let p = (#[trigger] stmt.claims@[i]).point@;
                p.len() == state.base.table.dims.arity && p[1] != zero() && p[1] != one()
            },
        request.sums@.len() == stmt.claims@.len(),
        absorb == statement_elems(stmt),
{
    let table = state.base.table;
    law_native_table(table, cs, encoding);
    law_statement_admission(table.cs_digest, table.dims, stmt);
    law_batch_claims(table.dims, stmt.claims@, DischargeError::EmptyBatch);
    law_native_start(state, absorb, request, stmt, h_ops);
}

/// The contexts of a verifier are those of its claims, one for one and in order.
pub proof fn law_verifier_contexts(
    ctxs: Seq<ClaimCtx>,
    dims: ShapeDims,
    stmt: DischargeStatement,
    h_ops: Seq<[B128; 8]>,
    l: int,
)
    requires
        verifier_contexts(ctxs, dims, stmt, h_ops),
        0 <= l < ctxs.len(),
    ensures
        ctxs.len() == stmt.claims@.len(),
        ctxs[l].tr.parsed.lambda_and == stmt.claims@[l].point@[1],
        ctxs[l].tr.h_ops@ == h_ops[l]@,
        stmt.parity ==> ctxs[l].sum == stmt.claims@[l].value + ctxs[l].tr.dummy_weight,
        !stmt.parity ==> ctxs[l].sum == stmt.claims@[l].value,
{
    law_context(ctxs[l], dims, stmt.parity, stmt.claims@[l], h_ops[l]@, true);
}

/// The commitment of an oracle: its root, a leaf of one batch of elements, and a tree as deep as the
/// logarithm of the code's length over what the oracle is lifted by.
pub proof fn law_commitment(params: FriParams, oracle: int, root: [u8; 32], c: Commitment)
    ensures
        commitment_of(params, oracle, root, c) <==> c.root == root && c.depth
            + params.input_oracles@[oracle].log_lift == params.log_dim + params.log_inv_rate
            && c.leaf_size == exp2(params.input_oracles@[oracle].log_batch_size as nat),
{
}

/// What the prover starts with against a verifier that rebuilds the table: one context and one row prover for
/// each claim, the row prover's sum being the claim's value, or that and a padding row's weight where the
/// parity is odd.
pub proof fn law_native_prover_start(
    state: Step1Rows,
    absorb: Seq<B128>,
    provers: Seq<CubicProductSumcheckProver>,
    stmt: DischargeStatement,
    h_ops: Seq<[B128; 8]>,
    tamper: Step1Tamper,
)
    requires
        is_step1_start(state, absorb, provers, stmt, h_ops, tamper),
    ensures
        provers.len() == stmt.claims@.len(),
        state.base.ctxs@.len() == stmt.claims@.len(),
        state.base.tamper == tamper,
        absorb == statement_elems(stmt),
        forall|l: int|
            0 <= l < stmt.claims@.len() ==> (#[trigger] provers[l]).last_coeffs_or_sum
                == RoundCoeffsOrSum::Sum(
                if stmt.parity {
                    stmt.claims@[l].value + state.base.ctxs@[l].tr.dummy_weight
                } else {
                    stmt.claims@[l].value
                },
            ) && provers[l].a@.len() == state.base.table.dims.n_pad,
{
    let dims = state.base.table.dims;
    assert forall|l: int| 0 <= l < stmt.claims@.len() implies (
    #[trigger] provers[l]).last_coeffs_or_sum == RoundCoeffsOrSum::Sum(
        if stmt.parity {
            stmt.claims@[l].value + state.base.ctxs@[l].tr.dummy_weight
        } else {
            stmt.claims@[l].value
        },
    ) && provers[l].a@.len() == dims.n_pad by {
        let ctx = state.base.ctxs@[l];
        law_context(ctx, dims, stmt.parity, stmt.claims@[l], h_ops[l]@, false);
        assert(row_prover(provers[l], dims, state.base.table.terms@, ctx));
    }
}

} // verus!
