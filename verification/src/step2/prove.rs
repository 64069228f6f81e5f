//! The prover, one step at a time. Each state awaits one outside result, and its method for that
//! result computes what is to be sent or proved next.

use crate::claim::parsed_fits;
use crate::cs::{ConstraintSystem, SHIFT_VARIANT_COUNT};
use crate::digest::sha256_of;
use crate::cubic::{CubicProductSumcheckProver, RoundCoeffsOrSum};
use crate::discharge::{
    axpy_point_tensor, batch_weights, check_claims, checked_contexts, ctx_of, first_claim_error,
    lemma_rows_in, no_claim_error, statement_elems, ClaimCtx, DischargeStatement,
};
use crate::error::DischargeError;
use crate::field::element::{one, zero, B128};
use crate::field::sums::power;
use crate::fracadd::{law_tree_root, tree_root, FastFracAddProver, FracClaim};
use crate::histogram::{
    build_histograms, claim_points, evaluate_d_g, histogram, lemma_bits_len, m_d_points,
    meta_address, points_view, zero_table,
};
use crate::merged::OpenClaim;
use crate::multilinear::eq::{eq_ind_partial_eval_scalars, eq_tensor};
use crate::multilinear::exp2::{
    exp2, exp2_usize, lemma_exp2_add, lemma_exp2_in_usize, lemma_exp2_mono, lemma_exp2_pos,
    lemma_exp2_small, lemma_log2_ceil,
};
use crate::multilinear::mle::{evaluate, mle, table_add, table_scale, zeros};
use crate::multilinear::univariate::{evaluate_univariate, univariate};
use crate::packed::{
    assemble_m_d_packed, axpy_dense_par, build_m_vk_packed, build_phase_c_leaf_halves, gather_column,
    gathers, vk_corner_values_packed,
};
use crate::poles::{law_honest_root, law_poles_cancel, leaf_den, leaf_num, lemma_domain};
use crate::reduction::{claim_columns, m_d};
use crate::step2::common::{
    batch_evals, batch_points, check_statement_against_vkm, copy_elems, corner_claim, ctxs_fit,
    digest_eq, phase_b_claims, reversed, statement_error, vk_claim, Step2Tamper,
};
use crate::table::{
    all_occurrences, cs_fits, extract_table, first_operand_error, has_table, is_shape_of, shape_error,
    term_of, Occurrence, ShapeDims, Term, TermTable, N_U,
};
use crate::vk::{
    build_pcs, check_vkm, fold_mismatch, row_table, vk_column, vkm_elems, vkm_error, DischargeVkm, FriParams, Pcs,
};
use vstd::prelude::*;

verus! {

/// What every state knows: the term table, the claims in context, the opening's parameters and how
/// to lie.
pub struct ProverBase {
    pub table: TermTable,
    pub ctxs: Vec<ClaimCtx>,
    pub pcs: Pcs,
    pub tamper: Step2Tamper,
}

/// Machine limits on a term table's tables: the row table can be indexed, and the pole range is
/// below the field.
pub open spec fn table_fits(table: TermTable) -> bool {
    &&& table.wf()
    &&& table.dims.fits()
    &&& table.dims.n_a <= 125
    &&& exp2((table.dims.n_d + 2) as nat) <= usize::MAX
}

impl ProverBase {
    /// The table is well-formed and the contexts are for it.
    pub open spec fn wf(self) -> bool {
        &&& table_fits(self.table)
        &&& ctxs_fit(self.table.dims, self.ctxs@)
        &&& 10 * self.ctxs@.len() + 1 <= usize::MAX
    }
}

/// A prover of one claim's row sumcheck.
pub open spec fn row_prover(p: CubicProductSumcheckProver, dims: ShapeDims, terms: Seq<Term>, ctx: ClaimCtx) -> bool {
    let (cx, cy, cg) = claim_columns(dims, terms, ctx.tr.parsed, ctx.tr.h_ops@);
    &&& p.a@ == cx
    &&& p.b@ == cy
    &&& p.g@ == cg
    &&& p.last_coeffs_or_sum == RoundCoeffsOrSum::Sum(ctx.sum)
}

/// Machine limits on the shape of a constraint system.
pub open spec fn shape_fits(cs: ConstraintSystem) -> bool {
    &&& cs_fits(cs)
    &&& forall|dims: ShapeDims|
        #[trigger] is_shape_of(dims, cs) ==> {
            &&& dims.fits()
            &&& dims.n_a <= 125
            &&& exp2((dims.n_d + 2) as nat) <= usize::MAX
        }
}

/// A term table is that of a constraint system, and the system is the key's.
pub open spec fn is_table_for(table: TermTable, cs: ConstraintSystem, vkm: DischargeVkm) -> bool {
    &&& is_shape_of(table.dims, cs)
    &&& table.terms@ == all_occurrences(cs).map_values(|o: Occurrence| term_of(o))
    &&& table_fits(table)
    &&& table.cs_digest@ == vkm.cs_digest@
    &&& table.dims == vkm.dims
}

/// A constraint system with this encoding has a term table, and it is the key's.
pub open spec fn is_keyed(cs: ConstraintSystem, encoding: Seq<u8>, vkm: DischargeVkm) -> bool {
    &&& has_table(cs)
    &&& sha256_of(encoding) == vkm.cs_digest@
    &&& is_shape_of(vkm.dims, cs)
}

/// Why a constraint system has no term table, or, where it has one, that it is not the key's.
pub open spec fn table_error(cs: ConstraintSystem, encoding: Seq<u8>, vkm: DischargeVkm, e: DischargeError) -> bool {
    ||| shape_error(cs) == Some(e)
    ||| shape_error(cs) is None && first_operand_error(
        all_occurrences(cs),
        (cs.value_vec_layout.offset_witness + cs.value_vec_layout.n_hidden_words) as nat,
        e,
    )
    ||| {
        &&& has_table(cs)
        &&& !is_keyed(cs, encoding, vkm)
        &&& e == DischargeError::ShapeNotRegenerated
    }
}

/// The term table of a key's constraint system, or why it is not the key's.
pub fn prover_table(cs: &ConstraintSystem, encoding: &[u8], vkm: &DischargeVkm) -> (r: Result<
    TermTable,
    DischargeError,
>)
    requires
        shape_fits(*cs),
    ensures
        match r {
            Ok(table) => is_keyed(*cs, encoding@, *vkm) && is_table_for(table, *cs, *vkm),
            Err(e) => table_error(*cs, encoding@, *vkm, e),
        },
{
    let table = match extract_table(cs, encoding) {
        Ok(table) => table,
        Err(e) => {
            return Err(e);
        },
    };
    if !digest_eq(&table.cs_digest, &vkm.cs_digest) || table.dims != vkm.dims {
        proof {
            if is_shape_of(vkm.dims, *cs) {
                crate::table::law_shape_unique(table.dims, vkm.dims, *cs);
            }
        }
        return Err(DischargeError::ShapeNotRegenerated);
    }
    Ok(table)
}

/// Begins a proof over a term table. The two lists of elements are to be absorbed, the key's
/// first, and the row sumchecks are to be proved as one batch.
///
/// `h_ops` holds, for each claim, the evaluations of the eight shift kinds; `min_test_queries` is
/// what the security target asks for; `params` is derived from the key's dimensions and its number
/// of queries.
pub fn discharge_prove_step2_on_table(
    table: TermTable,
    vkm: &DischargeVkm,
    stmt: &DischargeStatement,
    h_ops: &Vec<[B128; 8]>,
    min_test_queries: usize,
    params: FriParams,
    tamper: Step2Tamper,
) -> (r: Result<
    (ProveRows, (Vec<B128>, Vec<B128>), Vec<CubicProductSumcheckProver>),
    DischargeError,
>)
    requires
        table_fits(table),
        h_ops@.len() == stmt.claims@.len(),
        10 * stmt.claims@.len() + 1 <= usize::MAX,
        vkm.vk_digest@.len() == 32,
    ensures
        match r {
            Ok((state, absorb, provers)) => {
                &&& statement_error(vkm.cs_digest, vkm.dims, *stmt) is None
                &&& no_claim_error(table.dims, stmt.claims@)
                &&& vkm_error(*vkm, min_test_queries) is None
                &&& params.fold_arities@ == vkm.fri_batch.fold_arities@
                &&& state.base.table == table
                &&& is_start(
                    state,
                    (absorb.0@, absorb.1@),
                    provers@,
                    *vkm,
                    *stmt,
                    h_ops@,
                    params,
                    tamper,
                )
            },
            Err(e) => start_error(table.dims, *vkm, *stmt, min_test_queries, params, e),
        },
{
    match check_table(table, vkm, stmt, min_test_queries) {
        Ok(intake) => intake.prove(h_ops, params, tamper),
        Err(e) => Err(e),
    }
}

/// What beginning a proof gives: the state, the two lists of elements to absorb, and the provers of
/// the row sumchecks.
pub open spec fn is_start(
    state: ProveRows,
    absorb: (Seq<B128>, Seq<B128>),
    provers: Seq<CubicProductSumcheckProver>,
    vkm: DischargeVkm,
    stmt: DischargeStatement,
    h_ops: Seq<[B128; 8]>,
    params: FriParams,
    tamper: Step2Tamper,
) -> bool {
    let table = state.base.table;
    &&& state.base.wf()
    &&& state.base.pcs.params == params
    &&& state.base.tamper == tamper
    &&& state.base.ctxs@.len() == stmt.claims@.len()
    &&& forall|l: int|
        0 <= l < stmt.claims@.len() ==> ctx_of(
            #[trigger] state.base.ctxs@[l],
            table.dims,
            stmt.parity,
            stmt.claims@[l],
            h_ops[l]@,
            false,
        )
    &&& absorb.0 == vkm_elems(vkm)
    &&& absorb.1 == statement_elems(stmt)
    &&& provers.len() == stmt.claims@.len()
    &&& forall|l: int|
        0 <= l < provers.len() ==> row_prover(
            #[trigger] provers[l],
            table.dims,
            table.terms@,
            state.base.ctxs@[l],
        )
}

/// Why key, statement and a table's dimensions are refused before anything is derived from them: the
/// statement, the first faulty claim, or the metadata, in this order.
pub open spec fn table_precheck_fails(
    dims: ShapeDims,
    vkm: DischargeVkm,
    stmt: DischargeStatement,
    min_test_queries: usize,
    e: DischargeError,
) -> bool {
    ||| statement_error(vkm.cs_digest, vkm.dims, stmt) == Some(e)
    ||| statement_error(vkm.cs_digest, vkm.dims, stmt) is None && first_claim_error(
        dims,
        stmt.claims@,
        e,
    )
    ||| {
        &&& statement_error(vkm.cs_digest, vkm.dims, stmt) is None
        &&& no_claim_error(dims, stmt.claims@)
        &&& vkm_error(vkm, min_test_queries) == Some(e)
    }
}

/// Key and statement are admitted for a table's dimensions.
pub open spec fn table_precheck_ok(
    dims: ShapeDims,
    vkm: DischargeVkm,
    stmt: DischargeStatement,
    min_test_queries: usize,
) -> bool {
    &&& statement_error(vkm.cs_digest, vkm.dims, stmt) is None
    &&& no_claim_error(dims, stmt.claims@)
    &&& vkm_error(vkm, min_test_queries) is None
}

/// Why a proof over a table cannot begin: key and statement are refused, or the fold arities derived
/// for the key are not those that it pins.
pub open spec fn start_error(
    dims: ShapeDims,
    vkm: DischargeVkm,
    stmt: DischargeStatement,
    min_test_queries: usize,
    params: FriParams,
    e: DischargeError,
) -> bool {
    ||| table_precheck_fails(dims, vkm, stmt, min_test_queries, e)
    ||| table_precheck_ok(dims, vkm, stmt, min_test_queries) && fold_mismatch(
        params.fold_arities@,
        vkm.fri_batch.fold_arities@,
        e,
    )
}

/// A term table, a key and a statement that were admitted. The shift evaluations of the claims and
/// the code parameters of the key can now be derived.
pub struct ProverIntake<'a> {
    pub table: TermTable,
    pub vkm: &'a DischargeVkm,
    pub stmt: &'a DischargeStatement,
    pub min_test_queries: usize,
}

/// The first half of the prover's intake: checks key and statement. `min_test_queries` is what the
/// security target asks for.
pub fn check_table<'a>(
    table: TermTable,
    vkm: &'a DischargeVkm,
    stmt: &'a DischargeStatement,
    min_test_queries: usize,
) -> (r: Result<ProverIntake<'a>, DischargeError>)
    requires
        table_fits(table),
    ensures
        match r {
            Ok(intake) => {
                &&& intake.table == table
                &&& *intake.vkm == *vkm
                &&& *intake.stmt == *stmt
                &&& intake.min_test_queries == min_test_queries
                &&& table_precheck_ok(table.dims, *vkm, *stmt, min_test_queries)
            },
            Err(e) => table_precheck_fails(table.dims, *vkm, *stmt, min_test_queries, e),
        },
{
    match check_statement_against_vkm(vkm, stmt) {
        Ok(_) => {},
        Err(e) => {
            return Err(e);
        },
    }
    match check_claims(&table.dims, stmt) {
        Ok(_) => {},
        Err(e) => {
            return Err(e);
        },
    }
    match check_vkm(vkm, min_test_queries) {
        Ok(_) => {},
        Err(e) => {
            return Err(e);
        },
    }
    Ok(ProverIntake { table, vkm, stmt, min_test_queries })
}

impl<'a> ProverIntake<'a> {
    /// Key and statement are admitted for the table.
    pub open spec fn wf(self) -> bool {
        &&& table_fits(self.table)
        &&& table_precheck_ok(self.table.dims, *self.vkm, *self.stmt, self.min_test_queries)
    }

    /// The second half of the intake. On success, the two lists of elements are to be absorbed, the
    /// key's first, and the row sumchecks are to be proved as one batch.
    ///
    /// `h_ops` holds, for each claim, the evaluations of the eight shift kinds; `params` is derived
    /// from the key's dimensions and its number of queries.
    pub fn prove(self, h_ops: &Vec<[B128; 8]>, params: FriParams, tamper: Step2Tamper) -> (r: Result<
        (ProveRows, (Vec<B128>, Vec<B128>), Vec<CubicProductSumcheckProver>),
        DischargeError,
    >)
        requires
            self.wf(),
            h_ops@.len() == self.stmt.claims@.len(),
            10 * self.stmt.claims@.len() + 1 <= usize::MAX,
            self.vkm.vk_digest@.len() == 32,
        ensures
            match r {
                Ok((state, absorb, provers)) => {
                    &&& params.fold_arities@ == self.vkm.fri_batch.fold_arities@
                    &&& state.base.table == self.table
                    &&& is_start(
                        state,
                        (absorb.0@, absorb.1@),
                        provers@,
                        *self.vkm,
                        *self.stmt,
                        h_ops@,
                        params,
                        tamper,
                    )
                },
                Err(e) => fold_mismatch(
                    params.fold_arities@,
                    self.vkm.fri_batch.fold_arities@,
                    e,
                ),
            },
    {
        let ProverIntake { table, vkm, stmt, min_test_queries } = self;
        let ctxs = checked_contexts(&table.dims, stmt.parity, stmt, h_ops, false);
        let pcs = match build_pcs(vkm, min_test_queries, params) {
            Ok(pcs) => pcs,
            Err(e) => {
                return Err(e);
            },
        };
        let absorb = (vkm.to_elems(), stmt.to_elems());
        let provers = row_provers(&table, &ctxs);
        Ok((ProveRows { base: ProverBase { table, ctxs, pcs, tamper } }, absorb, provers))
    }
}

/// Begins a proof from the constraint system, whose canonical encoding is `encoding`.
pub fn discharge_prove_step2(
    cs: &ConstraintSystem,
    encoding: &[u8],
    vkm: &DischargeVkm,
    stmt: &DischargeStatement,
    h_ops: &Vec<[B128; 8]>,
    min_test_queries: usize,
    params: FriParams,
) -> (r: Result<
    (ProveRows, (Vec<B128>, Vec<B128>), Vec<CubicProductSumcheckProver>),
    DischargeError,
>)
    requires
        shape_fits(*cs),
        h_ops@.len() == stmt.claims@.len(),
        10 * stmt.claims@.len() + 1 <= usize::MAX,
        vkm.vk_digest@.len() == 32,
    ensures
        match r {
            Ok((state, absorb, provers)) => {
                &&& is_keyed(*cs, encoding@, *vkm)
                &&& is_table_for(state.base.table, *cs, *vkm)
                &&& statement_error(vkm.cs_digest, vkm.dims, *stmt) is None
                &&& no_claim_error(vkm.dims, stmt.claims@)
                &&& vkm_error(*vkm, min_test_queries) is None
                &&& params.fold_arities@ == vkm.fri_batch.fold_arities@
                &&& is_start(
                    state,
                    (absorb.0@, absorb.1@),
                    provers@,
                    *vkm,
                    *stmt,
                    h_ops@,
                    params,
                    Step2Tamper::Honest,
                )
            },
            Err(e) => {
                ||| table_error(*cs, encoding@, *vkm, e)
                ||| is_keyed(*cs, encoding@, *vkm) && start_error(
                    vkm.dims,
                    *vkm,
                    *stmt,
                    min_test_queries,
                    params,
                    e,
                )
            },
        },
{
    discharge_prove_step2_tampered(
        cs,
        encoding,
        vkm,
        stmt,
        h_ops,
        min_test_queries,
        params,
        Step2Tamper::Honest,
    )
}

/// Begins a proof from the constraint system that follows the protocol but for one lie.
pub fn discharge_prove_step2_tampered(
    cs: &ConstraintSystem,
    encoding: &[u8],
    vkm: &DischargeVkm,
    stmt: &DischargeStatement,
    h_ops: &Vec<[B128; 8]>,
    min_test_queries: usize,
    params: FriParams,
    tamper: Step2Tamper,
) -> (r: Result<
    (ProveRows, (Vec<B128>, Vec<B128>), Vec<CubicProductSumcheckProver>),
    DischargeError,
>)
    requires
        shape_fits(*cs),
        h_ops@.len() == stmt.claims@.len(),
        10 * stmt.claims@.len() + 1 <= usize::MAX,
        vkm.vk_digest@.len() == 32,
    ensures
        match r {
            Ok((state, absorb, provers)) => {
                &&& is_keyed(*cs, encoding@, *vkm)
                &&& is_table_for(state.base.table, *cs, *vkm)
                &&& statement_error(vkm.cs_digest, vkm.dims, *stmt) is None
                &&& no_claim_error(vkm.dims, stmt.claims@)
                &&& vkm_error(*vkm, min_test_queries) is None
                &&& params.fold_arities@ == vkm.fri_batch.fold_arities@
                &&& is_start(
                    state,
                    (absorb.0@, absorb.1@),
                    provers@,
                    *vkm,
                    *stmt,
                    h_ops@,
                    params,
                    tamper,
                )
            },
            Err(e) => {
                ||| table_error(*cs, encoding@, *vkm, e)
                ||| is_keyed(*cs, encoding@, *vkm) && start_error(
                    vkm.dims,
                    *vkm,
                    *stmt,
                    min_test_queries,
                    params,
                    e,
                )
            },
        },
{
    let table = match prover_table(cs, encoding, vkm) {
        Ok(table) => table,
        Err(e) => {
            return Err(e);
        },
    };
    discharge_prove_step2_on_table(table, vkm, stmt, h_ops, min_test_queries, params, tamper)
}

/// The provers of the claims' row sumchecks.
pub fn row_provers(table: &TermTable, ctxs: &Vec<ClaimCtx>) -> (provers: Vec<
    CubicProductSumcheckProver,
>)
    requires
        table_fits(*table),
        forall|l: int|
            0 <= l < ctxs@.len() ==> (#[trigger] ctxs@[l]).tr.has_tables(table.dims) && parsed_fits(
                table.dims,
                ctxs@[l].tr.parsed,
            ),
    ensures
        provers@.len() == ctxs@.len(),
        forall|l: int|
            0 <= l < provers@.len() ==> row_prover(
                #[trigger] provers@[l],
                table.dims,
                table.terms@,
                ctxs@[l],
            ),
{
    let mut provers: Vec<CubicProductSumcheckProver> = Vec::new();
    let mut l: usize = 0;
    while l < ctxs.len()
        invariant
            l <= ctxs@.len(),
            table_fits(*table),
            forall|l: int|
                0 <= l < ctxs@.len() ==> (#[trigger] ctxs@[l]).tr.has_tables(table.dims)
                    && parsed_fits(table.dims, ctxs@[l].tr.parsed),
            provers@.len() == l,
            forall|i: int|
                0 <= i < l ==> row_prover(
                    #[trigger] provers@[i],
                    table.dims,
                    table.terms@,
                    ctxs@[i],
                ),
        decreases ctxs@.len() - l,
    {
        assert(ctxs@[l as int].tr.has_tables(table.dims));
        provers.push(make_row_prover(table, &ctxs[l]));
        l = l + 1;
    }
    provers
}

/// The prover of one claim's row sumcheck, over its three columns.
fn make_row_prover(table: &TermTable, ctx: &ClaimCtx) -> (p: CubicProductSumcheckProver)
    requires
        table_fits(*table),
        ctx.tr.has_tables(table.dims),
        parsed_fits(table.dims, ctx.tr.parsed),
    ensures
        row_prover(p, table.dims, table.terms@, *ctx),
{
    let dims = &table.dims;
    let ghost terms = table.terms@;
    let ghost (cx, cy, cg) = claim_columns(*dims, terms, ctx.tr.parsed, ctx.tr.h_ops@);
    proof {
        lemma_rows_in(*table, ctx.tr);
        lemma_exp2_mono(dims.n_t as nat, dims.n_d as nat);
        lemma_exp2_pos(dims.n_x as nat);
        lemma_exp2_pos(dims.lp as nat);
        lemma_exp2_small();
        lemma_log2_ceil(dims.n_terms as nat);
    }
    let by_x = |t: &Term| -> (s: usize)
        ensures
            s == t.x,
        { t.x as usize };
    let by_y = |t: &Term| -> (s: usize)
        ensures
            s == t.y,
        { t.y as usize };
    let by_u = |t: &Term| -> (s: usize)
        ensures
            s == t.u,
        { t.u as usize };
    let a = gather_column(&table.terms, &ctx.tr.x_tensor, dims.n_t, by_x);
    let b = gather_column(&table.terms, &ctx.tr.y_tensor, dims.n_t, by_y);
    let g = gather_column(&table.terms, &ctx.tr.g_tab, dims.n_t, by_u);
    proof {
        assert forall|t: int| 0 <= t < a@.len() implies #[trigger] a@[t] == cx[t] by {
            if t < terms.len() {
                assert(gathers(by_x, terms[t], ctx.tr.x_tensor@, a@[t]));
            }
        }
        assert forall|t: int| 0 <= t < b@.len() implies #[trigger] b@[t] == cy[t] by {
            if t < terms.len() {
                assert(gathers(by_y, terms[t], ctx.tr.y_tensor@, b@[t]));
            }
        }
        assert forall|t: int| 0 <= t < g@.len() implies #[trigger] g@[t] == cg[t] by {
            if t < terms.len() {
                assert(gathers(by_u, terms[t], ctx.tr.g_tab@, g@[t]));
            }
        }
        assert(a@ =~= cx);
        assert(b@ =~= cy);
        assert(g@ =~= cg);
        assert(a@.len() == exp2(dims.n_t as nat));
    }
    CubicProductSumcheckProver::new(a, b, g, ctx.sum)
}

/// Awaits the row sumchecks.
pub struct ProveRows {
    pub base: ProverBase,
}

/// The values of the meta histogram at the meta addresses of the first `k` claims.
pub open spec fn meta_values(d_g: Seq<B128>, ctxs: Seq<ClaimCtx>, k: nat) -> Seq<B128>
    decreases k,
{
    if k == 0 {
        Seq::empty()
    } else {
        meta_values(d_g, ctxs, (k - 1) as nat) + Seq::new(
            8,
            |o: int| mle(d_g, meta_address(ctxs[k - 1].tr.parsed, o)),
        )
    }
}

/// The entry of the zero block that a lying prover changes.
pub open spec fn tampered_index(dims: ShapeDims) -> int {
    3 * exp2(dims.n_a as nat) + 12345int % (exp2(dims.n_a as nat) as int)
}

/// The histogram table that is committed.
pub open spec fn committed_table(dims: ShapeDims, terms: Seq<Term>, rho: Seq<B128>, tamper: Step2Tamper) -> Seq<B128> {
    let m = m_d(dims, terms, rho);
    if tamper == Step2Tamper::MdBlock3 {
        m.update(tampered_index(dims), m[tampered_index(dims)] + one())
    } else {
        m
    }
}

impl ProveRows {
    /// The row sumchecks were proved at the row challenge, with three evaluations per claim. The
    /// histogram values are to be sent, and the histogram table is to be committed.
    pub fn proved(self, rho: Vec<B128>, finish: Vec<B128>) -> (r: Result<
        (ProveTau, Vec<B128>),
        DischargeError,
    >)
        requires
            self.base.wf(),
            finish@.len() == 3 * self.base.ctxs@.len(),
        ensures
            match r {
                Ok((next, d_vals)) => {
                    let dims = self.base.table.dims;
                    let terms = self.base.table.terms@;
                    &&& rho@.len() == dims.n_t
                    &&& d_vals@ == meta_values(
                        histogram(dims, terms, 2, rho@),
                        self.base.ctxs@,
                        self.base.ctxs@.len(),
                    )
                    &&& d_vals@.len() == 8 * self.base.ctxs@.len()
                    &&& next.base == self.base
                    &&& next.rho == rho
                    &&& next.finish == finish
                    &&& next.d_vals@ == d_vals@
                    &&& next.m_d@ == committed_table(dims, terms, rho@, self.base.tamper)
                    &&& next.m_d@.len() == exp2(dims.n_d as nat)
                },
                Err(e) => rho@.len() != self.base.table.dims.n_t && e == DischargeError::RowRounds,
            },
    {
        let dims = &self.base.table.dims;
        if rho.len() != dims.n_t {
            return Err(DischargeError::RowRounds);
        }
        let (d_vals, table) = batch_table(
            &self.base.table,
            &self.base.ctxs,
            &rho,
            self.base.tamper == Step2Tamper::MdBlock3,
        );
        let sent = copy_elems(&d_vals);
        Ok((ProveTau { base: self.base, rho, finish, d_vals, m_d: table }, sent))
    }
}

/// The histogram values of the claims, and the histogram table, with one entry of its zero block
/// changed when `lie`.
pub fn batch_table(table: &TermTable, ctxs: &Vec<ClaimCtx>, rho: &Vec<B128>, lie: bool) -> (r: (
    Vec<B128>,
    Vec<B128>,
))
    requires
        table_fits(*table),
        ctxs_fit(table.dims, ctxs@),
        rho@.len() == table.dims.n_t,
    ensures
        r.0@ == meta_values(histogram(table.dims, table.terms@, 2, rho@), ctxs@, ctxs@.len()),
        r.0@.len() == 8 * ctxs@.len(),
        r.1@ == committed_table(
            table.dims,
            table.terms@,
            rho@,
            if lie {
                Step2Tamper::MdBlock3
            } else {
                Step2Tamper::Honest
            },
        ),
        r.1@.len() == exp2(table.dims.n_d as nat),
{
    let dims = &table.dims;
    let hist = build_histograms(table, rho);
    let ghost terms = table.terms@;
    let ghost d_g = histogram(*dims, terms, 2, rho@);
    let mut d_vals: Vec<B128> = Vec::new();
    let mut l: usize = 0;
    while l < ctxs.len()
        invariant
            l <= ctxs@.len(),
            dims.derived(),
            ctxs_fit(*dims, ctxs@),
            hist.d_g@ == d_g,
            d_g.len() == exp2(N_U as nat),
            d_vals@ == meta_values(d_g, ctxs@, l as nat),
            d_vals@.len() == 8 * l,
        decreases ctxs@.len() - l,
    {
        let ctx = &ctxs[l];
        assert(parsed_fits(*dims, ctxs@[l as int].tr.parsed));
        let points = m_d_points(dims, &ctx.tr);
        assert(points_view(points@).len() == points@.len());
        let ghost before = d_vals@;
        let ghost own = Seq::new(8, |o: int| mle(d_g, meta_address(ctx.tr.parsed, o)));
        let mut o: usize = 0;
        while o < SHIFT_VARIANT_COUNT
            invariant
                o <= 8,
                dims.derived(),
                parsed_fits(*dims, ctx.tr.parsed),
                points_view(points@) == claim_points(*dims, ctx.tr.parsed),
                points@.len() == 10,
                hist.d_g@ == d_g,
                d_g.len() == exp2(N_U as nat),
                own == Seq::new(8, |o: int| mle(d_g, meta_address(ctx.tr.parsed, o))),
                d_vals@ == before + own.take(o as int),
            decreases 8 - o,
        {
            proof {
                assert(points_view(points@)[2 + o] == points@[2 + o]@);
                lemma_bits_len(o as int, 3);
            }
            let point = &points[2 + o];
            let low = vstd::slice::slice_subrange(point.as_slice(), 0, N_U);
            assert(low@ =~= meta_address(ctx.tr.parsed, o as int));
            d_vals.push(evaluate_d_g(&hist.d_g, low));
            o = o + 1;
            assert(d_vals@ =~= before + own.take(o as int));
        }
        assert(own.take(8) =~= own);
        l = l + 1;
    }
    proof {
        crate::histogram::lemma_block_in(*dims, 0);
        crate::histogram::lemma_block_in(*dims, 1);
        crate::histogram::lemma_block_in(*dims, 2);
    }
    let mut m = assemble_m_d_packed(dims, &hist);
    if lie {
        proof {
            lemma_exp2_add(dims.n_a as nat, 2);
            lemma_exp2_small();
            lemma_exp2_pos(dims.n_a as nat);
        }
        let block: usize = exp2_usize_block(dims);
        let idx: usize = 3 * block + 12345 % block;
        let cur = m[idx];
        m.set(idx, cur + one());
    }
    (d_vals, m)
}

/// The length of a block of the histogram table.
fn exp2_usize_block(dims: &ShapeDims) -> (b: usize)
    requires
        dims.derived(),
        dims.fits(),
    ensures
        b == exp2(dims.n_a as nat),
        4 * b <= usize::MAX,
        b > 0,
{
    proof {
        lemma_exp2_mono(dims.n_a as nat, dims.n_d as nat);
        lemma_exp2_add(dims.n_a as nat, 2);
        lemma_exp2_small();
        lemma_exp2_pos(dims.n_a as nat);
    }
    exp2_usize(dims.n_a)
}

/// The codeword that is opened: the committed one, or one that differs from it everywhere.
pub fn opened_codeword(codeword: Vec<B128>, tamper: Step2Tamper) -> (r: Vec<B128>)
    ensures
        r@ == (if tamper == Step2Tamper::DigestD {
            codeword@.map_values(|c: B128| c + one())
        } else {
            codeword@
        }),
{
    if tamper != Step2Tamper::DigestD {
        return codeword;
    }
    let mut r: Vec<B128> = Vec::new();
    let mut i: usize = 0;
    while i < codeword.len()
        invariant
            i <= codeword@.len(),
            r@.len() == i,
            forall|j: int| 0 <= j < i ==> #[trigger] r@[j] == codeword@[j] + one(),
        decreases codeword@.len() - i,
    {
        r.push(codeword[i] + one());
        i = i + 1;
    }
    assert(r@ =~= codeword@.map_values(|c: B128| c + one()));
    r
}

/// Awaits the pole challenge, which is drawn after the histogram table's commitment.
pub struct ProveTau {
    pub base: ProverBase,
    pub rho: Vec<B128>,
    pub finish: Vec<B128>,
    pub d_vals: Vec<B128>,
    pub m_d: Vec<B128>,
}

impl ProveTau {
    /// The pole challenge was drawn. The root denominator is to be sent, and the fraction tree is
    /// to be walked from the root claim.
    ///
    /// The root fraction's denominator is not zero, and over the true histogram table its numerator
    /// is.
    pub fn sampled(self, tau: B128) -> (r: Result<
        (ProveLeaf, B128, FastFracAddProver, FracClaim),
        DischargeError,
    >)
        requires
            self.base.wf(),
            self.rho@.len() == self.base.table.dims.n_t,
            self.m_d@ == committed_table(
                self.base.table.dims,
                self.base.table.terms@,
                self.rho@,
                self.base.tamper,
            ),
            self.m_d@.len() == exp2(self.base.table.dims.n_d as nat),
        ensures
            ({
                let dims = self.base.table.dims;
                let num = leaf_num(dims, eq_tensor(self.rho@), self.m_d@);
                let den = leaf_den(dims, self.base.table.terms@, tau);
                let k = (dims.n_d + 2) as nat;
                match r {
                    Ok((next, den_root, tree, claim)) => {
                        &&& tau.bits >= exp2((dims.n_a + 2) as nat)
                        &&& next.base == self.base
                        &&& next.finish == self.finish
                        &&& next.d_vals == self.d_vals
                        &&& next.m_d == self.m_d
                        &&& tree.wf(num, den, k)
                        &&& tree.layers@.len() == k
                        &&& den_root == tree_root(num, den, k).1
                        &&& den_root != zero()
                        &&& self.base.tamper != Step2Tamper::MdBlock3 ==> tree_root(num, den, k).0
                            == zero()
                        &&& claim.num_eval == zero()
                        &&& claim.den_eval == den_root
                        &&& claim.point@.len() == 0
                    },
                    Err(e) => tau.bits < exp2((dims.n_a + 2) as nat) && e
                        == DischargeError::TauInPoleRange,
                }
            }),
    {
        let dims = &self.base.table.dims;
        proof {
            lemma_exp2_mono(dims.n_t as nat, dims.n_d as nat);
            lemma_exp2_mono((dims.n_d + 1) as nat, (dims.n_d + 2) as nat);
        }
        let eq_rho = eq_ind_partial_eval_scalars(&self.rho);
        let leaf = match build_phase_c_leaf_halves(&self.base.table, tau, &eq_rho, &self.m_d) {
            Ok(leaf) => leaf,
            Err(e) => {
                return Err(e);
            },
        };
        let (tree, root) = FastFracAddProver::new(leaf);
        proof {
            assert(leaf.wf((dims.n_d + 1) as nat));
            let num = leaf_num(*dims, eq_tensor(self.rho@), self.m_d@);
            lemma_domain(*dims);
            law_poles_cancel(*dims, self.base.table.terms@, self.rho@, tau);
            law_tree_root(
                num,
                leaf_den(*dims, self.base.table.terms@, tau),
                (dims.n_d + 2) as nat,
            );
            if self.base.tamper != Step2Tamper::MdBlock3 {
                law_honest_root(*dims, self.base.table.terms@, self.rho@, tau);
            }
        }
        let claim = FracClaim { num_eval: zero(), den_eval: root.1, point: Vec::new() };
        Ok(
            (
                ProveLeaf {
                    base: self.base,
                    finish: self.finish,
                    d_vals: self.d_vals,
                    m_d: self.m_d,
                },
                root.1,
                tree,
                claim,
            ),
        )
    }
}

/// Awaits the end of the walk through the fraction tree.
pub struct ProveLeaf {
    pub base: ProverBase,
    pub finish: Vec<B128>,
    pub d_vals: Vec<B128>,
    pub m_d: Vec<B128>,
}

impl ProveLeaf {
    /// The walk ended at the leaf point. Four values are to be sent: the evaluations of the three
    /// blocks of the row table, and of the histogram table.
    pub fn walked(self, pi: Vec<B128>) -> (r: Result<(ProvePhi, [B128; 4]), DischargeError>)
        requires
            self.base.wf(),
            self.m_d@.len() == exp2(self.base.table.dims.n_d as nat),
        ensures
            match r {
                Ok((next, vals)) => {
                    let dims = self.base.table.dims;
                    let pi_lo = pi@.take(dims.n_d as int);
                    &&& pi@.len() == dims.n_d + 2
                    &&& forall|blk: int|
                        0 <= blk < 3 ==> #[trigger] vals@[blk] == mle(
                            vk_column(dims, self.base.table.terms@, blk),
                            pi_lo,
                        )
                    &&& vals@[3] == mle(self.m_d@, pi_lo)
                    &&& next.base == self.base
                    &&& next.finish == self.finish
                    &&& next.d_vals == self.d_vals
                    &&& next.m_d == self.m_d
                    &&& next.pi_lo@ == pi_lo
                    &&& next.corners@ == vals@.take(3)
                    &&& next.m_pi == vals@[3]
                },
                Err(e) => pi@.len() != self.base.table.dims.n_d + 2 && e
                    == DischargeError::LeafArity,
            },
    {
        let n_l: usize = self.base.table.dims.n_d;
        proof {
            lemma_exp2_in_usize((n_l + 2) as nat);
        }
        if pi.len() != n_l + 2 {
            return Err(DischargeError::LeafArity);
        }
        let pi_lo = copy_elems(vstd::slice::slice_subrange(pi.as_slice(), 0, n_l));
        assert(pi_lo@ =~= pi@.take(n_l as int));
        let eq_pi = eq_ind_partial_eval_scalars(&pi_lo);
        let corners = vk_corner_values_packed(&self.base.table, &eq_pi);
        let m_pi = evaluate(&self.m_d, &pi_lo);
        let vals = [corners[0], corners[1], corners[2], m_pi];
        proof {
            assert forall|blk: int| 0 <= blk < 3 implies #[trigger] vals@[blk] == mle(
                vk_column(self.base.table.dims, self.base.table.terms@, blk),
                pi_lo@,
            ) by {
                assert(vals@[blk] == corners@[blk]);
            }
            assert(corners@ =~= vals@.take(3));
        }
        Ok(
            (
                ProvePhi {
                    base: self.base,
                    finish: self.finish,
                    d_vals: self.d_vals,
                    m_d: self.m_d,
                    pi_lo,
                    corners,
                    m_pi,
                },
                vals,
            ),
        )
    }
}

/// Awaits the batching challenge.
pub struct ProvePhi {
    pub base: ProverBase,
    pub finish: Vec<B128>,
    pub d_vals: Vec<B128>,
    pub m_d: Vec<B128>,
    pub pi_lo: Vec<B128>,
    pub corners: [B128; 3],
    pub m_pi: B128,
}

/// A product of two tables whose sum is claimed.
pub struct ProductClaim {
    pub a: Vec<B128>,
    pub b: Vec<B128>,
    pub sum: B128,
}

/// The points of the claims of a batch are points of the histogram table with selectors 0 or 1.
pub proof fn lemma_batch_points(dims: ShapeDims, ctxs: Seq<ClaimCtx>, k: nat)
    requires
        k <= ctxs.len(),
    ensures
        batch_points(dims, ctxs, k).len() == 10 * k,
        forall|j: int|
            0 <= j < 10 * k ==> {
                let p = #[trigger] batch_points(dims, ctxs, k)[j];
                &&& p.len() == dims.n_a + 2
                &&& p[dims.n_a as int] == zero() || p[dims.n_a as int] == one()
                &&& p[dims.n_a + 1] == zero() || p[dims.n_a + 1] == one()
            },
    decreases k,
{
    if k > 0 {
        lemma_batch_points(dims, ctxs, (k - 1) as nat);
        let before = batch_points(dims, ctxs, (k - 1) as nat);
        let own = claim_points(dims, ctxs[k - 1].tr.parsed);
        let all = batch_points(dims, ctxs, k);
        assert forall|j: int| 0 <= j < 10 * k implies {
            let p = #[trigger] all[j];
            &&& p.len() == dims.n_a + 2
            &&& p[dims.n_a as int] == zero() || p[dims.n_a as int] == one()
            &&& p[dims.n_a + 1] == zero() || p[dims.n_a + 1] == one()
        } by {
            if j < before.len() {
                assert(all[j] == before[j]);
            } else {
                assert(all[j] == own[j - before.len()]);
            }
        }
    }
}

/// Batched weights depend only on the points that they cover.
pub proof fn lemma_weights_prefix(p: Seq<Seq<B128>>, q: Seq<Seq<B128>>, phi: B128, n: nat, k: nat)
    requires
        forall|j: int| 0 <= j < k ==> #[trigger] p[j] == q[j],
    ensures
        batch_weights(p, phi, n, k) == batch_weights(q, phi, n, k),
    decreases k,
{
    if k > 0 {
        lemma_weights_prefix(p, q, phi, n, (k - 1) as nat);
        assert(p[k - 1] == q[k - 1]);
    }
}

/// Adds the batched weights of the claims' points to a table of zeros; returns the next power of
/// the challenge.
pub fn add_claim_weights(
    w_eq: &mut Vec<B128>,
    dims: &ShapeDims,
    ctxs: &Vec<ClaimCtx>,
    points: &Vec<Vec<B128>>,
    phi: B128,
) -> (next: B128)
    requires
        dims.derived(),
        10 * ctxs@.len() <= points@.len(),
        forall|j: int|
            0 <= j < 10 * ctxs@.len() ==> (#[trigger] points@[j])@ == batch_points(
                *dims,
                ctxs@,
                ctxs@.len(),
            )[j],
        old(w_eq)@ == zeros(exp2(dims.n_d as nat)),
    ensures
        final(w_eq)@ == batch_weights(
            points_view(points@),
            phi,
            dims.n_d as nat,
            (10 * ctxs@.len()) as nat,
        ),
        final(w_eq)@.len() == exp2(dims.n_d as nat),
        next == power(phi, (10 * ctxs@.len()) as nat),
{
    let k: usize = ctxs.len();
    let n_points: usize = points.len();
    let ghost view = points_view(points@);
    let mut phi_pow = one();
    let mut j: usize = 0;
    while j < 10 * k
        invariant
            j <= 10 * k,
            k == ctxs@.len(),
            10 * k <= n_points,
            n_points == points@.len(),
            dims.derived(),
            view == points_view(points@),
            forall|j: int|
                0 <= j < 10 * k ==> (#[trigger] points@[j])@ == batch_points(
                    *dims,
                    ctxs@,
                    k as nat,
                )[j],
            phi_pow == power(phi, j as nat),
            w_eq@ == batch_weights(view, phi, dims.n_d as nat, j as nat),
            w_eq@.len() == exp2(dims.n_d as nat),
        decreases 10 * k - j,
    {
        proof {
            lemma_batch_points(*dims, ctxs@, k as nat);
            assert(points@[j as int]@ == batch_points(*dims, ctxs@, k as nat)[j as int]);
            assert(view[j as int] == points@[j as int]@);
        }
        axpy_point_tensor(w_eq, dims.n_a, &points[j], phi_pow);
        phi_pow = phi_pow * phi;
        j = j + 1;
    }
    phi_pow
}

impl ProvePhi {
    /// The points of all evaluations of the histogram table.
    pub open spec fn all_points(self) -> Seq<Seq<B128>> {
        batch_points(self.base.table.dims, self.base.ctxs@, self.base.ctxs@.len()).push(
            self.pi_lo@,
        )
    }

    /// All claimed evaluations of the histogram table.
    pub open spec fn all_evals(self) -> Seq<B128> {
        batch_evals(self.finish@, self.d_vals@, self.base.ctxs@.len()).push(self.m_pi)
    }

    /// The batching challenge was drawn. The product of the batched weights and the histogram
    /// table is to be proved.
    pub fn sampled(self, phi: B128) -> (r: (ProveBatch, ProductClaim))
        requires
            self.base.wf(),
            self.finish@.len() == 3 * self.base.ctxs@.len(),
            self.d_vals@.len() == 8 * self.base.ctxs@.len(),
            self.m_d@.len() == exp2(self.base.table.dims.n_d as nat),
            self.pi_lo@.len() == self.base.table.dims.n_d,
        ensures
            r.0.base == self.base,
            r.0.m_d == self.m_d,
            r.0.pi_lo == self.pi_lo,
            r.0.corners == self.corners,
            r.1.a@ == batch_weights(
                self.all_points(),
                phi,
                self.base.table.dims.n_d as nat,
                self.all_points().len(),
            ),
            r.1.b@ == self.m_d@,
            r.1.sum == univariate(self.all_evals(), phi),
    {
        let dims = &self.base.table.dims;
        let (points, evals) = phase_b_claims(
            dims,
            &self.base.ctxs,
            &self.finish,
            &self.d_vals,
            &self.pi_lo,
            self.m_pi,
        );
        let combined = evaluate_univariate(&evals, phi);
        let k: usize = self.base.ctxs.len();
        let ghost view = self.all_points();
        proof {
            lemma_batch_points(*dims, self.base.ctxs@, k as nat);
            assert(points_view(points@) == view);
            assert(points@.len() == view.len());
            assert forall|j: int| 0 <= j < 10 * k implies (#[trigger] points@[j])@ == batch_points(
                *dims,
                self.base.ctxs@,
                k as nat,
            )[j] by {
                assert(points_view(points@)[j] == view[j]);
            }
        }
        let mut w_eq = zero_table(dims.n_d);
        let phi_pow = add_claim_weights(&mut w_eq, dims, &self.base.ctxs, &points, phi);
        proof {
            lemma_weights_prefix(
                points_view(points@),
                view,
                phi,
                dims.n_d as nat,
                (10 * k) as nat,
            );
        }
        let pi_tensor = eq_ind_partial_eval_scalars(&self.pi_lo);
        let ghost before = w_eq@;
        axpy_dense_par(&mut w_eq, &pi_tensor, phi_pow);
        assert(w_eq@ =~= table_add(before, table_scale(phi_pow, eq_tensor(self.pi_lo@))));
        let b = copy_elems(&self.m_d);
        (
            ProveBatch {
                base: self.base,
                m_d: self.m_d,
                pi_lo: self.pi_lo,
                corners: self.corners,
            },
            ProductClaim { a: w_eq, b, sum: combined },
        )
    }
}

/// Awaits the batched sumcheck.
pub struct ProveBatch {
    pub base: ProverBase,
    pub m_d: Vec<B128>,
    pub pi_lo: Vec<B128>,
    pub corners: [B128; 3],
}

impl ProveBatch {
    /// The batched sumcheck was proved, with these round challenges in order and this evaluation of
    /// the histogram table, which is to be sent. Two selectors are to be drawn.
    pub fn proved(self, challenges: Vec<B128>, m: B128) -> (r: Result<ProveRhoC, DischargeError>)
        ensures
            match r {
                Ok(next) => {
                    &&& challenges@.len() == self.base.table.dims.n_d
                    &&& next.base == self.base
                    &&& next.m_d == self.m_d
                    &&& next.pi_lo == self.pi_lo
                    &&& next.corners == self.corners
                    &&& next.sigma@ == challenges@.reverse()
                    &&& next.m == m
                },
                Err(e) => challenges@.len() != self.base.table.dims.n_d && e
                    == DischargeError::BatchRounds,
            },
    {
        if challenges.len() != self.base.table.dims.n_d {
            return Err(DischargeError::BatchRounds);
        }
        let sigma = reversed(&challenges);
        Ok(
            ProveRhoC {
                base: self.base,
                m_d: self.m_d,
                pi_lo: self.pi_lo,
                corners: self.corners,
                sigma,
                m,
            },
        )
    }
}

/// Awaits two selectors.
pub struct ProveRhoC {
    pub base: ProverBase,
    pub m_d: Vec<B128>,
    pub pi_lo: Vec<B128>,
    pub corners: [B128; 3],
    pub sigma: Vec<B128>,
    pub m: B128,
}

impl ProveRhoC {
    /// The selectors were drawn. The row table is to be committed, and both tables are to be
    /// opened: it at the leaf point with the selectors, and the histogram table at the batched
    /// sumcheck's point.
    pub fn sampled(self, rho_c: Vec<B128>) -> (r: (OpenClaim, OpenClaim))
        requires
            self.base.wf(),
            rho_c@.len() == 2,
        ensures
            r.0.message@ == row_table(self.base.table.dims, self.base.table.terms@),
            r.0.message@.len() == exp2((self.base.table.dims.n_d + 2) as nat),
            r.0.point@ == self.pi_lo@ + rho_c@,
            r.0.eval == corner_claim(self.corners@, rho_c@),
            r.1.message == self.m_d,
            r.1.point == self.sigma,
            r.1.eval == self.m,
    {
        let m_vk = build_m_vk_packed(&self.base.table);
        self.open(m_vk, rho_c)
    }

    /// The same, but with the row table of another term table.
    pub fn sampled_over(self, vk_table: &TermTable, rho_c: Vec<B128>) -> (r: (OpenClaim, OpenClaim))
        requires
            table_fits(*vk_table),
            rho_c@.len() == 2,
        ensures
            r.0.message@ == row_table(vk_table.dims, vk_table.terms@),
            r.0.message@.len() == exp2((vk_table.dims.n_d + 2) as nat),
            r.0.point@ == self.pi_lo@ + rho_c@,
            r.0.eval == corner_claim(self.corners@, rho_c@),
            r.1.message == self.m_d,
            r.1.point == self.sigma,
            r.1.eval == self.m,
    {
        let m_vk = build_m_vk_packed(vk_table);
        self.open(m_vk, rho_c)
    }

    /// The two opening claims.
    fn open(self, m_vk: Vec<B128>, rho_c: Vec<B128>) -> (r: (OpenClaim, OpenClaim))
        requires
            rho_c@.len() == 2,
        ensures
            r.0.message == m_vk,
            r.0.point@ == self.pi_lo@ + rho_c@,
            r.0.eval == corner_claim(self.corners@, rho_c@),
            r.1.message == self.m_d,
            r.1.point == self.sigma,
            r.1.eval == self.m,
    {
        let claim_vk = vk_claim(&self.corners, &rho_c);
        let mut vk_point = copy_elems(&self.pi_lo);
        vk_point.push(rho_c[0]);
        vk_point.push(rho_c[1]);
        assert(vk_point@ =~= self.pi_lo@ + rho_c@);
        (
            OpenClaim { message: m_vk, point: vk_point, eval: claim_vk },
            OpenClaim { message: self.m_d, point: self.sigma, eval: self.m },
        )
    }
}

} // verus!
