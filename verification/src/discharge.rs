//! Batch statements, the context of each of their claims, and the table of weights that batches
//! evaluations of the histogram table.

use crate::claim::{
    claim_error, native_term_sum, parse_claim, parsed_fits, rows_in, rows_sum, Claim,
    ClaimTransparents,
};
use crate::encode::{embed, embed_bool, embed_usize, le_element};
use crate::error::DischargeError;
use crate::field::element::{one, zero, B128};
use crate::field::ring::{group_units, law_add_zero, law_mul_zero};
use crate::field::sums::{lemma_sum_zeros, power, sum};
use crate::multilinear::eq::{
    bits_of, eq_at, eq_points, eq_tensor, law_eq_at_concat, scaled_eq_ind_partial_eval_scalars,
};
use crate::multilinear::exp2::{
    exp2, exp2_usize, lemma_exp2_add, lemma_exp2_mono, lemma_exp2_pos, lemma_exp2_small,
};
use crate::multilinear::mle::{
    dot, law_mle_linear, law_mle_of_tensor, lemma_dot_commutes, mle, table_add, table_scale, zeros,
};
use crate::table::{ShapeDims, TermTable, LOG_WORD_SIZE_BITS};
use crate::vk::{digest_elems, lemma_digest_elems, lemma_same_word};
use vstd::prelude::*;

verus! {

/// A batch of claims on one shape.
#[derive(Debug, Clone, PartialEq, Eq)]
pub struct DischargeStatement {
    pub cs_digest: [u8; 32],
    pub n_terms: usize,
    pub n_pad: usize,
    pub parity: bool,
    pub claims: Vec<Claim>,
}

/// The first claim with the wrong number of coordinates, as an error.
pub open spec fn first_arity_error(claims: Seq<Claim>, arity: usize, e: DischargeError) -> bool {
    exists|i: int|
        {
            &&& 0 <= i < claims.len()
            &&& claims[i].point@.len() != arity
            &&& e == #[trigger] arity_error(claims, i, arity)
            &&& forall|j: int| 0 <= j < i ==> (#[trigger] claims[j]).point@.len() == arity
        }
}

/// The error for a claim with the wrong number of coordinates.
pub open spec fn arity_error(claims: Seq<Claim>, i: int, arity: usize) -> DischargeError {
    DischargeError::StatementArity {
        claim: i as usize,
        got: claims[i].point@.len() as usize,
        expected: arity,
    }
}

/// A statement's metadata are those of a term table.
pub open spec fn statement_for(stmt: DischargeStatement, table: TermTable) -> bool {
    &&& stmt.cs_digest@ == table.cs_digest@
    &&& stmt.n_terms == table.dims.n_terms
    &&& stmt.n_pad == table.dims.n_pad
    &&& stmt.parity == table.dims.parity
}

/// The elements of a list of claims: each point and then its value.
pub open spec fn claims_elems(claims: Seq<Claim>, k: nat) -> Seq<B128>
    decreases k,
{
    if k == 0 {
        Seq::empty()
    } else {
        claims_elems(claims, (k - 1) as nat) + claims[k - 1].point@ + seq![claims[k - 1].value]
    }
}

/// The elements by which a transcript is bound to a statement.
pub open spec fn statement_elems(s: DischargeStatement) -> Seq<B128> {
    digest_elems(s.cs_digest@) + seq![
        embed(s.n_terms as int),
        embed(s.n_pad as int),
        embed(if s.parity { 1 } else { 0 }),
        embed(s.claims@.len() as int),
    ] + claims_elems(s.claims@, s.claims@.len())
}

impl DischargeStatement {
    /// The statement that the claims hold for the table's shape.
    pub fn new(table: &TermTable, claims: Vec<Claim>) -> (r: Result<Self, DischargeError>)
        ensures
            match r {
                Ok(stmt) => {
                    &&& statement_for(stmt, *table)
                    &&& stmt.cs_digest@ == table.cs_digest@
                    &&& stmt.n_terms == table.dims.n_terms
                    &&& stmt.n_pad == table.dims.n_pad
                    &&& stmt.parity == table.dims.parity
                    &&& stmt.claims == claims
                    &&& forall|i: int|
                        0 <= i < claims@.len() ==> (#[trigger] claims@[i]).point@.len()
                            == table.dims.arity
                },
                Err(e) => first_arity_error(claims@, table.dims.arity, e),
            },
            r is Ok <==> forall|i: int|
                0 <= i < claims@.len() ==> (#[trigger] claims@[i]).point@.len()
                    == table.dims.arity,
    {
        let mut i: usize = 0;
        while i < claims.len()
            invariant
                i <= claims@.len(),
                forall|j: int|
                    0 <= j < i ==> (#[trigger] claims@[j]).point@.len() == table.dims.arity,
            decreases claims@.len() - i,
        {
            let got: usize = claims[i].point.len();
            if got != table.dims.arity {
                let e = DischargeError::StatementArity {
                    claim: i,
                    got,
                    expected: table.dims.arity,
                };
                assert(e == arity_error(claims@, i as int, table.dims.arity));
                return Err(e);
            }
            i = i + 1;
        }
        Ok(
            DischargeStatement {
                cs_digest: table.cs_digest,
                n_terms: table.dims.n_terms,
                n_pad: table.dims.n_pad,
                parity: table.dims.parity,
                claims,
            },
        )
    }

    /// The elements by which a transcript is bound to the statement.
    pub fn to_elems(&self) -> (out: Vec<B128>)
        ensures
            out@ == statement_elems(*self),
    {
        let mut out: Vec<B128> = Vec::new();
        out.push(le_element(&self.cs_digest, 0));
        out.push(le_element(&self.cs_digest, 16));
        out.push(embed_usize(self.n_terms));
        out.push(embed_usize(self.n_pad));
        out.push(embed_bool(self.parity));
        out.push(embed_usize(self.claims.len()));
        let ghost head = out@;
        let mut k: usize = 0;
        assert(out@ =~= head + claims_elems(self.claims@, 0));
        while k < self.claims.len()
            invariant
                k <= self.claims@.len(),
                out@ == head + claims_elems(self.claims@, k as nat),
            decreases self.claims@.len() - k,
        {
            let claim = &self.claims[k];
            let ghost before = out@;
            let mut j: usize = 0;
            while j < claim.point.len()
                invariant
                    j <= claim.point@.len(),
                    out@ == before + claim.point@.take(j as int),
                decreases claim.point@.len() - j,
            {
                out.push(claim.point[j]);
                j = j + 1;
                assert(out@ =~= before + claim.point@.take(j as int));
            }
            out.push(claim.value);
            k = k + 1;
            assert(out@ =~= head + claims_elems(self.claims@, k as nat));
        }
        assert(out@ =~= statement_elems(*self));
        out
    }
}

/// Two statements say the same.
pub open spec fn same_statement(s: DischargeStatement, t: DischargeStatement) -> bool {
    &&& s.cs_digest@ == t.cs_digest@
    &&& s.n_terms == t.n_terms
    &&& s.n_pad == t.n_pad
    &&& s.parity == t.parity
    &&& s.claims@.len() == t.claims@.len()
    &&& forall|i: int|
        0 <= i < s.claims@.len() ==> {
            &&& (#[trigger] s.claims@[i]).point@ == t.claims@[i].point@
            &&& s.claims@[i].value == t.claims@[i].value
        }
}

/// Claims of one arity take up arity and one elements each.
proof fn lemma_claims_elems(claims: Seq<Claim>, k: nat, arity: nat)
    requires
        k <= claims.len(),
        forall|i: int| 0 <= i < claims.len() ==> (#[trigger] claims[i]).point@.len() == arity,
    ensures
        claims_elems(claims, k).len() == k * (arity + 1),
    decreases k,
{
    if k > 0 {
        lemma_claims_elems(claims, (k - 1) as nat, arity);
        assert((k - 1) * (arity + 1) + arity + 1 == k * (arity + 1)) by (nonlinear_arith);
    } else {
        assert(0 * (arity + 1) == 0);
    }
}

/// Claims of one arity with the same elements are the same.
proof fn lemma_claims_bind(a: Seq<Claim>, b: Seq<Claim>, k: nat, arity: nat)
    requires
        k <= a.len(),
        k <= b.len(),
        forall|i: int| 0 <= i < a.len() ==> (#[trigger] a[i]).point@.len() == arity,
        forall|i: int| 0 <= i < b.len() ==> (#[trigger] b[i]).point@.len() == arity,
        claims_elems(a, k) == claims_elems(b, k),
    ensures
        forall|i: int|
            0 <= i < k ==> (#[trigger] a[i]).point@ == b[i].point@ && a[i].value == b[i].value,
    decreases k,
{
    if k > 0 {
        let m = (k - 1) as nat;
        let (e, f) = (claims_elems(a, k), claims_elems(b, k));
        let (ea, eb) = (claims_elems(a, m), claims_elems(b, m));
        lemma_claims_elems(a, m, arity);
        lemma_claims_elems(b, m, arity);
        let n = ea.len() as int;
        assert(e.subrange(0, n) =~= ea);
        assert(f.subrange(0, n) =~= eb);
        lemma_claims_bind(a, b, m, arity);
        assert(e.subrange(n, n + arity) =~= a[m as int].point@);
        assert(f.subrange(n, n + arity) =~= b[m as int].point@);
        assert(e[n + arity] == a[m as int].value);
        assert(f[n + arity] == b[m as int].value);
    }
}

/// The encoding binds every field: statements for one shape with the same elements say the same.
pub proof fn law_statement_elems_bind(s: DischargeStatement, t: DischargeStatement, arity: nat)
    requires
        forall|i: int| 0 <= i < s.claims@.len() ==> (#[trigger] s.claims@[i]).point@.len() == arity,
        forall|i: int| 0 <= i < t.claims@.len() ==> (#[trigger] t.claims@[i]).point@.len() == arity,
        statement_elems(s) == statement_elems(t),
    ensures
        same_statement(s, t),
{
    let (e, f) = (statement_elems(s), statement_elems(t));
    assert(digest_elems(s.cs_digest@) =~= e.subrange(0, 2));
    assert(digest_elems(t.cs_digest@) =~= f.subrange(0, 2));
    lemma_digest_elems(s.cs_digest@, t.cs_digest@);
    lemma_same_word(e, f, 2, s.n_terms as int, t.n_terms as int);
    lemma_same_word(e, f, 3, s.n_pad as int, t.n_pad as int);
    lemma_same_word(e, f, 4, if s.parity { 1 } else { 0 }, if t.parity { 1 } else { 0 });
    vstd::std_specs::vec::axiom_spec_len(&s.claims);
    vstd::std_specs::vec::axiom_spec_len(&t.claims);
    lemma_same_word(e, f, 5, s.claims.len() as int, t.claims.len() as int);
    let k = s.claims@.len();
    assert(e.skip(6) =~= claims_elems(s.claims@, k));
    assert(f.skip(6) =~= claims_elems(t.claims@, k));
    lemma_claims_bind(s.claims@, t.claims@, k, arity);
}

/// The statement for all captured claims, after checking that none is missing.
pub fn statement_from_capture(table: &TermTable, claims: Vec<Claim>, expected: usize) -> (r: Result<
    DischargeStatement,
    DischargeError,
>)
    ensures
        match r {
            Ok(stmt) => {
                &&& claims@.len() == expected
                &&& statement_for(stmt, *table)
                &&& stmt.claims == claims
                &&& forall|i: int|
                    0 <= i < claims@.len() ==> (#[trigger] claims@[i]).point@.len()
                        == table.dims.arity
            },
            Err(e) => if claims@.len() != expected {
                e == (DischargeError::Coverage { captured: claims@.len() as usize, expected })
            } else {
                first_arity_error(claims@, table.dims.arity, e)
            },
        },
{
    if claims.len() != expected {
        return Err(DischargeError::Coverage { captured: claims.len(), expected });
    }
    DischargeStatement::new(table, claims)
}

/// Checks a claim against the term table: its value is the sum over the rows.
pub fn cross_validate_claim(table: &TermTable, claim: &Claim, h_ops: [B128; 8]) -> (r: Result<
    (),
    DischargeError,
>)
    requires
        table.wf(),
        table.dims.fits(),
    ensures
        match claim_error(table.dims, claim.point@) {
            Some(e) => r == Err::<(), DischargeError>(e),
            None => exists|tr: ClaimTransparents|
                {
                    &&& #[trigger] tr.light(table.dims, claim.point@, h_ops@)
                    &&& tr.has_tables(table.dims)
                    &&& r == (if claim.value == rows_sum(
                        table.terms@,
                        tr.x_tensor@,
                        tr.y_tensor@,
                        tr.g_tab@,
                        table.terms@.len(),
                    ) {
                        Ok::<(), DischargeError>(())
                    } else {
                        Err(DischargeError::CrossValidation)
                    })
                },
        },
{
    let tr = match ClaimTransparents::new(&table.dims, claim, h_ops) {
        Ok(tr) => tr,
        Err(e) => {
            return Err(e);
        },
    };
    proof {
        lemma_rows_in(*table, tr);
        assert(tr.light(table.dims, claim.point@, h_ops@));
    }
    if native_term_sum(table, &tr) == claim.value {
        Ok(())
    } else {
        Err(DischargeError::CrossValidation)
    }
}

/// The tables of a claim cover the rows of a term table.
pub proof fn lemma_rows_in(table: TermTable, tr: ClaimTransparents)
    requires
        table.wf(),
        tr.has_tables(table.dims),
        parsed_fits(table.dims, tr.parsed),
    ensures
        rows_in(table.terms@, tr.x_tensor@, tr.y_tensor@, tr.g_tab@),
{
    assert forall|t: int| 0 <= t < table.terms@.len() implies {
        let term = #[trigger] table.terms@[t];
        term.x < tr.x_tensor@.len() && term.y < tr.y_tensor@.len() && term.u < tr.g_tab@.len()
    } by {
        assert(crate::table::term_in(table.dims, table.terms@[t]));
    }
}

/// A claim in context: what its point gives, and the sum that the row sumcheck proves of it.
pub struct ClaimCtx {
    pub tr: ClaimTransparents,
    pub sum: B128,
}

/// The sum over the padded term table that a claim amounts to.
pub open spec fn padded_value(value: B128, parity: bool, dummy_weight: B128) -> B128 {
    if parity {
        value + dummy_weight
    } else {
        value
    }
}

/// A context belongs to a claim.
pub open spec fn ctx_of(
    ctx: ClaimCtx,
    dims: ShapeDims,
    parity: bool,
    claim: Claim,
    h_ops: Seq<B128>,
    light: bool,
) -> bool {
    &&& ctx.tr.light(dims, claim.point@, h_ops)
    &&& ctx.sum == padded_value(claim.value, parity, ctx.tr.dummy_weight)
    &&& !light ==> ctx.tr.has_tables(dims)
}

/// The error of the first faulty claim.
pub open spec fn first_claim_error(dims: ShapeDims, claims: Seq<Claim>, e: DischargeError) -> bool {
    exists|i: int|
        {
            &&& 0 <= i < claims.len()
            &&& #[trigger] claim_error(dims, claims[i].point@) == Some(e)
            &&& forall|j: int|
                0 <= j < i ==> #[trigger] claim_error(dims, claims[j].point@) is None
        }
}

/// No claim is faulty.
pub open spec fn no_claim_error(dims: ShapeDims, claims: Seq<Claim>) -> bool {
    forall|i: int| 0 <= i < claims.len() ==> #[trigger] claim_error(dims, claims[i].point@) is None
}

/// Checks that every claim of a statement can be read.
pub fn check_claims(dims: &ShapeDims, stmt: &DischargeStatement) -> (r: Result<(), DischargeError>)
    requires
        dims.arity == 3 + dims.n_x + dims.n_x_mul + 2 * LOG_WORD_SIZE_BITS + dims.n_y,
        dims.n_y >= 1,
    ensures
        match r {
            Ok(_) => no_claim_error(*dims, stmt.claims@),
            Err(e) => first_claim_error(*dims, stmt.claims@, e),
        },
{
    let mut i: usize = 0;
    while i < stmt.claims.len()
        invariant
            i <= stmt.claims@.len(),
            dims.arity == 3 + dims.n_x + dims.n_x_mul + 2 * LOG_WORD_SIZE_BITS + dims.n_y,
            dims.n_y >= 1,
            forall|j: int|
                0 <= j < i ==> #[trigger] claim_error(*dims, stmt.claims@[j].point@) is None,
        decreases stmt.claims@.len() - i,
    {
        match parse_claim(dims, &stmt.claims[i]) {
            Ok(_) => {},
            Err(e) => {
                assert(claim_error(*dims, stmt.claims@[i as int].point@) == Some(e));
                return Err(e);
            },
        }
        i = i + 1;
    }
    Ok(())
}

/// The contexts of claims that were checked.
pub(crate) fn checked_contexts(
    dims: &ShapeDims,
    parity: bool,
    stmt: &DischargeStatement,
    h_ops: &Vec<[B128; 8]>,
    light: bool,
) -> (ctxs: Vec<ClaimCtx>)
    requires
        dims.arity == 3 + dims.n_x + dims.n_x_mul + 2 * LOG_WORD_SIZE_BITS + dims.n_y,
        dims.n_y >= 1,
        !light ==> dims.segmented() && dims.fits(),
        h_ops@.len() == stmt.claims@.len(),
        no_claim_error(*dims, stmt.claims@),
    ensures
        ctxs@.len() == stmt.claims@.len(),
        forall|i: int|
            0 <= i < ctxs@.len() ==> ctx_of(
                #[trigger] ctxs@[i],
                *dims,
                parity,
                stmt.claims@[i],
                h_ops@[i]@,
                light,
            ),
{
    match claim_contexts_from_dims(dims, parity, stmt, h_ops, light) {
        Ok(ctxs) => ctxs,
        Err(e) => {
            assert(first_claim_error(*dims, stmt.claims@, e));
            assert(false);
            Vec::new()
        },
    }
}

/// The contexts of a statement's claims, without tables when `light`. `h_ops` holds, for each
/// claim, the evaluations of the eight shift kinds.
pub fn claim_contexts_from_dims(
    dims: &ShapeDims,
    parity: bool,
    stmt: &DischargeStatement,
    h_ops: &Vec<[B128; 8]>,
    light: bool,
) -> (r: Result<Vec<ClaimCtx>, DischargeError>)
    requires
        dims.arity == 3 + dims.n_x + dims.n_x_mul + 2 * LOG_WORD_SIZE_BITS + dims.n_y,
        dims.n_y >= 1,
        !light ==> dims.segmented() && dims.fits(),
        h_ops@.len() == stmt.claims@.len(),
    ensures
        match r {
            Ok(ctxs) => {
                &&& no_claim_error(*dims, stmt.claims@)
                &&& ctxs@.len() == stmt.claims@.len()
                &&& forall|i: int|
                    0 <= i < ctxs@.len() ==> ctx_of(
                        #[trigger] ctxs@[i],
                        *dims,
                        parity,
                        stmt.claims@[i],
                        h_ops@[i]@,
                        light,
                    )
            },
            Err(e) => first_claim_error(*dims, stmt.claims@, e),
        },
{
    let mut ctxs: Vec<ClaimCtx> = Vec::new();
    let mut i: usize = 0;
    while i < stmt.claims.len()
        invariant
            i <= stmt.claims@.len(),
            h_ops@.len() == stmt.claims@.len(),
            dims.arity == 3 + dims.n_x + dims.n_x_mul + 2 * LOG_WORD_SIZE_BITS + dims.n_y,
            dims.n_y >= 1,
            !light ==> dims.segmented() && dims.fits(),
            ctxs@.len() == i,
            forall|j: int|
                0 <= j < i ==> #[trigger] claim_error(*dims, stmt.claims@[j].point@) is None,
            forall|j: int|
                0 <= j < i ==> ctx_of(
                    #[trigger] ctxs@[j],
                    *dims,
                    parity,
                    stmt.claims@[j],
                    h_ops@[j]@,
                    light,
                ),
        decreases stmt.claims@.len() - i,
    {
        let claim = &stmt.claims[i];
        let made = if light {
            ClaimTransparents::new_light(dims, claim, h_ops[i])
        } else {
            ClaimTransparents::new(dims, claim, h_ops[i])
        };
        let tr = match made {
            Ok(tr) => tr,
            Err(e) => {
                assert(claim_error(*dims, stmt.claims@[i as int].point@) == Some(e));
                return Err(e);
            },
        };
        let sum = if parity {
            claim.value + tr.dummy_weight
        } else {
            claim.value
        };
        ctxs.push(ClaimCtx { tr, sum });
        i = i + 1;
    }
    Ok(ctxs)
}

/// The indicator of an index at an address that ends in zeros, with selectors 0 or 1 above: it is
/// the indicator at the address's low part, in the selected block, and zero elsewhere.
proof fn lemma_sparse_indicator(p: Seq<B128>, n_a: nat, k: nat, sel: int, i: int)
    requires
        p.len() == n_a + 2,
        k <= n_a,
        forall|j: int| k <= j < n_a ==> #[trigger] p[j] == zero(),
        0 <= sel < 4,
        p.skip(n_a as int) == bits_of(sel, 2),
        0 <= i < exp2(n_a + 2),
    ensures
        ({
            let base = exp2(n_a) * sel;
            eq_at(i, p) == (if base <= i < base + exp2(k) {
                eq_at(i - base, p.take(k as int))
            } else {
                zero()
            })
        }),
{
    broadcast use group_units;

    let w = exp2(n_a) as int;
    let v = exp2(k) as int;
    lemma_exp2_pos(n_a);
    lemma_exp2_pos(k);
    lemma_exp2_small();
    lemma_exp2_add(n_a, 2);
    lemma_exp2_mono(k, n_a);
    lemma_exp2_add(k, (n_a - k) as nat);
    let a = p.take(n_a as int);
    let hi = p.skip(n_a as int);
    assert(a + hi =~= p);
    let (s, lo) = (i / w, i % w);
    vstd::arithmetic::div_mod::lemma_fundamental_div_mod(i, w);
    assert(0 <= lo < w && 0 <= s) by {
        vstd::arithmetic::div_mod::lemma_mod_bound(i, w);
        vstd::arithmetic::div_mod::lemma_div_pos_is_pos(i, w);
    }
    assert(s < 4) by (nonlinear_arith)
        requires
            i == w * s + lo,
            i < w * 4,
            lo >= 0,
            w > 0,
    ;
    law_eq_at_concat(lo, s, a, hi);
    crate::reduction::law_eq_at_bits(s, sel, 2);
    // The address.
    let a0 = p.take(k as int);
    let z = a.skip(k as int);
    assert(a0 + z =~= a);
    let (m, j) = (lo / v, lo % v);
    vstd::arithmetic::div_mod::lemma_fundamental_div_mod(lo, v);
    assert(0 <= j < v && 0 <= m) by {
        vstd::arithmetic::div_mod::lemma_mod_bound(lo, v);
        vstd::arithmetic::div_mod::lemma_div_pos_is_pos(lo, v);
    }
    let q = exp2((n_a - k) as nat) as int;
    assert(m < q) by (nonlinear_arith)
        requires
            lo == v * m + j,
            lo < v * q,
            j >= 0,
            v > 0,
    ;
    law_eq_at_concat(j, m, a0, z);
    lemma_eq_at_zeros(m, z);
    let base = w * sel;
    if s == sel {
        assert(i - base == lo);
        if m == 0 {
            assert(v * m == 0) by (nonlinear_arith)
                requires
                    m == 0,
            ;
            assert(lo == j);
        } else {
            assert(lo >= v) by (nonlinear_arith)
                requires
                    lo == v * m + j,
                    m >= 1,
                    j >= 0,
                    v > 0,
            ;
        }
    } else {
        if s < sel {
            assert(i < base) by (nonlinear_arith)
                requires
                    i == w * s + lo,
                    lo < w,
                    s + 1 <= sel,
                    base == w * sel,
                    w > 0,
            ;
        } else {
            assert(i >= base + w) by (nonlinear_arith)
                requires
                    i == w * s + lo,
                    lo >= 0,
                    s >= sel + 1,
                    base == w * sel,
                    w > 0,
            ;
        }
    }
}

/// The indicator of an index at the zero point.
proof fn lemma_eq_at_zeros(m: int, z: Seq<B128>)
    requires
        0 <= m < exp2(z.len()),
        forall|j: int| 0 <= j < z.len() ==> #[trigger] z[j] == zero(),
    ensures
        eq_at(m, z) == (if m == 0 {
            one()
        } else {
            zero()
        }),
    decreases z.len(),
{
    broadcast use group_units;

    if z.len() > 0 {
        let half = exp2((z.len() - 1) as nat);
        lemma_exp2_pos((z.len() - 1) as nat);
        if m < half {
            lemma_eq_at_zeros(m, z.drop_last());
        }
    }
}

/// The block that two selectors pick.
pub open spec fn selected_block(c0: B128, c1: B128) -> int {
    (if c0 == one() {
        1int
    } else {
        0
    }) + (if c1 == one() {
        2int
    } else {
        0
    })
}

/// Adds a multiple of the indicator table of a point of the histogram table: an address, usually
/// with a tail of zeros, and selectors 0 or 1. Only the entries below the tail are touched.
pub fn axpy_point_tensor(w_eq: &mut Vec<B128>, n_a: usize, p: &[B128], scale: B128)
    requires
        p@.len() == n_a + 2,
        old(w_eq)@.len() == exp2((n_a + 2) as nat),
        p@[n_a as int] == zero() || p@[n_a as int] == one(),
        p@[n_a + 1] == zero() || p@[n_a + 1] == one(),
    ensures
        final(w_eq)@ == table_add(old(w_eq)@, table_scale(scale, eq_tensor(p@))),
{
    let len: usize = w_eq.len();
    proof {
        lemma_exp2_mono(n_a as nat, (n_a + 2) as nat);
        lemma_exp2_add(n_a as nat, 2);
        lemma_exp2_small();
    }
    let mut k: usize = n_a;
    while k > 0 && p[k - 1] == zero()
        invariant
            k <= n_a,
            p@.len() == n_a + 2,
            forall|j: int| k <= j < n_a ==> #[trigger] p@[j] == zero(),
        decreases k,
    {
        k = k - 1;
    }
    proof {
        lemma_exp2_mono(k as nat, n_a as nat);
    }
    let low = vstd::slice::slice_subrange(p, 0, k);
    assert(low@ =~= p@.take(k as int));
    let tensor = scaled_eq_ind_partial_eval_scalars(low, scale);
    let block: usize = exp2_usize(n_a);
    let mut base: usize = 0;
    if p[n_a] == one() {
        base = base + block;
    }
    if p[n_a + 1] == one() {
        base = base + 2 * block;
    }
    let ghost sel = selected_block(p@[n_a as int], p@[n_a + 1]);
    let ghost before = w_eq@;
    proof {
        assert(base == exp2(n_a as nat) * sel) by {
            let b = exp2(n_a as nat) as int;
            assert(b * 0 == 0 && b * 1 == b && b * 2 == 2 * b && b * 3 == 3 * b);
        }
        assert(p@.skip(n_a as int) =~= bits_of(sel, 2)) by {
            reveal_with_fuel(bits_of, 3);
        }
    }
    let mut i: usize = 0;
    while i < tensor.len()
        invariant
            i <= tensor@.len(),
            tensor@.len() == exp2(k as nat),
            exp2(k as nat) <= block,
            base + block <= len,
            len == before.len(),
            w_eq@.len() == before.len(),
            forall|j: int|
                0 <= j < tensor@.len() ==> #[trigger] tensor@[j] == scale * eq_at(j, low@),
            forall|j: int|
                base <= j < base + i ==> #[trigger] w_eq@[j] == before[j] + scale * eq_at(
                    j - base,
                    low@,
                ),
            forall|j: int|
                0 <= j < before.len() && !(base <= j < base + i) ==> #[trigger] w_eq@[j]
                    == before[j],
        decreases tensor@.len() - i,
    {
        let v = w_eq[base + i] + tensor[i];
        w_eq.set(base + i, v);
        i = i + 1;
    }
    proof {
        let want = table_add(before, table_scale(scale, eq_tensor(p@)));
        assert forall|j: int| 0 <= j < before.len() implies #[trigger] w_eq@[j] == want[j] by {
            lemma_sparse_indicator(p@, n_a as nat, k as nat, sel, j);
            law_mul_zero(scale);
            law_add_zero(before[j]);
        }
        assert(w_eq@ =~= want);
    }
}

/// The table of weights that batches evaluations at the given points by powers of `phi`.
pub open spec fn batch_weights(points: Seq<Seq<B128>>, phi: B128, n: nat, k: nat) -> Seq<B128>
    decreases k,
{
    if k == 0 {
        zeros(exp2(n))
    } else {
        table_add(
            batch_weights(points, phi, n, (k - 1) as nat),
            table_scale(power(phi, (k - 1) as nat), eq_tensor(points[k - 1])),
        )
    }
}

/// The inner product of a table with the batched weights is the batch of its evaluations, and the
/// weights' own evaluation is the batch of the indicators.
pub proof fn law_batch_weights(
    points: Seq<Seq<B128>>,
    phi: B128,
    n: nat,
    k: nat,
    m: Seq<B128>,
    sigma: Seq<B128>,
)
    requires
        k <= points.len(),
        forall|j: int| 0 <= j < points.len() ==> (#[trigger] points[j]).len() == n,
        m.len() == exp2(n),
        sigma.len() == n,
    ensures
        batch_weights(points, phi, n, k).len() == exp2(n),
        dot(batch_weights(points, phi, n, k), m, exp2(n)) == sum(
            |j: int| mle(m, points[j]) * power(phi, j as nat),
            k,
        ),
        mle(batch_weights(points, phi, n, k), sigma) == sum(
            |j: int| power(phi, j as nat) * eq_points(points[j], sigma),
            k,
        ),
    decreases k,
{
    broadcast use group_units;

    let len = exp2(n);
    if k == 0 {
        let z = zeros(len);
        lemma_sum_zeros(|i: int| z[i] * m[i], len);
        crate::multilinear::mle::law_mle_zeros(z, sigma);
    } else {
        let j = k - 1;
        law_batch_weights(points, phi, n, j as nat, m, sigma);
        let before = batch_weights(points, phi, n, j as nat);
        let t = eq_tensor(points[j]);
        let c = power(phi, j as nat);
        assert(points[j].len() == n);
        crate::multilinear::mle::lemma_dot_linear(c, t, t, m, len);
        crate::multilinear::mle::lemma_dot_linear(c, before, table_scale(c, t), m, len);
        lemma_dot_commutes(t, m, len);
        crate::field::ring::law_mul_commutes(c, mle(m, points[j]));
        law_mle_linear(c, t, t, sigma);
        law_mle_linear(c, before, table_scale(c, t), sigma);
        law_mle_of_tensor(points[j], sigma);
    }
}

/// Where a statement's digest, metadata and claims stand in the elements that a transcript absorbs:
/// claim `l` of arity `n` takes up `n` elements for its point and one for its value, one claim after
/// the other.
pub proof fn law_statement_elems_order(s: DischargeStatement, arity: nat, l: int, j: int)
    requires
        forall|i: int| 0 <= i < s.claims@.len() ==> (#[trigger] s.claims@[i]).point@.len() == arity,
        s.claims@.len() <= usize::MAX,
        0 <= l < s.claims@.len(),
        0 <= j < arity,
    ensures
        ({
            let e = statement_elems(s);
            let at = 6 + l * (arity + 1);
            &&& e.len() == 6 + s.claims@.len() * (arity + 1)
            &&& e[0].bits == crate::encode::le_value(s.cs_digest@.take(16))
            &&& e[1].bits == crate::encode::le_value(s.cs_digest@.skip(16))
            &&& e[2].bits == s.n_terms
            &&& e[3].bits == s.n_pad
            &&& e[4] == (if s.parity { one() } else { zero() })
            &&& e[5].bits == s.claims@.len()
            &&& e[at + j] == s.claims@[l].point@[j]
            &&& e[at + arity] == s.claims@[l].value
        }),
{
    let e = statement_elems(s);
    let k = s.claims@.len();
    let c = s.cs_digest@;
    crate::encode::lemma_exp2_128();
    assert(c.take(16) =~= c.subrange(0, 16) && c.skip(16) =~= c.subrange(16, 32));
    crate::encode::lemma_le_value_bound(c.take(16));
    crate::encode::lemma_le_value_bound(c.skip(16));
    lemma_claims_elems(s.claims@, k, arity);
    assert(e.skip(6) =~= claims_elems(s.claims@, k));
    lemma_claim_at(s.claims@, k, arity, l);
    let at = l * (arity + 1);
    assert(0 <= at && at + arity < k * (arity + 1)) by (nonlinear_arith)
        requires
            at == l * (arity + 1),
            0 <= l,
            l + 1 <= k,
    ;
    let own = claims_elems(s.claims@, k);
    assert(own[at + j] == own.subrange(at, at + arity)[j]);
    assert(e[6 + at + j] == own[at + j]);
    assert(e[6 + at + arity] == own[at + arity]);
}

/// Where a claim stands among the elements of the claims.
proof fn lemma_claim_at(claims: Seq<Claim>, k: nat, arity: nat, l: int)
    requires
        0 <= l < k <= claims.len(),
        forall|i: int| 0 <= i < claims.len() ==> (#[trigger] claims[i]).point@.len() == arity,
    ensures
        ({
            let at = l * (arity + 1);
            let e = claims_elems(claims, k);
            &&& 0 <= at
            &&& at + arity < e.len()
            &&& e.subrange(at, at + arity) == claims[l].point@
            &&& e[at + arity] == claims[l].value
        }),
    decreases k,
{
    let m = (k - 1) as nat;
    let at = l * (arity + 1);
    lemma_claims_elems(claims, m, arity);
    lemma_claims_elems(claims, k, arity);
    let (e, before) = (claims_elems(claims, k), claims_elems(claims, m));
    assert(0 <= at && at + arity < k * (arity + 1)) by (nonlinear_arith)
        requires
            at == l * (arity + 1),
            0 <= l,
            l + 1 <= k,
    ;
    if l < m {
        lemma_claim_at(claims, m, arity, l);
        assert(e.subrange(at, at + arity) =~= before.subrange(at, at + arity));
    } else {
        assert(e.subrange(at, at + arity) =~= claims[l].point@);
    }
}

/// A context carries its claim's value over all rows of the padded table: with an odd number of
/// padding rows it has the weight of one more row, and the value is unchanged otherwise.
pub proof fn law_padded_value(value: B128, weight: B128)
    ensures
        padded_value(value, true, weight) == value + weight,
        padded_value(value, false, weight) == value,
{
}

/// A batch has no faulty claim exactly when each of its points has the shape's number of coordinates
/// and a batching challenge other than zero and one; and otherwise the first such claim gives the
/// error.
pub proof fn law_batch_claims(dims: ShapeDims, claims: Seq<Claim>, e: DischargeError)
    ensures
        no_claim_error(dims, claims) <==> forall|i: int|
            0 <= i < claims.len() ==> {
                let p = (#[trigger] claims[i]).point@;
                p.len() == dims.arity && p[1] != zero() && p[1] != one()
            },
        no_claim_error(dims, claims) ==> !first_claim_error(dims, claims, e),
        first_claim_error(dims, claims, e) ==> exists|i: int|
            {
                let p = (#[trigger] claims[i]).point@;
                &&& 0 <= i < claims.len()
                &&& p.len() != dims.arity || p[1] == zero() || p[1] == one()
                &&& forall|j: int|
                    0 <= j < i ==> {
                        let q = (#[trigger] claims[j]).point@;
                        q.len() == dims.arity && q[1] != zero() && q[1] != one()
                    }
                &&& p.len() == dims.arity ==> e == DischargeError::LambdaAndDegenerate
                &&& p.len() != dims.arity ==> e == (DischargeError::ClaimArity {
                    got: p.len() as usize,
                    expected: dims.arity,
                })
            },
{
    if no_claim_error(dims, claims) {
        assert forall|i: int| 0 <= i < claims.len() implies {
            let p = (#[trigger] claims[i]).point@;
            p.len() == dims.arity && p[1] != zero() && p[1] != one()
        } by {
            assert(claim_error(dims, claims[i].point@) is None);
        }
    }
    if first_claim_error(dims, claims, e) {
        let i = choose|i: int|
            {
                &&& 0 <= i < claims.len()
                &&& #[trigger] claim_error(dims, claims[i].point@) == Some(e)
                &&& forall|j: int|
                    0 <= j < i ==> #[trigger] claim_error(dims, claims[j].point@) is None
            };
        let p = claims[i].point@;
        assert forall|j: int| 0 <= j < i implies {
            let q = (#[trigger] claims[j]).point@;
            q.len() == dims.arity && q[1] != zero() && q[1] != one()
        } by {
            assert(claim_error(dims, claims[j].point@) is None);
        }
        assert(claims[i].point@ == p);
    }
}

/// A context, written out: its parts are cut from the claim's point, its sum is the claim's value, with
/// one padding row's weight added where the parity is odd, and its tables, where it has them, hold the
/// indicator of every constraint, the weight of every word and the weight of every meta index.
pub proof fn law_context(
    ctx: ClaimCtx,
    dims: ShapeDims,
    parity: bool,
    claim: Claim,
    h_ops: Seq<B128>,
    light: bool,
)
    requires
        ctx_of(ctx, dims, parity, claim, h_ops, light),
        h_ops.len() == 8,
    ensures
        claim.point@.len() == 15 + dims.n_x + dims.n_x_mul + dims.n_y,
        ctx.tr.parsed.lambda_and == claim.point@[1],
        claim.point@[1] != zero(),
        claim.point@[1] != one(),
        ctx.tr.h_ops@ == h_ops,
        parity ==> ctx.sum == claim.value + ctx.tr.dummy_weight,
        !parity ==> ctx.sum == claim.value,
        !light ==> {
            let x = claim.point@.subrange(3, 3 + dims.n_x);
            &&& ctx.tr.x_tensor@.len() == exp2(dims.n_x as nat)
            &&& forall|i: int|
                0 <= i < exp2(dims.n_x as nat) ==> #[trigger] ctx.tr.x_tensor@[i] == eq_at(i, x)
            &&& ctx.tr.y_tensor@.len() == dims.combined_len
            &&& ctx.tr.g_tab@.len() == 2048
        },
{
    crate::claim::law_point_parts(dims, ctx.tr.parsed, claim.point@);
    lemma_exp2_add(10, 1);
    lemma_exp2_add(5, 5);
    lemma_exp2_small();
    assert(exp2(4) == 2 * exp2(3) && exp2(5) == 2 * exp2(4));
    assert(exp2(10) == exp2(5) * exp2(5));
    assert(exp2(11) == 2 * exp2(10));
    assert(exp2(5) == 32);
}

/// Which claim makes a statement fail, and with which error: the first whose point does not have the
/// shape's number of coordinates, named by its position, with both numbers.
pub proof fn law_arity_error(claims: Seq<Claim>, arity: usize, e: DischargeError)
    requires
        first_arity_error(claims, arity, e),
        claims.len() <= usize::MAX,
    ensures
        e is StatementArity,
        e->StatementArity_expected == arity,
        e->StatementArity_claim < claims.len(),
        e->StatementArity_got == claims[e->StatementArity_claim as int].point@.len(),
        e->StatementArity_got != arity,
        forall|j: int|
            0 <= j < e->StatementArity_claim ==> (#[trigger] claims[j]).point@.len() == arity,
{
    let i = choose|i: int|
        {
            &&& 0 <= i < claims.len()
            &&& claims[i].point@.len() != arity
            &&& e == #[trigger] arity_error(claims, i, arity)
            &&& forall|j: int| 0 <= j < i ==> (#[trigger] claims[j]).point@.len() == arity
        };
    assert(e == arity_error(claims, i, arity));
    assert(claims[i].point.len() == claims[i].point@.len());
}

} // verus!
