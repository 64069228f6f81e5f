//! What the two sides promise each other: an honest prover's values pass every check of the
//! verifier, and a histogram table that was tampered with fails.

use crate::claim::{
    gamma, meta_weights, padding_weight, parsed_fits, rows_sum, word_weights,
};
use crate::cubic::product_sum;
use crate::discharge::{batch_weights, law_batch_weights, padded_value, ClaimCtx};
use crate::encode::embed;
use crate::field::element::{one, zero, B128};
use crate::field::inverse::{inv, law_inverse};
use crate::field::ring::{
    group_units, law_add_associates, law_add_commutes, law_distributes, law_distributes_right,
    law_mul_commutes, lemma_add_cancel,
};
use crate::field::sums::{lemma_sum_add, lemma_sum_ext, lemma_sum_single, power, sum};
use crate::fracadd::{fraction_sum, law_tree_root_zero, tree_root};
use crate::histogram::{claim_points, histogram, lemma_bits_len, meta_address, padded, table_point};
use crate::merged::{
    combined_table, combined_target, law_combined_eval, law_contribution, repeated,
};
use crate::multilinear::eq::{
    eq_at, eq_points, eq_tensor, law_eq_at_concat, law_eq_mass, law_eq_points_commutes,
};
use crate::multilinear::exp2::{
    exp2, lemma_exp2_add, lemma_exp2_mono, lemma_exp2_pos, lemma_exp2_small,
};
use crate::multilinear::mle::{
    dot, law_mle_blocks, law_mle_linear, law_mle_of_tensor, law_mle_split, lower, mle, table_add,
    upper, zeros,
};
use crate::multilinear::univariate::univariate;
use crate::poles::{distances, index_distances, law_poles_cancel, leaf_den, leaf_num};
use crate::reduction::{claim_columns, law_claim_reduction, law_claim_sum, law_table_block, m_d};
use crate::step2::common::{
    batch_evals, batch_points, block_eq, corner_claim, ctxs_fit, Step2Tamper,
};
use crate::step2::prove::{committed_table, meta_values, tampered_index};
use crate::step2::run::{
    batch_error, leaves_error, lemma_meta_fault, recombined, rows_error, run_error, CommittedRun,
};
use crate::step2::verify::{
    batched_indicators, finish_products, index_eval, leaf_den_eval, leaf_num_eval, meta_ok,
};
use crate::table::{term_in, ShapeDims, Term};
use crate::vk::{lemma_embed_add, row_table, vk_column};
use vstd::prelude::*;

verus! {

/// The honest evaluations of the claims' columns at the row challenge, three per claim.
pub open spec fn honest_finish(dims: ShapeDims, terms: Seq<Term>, ctxs: Seq<ClaimCtx>, rho: Seq<B128>, k: nat) -> Seq<B128>
    decreases k,
{
    if k == 0 {
        Seq::empty()
    } else {
        let ctx = ctxs[k - 1];
        let (cx, cy, cg) = claim_columns(dims, terms, ctx.tr.parsed, ctx.tr.h_ops@);
        honest_finish(dims, terms, ctxs, rho, (k - 1) as nat) + seq![
            mle(cx, rho),
            mle(cy, rho),
            mle(cg, rho),
        ]
    }
}

pub(crate) proof fn lemma_finish_at(dims: ShapeDims, terms: Seq<Term>, ctxs: Seq<ClaimCtx>, rho: Seq<B128>, k: nat, l: int)
    requires
        0 <= l < k <= ctxs.len(),
    ensures
        honest_finish(dims, terms, ctxs, rho, k).len() == 3 * k,
        ({
            let ctx = ctxs[l];
            let (cx, cy, cg) = claim_columns(dims, terms, ctx.tr.parsed, ctx.tr.h_ops@);
            let f = honest_finish(dims, terms, ctxs, rho, k);
            &&& f[3 * l] == mle(cx, rho)
            &&& f[3 * l + 1] == mle(cy, rho)
            &&& f[3 * l + 2] == mle(cg, rho)
        }),
    decreases k,
{
    if k >= 2 {
        lemma_finish_at(dims, terms, ctxs, rho, (k - 1) as nat, if l < k - 1 { l } else { 0 });
    } else {
        assert(honest_finish(dims, terms, ctxs, rho, 0).len() == 0);
    }
}

proof fn lemma_meta_at(d_g: Seq<B128>, ctxs: Seq<ClaimCtx>, k: nat, l: int, o: int)
    requires
        0 <= l < k <= ctxs.len(),
        0 <= o < 8,
    ensures
        meta_values(d_g, ctxs, k).len() == 8 * k,
        meta_values(d_g, ctxs, k)[8 * l + o] == mle(d_g, meta_address(ctxs[l].tr.parsed, o)),
    decreases k,
{
    if k >= 2 {
        lemma_meta_at(d_g, ctxs, (k - 1) as nat, if l < k - 1 { l } else { 0 }, o);
    } else {
        assert(meta_values(d_g, ctxs, 0).len() == 0);
    }
}

/// The honest histogram values satisfy every claim's meta check.
pub proof fn law_honest_meta(dims: ShapeDims, terms: Seq<Term>, ctxs: Seq<ClaimCtx>, rho: Seq<B128>, l: int)
    requires
        dims.segmented(),
        forall|i: int| 0 <= i < terms.len() ==> term_in(dims, #[trigger] terms[i]),
        ctxs_fit(dims, ctxs),
        rho.len() == dims.n_t,
        0 <= l < ctxs.len(),
        ctxs[l].tr.parsed.lambda_and != one(),
    ensures
        meta_ok(
            ctxs[l],
            honest_finish(dims, terms, ctxs, rho, ctxs.len()),
            meta_values(histogram(dims, terms, 2, rho), ctxs, ctxs.len()),
            l,
        ),
{
    let ctx = ctxs[l];
    let parsed = ctx.tr.parsed;
    let h = ctx.tr.h_ops@;
    let k = ctxs.len();
    let d_g = histogram(dims, terms, 2, rho);
    let vals = meta_values(d_g, ctxs, k);
    lemma_finish_at(dims, terms, ctxs, rho, k, l);
    law_claim_reduction(dims, terms, parsed, h, rho);
    let m = m_d(dims, terms, rho);
    let p = claim_points(dims, parsed);
    let f = |o: int| gamma(parsed.lambda_and, h[o]) * mle(m, p[2 + o]);
    let g = |o: int| gamma(parsed.lambda_and, h[o]) * vals[8 * l + o];
    assert forall|o: int| 0 <= o < 8 implies #[trigger] f(o) == g(o) by {
        lemma_meta_at(d_g, ctxs, k, l, o);
        lemma_bits_len(o, 3);
        law_table_block(
            dims,
            histogram(dims, terms, 0, rho),
            histogram(dims, terms, 1, rho),
            d_g,
            meta_address(parsed, o),
        );
    }
    lemma_sum_ext(f, g, 8);
}

/// A claim in context is true: its value is the sum over the term table.
pub open spec fn true_claim(dims: ShapeDims, terms: Seq<Term>, ctx: ClaimCtx, value: B128) -> bool {
    &&& ctx.tr.parsed.lambda_and != one()
    &&& ctx.tr.dummy_weight == padding_weight(ctx.tr.parsed, ctx.tr.h_ops@)
    &&& ctx.sum == padded_value(value, dims.parity, ctx.tr.dummy_weight)
    &&& value == rows_sum(
        terms,
        eq_tensor(ctx.tr.parsed.r_x@),
        word_weights(dims, ctx.tr.parsed.r_y@, ctx.tr.parsed.r_segment),
        meta_weights(ctx.tr.parsed.lambda_and, ctx.tr.h_ops@, ctx.tr.parsed.r_s@),
        terms.len(),
    )
}

/// The sum that a claim's row sumcheck proves is the sum of the products of its columns, when the
/// claim's value is the sum over the term table.
pub proof fn law_honest_sum(dims: ShapeDims, terms: Seq<Term>, ctx: ClaimCtx, value: B128)
    requires
        dims.segmented(),
        terms.len() == dims.n_terms,
        parsed_fits(dims, ctx.tr.parsed),
        true_claim(dims, terms, ctx, value),
    ensures
        ({
            let (cx, cy, cg) = claim_columns(dims, terms, ctx.tr.parsed, ctx.tr.h_ops@);
            ctx.sum == product_sum(cx, cy, cg)
        }),
{
    broadcast use group_units;

    law_claim_sum(dims, terms, ctx.tr.parsed, ctx.tr.h_ops@);
}

/// The leaves' numerators evaluate to what the verifier expects of them.
pub proof fn law_leaf_num(dims: ShapeDims, rho: Seq<B128>, m: Seq<B128>, pi_lo: Seq<B128>, pi_hi: Seq<B128>)
    requires
        rho.len() <= dims.n_d,
        m.len() == exp2(dims.n_d as nat),
        pi_lo.len() == dims.n_d,
        pi_hi.len() == 2,
    ensures
        mle(leaf_num(dims, eq_tensor(rho), m), pi_lo + pi_hi) == leaf_num_eval(
            dims,
            rho,
            pi_lo,
            pi_hi,
            mle(m, pi_lo),
        ),
{
    let n = dims.n_d as nat;
    let w = padded(eq_tensor(rho), exp2(n));
    let ext = padded(rho, n);
    assert(w =~= eq_tensor(ext)) by {
        lemma_exp2_mono(rho.len(), n);
        assert forall|i: int| 0 <= i < exp2(n) implies #[trigger] w[i] == eq_at(i, ext) by {
            lemma_eq_at_extended(rho, n, i);
        }
    }
    law_mle_of_tensor(ext, pi_lo);
    law_eq_points_commutes(ext, pi_lo);
    law_mle_blocks(w, w, w, m, pi_lo, pi_hi);
    let e = eq_points(pi_lo, ext);
    law_distributes_right(block_eq(pi_hi, 0) + block_eq(pi_hi, 1), block_eq(pi_hi, 2), e);
    law_distributes_right(block_eq(pi_hi, 0), block_eq(pi_hi, 1), e);
}

/// Extending a point by zeros extends its indicator table by zeros.
proof fn lemma_eq_at_extended(rho: Seq<B128>, n: nat, i: int)
    requires
        rho.len() <= n,
        0 <= i < exp2(n),
    ensures
        eq_at(i, padded(rho, n)) == (if i < exp2(rho.len()) {
            eq_at(i, rho)
        } else {
            zero()
        }),
    decreases n,
{
    broadcast use group_units;

    let p = padded(rho, n);
    if n == rho.len() {
        assert(p =~= rho);
    } else {
        let m = (n - 1) as nat;
        assert(p.drop_last() =~= padded(rho, m));
        assert(p.last() == zero());
        lemma_exp2_mono(rho.len(), m);
        if i < exp2(m) {
            lemma_eq_at_extended(rho, m, i);
        }
    }
}

/// The extension of a constant table is the constant.
pub proof fn law_mle_const(c: B128, r: Seq<B128>)
    ensures
        mle(Seq::new(exp2(r.len()), |i: int| c), r) == c,
{
    broadcast use group_units;

    let v = Seq::new(exp2(r.len()), |i: int| c);
    let f = |i: int| v[i] * eq_tensor(r)[i];
    let g = |i: int| eq_at(i, r);
    crate::field::sums::lemma_sum_scale(c, g, f, exp2(r.len()));
    law_eq_mass(r);
    lemma_sum_ext(g, |i: int| eq_at(i, r), exp2(r.len()));
}

/// The extension of a table shifted by a constant.
proof fn lemma_mle_shift(tau: B128, v: Seq<B128>, w: Seq<B128>, r: Seq<B128>)
    requires
        v.len() == exp2(r.len()),
        w == Seq::new(v.len(), |i: int| tau + v[i]),
    ensures
        mle(w, r) == tau + mle(v, r),
{
    let c = Seq::new(exp2(r.len()), |i: int| tau);
    assert(w =~= table_add(c, v));
    law_mle_linear(tau, c, v, r);
    law_mle_const(tau, r);
}

/// The extension of the table of embedded indices is linear in the point: index bit `k`
/// contributes its basis element.
pub proof fn law_index_eval(r: Seq<B128>)
    requires
        r.len() <= 126,
    ensures
        mle(Seq::new(exp2(r.len()), |t: int| embed(t)), r) == index_eval(r, r.len()),
    decreases r.len(),
{
    broadcast use group_units;

    let n = r.len();
    let v = Seq::new(exp2(n), |t: int| embed(t));
    if n == 0 {
        assert(r =~= Seq::empty());
        crate::multilinear::mle::law_mle_constant(v);
    } else {
        let s = r.drop_last();
        let c = r.last();
        let half = exp2(s.len());
        let base = Seq::new(half, |t: int| embed(t));
        law_index_eval(s);
        law_mle_split(v, r);
        assert(lower(v) =~= base);
        let top = embed(half as int);
        let shifted = Seq::new(half, |i: int| top + base[i]);
        assert(upper(v) =~= shifted) by {
            assert forall|i: int| 0 <= i < half implies #[trigger] upper(v)[i] == shifted[i] by {
                lemma_exp2_mono(s.len() + 1, 128);
                assert((1 + 1) * half == exp2(s.len() + 1));
                lemma_embed_add(i, 1, s.len());
                assert(1 * half == half);
                law_add_commutes(embed(i), top);
            }
        }
        lemma_mle_shift(top, base, shifted, s);
        let m = mle(base, s);
        // (1 + c) m + c (top + m) == m + c top
        law_distributes_right(one(), c, m);
        law_distributes(c, top, m);
        law_add_associates(m, c * m, c * top + c * m);
        law_add_commutes(c * top, c * m);
        lemma_add_cancel(c * top, c * m);
        let f = |k: int| r[k] * embed(exp2(k as nat) as int);
        let g = |k: int| s[k] * embed(exp2(k as nat) as int);
        lemma_sum_ext(f, g, s.len());
        assert(sum(f, n) == sum(f, s.len()) + f(n - 1));
    }
}

/// The leaves' denominators evaluate to what the verifier expects of them.
pub proof fn law_leaf_den(dims: ShapeDims, terms: Seq<Term>, tau: B128, pi_lo: Seq<B128>, pi_hi: Seq<B128>, v: Seq<B128>)
    requires
        pi_lo.len() == dims.n_d,
        dims.n_d <= 126,
        pi_hi.len() == 2,
        forall|blk: int| 0 <= blk < 3 ==> #[trigger] v[blk] == mle(vk_column(dims, terms, blk), pi_lo),
    ensures
        mle(leaf_den(dims, terms, tau), pi_lo + pi_hi) == leaf_den_eval(tau, pi_lo, pi_hi, v),
{
    let (d0, d1, d2, d3) = (
        distances(dims, terms, tau, 0),
        distances(dims, terms, tau, 1),
        distances(dims, terms, tau, 2),
        index_distances(dims, tau),
    );
    law_mle_blocks(d0, d1, d2, d3, pi_lo, pi_hi);
    lemma_mle_shift(tau, vk_column(dims, terms, 0), d0, pi_lo);
    lemma_mle_shift(tau, vk_column(dims, terms, 1), d1, pi_lo);
    lemma_mle_shift(tau, vk_column(dims, terms, 2), d2, pi_lo);
    let idx = Seq::new(exp2(dims.n_d as nat), |t: int| embed(t));
    assert(d3 =~= Seq::new(idx.len(), |i: int| tau + idx[i]));
    lemma_mle_shift(tau, idx, d3, pi_lo);
    law_index_eval(pi_lo);
    assert(v[0] == mle(vk_column(dims, terms, 0), pi_lo));
    assert(v[1] == mle(vk_column(dims, terms, 1), pi_lo));
    assert(v[2] == mle(vk_column(dims, terms, 2), pi_lo));
}

/// The block evaluations of the row table amount to its evaluation at the leaf point with the two
/// selectors.
pub proof fn law_corner_claim(dims: ShapeDims, terms: Seq<Term>, pi_lo: Seq<B128>, rho_c: Seq<B128>, v: Seq<B128>)
    requires
        pi_lo.len() == dims.n_d,
        rho_c.len() == 2,
        forall|blk: int| 0 <= blk < 3 ==> #[trigger] v[blk] == mle(vk_column(dims, terms, blk), pi_lo),
    ensures
        corner_claim(v, rho_c) == mle(row_table(dims, terms), pi_lo + rho_c),
{
    broadcast use group_units;

    let z = zeros(exp2(dims.n_d as nat));
    law_mle_blocks(
        vk_column(dims, terms, 0),
        vk_column(dims, terms, 1),
        vk_column(dims, terms, 2),
        z,
        pi_lo,
        rho_c,
    );
    crate::multilinear::mle::law_mle_zeros(z, pi_lo);
    assert(v[0] == mle(vk_column(dims, terms, 0), pi_lo));
    assert(v[1] == mle(vk_column(dims, terms, 1), pi_lo));
    assert(v[2] == mle(vk_column(dims, terms, 2), pi_lo));
}

/// The honest evaluations of a batch are those of the histogram table at the batch's points.
pub proof fn lemma_honest_evals(dims: ShapeDims, terms: Seq<Term>, ctxs: Seq<ClaimCtx>, rho: Seq<B128>, k: nat)
    requires
        dims.segmented(),
        forall|i: int| 0 <= i < terms.len() ==> term_in(dims, #[trigger] terms[i]),
        ctxs_fit(dims, ctxs),
        rho.len() == dims.n_t,
        k <= ctxs.len(),
        forall|l: int| 0 <= l < ctxs.len() ==> (#[trigger] ctxs[l]).tr.parsed.lambda_and != one(),
    ensures
        ({
            let finish = honest_finish(dims, terms, ctxs, rho, ctxs.len());
            let vals = meta_values(histogram(dims, terms, 2, rho), ctxs, ctxs.len());
            let evals = batch_evals(finish, vals, k);
            let points = batch_points(dims, ctxs, k);
            let m = m_d(dims, terms, rho);
            &&& evals.len() == 10 * k
            &&& points.len() == 10 * k
            &&& forall|j: int| 0 <= j < 10 * k ==> #[trigger] evals[j] == mle(m, points[j])
            &&& forall|j: int| 0 <= j < 10 * k ==> (#[trigger] points[j]).len() == dims.n_a + 2
        }),
    decreases k,
{
    let n = ctxs.len();
    let finish = honest_finish(dims, terms, ctxs, rho, n);
    let d_g = histogram(dims, terms, 2, rho);
    let vals = meta_values(d_g, ctxs, n);
    let m = m_d(dims, terms, rho);
    if k > 0 {
        let l = k - 1;
        lemma_honest_evals(dims, terms, ctxs, rho, l as nat);
        let ctx = ctxs[l];
        let parsed = ctx.tr.parsed;
        let own = claim_points(dims, parsed);
        lemma_finish_at(dims, terms, ctxs, rho, n, l);
        lemma_meta_at(d_g, ctxs, n, l, 0);
        law_claim_reduction(dims, terms, parsed, ctx.tr.h_ops@, rho);
        let evals = batch_evals(finish, vals, k);
        let points = batch_points(dims, ctxs, k);
        assert forall|j: int| 0 <= j < 10 * k implies #[trigger] evals[j] == mle(m, points[j]) by {
            if j < 10 * l {
                assert(evals[j] == batch_evals(finish, vals, l as nat)[j]);
                assert(points[j] == batch_points(dims, ctxs, l as nat)[j]);
            } else {
                let i = j - 10 * l;
                assert(points[j] == own[i]);
                if i >= 2 {
                    let o = i - 2;
                    lemma_meta_at(d_g, ctxs, n, l, o);
                    lemma_bits_len(o, 3);
                    law_table_block(
                        dims,
                        histogram(dims, terms, 0, rho),
                        histogram(dims, terms, 1, rho),
                        d_g,
                        meta_address(parsed, o),
                    );
                    assert(evals[j] == vals[8 * l + o]);
                }
            }
        }
        assert forall|j: int| 0 <= j < 10 * k implies (#[trigger] points[j]).len() == dims.n_a + 2 by {
            if j < 10 * l {
                assert(points[j] == batch_points(dims, ctxs, l as nat)[j]);
            } else {
                assert(points[j] == own[j - 10 * l]);
            }
        }
    }
}

/// The batched sumcheck of an honest batch: its claim is the inner product of the batched weights
/// with the histogram table, and at the reduced point the weights evaluate to the batched
/// indicators.
pub proof fn law_honest_batch(
    dims: ShapeDims,
    terms: Seq<Term>,
    ctxs: Seq<ClaimCtx>,
    rho: Seq<B128>,
    pi_lo: Seq<B128>,
    phi: B128,
    sigma: Seq<B128>,
)
    requires
        dims.segmented(),
        forall|i: int| 0 <= i < terms.len() ==> term_in(dims, #[trigger] terms[i]),
        ctxs_fit(dims, ctxs),
        rho.len() == dims.n_t,
        forall|l: int| 0 <= l < ctxs.len() ==> (#[trigger] ctxs[l]).tr.parsed.lambda_and != one(),
        pi_lo.len() == dims.n_d,
        sigma.len() == dims.n_d,
    ensures
        ({
            let m = m_d(dims, terms, rho);
            let points = batch_points(dims, ctxs, ctxs.len()).push(pi_lo);
            let evals = batch_evals(
                honest_finish(dims, terms, ctxs, rho, ctxs.len()),
                meta_values(histogram(dims, terms, 2, rho), ctxs, ctxs.len()),
                ctxs.len(),
            ).push(mle(m, pi_lo));
            let n = dims.n_d as nat;
            let w = batch_weights(points, phi, n, points.len());
            &&& univariate(evals, phi) == dot(w, m, exp2(n))
            &&& mle(w, sigma) == batched_indicators(points, phi, sigma, points.len())
        }),
{
    let m = m_d(dims, terms, rho);
    let k = ctxs.len();
    lemma_honest_evals(dims, terms, ctxs, rho, k);
    let before = batch_points(dims, ctxs, k);
    let points = before.push(pi_lo);
    let evals = batch_evals(
        honest_finish(dims, terms, ctxs, rho, k),
        meta_values(histogram(dims, terms, 2, rho), ctxs, k),
        k,
    ).push(mle(m, pi_lo));
    let n = dims.n_d as nat;
    assert(m.len() == exp2(n)) by {
        lemma_exp2_add(dims.n_a as nat, 2);
        lemma_exp2_small();
    }
    assert forall|j: int| 0 <= j < points.len() implies (#[trigger] points[j]).len() == n by {
        if j < 10 * k {
            assert(points[j] == before[j]);
        }
    }
    law_batch_weights(points, phi, n, points.len(), m, sigma);
    let f = |j: int| mle(m, points[j]) * power(phi, j as nat);
    let g = |j: int| evals[j] * power(phi, j as nat);
    assert forall|j: int| 0 <= j < points.len() implies #[trigger] f(j) == g(j) by {
        if j < 10 * k {
            assert(points[j] == before[j]);
        }
    }
    lemma_sum_ext(f, g, points.len());
}

/// An honest run passes every check. For a term table, claims in context whose values are the sums
/// over the table, and any challenges:
///
/// - the sums that the row sumchecks prove are true;
/// - the meta checks hold;
/// - the fraction tree's root has numerator zero and a nonzero denominator;
/// - the leaves evaluate to what the verifier expects;
/// - the batched sumcheck's claim is true, and its weights evaluate to the batched indicators;
/// - the row table's claim is true.
pub proof fn law_honest_run(
    dims: ShapeDims,
    terms: Seq<Term>,
    ctxs: Seq<ClaimCtx>,
    values: Seq<B128>,
    rho: Seq<B128>,
    tau: B128,
    pi_lo: Seq<B128>,
    pi_hi: Seq<B128>,
    phi: B128,
    sigma: Seq<B128>,
    rho_c: Seq<B128>,
    corners: Seq<B128>,
)
    requires
        dims.segmented(),
        dims.n_a <= 124,
        terms.len() == dims.n_terms,
        forall|i: int| 0 <= i < terms.len() ==> term_in(dims, #[trigger] terms[i]),
        ctxs_fit(dims, ctxs),
        values.len() == ctxs.len(),
        forall|l: int|
            0 <= l < ctxs.len() ==> true_claim(dims, terms, #[trigger] ctxs[l], values[l]),
        rho.len() == dims.n_t,
        tau.bits >= exp2((dims.n_a + 2) as nat),
        pi_lo.len() == dims.n_d,
        pi_hi.len() == 2,
        sigma.len() == dims.n_d,
        rho_c.len() == 2,
        forall|blk: int|
            0 <= blk < 3 ==> #[trigger] corners[blk] == mle(vk_column(dims, terms, blk), pi_lo),
    ensures
        forall|l: int|
            0 <= l < ctxs.len() ==> {
                let (cx, cy, cg) = claim_columns(
                    dims,
                    terms,
                    ctxs[l].tr.parsed,
                    ctxs[l].tr.h_ops@,
                );
                (#[trigger] ctxs[l]).sum == product_sum(cx, cy, cg)
            },
        forall|l: int|
            0 <= l < ctxs.len() ==> meta_ok(
                #[trigger] ctxs[l],
                honest_finish(dims, terms, ctxs, rho, ctxs.len()),
                meta_values(histogram(dims, terms, 2, rho), ctxs, ctxs.len()),
                l,
            ),
        ({
            let m = m_d(dims, terms, rho);
            let num = leaf_num(dims, eq_tensor(rho), m);
            let den = leaf_den(dims, terms, tau);
            let root = tree_root(num, den, (dims.n_d + 2) as nat);
            &&& root.0 == zero()
            &&& root.1 != zero()
            &&& mle(num, pi_lo + pi_hi) == leaf_num_eval(dims, rho, pi_lo, pi_hi, mle(m, pi_lo))
            &&& mle(den, pi_lo + pi_hi) == leaf_den_eval(tau, pi_lo, pi_hi, corners)
        }),
        ({
            let m = m_d(dims, terms, rho);
            let points = batch_points(dims, ctxs, ctxs.len()).push(pi_lo);
            let evals = batch_evals(
                honest_finish(dims, terms, ctxs, rho, ctxs.len()),
                meta_values(histogram(dims, terms, 2, rho), ctxs, ctxs.len()),
                ctxs.len(),
            ).push(mle(m, pi_lo));
            let n = dims.n_d as nat;
            let w = batch_weights(points, phi, n, points.len());
            &&& univariate(evals, phi) == dot(w, m, exp2(n))
            &&& mle(w, sigma) == batched_indicators(points, phi, sigma, points.len())
        }),
        corner_claim(corners, rho_c) == mle(row_table(dims, terms), pi_lo + rho_c),
{
    assert forall|l: int| 0 <= l < ctxs.len() implies {
        let (cx, cy, cg) = claim_columns(dims, terms, ctxs[l].tr.parsed, ctxs[l].tr.h_ops@);
        (#[trigger] ctxs[l]).sum == product_sum(cx, cy, cg)
    } by {
        law_honest_sum(dims, terms, ctxs[l], values[l]);
    }
    assert forall|l: int| 0 <= l < ctxs.len() implies meta_ok(
        #[trigger] ctxs[l],
        honest_finish(dims, terms, ctxs, rho, ctxs.len()),
        meta_values(histogram(dims, terms, 2, rho), ctxs, ctxs.len()),
        l,
    ) by {
        law_honest_meta(dims, terms, ctxs, rho, l);
    }
    let m = m_d(dims, terms, rho);
    assert(m.len() == exp2(dims.n_d as nat)) by {
        lemma_exp2_add(dims.n_a as nat, 2);
        lemma_exp2_small();
    }
    crate::poles::law_honest_root(dims, terms, rho, tau);
    law_leaf_num(dims, rho, m, pi_lo, pi_hi);
    law_leaf_den(dims, terms, tau, pi_lo, pi_hi, corners);
    law_honest_batch(dims, terms, ctxs, rho, pi_lo, phi, sigma);
    law_corner_claim(dims, terms, pi_lo, rho_c, corners);
}

/// The reduced evaluation of the batched row sumcheck, when it tells the truth: the batch of the
/// products of the claims' columns at the row challenge.
pub open spec fn row_products(dims: ShapeDims, terms: Seq<Term>, ctxs: Seq<ClaimCtx>, rho: Seq<B128>) -> Seq<B128> {
    Seq::new(
        ctxs.len(),
        |l: int|
            {
                let (cx, cy, cg) = claim_columns(
                    dims,
                    terms,
                    ctxs[l].tr.parsed,
                    ctxs[l].tr.h_ops@,
                );
                mle(cx, rho) * mle(cy, rho) * mle(cg, rho)
            },
    )
}

/// The batched weights of a run.
pub open spec fn run_weights(dims: ShapeDims, ctxs: Seq<ClaimCtx>, run: CommittedRun) -> Seq<B128> {
    let points = run.points(dims, ctxs);
    batch_weights(points, run.phi, dims.n_d as nat, points.len())
}

/// Every message of a run came, and no sub-protocol was rejected.
pub open spec fn complete(run: CommittedRun) -> bool {
    &&& run.phase_a is Ok
    &&& run.finish is Ok
    &&& run.d_vals is Ok
    &&& run.digest_d is Ok
    &&& run.d_root is Ok
    &&& run.leaf is Ok
    &&& run.corners is Ok
    &&& run.phase_b is Ok
    &&& run.m is Ok
    &&& run.vk_root is Ok
    &&& run.reduction is Ok
    &&& run.alphas is Ok
    &&& run.opening is Ok
}

/// The messages of a run are those of the honest prover.
pub open spec fn honest_messages(dims: ShapeDims, terms: Seq<Term>, ctxs: Seq<ClaimCtx>, run: CommittedRun) -> bool {
    let rho = run.rho();
    let m = m_d(dims, terms, rho);
    &&& run.finish->Ok_0@ == honest_finish(dims, terms, ctxs, rho, ctxs.len())
    &&& run.d_vals->Ok_0@ == meta_values(histogram(dims, terms, 2, rho), ctxs, ctxs.len())
    &&& run.d_root->Ok_0 == tree_root(
        leaf_num(dims, eq_tensor(rho), m),
        leaf_den(dims, terms, run.tau),
        (dims.n_d + 2) as nat,
    ).1
    &&& forall|blk: int|
        0 <= blk < 3 ==> #[trigger] run.corners->Ok_0@[blk] == mle(
            vk_column(dims, terms, blk),
            run.pi_lo(dims),
        )
    &&& run.corners->Ok_0@[3] == mle(m, run.pi_lo(dims))
    &&& run.m->Ok_0 == mle(m, run.sigma())
    &&& run.alphas->Ok_0@[0] == mle(row_table(dims, terms), run.shared_point())
    &&& run.alphas->Ok_0@[1] == mle(m, run.shared_point().take(dims.n_d as int))
}

/// The sub-protocols of a run tell the truth: what they reduce to are the evaluations of what they
/// are about, and both openings succeed.
pub open spec fn truthful(dims: ShapeDims, terms: Seq<Term>, ctxs: Seq<ClaimCtx>, vk_digest: Seq<u8>, run: CommittedRun) -> bool {
    let rho = run.rho();
    let m = m_d(dims, terms, rho);
    let r = run.shared_point();
    let len = exp2((dims.n_d + 2) as nat);
    &&& run.phase_a->Ok_0.eval == univariate(
        row_products(dims, terms, ctxs, rho),
        run.phase_a->Ok_0.batch_coeff,
    )
    &&& run.leaf->Ok_0.point@.len() == dims.n_d + 2
    &&& run.leaf->Ok_0.num_eval == mle(
        leaf_num(dims, eq_tensor(rho), m),
        run.leaf->Ok_0.point@,
    )
    &&& run.leaf->Ok_0.den_eval == mle(leaf_den(dims, terms, run.tau), run.leaf->Ok_0.point@)
    &&& run.phase_b->Ok_0.eval == mle(run_weights(dims, ctxs, run), run.sigma()) * mle(
        m,
        run.sigma(),
    )
    &&& run.vk_root->Ok_0@ == vk_digest
    &&& run.reduction->Ok_0.eval == univariate(
        seq![
            mle(row_table(dims, terms), r) * mle(eq_tensor(run.vk_point(dims)), r),
            mle(padded(m, len), r) * mle(repeated(eq_tensor(run.sigma()), len), r),
        ],
        run.reduction->Ok_0.batch_coeff,
    )
    &&& run.opening->Ok_0
}

/// The claims that a verifier hands to the sub-protocols of a run are true of the tables that they
/// are about: the row sums, the root fraction, the batched evaluations, the row table's evaluation,
/// and the combined evaluation of both tables.
pub open spec fn claims_true(dims: ShapeDims, terms: Seq<Term>, ctxs: Seq<ClaimCtx>, lift: nat, run: CommittedRun) -> bool {
    let rho = run.rho();
    let m = m_d(dims, terms, rho);
    let n = ((dims.n_d + 2) as nat, dims.n_d as nat);
    &&& forall|l: int|
        0 <= l < ctxs.len() ==> {
            let (cx, cy, cg) = claim_columns(
                dims,
                terms,
                ctxs[l].tr.parsed,
                ctxs[l].tr.h_ops@,
            );
            (#[trigger] ctxs[l]).sum == product_sum(cx, cy, cg)
        }
    &&& tree_root(leaf_num(dims, eq_tensor(rho), m), leaf_den(dims, terms, run.tau), n.0) == (
        zero(),
        run.d_root->Ok_0,
    )
    &&& univariate(
        batch_evals(run.finish->Ok_0@, run.d_vals->Ok_0@, ctxs.len()).push(
            run.corners->Ok_0@[3],
        ),
        run.phi,
    ) == dot(run_weights(dims, ctxs, run), m, exp2(n.1))
    &&& corner_claim(run.corners->Ok_0@, run.rho_c@) == mle(
        row_table(dims, terms),
        run.vk_point(dims),
    )
    &&& combined_target(n, (0, lift), run.alphas->Ok_0@, run.outer, run.shared_point()) == mle(
        combined_table((row_table(dims, terms), m), n, (0, lift), run.outer),
        run.shared_point(),
    )
}

/// An honest prover is accepted. For a term table, claims in context whose values are the sums over
/// the table, and any challenges (the pole challenge beyond all committed values): every claim that
/// the verifier hands to a sub-protocol is true, and with sub-protocols that tell the truth every
/// check passes.
pub proof fn law_honest_accepted(
    dims: ShapeDims,
    terms: Seq<Term>,
    ctxs: Seq<ClaimCtx>,
    values: Seq<B128>,
    vk_digest: Seq<u8>,
    lift: nat,
    run: CommittedRun,
)
    requires
        dims.segmented(),
        dims.n_a <= 124,
        terms.len() == dims.n_terms,
        forall|i: int| 0 <= i < terms.len() ==> term_in(dims, #[trigger] terms[i]),
        ctxs_fit(dims, ctxs),
        values.len() == ctxs.len(),
        forall|l: int|
            0 <= l < ctxs.len() ==> true_claim(dims, terms, #[trigger] ctxs[l], values[l]),
        lift <= 2,
        run.fits(dims, ctxs.len()),
        run.tau.bits >= exp2((dims.n_a + 2) as nat),
        complete(run),
        honest_messages(dims, terms, ctxs, run),
        truthful(dims, terms, ctxs, vk_digest, run),
    ensures
        run_error(dims, ctxs, vk_digest, run) is None,
        claims_true(dims, terms, ctxs, lift, run),
{
    let rho = run.rho();
    let m = m_d(dims, terms, rho);
    let (pi_lo, pi_hi) = (run.pi_lo(dims), run.pi_hi(dims));
    let corners = run.corners->Ok_0@;
    let r = run.shared_point();
    assert(pi_lo + pi_hi =~= run.leaf->Ok_0.point@);
    law_honest_run(
        dims,
        terms,
        ctxs,
        values,
        rho,
        run.tau,
        pi_lo,
        pi_hi,
        run.phi,
        run.sigma(),
        run.rho_c@,
        corners,
    );
    let finish = run.finish->Ok_0@;
    assert(finish_products(finish, ctxs.len()) =~= row_products(dims, terms, ctxs, rho)) by {
        assert forall|l: int| 0 <= l < ctxs.len() implies #[trigger] finish_products(
            finish,
            ctxs.len(),
        )[l] == row_products(dims, terms, ctxs, rho)[l] by {
            lemma_finish_at(dims, terms, ctxs, rho, ctxs.len(), l);
        }
    }
    lemma_meta_fault(ctxs, finish, run.d_vals->Ok_0@, ctxs.len(), ctxs.len() as int);
    assert(rows_error(ctxs, run) is None);
    assert(leaves_error(dims, run) is None);
    law_mul_commutes(mle(m, run.sigma()), mle(run_weights(dims, ctxs, run), run.sigma()));
    assert(batch_error(dims, ctxs, run) is None);
    let len = exp2((dims.n_d + 2) as nat);
    let rows = row_table(dims, terms);
    lemma_exp2_add(dims.n_d as nat, 2);
    lemma_exp2_add(dims.n_a as nat, 2);
    lemma_exp2_small();
    assert(rows.len() == len);
    assert(m.len() == exp2(dims.n_d as nat));
    law_contribution(rows, run.vk_point(dims), r);
    law_contribution(m, run.sigma(), r);
    assert(r.take((dims.n_d + 2) as int) =~= r);
    assert(padded(rows, len) =~= rows);
    let t = eq_tensor(run.vk_point(dims));
    assert(repeated(t, len) =~= t) by {
        assert forall|j: int| 0 <= j < len implies #[trigger] repeated(t, len)[j] == t[j] by {
            vstd::arithmetic::div_mod::lemma_small_mod(j as nat, len);
        }
    }
    assert(recombined(dims, run) == run.reduction->Ok_0.eval);
    law_combined_eval(
        (rows, m),
        ((dims.n_d + 2) as nat, dims.n_d as nat),
        (0, lift),
        run.outer,
        r,
        run.alphas->Ok_0@,
    );
}

/// Changing an entry of the histogram table's zero block cannot be seen at any point of a claim.
pub proof fn law_tamper_invisible(dims: ShapeDims, m: Seq<B128>, i: int, c: B128, addr: Seq<B128>, c0: B128, c1: B128)
    requires
        dims.n_d == dims.n_a + 2,
        m.len() == exp2(dims.n_d as nat),
        3 * exp2(dims.n_a as nat) <= i < m.len(),
        addr.len() <= dims.n_a,
        c0 == zero() || c1 == zero(),
        c0 == zero() || c0 == one(),
        c1 == zero() || c1 == one(),
    ensures
        mle(m.update(i, c), table_point(dims, addr, c0, c1)) == mle(
            m,
            table_point(dims, addr, c0, c1),
        ),
{
    broadcast use group_units;

    let p = table_point(dims, addr, c0, c1);
    let a = padded(addr, dims.n_a as nat);
    let hi = seq![c0, c1];
    let w = exp2(dims.n_a as nat) as int;
    lemma_exp2_add(dims.n_a as nat, 2);
    lemma_exp2_small();
    let lo = i - 3 * w;
    law_eq_at_concat(lo, 3, a, hi);
    assert(lo + w * 3 == i);
    // The indicator of the zero block vanishes.
    assert(eq_at(3, hi) == zero()) by {
        assert(hi.drop_last() =~= seq![c0]);
        assert(seq![c0].drop_last() =~= Seq::<B128>::empty());
        reveal_with_fuel(eq_at, 3);
    }
    assert(eq_at(i, p) == zero());
    let v = m.update(i, c);
    let f = |j: int| v[j] * eq_tensor(p)[j];
    let g = |j: int| m[j] * eq_tensor(p)[j];
    assert forall|j: int| 0 <= j < m.len() implies #[trigger] f(j) == g(j) by {}
    lemma_sum_ext(f, g, exp2(p.len()));
}

/// But the fraction tree sees it: its root numerator is not zero.
pub proof fn law_tamper_caught(dims: ShapeDims, terms: Seq<Term>, rho: Seq<B128>, tau: B128)
    requires
        dims.segmented(),
        dims.n_a <= 125,
        forall|i: int| 0 <= i < terms.len() ==> term_in(dims, #[trigger] terms[i]),
        rho.len() == dims.n_t,
        tau.bits >= exp2((dims.n_a + 2) as nat),
    ensures
        tree_root(
            leaf_num(
                dims,
                eq_tensor(rho),
                committed_table(dims, terms, rho, Step2Tamper::MdBlock3),
            ),
            leaf_den(dims, terms, tau),
            (dims.n_d + 2) as nat,
        ).0 != zero(),
{
    broadcast use group_units;

    let q = exp2(dims.n_a as nat) as int;
    lemma_exp2_pos(dims.n_a as nat);
    let n = exp2(dims.n_d as nat);
    lemma_exp2_add(dims.n_a as nat, 2);
    lemma_exp2_add(dims.n_d as nat, 2);
    lemma_exp2_small();
    let i = tampered_index(dims);
    assert(3 * q <= i < 4 * q) by {
        vstd::arithmetic::div_mod::lemma_mod_bound(12345, q);
    }
    let m = m_d(dims, terms, rho);
    let t = committed_table(dims, terms, rho, Step2Tamper::MdBlock3);
    let num = leaf_num(dims, eq_tensor(rho), m);
    let bad = leaf_num(dims, eq_tensor(rho), t);
    let den = leaf_den(dims, terms, tau);
    law_poles_cancel(dims, terms, rho, tau);
    let k = 3 * n + i;
    // The bad sum is the good sum plus one pole term.
    let f = |j: int| num[j] * inv(den[j]);
    let b = |j: int| bad[j] * inv(den[j]);
    let d = |j: int| if j == k { inv(den[k]) } else { zero() };
    assert forall|j: int| 0 <= j < 4 * n implies #[trigger] b(j) == f(j) + d(j) by {
        if j == k {
            assert(bad[k] == num[k] + one());
            law_distributes_right(num[k], one(), inv(den[k]));
        } else {
            assert(bad[j] == num[j]);
        }
    }
    lemma_sum_add(f, d, b, 4 * n);
    lemma_sum_single(d, 4 * n, k);
    assert(den[k] != zero());
    law_inverse(den[k]);
    assert(fraction_sum(bad, den, 4 * n) == inv(den[k]));
    law_tree_root_zero(bad, den, (dims.n_d + 2) as nat);
}

} // verus!
