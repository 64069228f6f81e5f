//! Why false claims are caught.
//!
//! Distinct poles cannot cancel each other, so a fraction sum over a false histogram table vanishes
//! at few challenges only. Over the true table, batched evaluations pin the evaluations of every
//! claim's columns, and with them the claim's value.

use crate::claim::{
    gamma, meta_weights, padding_weight, parsed_fits, rows_sum, word_weights,
};
use crate::cubic::product_sum;
use crate::discharge::{batch_weights, law_batch_weights, padded_value, ClaimCtx};
use crate::encode::{embed, law_embed_injective, lemma_exp2_128};
use crate::field::element::{one, zero, B128};
use crate::field::inverse::{inv, law_inverse, law_no_zero_divisors};
use crate::field::ring::{
    group_units, law_add_associates, law_add_commutes, law_distributes_right, law_mul_associates,
    law_mul_commutes, lemma_sum_zero,
};
use crate::field::sums::{lemma_sum_add, lemma_sum_ext, lemma_sum_scale, power, sum};
use crate::fracadd::{fraction_sum, law_tree_root_zero, tree_root};
use crate::histogram::{claim_points, padded};
use crate::multilinear::eq::eq_tensor;
use crate::multilinear::exp2::{exp2, lemma_exp2_mono};
use crate::multilinear::mle::{dot, mle};
use crate::multilinear::univariate::{law_batch_binds, univariate};
use crate::poles::{
    distances, index_distances, law_poles_cancel, leaf_den, leaf_num, lemma_domain,
    lemma_four_blocks,
};
use crate::reduction::{claim_columns, law_claim_reduction, law_claim_sum, m_d};
use crate::step2::common::{batch_evals, batch_points, ctxs_fit};
use crate::step2::laws::{law_leaf_den, law_leaf_num, run_weights};
use crate::step2::prove::lemma_batch_points;
use crate::step2::run::{batch_error, leaves_error, rows_error, run_error, CommittedRun};
use crate::step2::verify::meta_ok;
use crate::table::{term_in, ShapeDims, Term};
use crate::vk::vk_column;
use vstd::prelude::*;

verus! {

/// A sum of fractions with numerators `c` and poles `a`, at a challenge.
pub open spec fn pole_sum(c: Seq<B128>, a: Seq<B128>, t: B128, n: nat) -> B128 {
    sum(|i: int| c[i] * inv(t + a[i]), n)
}

/// `(t + l) * (c / (t + a)) = c + c (l + a) / (t + a)`.
proof fn lemma_move_pole(c: B128, a: B128, t: B128, l: B128)
    requires
        t + a != zero(),
    ensures
        (t + l) * (c * inv(t + a)) == c + (c * (l + a)) * inv(t + a),
{
    broadcast use group_units;

    let u = t + a;
    let w = inv(u);
    law_inverse(u);
    // t + l = (t + a) + (l + a)
    law_add_commutes(l, a);
    law_add_associates(u, a, l);
    law_add_associates(t, a, a);
    crate::field::ring::law_add_self(a);
    assert(u + (l + a) == t + l);
    law_distributes_right(u, l + a, c * w);
    law_mul_commutes(c, w);
    law_mul_associates(u, w, c);
    assert(u * (c * w) == c);
    law_mul_associates(l + a, c, w);
    law_mul_commutes(l + a, c);
}

/// `1 / u + 1 / w = (u + w) / (u w)`, with a common factor.
proof fn lemma_difference(d: B128, u: B128, w: B128)
    requires
        u != zero(),
        w != zero(),
    ensures
        d * inv(u) + d * inv(w) == (u + w) * ((d * inv(w)) * inv(u)),
{
    broadcast use group_units;

    law_inverse(u);
    law_inverse(w);
    let (iu, iw) = (inv(u), inv(w));
    law_distributes_right(u, w, (d * iw) * iu);
    law_mul_commutes(d * iw, iu);
    law_mul_associates(u, iu, d * iw);
    assert(u * (iu * (d * iw)) == d * iw);
    law_mul_commutes(d, iw);
    law_mul_associates(iu, iw, d);
    law_mul_commutes(iu, iw);
    law_mul_associates(iw, iu, d);
    law_mul_associates(w, iw, iu * d);
    assert(w * (iw * (iu * d)) == iu * d);
    law_mul_commutes(iu, d);
    law_add_commutes(d * iu, d * iw);
}

/// Fractions with distinct poles whose sum vanishes at as many challenges as there are poles have
/// numerators zero.
pub proof fn law_poles_independent(c: Seq<B128>, a: Seq<B128>, ts: Seq<B128>)
    requires
        a.len() == c.len(),
        ts.len() >= c.len(),
        a.no_duplicates(),
        ts.no_duplicates(),
        forall|k: int, i: int|
            0 <= k < ts.len() && 0 <= i < a.len() ==> #[trigger] ts[k] + #[trigger] a[i] != zero(),
        forall|k: int| 0 <= k < ts.len() ==> pole_sum(c, a, #[trigger] ts[k], c.len()) == zero(),
    ensures
        forall|i: int| 0 <= i < c.len() ==> c[i] == zero(),
    decreases c.len(),
{
    broadcast use group_units;

    if c.len() > 0 {
        let n = c.len();
        let m = (n - 1) as nat;
        let l = a[m as int];
        let s = ts.last();
        let d = Seq::new(n, |i: int| c[i] * (l + a[i]));
        let e = Seq::new(m, |i: int| d[i] * inv(s + a[i]));
        let total = sum(|i: int| c[i], n);
        assert(ts[ts.len() - 1] == s);
        assert forall|k: int| 0 <= k < ts.len() implies pole_sum(d, a, #[trigger] ts[k], m)
            == total by {
            lemma_moved_sum(c, a, ts[k], d);
        }
        let rest = ts.drop_last();
        let poles = a.drop_last();
        assert forall|k: int| 0 <= k < rest.len() implies pole_sum(e, poles, #[trigger] rest[k], m)
            == zero() by {
            let t = rest[k];
            assert(t == ts[k]);
            assert(ts[k] != ts[ts.len() - 1]);
            lemma_sum_zero(t, s);
            let f = |i: int| d[i] * inv(t + a[i]);
            let g = |i: int| d[i] * inv(s + a[i]);
            let h = |i: int| f(i) + g(i);
            let q = |i: int| e[i] * inv(t + poles[i]);
            lemma_sum_add(f, g, h, m);
            assert(sum(f, m) == pole_sum(d, a, t, m));
            assert(sum(g, m) == pole_sum(d, a, s, m));
            assert forall|i: int| 0 <= i < m implies #[trigger] h(i) == (t + s) * q(i) by {
                assert(ts[k] + a[i] != zero());
                assert(ts[ts.len() - 1] + a[i] != zero());
                lemma_difference(d[i], t + a[i], s + a[i]);
                // (t + a) + (s + a) = t + s
                crate::field::ring::lemma_add_exchange(t, a[i], s, a[i]);
                crate::field::ring::law_add_self(a[i]);
            }
            lemma_sum_scale(t + s, q, h, m);
            law_no_zero_divisors(t + s, sum(q, m));
        }
        assert forall|k: int, i: int|
            0 <= k < rest.len() && 0 <= i < poles.len() implies #[trigger] rest[k]
            + #[trigger] poles[i] != zero() by {
            assert(ts[k] + a[i] != zero());
        }
        law_poles_independent(e, poles, rest);
        assert forall|i: int| 0 <= i < m implies c[i] == zero() by {
            assert(e[i] == zero());
            assert(ts[ts.len() - 1] + a[i] != zero());
            law_inverse(s + a[i]);
            law_no_zero_divisors(d[i], inv(s + a[i]));
            assert(a[i] != a[m as int]);
            lemma_sum_zero(l, a[i]);
            law_no_zero_divisors(c[i], l + a[i]);
        }
        let f = |i: int| c[i] * inv(s + a[i]);
        assert forall|i: int| 0 <= i < n && i != m implies #[trigger] f(i) == zero() by {}
        crate::field::sums::lemma_sum_single(f, n, m as int);
        assert(pole_sum(c, a, ts[ts.len() - 1], n) == zero());
        assert(ts[ts.len() - 1] + a[m as int] != zero());
        law_inverse(s + l);
        law_no_zero_divisors(c[m as int], inv(s + l));
    }
}

/// Multiplying a vanishing fraction sum by the distance from its last pole.
proof fn lemma_moved_sum(c: Seq<B128>, a: Seq<B128>, t: B128, d: Seq<B128>)
    requires
        c.len() > 0,
        a.len() == c.len(),
        forall|i: int| 0 <= i < a.len() ==> t + #[trigger] a[i] != zero(),
        d == Seq::new(c.len(), |i: int| c[i] * (a.last() + a[i])),
        pole_sum(c, a, t, c.len()) == zero(),
    ensures
        pole_sum(d, a, t, (c.len() - 1) as nat) == sum(|i: int| c[i], c.len()),
{
    broadcast use group_units;

    let n = c.len();
    let m = (n - 1) as nat;
    let l = a.last();
    let f = |i: int| c[i] * inv(t + a[i]);
    let g = |i: int| (t + l) * f(i);
    let p = |i: int| c[i];
    let q = |i: int| d[i] * inv(t + a[i]);
    lemma_sum_scale(t + l, f, g, n);
    assert forall|i: int| 0 <= i < n implies #[trigger] g(i) == p(i) + q(i) by {
        lemma_move_pole(c[i], a[i], t, l);
    }
    lemma_sum_add(p, q, g, n);
    assert(sum(g, n) == zero());
    lemma_sum_zero(sum(p, n), sum(q, n));
    crate::field::ring::law_add_self(l);
    assert(d[m as int] == c[m as int] * zero());
    assert(q(m as int) == zero());
    assert(sum(q, n) == sum(q, m) + q(m as int));
    assert(sum(|i: int| c[i], n) == sum(p, n));
    assert(pole_sum(d, a, t, m) == sum(q, m));
}

/// A table whose fraction tree has numerator zero at its root, for as many challenges beyond the
/// committed values as the table has entries, is the histogram table of the rows. A false table
/// therefore passes at fewer challenges than it has entries.
pub proof fn law_fraction_check_binds(
    dims: ShapeDims,
    terms: Seq<Term>,
    rho: Seq<B128>,
    table: Seq<B128>,
    taus: Seq<B128>,
)
    requires
        dims.segmented(),
        dims.n_a <= 125,
        forall|i: int| 0 <= i < terms.len() ==> term_in(dims, #[trigger] terms[i]),
        rho.len() == dims.n_t,
        table.len() == exp2(dims.n_d as nat),
        taus.len() >= table.len(),
        taus.no_duplicates(),
        forall|k: int|
            0 <= k < taus.len() ==> (#[trigger] taus[k]).bits >= exp2((dims.n_a + 2) as nat),
        forall|k: int|
            0 <= k < taus.len() ==> tree_root(
                leaf_num(dims, eq_tensor(rho), table),
                leaf_den(dims, terms, #[trigger] taus[k]),
                (dims.n_d + 2) as nat,
            ).0 == zero(),
    ensures
        table == m_d(dims, terms, rho),
{
    broadcast use group_units;

    let n = exp2(dims.n_d as nat);
    let truth = m_d(dims, terms, rho);
    lemma_domain(dims);
    assert(truth.len() == n);
    let c = Seq::new(n, |i: int| table[i] + truth[i]);
    let a = Seq::new(n, |i: int| embed(i));
    lemma_exp2_mono(dims.n_d as nat, 127);
    lemma_exp2_128();
    assert(a.no_duplicates()) by {
        assert forall|i: int, j: int| 0 <= i < n && 0 <= j < n && i != j implies a[i] != a[j] by {
            if a[i] == a[j] {
                law_embed_injective(i, j);
            }
        }
    }
    assert forall|k: int, i: int|
        0 <= k < taus.len() && 0 <= i < n implies #[trigger] taus[k] + #[trigger] a[i]
        != zero() by {
        lemma_sum_zero(taus[k], embed(i));
    }
    assert forall|k: int| 0 <= k < taus.len() implies pole_sum(c, a, #[trigger] taus[k], n)
        == zero() by {
        let t = taus[k];
        let w = padded(eq_tensor(rho), n);
        let (d0, d1, d2, d3) = (
            distances(dims, terms, t, 0),
            distances(dims, terms, t, 1),
            distances(dims, terms, t, 2),
            index_distances(dims, t),
        );
        law_poles_cancel(dims, terms, rho, t);
        lemma_four_blocks(n, w, w, w, truth, d0, d1, d2, d3);
        lemma_four_blocks(n, w, w, w, table, d0, d1, d2, d3);
        let num = leaf_num(dims, eq_tensor(rho), table);
        let den = leaf_den(dims, terms, t);
        law_tree_root_zero(num, den, (dims.n_d + 2) as nat);
        let rows = fraction_sum(w, d0, n) + fraction_sum(w, d1, n) + fraction_sum(w, d2, n);
        lemma_sum_zero(rows, fraction_sum(truth, d3, n));
        lemma_sum_zero(rows, fraction_sum(table, d3, n));
        let f = |i: int| table[i] * inv(d3[i]);
        let g = |i: int| truth[i] * inv(d3[i]);
        let h = |i: int| c[i] * inv(t + a[i]);
        assert forall|i: int| 0 <= i < n implies #[trigger] h(i) == f(i) + g(i) by {
            law_distributes_right(table[i], truth[i], inv(t + embed(i)));
        }
        lemma_sum_add(f, g, h, n);
        crate::field::ring::law_add_self(sum(f, n));
        assert(fraction_sum(table, d3, n) == sum(f, n));
        assert(fraction_sum(truth, d3, n) == sum(g, n));
    }
    law_poles_independent(c, a, taus);
    assert forall|i: int| 0 <= i < n implies table[i] == truth[i] by {
        assert(c[i] == zero());
        lemma_sum_zero(table[i], truth[i]);
    }
    assert(table =~= truth);
}

/// Where the evaluations and points of a claim stand in a batch.
proof fn lemma_batch_at(
    dims: ShapeDims,
    ctxs: Seq<ClaimCtx>,
    finish: Seq<B128>,
    d_vals: Seq<B128>,
    k: nat,
    l: int,
)
    requires
        0 <= l < k <= ctxs.len(),
        d_vals.len() == 8 * ctxs.len(),
    ensures
        batch_evals(finish, d_vals, k).len() == 10 * k,
        batch_points(dims, ctxs, k).len() == 10 * k,
        batch_evals(finish, d_vals, k)[10 * l] == finish[3 * l],
        batch_evals(finish, d_vals, k)[10 * l + 1] == finish[3 * l + 1],
        forall|o: int|
            0 <= o < 8 ==> batch_evals(finish, d_vals, k)[10 * l + 2 + o] == #[trigger] d_vals[8 * l
                + o],
        forall|i: int|
            0 <= i < 10 ==> batch_points(dims, ctxs, k)[10 * l + i] == #[trigger] claim_points(
                dims,
                ctxs[l].tr.parsed,
            )[i],
    decreases k,
{
    let m = (k - 1) as nat;
    let e = batch_evals(finish, d_vals, m);
    let p = batch_points(dims, ctxs, m);
    if k >= 2 {
        lemma_batch_at(dims, ctxs, finish, d_vals, m, if l < k - 1 { l } else { 0 });
    }
    assert(e.len() == 10 * m && p.len() == 10 * m);
    let all = batch_evals(finish, d_vals, k);
    let pts = batch_points(dims, ctxs, k);
    if l < k - 1 {
        assert(all[10 * l] == e[10 * l] && all[10 * l + 1] == e[10 * l + 1]);
        assert forall|o: int| 0 <= o < 8 implies all[10 * l + 2 + o] == #[trigger] d_vals[8 * l
            + o] by {
            assert(all[10 * l + 2 + o] == e[10 * l + 2 + o]);
        }
        assert forall|i: int| 0 <= i < 10 implies pts[10 * l + i] == #[trigger] claim_points(
            dims,
            ctxs[l].tr.parsed,
        )[i] by {
            assert(pts[10 * l + i] == p[10 * l + i]);
        }
    } else {
        assert forall|o: int| 0 <= o < 8 implies all[10 * l + 2 + o] == #[trigger] d_vals[8 * l
            + o] by {
            assert(d_vals.subrange(8 * l, 8 * l + 8)[o] == d_vals[8 * l + o]);
        }
    }
}

/// Evaluations whose batches agree with the batched weights against a table, at as many challenges
/// as there are evaluations, are the table's evaluations at the batch's points.
pub proof fn law_batch_pins_evaluations(
    points: Seq<Seq<B128>>,
    evals: Seq<B128>,
    table: Seq<B128>,
    n: nat,
    phis: Seq<B128>,
)
    requires
        table.len() == exp2(n),
        forall|j: int| 0 <= j < points.len() ==> (#[trigger] points[j]).len() == n,
        evals.len() == points.len(),
        phis.len() >= evals.len(),
        phis.no_duplicates(),
        forall|k: int|
            0 <= k < phis.len() ==> univariate(evals, #[trigger] phis[k]) == dot(
                batch_weights(points, phis[k], n, points.len()),
                table,
                exp2(n),
            ),
    ensures
        forall|j: int| 0 <= j < points.len() ==> evals[j] == mle(table, #[trigger] points[j]),
{
    let truth = Seq::new(points.len(), |j: int| mle(table, points[j]));
    assert forall|k: int| 0 <= k < phis.len() implies univariate(evals, #[trigger] phis[k])
        == univariate(truth, phis[k]) by {
        let phi = phis[k];
        law_batch_weights(points, phi, n, points.len(), table, Seq::new(n, |i: int| zero()));
        let f = |j: int| mle(table, points[j]) * power(phi, j as nat);
        let g = |j: int| truth[j] * power(phi, j as nat);
        lemma_sum_ext(f, g, points.len());
    }
    law_batch_binds(evals, truth, phis);
}

/// True evaluations of the histogram table, with the meta checks, pin the three evaluations of
/// every claim: they are those of the claim's columns at the row challenge.
pub proof fn law_checks_pin_columns(
    dims: ShapeDims,
    terms: Seq<Term>,
    ctxs: Seq<ClaimCtx>,
    rho: Seq<B128>,
    finish: Seq<B128>,
    d_vals: Seq<B128>,
)
    requires
        dims.segmented(),
        forall|i: int| 0 <= i < terms.len() ==> term_in(dims, #[trigger] terms[i]),
        ctxs_fit(dims, ctxs),
        rho.len() == dims.n_t,
        forall|l: int| 0 <= l < ctxs.len() ==> (#[trigger] ctxs[l]).tr.parsed.lambda_and != one(),
        finish.len() == 3 * ctxs.len(),
        d_vals.len() == 8 * ctxs.len(),
        forall|l: int|
            0 <= l < ctxs.len() ==> meta_ok(#[trigger] ctxs[l], finish, d_vals, l),
        forall|j: int|
            0 <= j < 10 * ctxs.len() ==> #[trigger] batch_evals(finish, d_vals, ctxs.len())[j]
                == mle(m_d(dims, terms, rho), batch_points(dims, ctxs, ctxs.len())[j]),
    ensures
        forall|l: int|
            0 <= l < ctxs.len() ==> {
                let (cx, cy, cg) = claim_columns(
                    dims,
                    terms,
                    (#[trigger] ctxs[l]).tr.parsed,
                    ctxs[l].tr.h_ops@,
                );
                &&& finish[3 * l] == mle(cx, rho)
                &&& finish[3 * l + 1] == mle(cy, rho)
                &&& finish[3 * l + 2] == mle(cg, rho)
            },
{
    let k = ctxs.len();
    let m = m_d(dims, terms, rho);
    let evals = batch_evals(finish, d_vals, k);
    let points = batch_points(dims, ctxs, k);
    assert forall|l: int| 0 <= l < k implies {
        let (cx, cy, cg) = claim_columns(
            dims,
            terms,
            (#[trigger] ctxs[l]).tr.parsed,
            ctxs[l].tr.h_ops@,
        );
        &&& finish[3 * l] == mle(cx, rho)
        &&& finish[3 * l + 1] == mle(cy, rho)
        &&& finish[3 * l + 2] == mle(cg, rho)
    } by {
        let parsed = ctxs[l].tr.parsed;
        let h = ctxs[l].tr.h_ops@;
        let own = claim_points(dims, parsed);
        lemma_batch_at(dims, ctxs, finish, d_vals, k, l);
        law_claim_reduction(dims, terms, parsed, h, rho);
        assert(evals[10 * l] == mle(m, points[10 * l]));
        assert(evals[10 * l + 1] == mle(m, points[10 * l + 1]));
        assert(points[10 * l + 0] == own[0]);
        assert(points[10 * l + 1] == own[1]);
        let f = |o: int| gamma(parsed.lambda_and, h[o]) * mle(m, own[2 + o]);
        let g = |o: int| gamma(parsed.lambda_and, h[o]) * d_vals[8 * l + o];
        assert forall|o: int| 0 <= o < 8 implies #[trigger] f(o) == g(o) by {
            assert(evals[10 * l + 2 + o] == d_vals[8 * l + o]);
            assert(evals[10 * l + 2 + o] == mle(m, points[10 * l + 2 + o]));
            assert(points[10 * l + (2 + o)] == own[2 + o]);
        }
        lemma_sum_ext(f, g, 8);
        assert(meta_ok(ctxs[l], finish, d_vals, l));
    }
}

/// A row sumcheck whose claim is true pins the claim's value: it is the sum over the term table.
pub proof fn law_sum_pins_value(dims: ShapeDims, terms: Seq<Term>, ctx: ClaimCtx, value: B128)
    requires
        dims.segmented(),
        terms.len() == dims.n_terms,
        parsed_fits(dims, ctx.tr.parsed),
        ctx.tr.dummy_weight == padding_weight(ctx.tr.parsed, ctx.tr.h_ops@),
        ctx.sum == padded_value(value, dims.parity, ctx.tr.dummy_weight),
        ({
            let (cx, cy, cg) = claim_columns(dims, terms, ctx.tr.parsed, ctx.tr.h_ops@);
            ctx.sum == product_sum(cx, cy, cg)
        }),
    ensures
        value == rows_sum(
            terms,
            eq_tensor(ctx.tr.parsed.r_x@),
            word_weights(dims, ctx.tr.parsed.r_y@, ctx.tr.parsed.r_segment),
            meta_weights(ctx.tr.parsed.lambda_and, ctx.tr.h_ops@, ctx.tr.parsed.r_s@),
            terms.len(),
        ),
{
    broadcast use group_units;

    law_claim_sum(dims, terms, ctx.tr.parsed, ctx.tr.h_ops@);
    let truth = rows_sum(
        terms,
        eq_tensor(ctx.tr.parsed.r_x@),
        word_weights(dims, ctx.tr.parsed.r_y@, ctx.tr.parsed.r_segment),
        meta_weights(ctx.tr.parsed.lambda_and, ctx.tr.h_ops@, ctx.tr.parsed.r_s@),
        terms.len(),
    );
    if dims.parity {
        let w = ctx.tr.dummy_weight;
        law_add_associates(value, w, w);
        law_add_associates(truth, w, w);
        crate::field::ring::law_add_self(w);
    }
}

/// What an accepted run says of the tables behind it. Let the values that were opened be true of the
/// key's row table and of a committed table: the four evaluations at the leaf point, and the one at
/// the batched sumcheck's point. Then the claims to which the fraction check and the batched
/// sumcheck were reduced are true of these tables, and the opened row table is the key's.
pub proof fn law_accepted_reductions(
    dims: ShapeDims,
    terms: Seq<Term>,
    ctxs: Seq<ClaimCtx>,
    vk_digest: Seq<u8>,
    table: Seq<B128>,
    run: CommittedRun,
)
    requires
        dims.derived(),
        dims.n_a <= 124,
        table.len() == exp2(dims.n_d as nat),
        run.fits(dims, ctxs.len()),
        run_error(dims, ctxs, vk_digest, run) is None,
        forall|blk: int|
            0 <= blk < 3 ==> #[trigger] run.corners->Ok_0@[blk] == mle(
                vk_column(dims, terms, blk),
                run.pi_lo(dims),
            ),
        run.corners->Ok_0@[3] == mle(table, run.pi_lo(dims)),
        run.m->Ok_0 == mle(table, run.sigma()),
    ensures
        run.vk_root->Ok_0@ == vk_digest,
        run.opening == Ok::<bool, String>(true),
        run.d_root->Ok_0 != zero(),
        run.leaf->Ok_0.num_eval == mle(
            leaf_num(dims, eq_tensor(run.rho()), table),
            run.leaf->Ok_0.point@,
        ),
        run.leaf->Ok_0.den_eval == mle(
            leaf_den(dims, terms, run.tau),
            run.leaf->Ok_0.point@,
        ),
        run.phase_b->Ok_0.eval == mle(run_weights(dims, ctxs, run), run.sigma()) * mle(
            table,
            run.sigma(),
        ),
{
    let (pi_lo, pi_hi) = (run.pi_lo(dims), run.pi_hi(dims));
    assert(rows_error(ctxs, run) is None);
    assert(leaves_error(dims, run) is None);
    assert(batch_error(dims, ctxs, run) is None);
    assert(pi_lo + pi_hi =~= run.leaf->Ok_0.point@);
    law_leaf_num(dims, run.rho(), table, pi_lo, pi_hi);
    law_leaf_den(dims, terms, run.tau, pi_lo, pi_hi, run.corners->Ok_0@);
    let points = run.points(dims, ctxs);
    lemma_batch_points(dims, ctxs, ctxs.len());
    assert forall|j: int| 0 <= j < points.len() implies (#[trigger] points[j]).len() == dims.n_d by {
        if j < 10 * ctxs.len() {
            assert(points[j] == batch_points(dims, ctxs, ctxs.len())[j]);
        }
    }
    law_batch_weights(points, run.phi, dims.n_d as nat, points.len(), table, run.sigma());
    law_mul_commutes(mle(table, run.sigma()), mle(run_weights(dims, ctxs, run), run.sigma()));
}

} // verus!
