//! How a claim reduces to evaluations of the histogram table.
//!
//! A claim is a sum over rows of a product of three columns. At the row challenge, each column's
//! evaluation is an evaluation of the histogram table, or a combination of eight of them.

use crate::claim::{
    gamma, law_padding_weight, law_word_weight, meta_weight, meta_weights, padding_weight,
    parsed_fits, rows_sum, slot_coords, word_weights, ParsedClaim,
};
use crate::field::element::{one, zero, B128};
use crate::field::inverse::{inv, law_inverse, law_inverse_of_product};
use crate::field::ring::{
    group_units, law_add_associates, law_add_commutes, law_distributes, law_mul_associates,
    law_mul_commutes, lemma_mul_exchange, lemma_sum_zero,
};
use crate::field::sums::{
    lemma_sum_ext, lemma_sum_scale, lemma_sum_single, lemma_sum_swap, power, sum,
};
use crate::histogram::{
    address, claim_points, column, histogram, histogram_table, law_column_is_histogram,
    law_padded_sum, lemma_bits_len, meta_address, padded, padded_row, table_point, u_of, x_of,
    y_of,
};
use crate::multilinear::eq::{bits_of, eq_at, eq_points, eq_tensor, eq_zero, law_eq_at_concat};
use crate::multilinear::exp2::{
    exp2, lemma_exp2_mono, lemma_exp2_pos, lemma_exp2_small, lemma_log2_ceil,
};
use crate::multilinear::mle::{dot, law_mle_blocks, law_mle_padded, lemma_eq_points_two, mle, zeros};
use crate::table::{law_cube_index, term_in, ShapeDims, Term, N_U};
use vstd::prelude::*;

verus! {

/// `eq(0, 0) == 1`.
proof fn lemma_eq_zero_zeros(z: Seq<B128>)
    requires
        forall|k: int| 0 <= k < z.len() ==> z[k] == zero(),
    ensures
        eq_zero(z) == one(),
    decreases z.len(),
{
    broadcast use group_units;

    if z.len() > 0 {
        lemma_eq_zero_zeros(z.drop_last());
    }
}

/// The evaluation of a padded table at a padded point is that of the table at the point.
proof fn lemma_padded_eval(v: Seq<B128>, addr: Seq<B128>, n: nat)
    requires
        v.len() == exp2(addr.len()),
        addr.len() <= n,
    ensures
        mle(padded(v, exp2(n)), padded(addr, n)) == mle(v, addr),
{
    broadcast use group_units;

    let tail = zeros((n - addr.len()) as nat);
    assert(padded(addr, n) =~= addr + tail);
    lemma_exp2_mono(addr.len(), n);
    law_mle_padded(v, padded(v, exp2(n)), addr, tail);
    lemma_eq_zero_zeros(tail);
}

/// At a point with selectors (0, 0), (1, 0) or (0, 1), the histogram table is the constraint, the
/// word or the meta histogram.
pub proof fn law_table_block(
    dims: ShapeDims,
    d_x: Seq<B128>,
    d_seg: Seq<B128>,
    d_g: Seq<B128>,
    addr: Seq<B128>,
)
    requires
        addr.len() <= dims.n_a,
    ensures
        d_x.len() == exp2(addr.len()) ==> mle(
            histogram_table(dims, d_x, d_seg, d_g),
            table_point(dims, addr, zero(), zero()),
        ) == mle(d_x, addr),
        d_seg.len() == exp2(addr.len()) ==> mle(
            histogram_table(dims, d_x, d_seg, d_g),
            table_point(dims, addr, one(), zero()),
        ) == mle(d_seg, addr),
        d_g.len() == exp2(addr.len()) ==> mle(
            histogram_table(dims, d_x, d_seg, d_g),
            table_point(dims, addr, zero(), one()),
        ) == mle(d_g, addr),
{
    broadcast use group_units;

    let n = dims.n_a as nat;
    let w = exp2(n);
    let a = padded(addr, n);
    let (b0, b1, b2, b3) = (padded(d_x, w), padded(d_seg, w), padded(d_g, w), zeros(w));
    let hi0 = seq![zero(), zero()];
    let hi1 = seq![one(), zero()];
    let hi2 = seq![zero(), one()];
    law_mle_blocks(b0, b1, b2, b3, a, hi0);
    law_mle_blocks(b0, b1, b2, b3, a, hi1);
    law_mle_blocks(b0, b1, b2, b3, a, hi2);
    lemma_selectors(hi0);
    lemma_selectors(hi1);
    lemma_selectors(hi2);
    if d_x.len() == exp2(addr.len()) {
        lemma_padded_eval(d_x, addr, n);
    }
    if d_seg.len() == exp2(addr.len()) {
        lemma_padded_eval(d_seg, addr, n);
    }
    if d_g.len() == exp2(addr.len()) {
        lemma_padded_eval(d_g, addr, n);
    }
}

proof fn lemma_selectors(hi: Seq<B128>)
    requires
        hi.len() == 2,
    ensures
        eq_points(seq![zero(), zero()], hi) == (one() + hi[0]) * (one() + hi[1]),
        eq_points(seq![one(), zero()], hi) == hi[0] * (one() + hi[1]),
        eq_points(seq![zero(), one()], hi) == (one() + hi[0]) * hi[1],
        eq_points(seq![one(), one()], hi) == hi[0] * hi[1],
{
    broadcast use group_units;

    lemma_eq_points_two(zero(), zero(), hi);
    lemma_eq_points_two(one(), zero(), hi);
    lemma_eq_points_two(zero(), one(), hi);
    lemma_eq_points_two(one(), one(), hi);
}

/// At the bits of `j`, the indicator of `i` is one when `i == j` and zero otherwise.
pub proof fn law_eq_at_bits(i: int, j: int, n: nat)
    requires
        0 <= i < exp2(n),
        0 <= j < exp2(n),
    ensures
        eq_at(i, bits_of(j, n)) == (if i == j {
            one()
        } else {
            zero()
        }),
    decreases n,
{
    broadcast use group_units;

    if n > 0 {
        let m = (n - 1) as nat;
        let half = exp2(m);
        let b = bits_of(j, n);
        lemma_bits_len(j, n);
        if j < half {
            assert(b.drop_last() =~= bits_of(j, m));
            if i < half {
                law_eq_at_bits(i, j, m);
            }
        } else {
            assert(b.drop_last() =~= bits_of(j - half, m));
            if i >= half {
                law_eq_at_bits(i - half, j - half, m);
            }
        }
    }
}

/// The indicator of slot `m` at the slot coordinates, times `lambda (lambda + 1)^3`, is
/// `lambda^(m + 1)`.
proof fn lemma_slot(lambda: B128, m: int)
    requires
        lambda != one(),
        0 <= m < 4,
    ensures
        ({
            let (p0, p1) = slot_coords(lambda);
            let lp1 = lambda + one();
            (lambda * lp1 * lp1 * lp1) * eq_at(m, seq![p0, p1]) == power(lambda, (m + 1) as nat)
        }),
{
    broadcast use group_units;

    let lp1 = lambda + one();
    lemma_sum_zero(lambda, one());
    assert(lp1 != zero());
    let v = inv(lp1);
    law_inverse(lp1);
    law_inverse_of_product(lp1, lp1);
    let v2 = inv(lp1 * lp1);
    let (p0, p1) = slot_coords(lambda);
    // p0 = v + 1, so 1 + p0 = v and p0 * lp1 = lambda.
    law_add_commutes(v, one());
    law_add_associates(one(), one(), v);
    law_add_commutes(v2, one());
    law_add_associates(one(), one(), v2);
    assert(one() + p0 == v);
    assert(one() + p1 == v2);
    assert(p0 * lp1 == lambda) by {
        crate::field::ring::law_distributes_right(v, one(), lp1);
        law_add_commutes(lambda, one());
        law_add_associates(one(), one(), lambda);
    }
    assert(v * lp1 == one());
    let sq = lp1 * lp1;
    assert(v2 * sq == one()) by {
        lemma_mul_exchange(v, v, lp1, lp1);
    }
    assert(p1 * sq == lambda * lambda) by {
        crate::field::ring::law_distributes_right(v2, one(), sq);
        // 1 + (lambda + 1)^2 == lambda^2
        law_distributes(lp1, lambda, one());
        crate::field::ring::law_distributes_right(lambda, one(), lambda);
        law_add_associates(lambda * lambda, lambda, lambda + one());
        law_add_associates(lambda, lambda, one());
        law_add_commutes(one(), lambda * lambda + one());
        law_add_associates(lambda * lambda, one(), one());
    }
    let pt = seq![p0, p1];
    assert(pt.drop_last() =~= seq![p0]);
    assert(seq![p0].drop_last() =~= Seq::<B128>::empty());
    reveal_with_fuel(eq_at, 3);
    lemma_exp2_small();
    let e0 = if m % 2 == 0 {
        v
    } else {
        p0
    };
    let e1 = if m / 2 == 0 {
        v2
    } else {
        p1
    };
    assert(eq_at(m, pt) == e0 * e1);
    // (lambda * lp1 * lp1 * lp1) * (e0 * e1) == lambda * ((lp1 * e0) * (sq * e1))
    law_mul_associates(lambda * lp1, lp1, lp1);
    law_mul_associates(lambda, lp1, sq);
    law_mul_associates(lambda, lp1 * sq, e0 * e1);
    lemma_mul_exchange(lp1, sq, e0, e1);
    law_mul_commutes(lp1, e0);
    law_mul_commutes(sq, e1);
    reveal_with_fuel(power, 5);
    let f0 = if m % 2 == 0 {
        one()
    } else {
        lambda
    };
    let f1 = if m / 2 == 0 {
        one()
    } else {
        lambda * lambda
    };
    assert((lambda * lp1 * lp1 * lp1) * eq_at(m, pt) == lambda * (f0 * f1));
    if m == 3 {
        law_mul_associates(lambda, lambda, lambda * lambda);
        law_mul_associates(lambda * lambda, lambda, lambda);
    } else if m == 2 {
        law_mul_associates(lambda, lambda, lambda);
    }
}

/// The weight of meta index `u` read at the point of shift kind `o`.
proof fn lemma_meta_cell(lambda: B128, h_ops: Seq<B128>, r_s: Seq<B128>, u: int, o: int)
    requires
        lambda != one(),
        r_s.len() == 6,
        0 <= u < 2048,
        0 <= o < 8,
    ensures
        ({
            let (p0, p1) = slot_coords(lambda);
            gamma(lambda, h_ops[o]) * eq_at(u, r_s + bits_of(o, 3) + seq![p0, p1]) == (if o == (u
                / 64) % 8 {
                meta_weight(lambda, h_ops, r_s, u)
            } else {
                zero()
            })
        }),
{
    broadcast use group_units;

    let (p0, p1) = slot_coords(lambda);
    let (s, op, m) = (u % 64, (u / 64) % 8, u / 512);
    lemma_exp2_small();
    lemma_bits_len(o, 3);
    let ab = r_s + bits_of(o, 3);
    law_eq_at_concat(s, op, r_s, bits_of(o, 3));
    law_eq_at_concat(s + 64 * op, m, ab, seq![p0, p1]);
    assert(s + 64 * op + 512 * m == u);
    law_eq_at_bits(op, o, 3);
    let es = eq_at(s, r_s);
    let em = eq_at(m, seq![p0, p1]);
    assert(exp2(6) == 64 && exp2(9) == 512);
    if o == op {
        let h = h_ops[o];
        let lp1 = lambda + one();
        let k = lambda * lp1 * lp1 * lp1;
        // (h * k) * (es * em) == (k * em) * (h * es)
        lemma_mul_exchange(h, k, es, em);
        law_mul_commutes(h * es, k * em);
        lemma_slot(lambda, m);
    }
}

/// The inner product of the meta histogram with the weights of the meta indices is put together
/// from its values at eight points, one per shift kind.
pub proof fn law_meta_decomposition(parsed: ParsedClaim, h_ops: Seq<B128>, d_g: Seq<B128>)
    requires
        parsed.lambda_and != one(),
        parsed.r_s@.len() == 6,
    ensures
        dot(d_g, meta_weights(parsed.lambda_and, h_ops, parsed.r_s@), exp2(N_U as nat)) == sum(
            |o: int| gamma(parsed.lambda_and, h_ops[o]) * mle(d_g, meta_address(parsed, o)),
            8,
        ),
{
    broadcast use group_units;

    let l = parsed.lambda_and;
    let r_s = parsed.r_s@;
    let n = exp2(N_U as nat);
    lemma_exp2_small();
    let cell = |o: int, u: int|
        gamma(l, h_ops[o]) * (d_g[u] * eq_tensor(meta_address(parsed, o))[u]);
    let by_kind = |o: int| sum(|u: int| cell(o, u), n);
    let rhs = |o: int| gamma(l, h_ops[o]) * mle(d_g, meta_address(parsed, o));
    assert forall|o: int| 0 <= o < 8 implies #[trigger] by_kind(o) == rhs(o) by {
        lemma_bits_len(o, 3);
        let f = |u: int| d_g[u] * eq_tensor(meta_address(parsed, o))[u];
        lemma_sum_scale(gamma(l, h_ops[o]), f, |u: int| cell(o, u), n);
    }
    lemma_sum_ext(by_kind, rhs, 8);
    let by_index = |u: int| sum(|o: int| cell(o, u), 8);
    let lhs = |u: int| d_g[u] * meta_weights(l, h_ops, r_s)[u];
    assert forall|u: int| 0 <= u < n implies #[trigger] by_index(u) == lhs(u) by {
        let op = (u / 64) % 8;
        let g = |o: int| cell(o, u);
        assert forall|o: int| 0 <= o < 8 implies #[trigger] g(o) == d_g[u] * (if o == op {
            meta_weight(l, h_ops, r_s, u)
        } else {
            zero()
        }) by {
            lemma_bits_len(o, 3);
            lemma_meta_cell(l, h_ops, r_s, u, o);
            let e = eq_at(u, meta_address(parsed, o));
            let c = gamma(l, h_ops[o]);
            law_mul_associates(c, d_g[u], e);
            law_mul_commutes(c, d_g[u]);
            law_mul_associates(d_g[u], c, e);
        }
        lemma_sum_single(g, 8, op);
    }
    lemma_sum_ext(by_index, lhs, n);
    lemma_sum_swap(cell, 8, n);
}

/// The word column, by word index, is the word column by segmented address.
pub proof fn lemma_word_column(
    dims: ShapeDims,
    terms: Seq<Term>,
    r_y: Seq<B128>,
    r_segment: B128,
    n: nat,
)
    requires
        dims.segmented(),
        forall|i: int| 0 <= i < terms.len() ==> term_in(dims, #[trigger] terms[i]),
        r_y.len() == dims.n_y - 1,
    ensures
        Seq::new(n, |t: int| word_weights(dims, r_y, r_segment)[y_of(terms, t)]) =~= column(
            dims,
            terms,
            1,
            eq_tensor(r_y.push(r_segment)),
            n,
        ),
{
    let a = Seq::new(n, |t: int| word_weights(dims, r_y, r_segment)[y_of(terms, t)]);
    let b = column(dims, terms, 1, eq_tensor(r_y.push(r_segment)), n);
    assert forall|t: int| 0 <= t < n implies #[trigger] a[t] == b[t] by {
        lemma_exp2_pos(dims.lp as nat);
        if t < terms.len() {
            assert(term_in(dims, terms[t]));
        }
        let y = y_of(terms, t);
        law_word_weight(dims, r_y, r_segment, y);
        law_cube_index(dims, y, y);
    }
}

/// The three columns of a claim over the padded term table.
pub open spec fn claim_columns(
    dims: ShapeDims,
    terms: Seq<Term>,
    parsed: ParsedClaim,
    h_ops: Seq<B128>,
) -> (Seq<B128>, Seq<B128>, Seq<B128>) {
    let n = dims.n_pad as nat;
    (
        Seq::new(n, |t: int| eq_tensor(parsed.r_x@)[x_of(terms, t)]),
        Seq::new(n, |t: int| word_weights(dims, parsed.r_y@, parsed.r_segment)[y_of(terms, t)]),
        Seq::new(
            n,
            |t: int| meta_weights(parsed.lambda_and, h_ops, parsed.r_s@)[u_of(terms, t)],
        ),
    )
}

/// The histogram table of a term table at a row challenge.
pub open spec fn m_d(dims: ShapeDims, terms: Seq<Term>, rho: Seq<B128>) -> Seq<B128> {
    histogram_table(
        dims,
        histogram(dims, terms, 0, rho),
        histogram(dims, terms, 1, rho),
        histogram(dims, terms, 2, rho),
    )
}

/// What the histogram table says about a claim: at the row challenge, the constraint and word
/// columns evaluate to the histogram table at the claim's first two points, and the meta column to
/// a combination of its values at the eight others.
pub proof fn law_claim_reduction(
    dims: ShapeDims,
    terms: Seq<Term>,
    parsed: ParsedClaim,
    h_ops: Seq<B128>,
    rho: Seq<B128>,
)
    requires
        dims.segmented(),
        forall|i: int| 0 <= i < terms.len() ==> term_in(dims, #[trigger] terms[i]),
        parsed_fits(dims, parsed),
        parsed.lambda_and != one(),
        rho.len() == dims.n_t,
    ensures
        ({
            let (cx, cy, cg) = claim_columns(dims, terms, parsed, h_ops);
            let m = m_d(dims, terms, rho);
            let p = claim_points(dims, parsed);
            &&& mle(cx, rho) == mle(m, p[0])
            &&& mle(cy, rho) == mle(m, p[1])
            &&& mle(cg, rho) == sum(|o: int| gamma(parsed.lambda_and, h_ops[o]) * mle(m, p[2 + o]), 8)
        }),
{
    let (cx, cy, cg) = claim_columns(dims, terms, parsed, h_ops);
    let m = m_d(dims, terms, rho);
    let p = claim_points(dims, parsed);
    let n = exp2(rho.len());
    let d_x = histogram(dims, terms, 0, rho);
    let d_seg = histogram(dims, terms, 1, rho);
    let d_g = histogram(dims, terms, 2, rho);
    assert(dims.n_pad == n);
    // Constraint column.
    assert(cx =~= column(dims, terms, 0, eq_tensor(parsed.r_x@), n));
    law_column_is_histogram(dims, terms, 0, eq_tensor(parsed.r_x@), rho);
    law_table_block(dims, d_x, d_seg, d_g, parsed.r_x@);
    // Word column.
    let ry = parsed.r_y@.push(parsed.r_segment);
    lemma_word_column(dims, terms, parsed.r_y@, parsed.r_segment, n);
    law_column_is_histogram(dims, terms, 1, eq_tensor(ry), rho);
    law_table_block(dims, d_x, d_seg, d_g, ry);
    // Meta column.
    let g = meta_weights(parsed.lambda_and, h_ops, parsed.r_s@);
    assert(cg =~= column(dims, terms, 2, g, n));
    law_column_is_histogram(dims, terms, 2, g, rho);
    law_meta_decomposition(parsed, h_ops, d_g);
    let f1 = |o: int| gamma(parsed.lambda_and, h_ops[o]) * mle(d_g, meta_address(parsed, o));
    let f2 = |o: int| gamma(parsed.lambda_and, h_ops[o]) * mle(m, p[2 + o]);
    assert forall|o: int| 0 <= o < 8 implies #[trigger] f1(o) == f2(o) by {
        lemma_bits_len(o, 3);
        law_table_block(dims, d_x, d_seg, d_g, meta_address(parsed, o));
    }
    lemma_sum_ext(f1, f2, 8);
}

/// The product of a claim's three columns sums, over the padded term table, to the sum over its
/// rows plus, for odd parity, the padding weight.
pub proof fn law_claim_sum(
    dims: ShapeDims,
    terms: Seq<Term>,
    parsed: ParsedClaim,
    h_ops: Seq<B128>,
)
    requires
        dims.segmented(),
        terms.len() == dims.n_terms,
        parsed_fits(dims, parsed),
    ensures
        ({
            let (cx, cy, cg) = claim_columns(dims, terms, parsed, h_ops);
            sum(|t: int| cx[t] * cy[t] * cg[t], dims.n_pad as nat) == rows_sum(
                terms,
                eq_tensor(parsed.r_x@),
                word_weights(dims, parsed.r_y@, parsed.r_segment),
                meta_weights(parsed.lambda_and, h_ops, parsed.r_s@),
                terms.len(),
            ) + (if dims.parity {
                padding_weight(parsed, h_ops)
            } else {
                zero()
            })
        }),
{
    let (cx, cy, cg) = claim_columns(dims, terms, parsed, h_ops);
    let (x, y, g) = (
        eq_tensor(parsed.r_x@),
        word_weights(dims, parsed.r_y@, parsed.r_segment),
        meta_weights(parsed.lambda_and, h_ops, parsed.r_s@),
    );
    let n = dims.n_pad as nat;
    lemma_log2_ceil(dims.n_terms as nat);
    law_padded_sum(terms, x, y, g, n);
    law_padding_weight(dims, parsed, h_ops);
    lemma_sum_ext(
        |t: int| cx[t] * cy[t] * cg[t],
        |t: int| padded_row(terms, x, y, g, t),
        n,
    );
}

} // verus!
