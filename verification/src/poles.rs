//! The fraction tree's leaves, and why an honest histogram table makes their sum vanish.
//!
//! The histogram index at which a row is counted is the row's pole. A histogram entry collects the
//! weights of the rows with that pole, so in characteristic two every pole's weights cancel.

use crate::encode::{embed, lemma_exp2_128};
use crate::field::element::{zero, B128};
use crate::field::inverse::inv;
use crate::field::ring::{group_units, law_mul_commutes, lemma_sum_zero};
use crate::field::sums::{lemma_sum_ext, lemma_sum_split, lemma_sum_zeros, sum};
use crate::fracadd::{all_nonzero, fraction_sum, law_tree_root, law_tree_root_zero, tree_root};
use crate::histogram::{
    address, block_width, column, histogram, histogram_table, law_column_is_histogram,
    lemma_address_in, lemma_block_in, padded,
};
use crate::multilinear::eq::eq_tensor;
use crate::multilinear::exp2::{exp2, lemma_exp2_mono};
use crate::multilinear::mle::dot;
use crate::reduction::m_d;
use crate::table::{term_in, ShapeDims, Term};
use crate::vk::vk_column;
use vstd::prelude::*;

verus! {

/// The numerators of the leaves: the row weights three times, then the histogram table.
pub open spec fn leaf_num(dims: ShapeDims, eq_rho: Seq<B128>, m_d: Seq<B128>) -> Seq<B128> {
    let n = exp2(dims.n_d as nat);
    padded(eq_rho, n) + padded(eq_rho, n) + padded(eq_rho, n) + m_d
}

/// A block of denominators: the distances of a block of the row table from the challenge.
pub open spec fn distances(dims: ShapeDims, terms: Seq<Term>, tau: B128, blk: int) -> Seq<B128> {
    Seq::new(exp2(dims.n_d as nat), |t: int| tau + vk_column(dims, terms, blk)[t])
}

/// The distances of all histogram indices from the challenge.
pub open spec fn index_distances(dims: ShapeDims, tau: B128) -> Seq<B128> {
    Seq::new(exp2(dims.n_d as nat), |t: int| tau + embed(t))
}

/// The denominators of the leaves.
pub open spec fn leaf_den(dims: ShapeDims, terms: Seq<Term>, tau: B128) -> Seq<B128> {
    distances(dims, terms, tau, 0) + distances(dims, terms, tau, 1) + distances(
        dims,
        terms,
        tau,
        2,
    ) + index_distances(dims, tau)
}

/// The pole term of an address of a block.
spec fn pole_terms(dims: ShapeDims, tau: B128, blk: int) -> Seq<B128> {
    Seq::new(
        exp2(dims.n_a as nat),
        |a: int| inv(tau + embed(a + blk * exp2(dims.n_a as nat))),
    )
}

/// Beyond the committed values, the challenge keeps its distance from all of them.
proof fn lemma_distance_nonzero(n_a: nat, tau: B128, i: int)
    requires
        n_a <= 125,
        tau.bits >= exp2(n_a + 2),
        0 <= i < exp2(n_a + 2),
    ensures
        tau + embed(i) != zero(),
{
    lemma_exp2_mono(n_a + 2, 127);
    lemma_exp2_128();
    lemma_sum_zero(tau, embed(i));
}

/// The rows of one block: their fractions add up to the block's histogram against the pole terms.
proof fn lemma_rows_block(dims: ShapeDims, terms: Seq<Term>, rho: Seq<B128>, tau: B128, blk: int)
    requires
        dims.segmented(),
        forall|i: int| 0 <= i < terms.len() ==> term_in(dims, #[trigger] terms[i]),
        rho.len() == dims.n_t,
        0 <= blk < 3,
    ensures
        fraction_sum(
            padded(eq_tensor(rho), exp2(dims.n_d as nat)),
            distances(dims, terms, tau, blk),
            exp2(dims.n_d as nat),
        ) == dot(
            histogram(dims, terms, blk, rho),
            pole_terms(dims, tau, blk),
            exp2(block_width(dims, blk)),
        ),
{
    broadcast use group_units;

    let n = exp2(dims.n_d as nat);
    let k = exp2(rho.len());
    lemma_exp2_mono(rho.len(), dims.n_d as nat);
    lemma_block_in(dims, blk);
    let vals = pole_terms(dims, tau, blk);
    let col = column(dims, terms, blk, vals, k);
    let w = padded(eq_tensor(rho), n);
    let d = distances(dims, terms, tau, blk);
    let f = |t: int| w[t] * inv(d[t]);
    let g = |t: int| col[t] * eq_tensor(rho)[t];
    let rest = |t: int| f(k + t);
    lemma_sum_split(f, rest, k, (n - k) as nat);
    assert forall|t: int| 0 <= t < n - k implies #[trigger] rest(t) == zero() by {}
    lemma_sum_zeros(rest, (n - k) as nat);
    assert forall|t: int| 0 <= t < k implies #[trigger] f(t) == g(t) by {
        lemma_address_in(dims, terms, blk, t);
        law_mul_commutes(w[t], inv(d[t]));
    }
    lemma_sum_ext(f, g, k);
    law_column_is_histogram(dims, terms, blk, vals, rho);
}

/// One block of the histogram table: its fractions add up to the histogram against the pole terms.
proof fn lemma_table_block(dims: ShapeDims, h: Seq<B128>, tau: B128, blk: int, f: spec_fn(int) -> B128)
    requires
        h.len() <= exp2(dims.n_a as nat),
        forall|a: int|
            0 <= a < exp2(dims.n_a as nat) ==> #[trigger] f(a) == padded(
                h,
                exp2(dims.n_a as nat),
            )[a] * inv(tau + embed(a + blk * exp2(dims.n_a as nat))),
    ensures
        sum(f, exp2(dims.n_a as nat)) == dot(h, pole_terms(dims, tau, blk), h.len()),
{
    broadcast use group_units;

    let n = exp2(dims.n_a as nat);
    let k = h.len();
    let g = |a: int| h[a] * pole_terms(dims, tau, blk)[a];
    let rest = |a: int| f(k + a);
    lemma_sum_split(f, rest, k, (n - k) as nat);
    assert forall|a: int| 0 <= a < n - k implies #[trigger] rest(a) == zero() by {}
    lemma_sum_zeros(rest, (n - k) as nat);
    lemma_sum_ext(f, g, k);
}

/// The blocks of the histogram domain.
pub(crate) proof fn lemma_domain(dims: ShapeDims)
    requires
        dims.n_d == dims.n_a + 2,
    ensures
        exp2(dims.n_d as nat) == 4 * exp2(dims.n_a as nat),
        exp2((dims.n_d + 2) as nat) == 4 * exp2(dims.n_d as nat),
        exp2((dims.n_a + 2) as nat) == 4 * exp2(dims.n_a as nat),
{
    assert(exp2(dims.n_d as nat) == 2 * exp2((dims.n_a + 1) as nat));
    assert(exp2((dims.n_a + 1) as nat) == 2 * exp2(dims.n_a as nat));
    assert(exp2((dims.n_d + 2) as nat) == 2 * exp2((dims.n_d + 1) as nat));
    assert(exp2((dims.n_d + 1) as nat) == 2 * exp2(dims.n_d as nat));
}

/// No row is at distance zero.
proof fn lemma_row_nonzero(dims: ShapeDims, terms: Seq<Term>, tau: B128, blk: int)
    requires
        dims.segmented(),
        dims.n_a <= 125,
        forall|i: int| 0 <= i < terms.len() ==> term_in(dims, #[trigger] terms[i]),
        tau.bits >= exp2((dims.n_a + 2) as nat),
        0 <= blk < 3,
    ensures
        all_nonzero(distances(dims, terms, tau, blk)),
{
    lemma_domain(dims);
    let q = exp2(dims.n_a as nat);
    let d = distances(dims, terms, tau, blk);
    assert forall|t: int| 0 <= t < d.len() implies #[trigger] d[t] != zero() by {
        lemma_address_in(dims, terms, blk, t);
        lemma_block_in(dims, blk);
        let idx = address(dims, terms, blk, t) + blk * q;
        assert(0 <= idx < 4 * q) by (nonlinear_arith)
            requires
                idx == address(dims, terms, blk, t) + blk * q,
                0 <= address(dims, terms, blk, t) < q,
                0 <= blk < 3,
        ;
        lemma_distance_nonzero(dims.n_a as nat, tau, idx);
    }
}

/// The histogram table's fractions add up to the three histograms against their pole terms.
proof fn lemma_table_sum(dims: ShapeDims, h0: Seq<B128>, h1: Seq<B128>, h2: Seq<B128>, tau: B128)
    requires
        dims.n_d == dims.n_a + 2,
        h0.len() <= exp2(dims.n_a as nat),
        h1.len() <= exp2(dims.n_a as nat),
        h2.len() <= exp2(dims.n_a as nat),
    ensures
        fraction_sum(
            histogram_table(dims, h0, h1, h2),
            index_distances(dims, tau),
            exp2(dims.n_d as nat),
        ) == dot(h0, pole_terms(dims, tau, 0), h0.len()) + dot(
            h1,
            pole_terms(dims, tau, 1),
            h1.len(),
        ) + dot(h2, pole_terms(dims, tau, 2), h2.len()),
{
    broadcast use group_units;

    lemma_domain(dims);
    let q = exp2(dims.n_a as nat);
    let table = histogram_table(dims, h0, h1, h2);
    let d = index_distances(dims, tau);
    let f = |i: int| table[i] * inv(d[i]);
    let g1 = |a: int| f(q + a);
    let g2 = |a: int| f(2 * q + a);
    let g3 = |a: int| f(3 * q + a);
    lemma_sum_split(f, g3, 3 * q, q);
    lemma_sum_split(f, g2, 2 * q, q);
    lemma_sum_split(f, g1, q, q);
    assert forall|a: int| 0 <= a < q implies #[trigger] f(a) == padded(h0, q)[a] * inv(
        tau + embed(a + 0 * q),
    ) by {
        assert(table[a] == padded(h0, q)[a]);
        assert(a + 0 * q == a);
    }
    lemma_table_block(dims, h0, tau, 0, f);
    assert forall|a: int| 0 <= a < q implies #[trigger] g1(a) == padded(h1, q)[a] * inv(
        tau + embed(a + 1 * q),
    ) by {
        assert(table[q + a] == padded(h1, q)[a]);
        assert(a + 1 * q == q + a);
    }
    lemma_table_block(dims, h1, tau, 1, g1);
    assert forall|a: int| 0 <= a < q implies #[trigger] g2(a) == padded(h2, q)[a] * inv(
        tau + embed(a + 2 * q),
    ) by {
        assert(table[2 * q + a] == padded(h2, q)[a]);
        assert(a + 2 * q == 2 * q + a);
    }
    lemma_table_block(dims, h2, tau, 2, g2);
    assert forall|a: int| 0 <= a < q implies #[trigger] g3(a) == zero() by {
        assert(table[3 * q + a] == zero());
    }
    lemma_sum_zeros(g3, q);
}

/// A sum of fractions in four blocks.
pub(crate) proof fn lemma_four_blocks(
    n: nat,
    a: Seq<B128>,
    b: Seq<B128>,
    c: Seq<B128>,
    d: Seq<B128>,
    e: Seq<B128>,
    f: Seq<B128>,
    g: Seq<B128>,
    h: Seq<B128>,
)
    requires
        a.len() == n,
        b.len() == n,
        c.len() == n,
        d.len() == n,
        e.len() == n,
        f.len() == n,
        g.len() == n,
        h.len() == n,
    ensures
        fraction_sum(a + b + c + d, e + f + g + h, 4 * n) == fraction_sum(a, e, n) + fraction_sum(
            b,
            f,
            n,
        ) + fraction_sum(c, g, n) + fraction_sum(d, h, n),
{
    let (num, den) = (a + b + c + d, e + f + g + h);
    let s = |i: int| num[i] * inv(den[i]);
    let s0 = |i: int| a[i] * inv(e[i]);
    let s1 = |i: int| b[i] * inv(f[i]);
    let s2 = |i: int| c[i] * inv(g[i]);
    let s3 = |i: int| d[i] * inv(h[i]);
    assert forall|i: int| 0 <= i < n implies #[trigger] s3(i) == s(3 * n + i) by {
        assert(num[3 * n + i] == d[i] && den[3 * n + i] == h[i]);
    }
    lemma_sum_split(s, s3, 3 * n, n);
    assert forall|i: int| 0 <= i < n implies #[trigger] s2(i) == s(2 * n + i) by {
        assert(num[2 * n + i] == c[i] && den[2 * n + i] == g[i]);
    }
    lemma_sum_split(s, s2, 2 * n, n);
    assert forall|i: int| 0 <= i < n implies #[trigger] s1(i) == s(n + i) by {
        assert(num[n + i] == b[i] && den[n + i] == f[i]);
    }
    lemma_sum_split(s, s1, n, n);
    assert forall|i: int| 0 <= i < n implies #[trigger] s(i) == s0(i) by {
        assert(num[i] == a[i] && den[i] == e[i]);
    }
    lemma_sum_ext(s, s0, n);
}

/// With the true histogram table, the fractions of all leaves add up to zero, and no denominator
/// is zero.
pub proof fn law_poles_cancel(dims: ShapeDims, terms: Seq<Term>, rho: Seq<B128>, tau: B128)
    requires
        dims.segmented(),
        dims.n_a <= 125,
        forall|i: int| 0 <= i < terms.len() ==> term_in(dims, #[trigger] terms[i]),
        rho.len() == dims.n_t,
        tau.bits >= exp2((dims.n_a + 2) as nat),
    ensures
        all_nonzero(leaf_den(dims, terms, tau)),
        fraction_sum(
            leaf_num(dims, eq_tensor(rho), m_d(dims, terms, rho)),
            leaf_den(dims, terms, tau),
            exp2((dims.n_d + 2) as nat),
        ) == zero(),
{
    broadcast use group_units;

    lemma_domain(dims);
    let n = exp2(dims.n_d as nat);
    let w = padded(eq_tensor(rho), n);
    let (d0, d1, d2, d3) = (
        distances(dims, terms, tau, 0),
        distances(dims, terms, tau, 1),
        distances(dims, terms, tau, 2),
        index_distances(dims, tau),
    );
    let den = leaf_den(dims, terms, tau);
    lemma_row_nonzero(dims, terms, tau, 0);
    lemma_row_nonzero(dims, terms, tau, 1);
    lemma_row_nonzero(dims, terms, tau, 2);
    assert forall|i: int| 0 <= i < den.len() implies #[trigger] den[i] != zero() by {
        if i < n {
            assert(den[i] == d0[i]);
        } else if i < 2 * n {
            assert(den[i] == d1[i - n]);
        } else if i < 3 * n {
            assert(den[i] == d2[i - 2 * n]);
        } else {
            assert(den[i] == tau + embed(i - 3 * n));
            lemma_distance_nonzero(dims.n_a as nat, tau, i - 3 * n);
        }
    }
    lemma_rows_block(dims, terms, rho, tau, 0);
    lemma_rows_block(dims, terms, rho, tau, 1);
    lemma_rows_block(dims, terms, rho, tau, 2);
    let h0 = histogram(dims, terms, 0, rho);
    let h1 = histogram(dims, terms, 1, rho);
    let h2 = histogram(dims, terms, 2, rho);
    lemma_block_in(dims, 0);
    lemma_block_in(dims, 1);
    lemma_block_in(dims, 2);
    lemma_table_sum(dims, h0, h1, h2, tau);
    let table = m_d(dims, terms, rho);
    lemma_four_blocks(n, w, w, w, table, d0, d1, d2, d3);
}

/// The tree over the leaves of an honest batch has numerator zero and a nonzero denominator at its
/// root.
pub proof fn law_honest_root(dims: ShapeDims, terms: Seq<Term>, rho: Seq<B128>, tau: B128)
    requires
        dims.segmented(),
        dims.n_a <= 125,
        forall|i: int| 0 <= i < terms.len() ==> term_in(dims, #[trigger] terms[i]),
        rho.len() == dims.n_t,
        tau.bits >= exp2((dims.n_a + 2) as nat),
    ensures
        ({
            let num = leaf_num(dims, eq_tensor(rho), m_d(dims, terms, rho));
            let den = leaf_den(dims, terms, tau);
            let root = tree_root(num, den, (dims.n_d + 2) as nat);
            root.0 == zero() && root.1 != zero()
        }),
{
    let n = exp2(dims.n_d as nat);
    let num = leaf_num(dims, eq_tensor(rho), m_d(dims, terms, rho));
    let den = leaf_den(dims, terms, tau);
    lemma_domain(dims);
    assert(num.len() == 4 * n);
    law_poles_cancel(dims, terms, rho, tau);
    law_tree_root_zero(num, den, (dims.n_d + 2) as nat);
    law_tree_root(num, den, (dims.n_d + 2) as nat);
}

/// Where each leaf stands: three blocks of row weights over the distances of the three columns of the
/// row table, and behind them the histogram table over the distances of its indices.
pub proof fn law_leaf_entries(
    dims: ShapeDims,
    terms: Seq<Term>,
    eq_rho: Seq<B128>,
    m_d: Seq<B128>,
    tau: B128,
    i: int,
)
    requires
        m_d.len() == exp2(dims.n_d as nat),
        0 <= i < exp2(dims.n_d as nat),
    ensures
        ({
            let n = exp2(dims.n_d as nat) as int;
            let num = leaf_num(dims, eq_rho, m_d);
            let den = leaf_den(dims, terms, tau);
            let weight = if i < eq_rho.len() {
                eq_rho[i]
            } else {
                zero()
            };
            &&& num.len() == 4 * n
            &&& den.len() == 4 * n
            &&& num[i] == weight
            &&& num[n + i] == weight
            &&& num[2 * n + i] == weight
            &&& num[3 * n + i] == m_d[i]
            &&& den[i] == tau + vk_column(dims, terms, 0)[i]
            &&& den[n + i] == tau + vk_column(dims, terms, 1)[i]
            &&& den[2 * n + i] == tau + vk_column(dims, terms, 2)[i]
            &&& den[3 * n + i] == tau + embed(i)
        }),
{
}

} // verus!
