//! The histogram table of a batch: the rows of the term table, weighted by the indicator of the
//! batch's row challenge and scattered to their addresses.
//!
//! The table has four blocks, selected by its two top variables: the constraint histogram, the
//! segmented word histogram, the meta histogram, and zeros.

use crate::claim::{parsed_fits, row_weight, rows_sum, slot_coords, ClaimTransparents, ParsedClaim};
use crate::cs::SHIFT_VARIANT_COUNT;
use crate::field::element::{one, zero, B128};
use crate::field::ring::{group_units, law_add_associates, law_add_zero, law_mul_commutes};
use crate::field::sums::{lemma_sum_ext, lemma_sum_scale, lemma_sum_single, lemma_sum_swap, sum};
use crate::multilinear::eq::{
    bits_of, eq_at, eq_ind, eq_ind_partial_eval_scalars, eq_points, eq_tensor,
};
use crate::multilinear::exp2::{
    exp2, exp2_usize, lemma_exp2_add, lemma_exp2_mono, lemma_exp2_pos, lemma_exp2_small,
    lemma_log2_ceil,
};
use crate::multilinear::mle::{dot, evaluate, mle, zeros};
use crate::table::{
    cube_index, cube_y, law_cube_index, term_in, ShapeDims, Term, TermTable, N_U,
};
use vstd::prelude::*;

verus! {

/// The constraint of row `t`; padding rows have constraint 0.
pub open spec fn x_of(terms: Seq<Term>, t: int) -> int {
    if t < terms.len() {
        terms[t].x as int
    } else {
        0
    }
}

/// The word of row `t`; padding rows have word 0.
pub open spec fn y_of(terms: Seq<Term>, t: int) -> int {
    if t < terms.len() {
        terms[t].y as int
    } else {
        0
    }
}

/// The meta index of row `t`; padding rows have meta index 0.
pub open spec fn u_of(terms: Seq<Term>, t: int) -> int {
    if t < terms.len() {
        terms[t].u as int
    } else {
        0
    }
}

/// The address of row `t` in block `blk`: its constraint, its segmented word, its meta index.
pub open spec fn address(dims: ShapeDims, terms: Seq<Term>, blk: int, t: int) -> int {
    if blk == 0 {
        x_of(terms, t)
    } else if blk == 1 {
        cube_index(dims, y_of(terms, t))
    } else {
        u_of(terms, t)
    }
}

/// The address width of a block.
pub open spec fn block_width(dims: ShapeDims, blk: int) -> nat {
    if blk == 0 {
        dims.n_x as nat
    } else if blk == 1 {
        dims.n_y as nat
    } else {
        N_U as nat
    }
}

/// The weight of the first `n` rows whose address in the block is `a`.
pub open spec fn weight_at(
    dims: ShapeDims,
    terms: Seq<Term>,
    blk: int,
    rho: Seq<B128>,
    n: nat,
    a: int,
) -> B128 {
    sum(
        |t: int|
            if address(dims, terms, blk, t) == a {
                eq_at(t, rho)
            } else {
                zero()
            },
        n,
    )
}

/// The histogram of a block: at each address, the weight of the rows there.
pub open spec fn histogram(dims: ShapeDims, terms: Seq<Term>, blk: int, rho: Seq<B128>) -> Seq<
    B128,
> {
    Seq::new(
        exp2(block_width(dims, blk)),
        |a: int| weight_at(dims, terms, blk, rho, exp2(rho.len()), a),
    )
}

/// The column of a table of values: row `t` has the value at its address.
pub open spec fn column(
    dims: ShapeDims,
    terms: Seq<Term>,
    blk: int,
    values: Seq<B128>,
    n: nat,
) -> Seq<B128> {
    Seq::new(n, |t: int| values[address(dims, terms, blk, t)])
}

/// A table extended by zeros to length `n`.
pub open spec fn padded(v: Seq<B128>, n: nat) -> Seq<B128> {
    Seq::new(
        n,
        |i: int|
            if i < v.len() {
                v[i]
            } else {
                zero()
            },
    )
}

/// The histogram table: the three histograms, each padded to a block, and a block of zeros.
pub open spec fn histogram_table(
    dims: ShapeDims,
    d_x: Seq<B128>,
    d_seg: Seq<B128>,
    d_g: Seq<B128>,
) -> Seq<B128> {
    let n = exp2(dims.n_a as nat);
    padded(d_x, n) + padded(d_seg, n) + padded(d_g, n) + zeros(n)
}

/// Addresses lie in their block.
pub proof fn lemma_address_in(dims: ShapeDims, terms: Seq<Term>, blk: int, t: int)
    requires
        dims.segmented(),
        forall|i: int| 0 <= i < terms.len() ==> term_in(dims, #[trigger] terms[i]),
        0 <= t,
        0 <= blk < 3,
    ensures
        0 <= address(dims, terms, blk, t) < exp2(block_width(dims, blk)),
        block_width(dims, blk) <= dims.n_a,
{
    lemma_exp2_pos(dims.n_x as nat);
    lemma_exp2_pos(dims.n_y as nat);
    lemma_exp2_pos(N_U as nat);
    lemma_exp2_pos(dims.lp as nat);
    law_cube_index(dims, y_of(terms, t), 0);
    if t < terms.len() {
        assert(term_in(dims, terms[t]));
    }
}

/// A block's addresses fit in the address width.
pub proof fn lemma_block_in(dims: ShapeDims, blk: int)
    requires
        dims.derived(),
        0 <= blk < 3,
    ensures
        exp2(block_width(dims, blk)) <= exp2(dims.n_a as nat),
{
    lemma_exp2_mono(block_width(dims, blk), dims.n_a as nat);
}

/// The evaluation of a column at the row challenge is the inner product of the block's histogram
/// with the values: rows with the same address are counted together.
pub proof fn law_column_is_histogram(
    dims: ShapeDims,
    terms: Seq<Term>,
    blk: int,
    values: Seq<B128>,
    rho: Seq<B128>,
)
    requires
        dims.segmented(),
        forall|i: int| 0 <= i < terms.len() ==> term_in(dims, #[trigger] terms[i]),
        0 <= blk < 3,
    ensures
        mle(column(dims, terms, blk, values, exp2(rho.len())), rho) == dot(
            histogram(dims, terms, blk, rho),
            values,
            exp2(block_width(dims, blk)),
        ),
{
    broadcast use group_units;

    let n = exp2(rho.len());
    let w = exp2(block_width(dims, blk));
    let col = column(dims, terms, blk, values, n);
    let cell = |a: int, t: int|
        if address(dims, terms, blk, t) == a {
            eq_at(t, rho) * values[a]
        } else {
            zero()
        };
    // By address: the histogram times the value.
    let by_addr = |a: int| sum(|t: int| cell(a, t), n);
    let prod = |a: int| histogram(dims, terms, blk, rho)[a] * values[a];
    assert forall|a: int| 0 <= a < w implies #[trigger] by_addr(a) == prod(a) by {
        let f = |t: int|
            if address(dims, terms, blk, t) == a {
                eq_at(t, rho)
            } else {
                zero()
            };
        let g = |t: int| cell(a, t);
        assert forall|t: int| 0 <= t < n implies #[trigger] g(t) == values[a] * f(t) by {
            law_mul_commutes(eq_at(t, rho), values[a]);
        }
        lemma_sum_scale(values[a], f, g, n);
        law_mul_commutes(values[a], sum(f, n));
    }
    lemma_sum_ext(by_addr, prod, w);
    // By row: only the row's own address counts.
    let by_row = |t: int| sum(|a: int| cell(a, t), w);
    let term = |t: int| col[t] * eq_tensor(rho)[t];
    assert forall|t: int| 0 <= t < n implies #[trigger] by_row(t) == term(t) by {
        let k = address(dims, terms, blk, t);
        lemma_address_in(dims, terms, blk, t);
        let g = |a: int| cell(a, t);
        assert forall|a: int| 0 <= a < w && a != k implies #[trigger] g(a) == zero() by {}
        lemma_sum_single(g, w, k);
        law_mul_commutes(eq_at(t, rho), values[k]);
    }
    lemma_sum_ext(by_row, term, n);
    lemma_sum_swap(cell, w, n);
}

/// The weight of a row of the padded term table, as the product of its three columns.
pub open spec fn padded_row(
    terms: Seq<Term>,
    x: Seq<B128>,
    y: Seq<B128>,
    g: Seq<B128>,
    t: int,
) -> B128 {
    x[x_of(terms, t)] * y[y_of(terms, t)] * g[u_of(terms, t)]
}

/// The sum over the padded term table is the sum over its rows, and, when the number of padding
/// rows is odd, the padding weight: in characteristic two, pairs of padding rows cancel.
pub proof fn law_padded_sum(terms: Seq<Term>, x: Seq<B128>, y: Seq<B128>, g: Seq<B128>, n: nat)
    requires
        terms.len() <= n,
    ensures
        sum(|t: int| padded_row(terms, x, y, g, t), n) == rows_sum(terms, x, y, g, terms.len()) + (
        if (n - terms.len()) % 2 == 1 {
            row_weight(x, y, g, Term { x: 0, y: 0, u: 0 })
        } else {
            zero()
        }),
    decreases n,
{
    broadcast use group_units;

    let f = |t: int| padded_row(terms, x, y, g, t);
    let r = |t: int| row_weight(x, y, g, terms[t]);
    if n == terms.len() {
        lemma_sum_ext(f, r, n);
    } else {
        let m = (n - 1) as nat;
        law_padded_sum(terms, x, y, g, m);
        let w = row_weight(x, y, g, Term { x: 0, y: 0, u: 0 });
        assert(f(m as int) == w);
        let s = rows_sum(terms, x, y, g, terms.len());
        law_add_associates(s, w, w);
    }
}

/// The three histograms of a batch.
pub struct Histograms {
    pub d_x: Vec<B128>,
    /// The histogram over segmented word addresses.
    pub d_seg: Vec<B128>,
    pub d_g: Vec<B128>,
}

impl Histograms {
    /// These are the histograms of a term table at a row challenge.
    pub open spec fn of(self, dims: ShapeDims, terms: Seq<Term>, rho: Seq<B128>) -> bool {
        &&& self.d_x@ == histogram(dims, terms, 0, rho)
        &&& self.d_seg@ == histogram(dims, terms, 1, rho)
        &&& self.d_g@ == histogram(dims, terms, 2, rho)
    }
}

/// A partial histogram: the weights of the first `n` rows.
spec fn partial(
    dims: ShapeDims,
    terms: Seq<Term>,
    blk: int,
    rho: Seq<B128>,
    n: nat,
    v: Seq<B128>,
) -> bool {
    &&& v.len() == exp2(block_width(dims, blk))
    &&& forall|a: int| 0 <= a < v.len() ==> #[trigger] v[a] == weight_at(dims, terms, blk, rho, n, a)
}

proof fn lemma_partial_zero(dims: ShapeDims, terms: Seq<Term>, blk: int, rho: Seq<B128>, v: Seq<B128>)
    requires
        v == zeros(exp2(block_width(dims, blk))),
    ensures
        partial(dims, terms, blk, rho, 0, v),
{
}

proof fn lemma_partial_step(
    dims: ShapeDims,
    terms: Seq<Term>,
    blk: int,
    rho: Seq<B128>,
    n: nat,
    v: Seq<B128>,
    k: int,
)
    requires
        partial(dims, terms, blk, rho, n, v),
        k == address(dims, terms, blk, n as int),
        0 <= k < v.len(),
    ensures
        partial(dims, terms, blk, rho, n + 1, v.update(k, v[k] + eq_at(n as int, rho))),
{
    let w = v.update(k, v[k] + eq_at(n as int, rho));
    assert forall|a: int| 0 <= a < w.len() implies #[trigger] w[a] == weight_at(
        dims,
        terms,
        blk,
        rho,
        n + 1,
        a,
    ) by {
        law_add_zero(v[a]);
        assert(v[a] == weight_at(dims, terms, blk, rho, n, a));
    }
}

/// A table of `2^n` zeros.
pub fn zero_table(n: usize) -> (v: Vec<B128>)
    requires
        exp2(n as nat) <= usize::MAX,
    ensures
        v@ == zeros(exp2(n as nat)),
{
    let len: usize = exp2_usize(n);
    let mut v: Vec<B128> = Vec::new();
    let mut i: usize = 0;
    while i < len
        invariant
            i <= len,
            v@ == zeros(i as nat),
        decreases len - i,
    {
        v.push(zero());
        i = i + 1;
        assert(v@ =~= zeros(i as nat));
    }
    v
}

/// The histograms of a term table at the row challenge `rho`.
pub fn build_histograms(table: &TermTable, rho: &[B128]) -> (h: Histograms)
    requires
        table.wf(),
        table.dims.fits(),
        rho@.len() == table.dims.n_t,
    ensures
        h.of(table.dims, table.terms@, rho@),
{
    let dims = &table.dims;
    let ghost terms = table.terms@;
    proof {
        lemma_exp2_mono(dims.n_x as nat, dims.n_d as nat);
        lemma_exp2_mono(dims.n_y as nat, dims.n_d as nat);
        lemma_exp2_mono(N_U as nat, dims.n_d as nat);
        lemma_exp2_mono(dims.n_t as nat, dims.n_d as nat);
        lemma_log2_ceil(dims.n_terms as nat);
    }
    let eq_rho = eq_ind_partial_eval_scalars(rho);
    let mut d_x = zero_table(dims.n_x);
    let mut d_seg = zero_table(dims.n_y);
    let mut d_g = zero_table(N_U);
    proof {
        lemma_partial_zero(*dims, terms, 0, rho@, d_x@);
        lemma_partial_zero(*dims, terms, 1, rho@, d_seg@);
        lemma_partial_zero(*dims, terms, 2, rho@, d_g@);
    }
    let mut t: usize = 0;
    while t < eq_rho.len()
        invariant
            t <= eq_rho@.len(),
            eq_rho@ == eq_tensor(rho@),
            table.wf(),
            dims.fits(),
            *dims == table.dims,
            terms == table.terms@,
            partial(*dims, terms, 0, rho@, t as nat, d_x@),
            partial(*dims, terms, 1, rho@, t as nat, d_seg@),
            partial(*dims, terms, 2, rho@, t as nat, d_g@),
        decreases eq_rho@.len() - t,
    {
        let w = eq_rho[t];
        proof {
            lemma_address_in(*dims, terms, 0, t as int);
            lemma_address_in(*dims, terms, 1, t as int);
            lemma_address_in(*dims, terms, 2, t as int);
            lemma_exp2_pos(dims.lp as nat);
        }
        let mut ax: usize = 0;
        let mut ay: usize = 0;
        let mut au: usize = 0;
        if t < table.terms.len() {
            let term = table.terms[t];
            proof {
                assert(term_in(*dims, term));
                lemma_cube_fits(*dims, term.y as int);
            }
            ax = term.x as usize;
            ay = cube_y(dims, term.y) as usize;
            au = term.u as usize;
        }
        proof {
            lemma_partial_step(*dims, terms, 0, rho@, t as nat, d_x@, ax as int);
            lemma_partial_step(*dims, terms, 1, rho@, t as nat, d_seg@, ay as int);
            lemma_partial_step(*dims, terms, 2, rho@, t as nat, d_g@, au as int);
        }
        let vx = d_x[ax] + w;
        d_x.set(ax, vx);
        let vy = d_seg[ay] + w;
        d_seg.set(ay, vy);
        let vg = d_g[au] + w;
        d_g.set(au, vg);
        t = t + 1;
    }
    proof {
        assert(d_x@ =~= histogram(*dims, terms, 0, rho@));
        assert(d_seg@ =~= histogram(*dims, terms, 1, rho@));
        assert(d_g@ =~= histogram(*dims, terms, 2, rho@));
    }
    Histograms { d_x, d_seg, d_g }
}

/// Segmented addresses fit in 32 bits.
pub proof fn lemma_cube_fits(dims: ShapeDims, y: int)
    requires
        dims.segmented(),
        dims.n_y <= 32,
        0 <= y < dims.combined_len,
    ensures
        dims.n_pub <= u32::MAX,
        cube_index(dims, y) <= u32::MAX,
{
    lemma_exp2_small();
    lemma_exp2_mono(dims.n_y as nat, 32);
    lemma_exp2_mono((dims.n_y - 1) as nat, 31);
    lemma_exp2_mono(dims.lp as nat, 31);
    law_cube_index(dims, y, y);
}

/// The histogram table of a batch.
pub fn assemble_m_d(dims: &ShapeDims, h: &Histograms) -> (m: Vec<B128>)
    requires
        dims.derived(),
        dims.fits(),
        h.d_x@.len() <= exp2(dims.n_a as nat),
        h.d_seg@.len() <= exp2(dims.n_a as nat),
        h.d_g@.len() <= exp2(dims.n_a as nat),
    ensures
        m@ == histogram_table(*dims, h.d_x@, h.d_seg@, h.d_g@),
        m@.len() == exp2(dims.n_d as nat),
{
    proof {
        lemma_exp2_mono(dims.n_a as nat, dims.n_d as nat);
        lemma_exp2_add(dims.n_a as nat, 2);
        lemma_exp2_small();
    }
    let block: usize = exp2_usize(dims.n_a);
    let mut m: Vec<B128> = Vec::new();
    push_padded(&mut m, &h.d_x, block);
    push_padded(&mut m, &h.d_seg, block);
    push_padded(&mut m, &h.d_g, block);
    let none: Vec<B128> = Vec::new();
    push_padded(&mut m, &none, block);
    assert(m@ =~= histogram_table(*dims, h.d_x@, h.d_seg@, h.d_g@));
    m
}

/// Appends a table, padded with zeros to `n` entries.
fn push_padded(m: &mut Vec<B128>, v: &Vec<B128>, n: usize)
    requires
        v@.len() <= n,
    ensures
        final(m)@ == old(m)@ + padded(v@, n as nat),
{
    let mut i: usize = 0;
    while i < n
        invariant
            i <= n,
            v@.len() <= n,
            m@ == old(m)@ + padded(v@, n as nat).take(i as int),
        decreases n - i,
    {
        let e = if i < v.len() {
            v[i]
        } else {
            zero()
        };
        m.push(e);
        i = i + 1;
        assert(m@ =~= old(m)@ + padded(v@, n as nat).take(i as int));
    }
    assert(padded(v@, n as nat).take(n as int) =~= padded(v@, n as nat));
}

/// A point of the histogram table: an address, padded with zeros, and two selectors.
pub open spec fn table_point(dims: ShapeDims, addr: Seq<B128>, c0: B128, c1: B128) -> Seq<B128> {
    padded(addr, dims.n_a as nat) + seq![c0, c1]
}

/// The address of the meta histogram at which shift kind `o` is read.
pub open spec fn meta_address(parsed: ParsedClaim, o: int) -> Seq<B128> {
    let (p0, p1) = slot_coords(parsed.lambda_and);
    parsed.r_s@ + bits_of(o, 3) + seq![p0, p1]
}

/// The ten points at which a claim needs the histogram table.
pub open spec fn claim_points(dims: ShapeDims, parsed: ParsedClaim) -> Seq<Seq<B128>> {
    Seq::new(
        10,
        |j: int|
            if j == 0 {
                table_point(dims, parsed.r_x@, zero(), zero())
            } else if j == 1 {
                table_point(dims, parsed.r_y@.push(parsed.r_segment), one(), zero())
            } else {
                table_point(dims, meta_address(parsed, j - 2), zero(), one())
            },
    )
}

/// The views of a list of points.
pub open spec fn points_view(points: Seq<Vec<B128>>) -> Seq<Seq<B128>> {
    points.map_values(|p: Vec<B128>| p@)
}

/// A point from its address and selectors.
fn make_point(dims: &ShapeDims, addr: &Vec<B128>, c0: B128, c1: B128) -> (p: Vec<B128>)
    requires
        addr@.len() <= dims.n_a,
    ensures
        p@ == table_point(*dims, addr@, c0, c1),
{
    let mut p: Vec<B128> = Vec::new();
    push_padded(&mut p, addr, dims.n_a);
    p.push(c0);
    p.push(c1);
    assert(p@ =~= table_point(*dims, addr@, c0, c1));
    p
}

/// The three bits of a shift kind.
fn push_kind_bits(p: &mut Vec<B128>, o: usize)
    requires
        o < 8,
    ensures
        final(p)@ == old(p)@ + bits_of(o as int, 3),
{
    let b0: usize = o % 2;
    let b1: usize = (o / 2) % 2;
    let b2: usize = o / 4;
    p.push(if b0 == 1 {
        one()
    } else {
        zero()
    });
    p.push(if b1 == 1 {
        one()
    } else {
        zero()
    });
    p.push(if b2 == 1 {
        one()
    } else {
        zero()
    });
    proof {
        lemma_exp2_small();
        reveal_with_fuel(bits_of, 4);
        assert(p@ =~= old(p)@ + bits_of(o as int, 3));
    }
}

/// The ten points at which a claim needs the histogram table: the constraint point, the word
/// point, and one meta point per shift kind.
pub fn m_d_points(dims: &ShapeDims, tr: &ClaimTransparents) -> (points: Vec<Vec<B128>>)
    requires
        dims.derived(),
        parsed_fits(*dims, tr.parsed),
    ensures
        points_view(points@) == claim_points(*dims, tr.parsed),
{
    let mut points: Vec<Vec<B128>> = Vec::new();
    points.push(make_point(dims, &tr.parsed.r_x, zero(), zero()));
    let mut py: Vec<B128> = Vec::new();
    let mut i: usize = 0;
    while i < tr.parsed.r_y.len()
        invariant
            i <= tr.parsed.r_y@.len(),
            py@ == tr.parsed.r_y@.take(i as int),
        decreases tr.parsed.r_y@.len() - i,
    {
        py.push(tr.parsed.r_y[i]);
        i = i + 1;
        assert(py@ =~= tr.parsed.r_y@.take(i as int));
    }
    py.push(tr.parsed.r_segment);
    assert(py@ =~= tr.parsed.r_y@.push(tr.parsed.r_segment));
    points.push(make_point(dims, &py, one(), zero()));
    let (p0, p1) = tr.m_coords();
    let mut o: usize = 0;
    while o < SHIFT_VARIANT_COUNT
        invariant
            o <= 8,
            dims.derived(),
            parsed_fits(*dims, tr.parsed),
            (p0, p1) == slot_coords(tr.parsed.lambda_and),
            points@.len() == 2 + o,
            forall|j: int|
                0 <= j < points@.len() ==> #[trigger] points@[j]@ == claim_points(
                    *dims,
                    tr.parsed,
                )[j],
        decreases 8 - o,
    {
        let mut pg: Vec<B128> = Vec::new();
        let mut s: usize = 0;
        while s < tr.parsed.r_s.len()
            invariant
                s <= tr.parsed.r_s@.len(),
                pg@ == tr.parsed.r_s@.take(s as int),
            decreases tr.parsed.r_s@.len() - s,
        {
            pg.push(tr.parsed.r_s[s]);
            s = s + 1;
            assert(pg@ =~= tr.parsed.r_s@.take(s as int));
        }
        assert(pg@ =~= tr.parsed.r_s@);
        push_kind_bits(&mut pg, o);
        pg.push(p0);
        pg.push(p1);
        proof {
            lemma_bits_len(o as int, 3);
            assert(pg@ =~= meta_address(tr.parsed, o as int));
        }
        points.push(make_point(dims, &pg, zero(), one()));
        o = o + 1;
    }
    assert(points_view(points@) =~= claim_points(*dims, tr.parsed));
    points
}

pub proof fn lemma_bits_len(i: int, n: nat)
    ensures
        bits_of(i, n).len() == n,
    decreases n,
{
    if n > 0 {
        let half = exp2((n - 1) as nat);
        lemma_bits_len(i, (n - 1) as nat);
        lemma_bits_len(i - half, (n - 1) as nat);
    }
}

/// The value of the meta histogram at an 11-coordinate point.
pub fn evaluate_d_g(d_g: &[B128], point11: &[B128]) -> (r: B128)
    requires
        d_g@.len() == exp2(N_U as nat),
        point11@.len() == N_U,
    ensures
        r == mle(d_g@, point11@),
{
    evaluate(d_g, point11)
}

/// The indicator of two full points.
pub fn eq_point(a: &[B128], b: &[B128]) -> (r: B128)
    requires
        a@.len() == b@.len(),
    ensures
        r == eq_points(a@, b@),
{
    eq_ind(a, b)
}

/// The address of a row of the term table in each block, and of a padding row.
pub proof fn law_row_address(dims: ShapeDims, terms: Seq<Term>, t: int)
    requires
        0 <= t,
        dims.n_pub > 0,
    ensures
        t < terms.len() ==> {
            &&& address(dims, terms, 0, t) == terms[t].x
            &&& address(dims, terms, 1, t) == cube_index(dims, terms[t].y as int)
            &&& address(dims, terms, 2, t) == terms[t].u
        },
        t >= terms.len() ==> {
            &&& address(dims, terms, 0, t) == 0
            &&& address(dims, terms, 1, t) == 0
            &&& address(dims, terms, 2, t) == 0
        },
{
}

/// The entries of a histogram add up row by row: no row weighs nothing, and a further row adds its
/// indicator at its own address and nothing elsewhere. A histogram counts all rows.
pub proof fn law_histogram_counts(
    dims: ShapeDims,
    terms: Seq<Term>,
    blk: int,
    rho: Seq<B128>,
    n: nat,
    a: int,
)
    requires
        0 <= blk < 3,
        0 <= a < exp2(if blk == 0 {
            dims.n_x as nat
        } else if blk == 1 {
            dims.n_y as nat
        } else {
            11
        }),
    ensures
        weight_at(dims, terms, blk, rho, 0, a) == zero(),
        weight_at(dims, terms, blk, rho, n + 1, a) == weight_at(dims, terms, blk, rho, n, a) + (
        if address(dims, terms, blk, n as int) == a {
            eq_at(n as int, rho)
        } else {
            zero()
        }),
        histogram(dims, terms, blk, rho)[a] == weight_at(dims, terms, blk, rho, exp2(rho.len()), a),
{
}

/// The histogram table: the three histograms at the starts of its first three quarters, and zeros
/// everywhere else.
pub proof fn law_histogram_entries(
    dims: ShapeDims,
    d_x: Seq<B128>,
    d_seg: Seq<B128>,
    d_g: Seq<B128>,
    i: int,
)
    requires
        0 <= i < exp2(dims.n_a as nat),
    ensures
        ({
            let n = exp2(dims.n_a as nat) as int;
            let m = histogram_table(dims, d_x, d_seg, d_g);
            &&& m.len() == 4 * n
            &&& m[i] == (if i < d_x.len() { d_x[i] } else { zero() })
            &&& m[n + i] == (if i < d_seg.len() { d_seg[i] } else { zero() })
            &&& m[2 * n + i] == (if i < d_g.len() { d_g[i] } else { zero() })
            &&& m[3 * n + i] == zero()
        }),
{
}

/// The three histograms of a row challenge: over the constraints, over the segmented words and over the meta
/// indices, each with one entry for every address of its width.
pub proof fn law_histograms(h: Histograms, dims: ShapeDims, terms: Seq<Term>, rho: Seq<B128>, a: int)
    requires
        h.of(dims, terms, rho),
        rho.len() == dims.n_t,
        0 <= a,
    ensures
        h.d_x@.len() == exp2(dims.n_x as nat),
        h.d_seg@.len() == exp2(dims.n_y as nat),
        h.d_g@.len() == exp2(11),
        a < h.d_x@.len() ==> h.d_x@[a] == weight_at(dims, terms, 0, rho, exp2(dims.n_t as nat), a),
        a < h.d_seg@.len() ==> h.d_seg@[a] == weight_at(
            dims,
            terms,
            1,
            rho,
            exp2(dims.n_t as nat),
            a,
        ),
        a < h.d_g@.len() ==> h.d_g@[a] == weight_at(dims, terms, 2, rho, exp2(dims.n_t as nat), a),
{
}

/// A list of points as mathematical values: as many, and each with its own coordinates.
pub proof fn law_points_view(points: Seq<Vec<B128>>, i: int)
    requires
        0 <= i < points.len(),
    ensures
        points_view(points).len() == points.len(),
        points_view(points)[i] == points[i]@,
{
}

} // verus!
