//! Builders of the prover's large tables, entry by entry from a generator.

use crate::encode::embed;
use crate::error::DischargeError;
use crate::field::element::{one, zero, B128};
use crate::field::ring::{group_units, law_add_associates, law_add_commutes, law_mul_commutes};
use crate::field::sums::{lemma_sum_ext, lemma_sum_scale, lemma_sum_split, sum};
use crate::fracadd::FracLayer;
use crate::histogram::{address, histogram_table, padded, Histograms};
use crate::multilinear::eq::{eq_at, eq_tensor, law_eq_mass};
use crate::multilinear::exp2::{exp2, exp2_usize, lemma_exp2_mono, lemma_exp2_pos, lemma_log2_ceil};
use crate::multilinear::mle::{mle, zeros};
use crate::poles::{leaf_den, leaf_num};
use crate::table::{ShapeDims, Term, TermTable};
use crate::vk::{
    lemma_exp2_shift, row_address, row_table, tag, tags, vk_column, vk_entry,
};
use vstd::prelude::*;

verus! {

/// A table of `2^log_len` entries from a generator.
pub fn build_buffer_par<G: Fn(usize) -> B128>(log_len: usize, generator: G) -> (v: Vec<B128>)
    requires
        exp2(log_len as nat) <= usize::MAX,
        forall|i: usize| i < exp2(log_len as nat) ==> call_requires(generator, (i,)),
    ensures
        v@.len() == exp2(log_len as nat),
        forall|i: usize|
            i < exp2(log_len as nat) ==> call_ensures(generator, (i,), #[trigger] v@[i as int]),
{
    let len: usize = exp2_usize(log_len);
    let mut v: Vec<B128> = Vec::new();
    let mut i: usize = 0;
    while i < len
        invariant
            i <= len,
            len == exp2(log_len as nat),
            v@.len() == i,
            forall|j: usize| j < len ==> call_requires(generator, (j,)),
            forall|j: usize| j < i ==> call_ensures(generator, (j,), #[trigger] v@[j as int]),
        decreases len - i,
    {
        v.push(generator(i));
        i = i + 1;
    }
    v
}

/// The row table of a term table, entry by entry.
pub fn build_m_vk_packed(table: &TermTable) -> (m: Vec<B128>)
    requires
        table.wf(),
        table.dims.fits(),
        table.dims.n_a <= 126,
        exp2((table.dims.n_d + 2) as nat) <= usize::MAX,
    ensures
        m@ == row_table(table.dims, table.terms@),
        m@.len() == exp2((table.dims.n_d + 2) as nat),
{
    let n_l: usize = table.dims.n_d;
    let block: usize = exp2_usize(n_l);
    let n_a: usize = table.dims.n_a;
    let ghost rows = row_table(table.dims, table.terms@);
    proof {
        lemma_exp2_pos(n_l as nat);
        assert(exp2((n_l + 2) as nat) == 2 * exp2((n_l + 1) as nat));
        assert(exp2((n_l + 1) as nat) == 2 * exp2(n_l as nat));
    }
    let generator = |w: usize| -> (e: B128)
        requires
            w < 4 * block,
        ensures
            e == row_table(table.dims, table.terms@)[w as int],
        {
            let blk: usize = if w < block {
                0
            } else if w < 2 * block {
                1
            } else if w < 3 * block {
                2
            } else {
                3
            };
            let t: usize = w - blk * block;
            if blk == 3 {
                zero()
            } else {
                vk_entry(blk, row_address(table, blk, t), n_a)
            }
        };
    let m = build_buffer_par(n_l + 2, generator);
    assert(m@ =~= rows) by {
        assert forall|i: int| 0 <= i < m@.len() implies m@[i] == rows[i] by {
            let j: usize = i as usize;
            assert(call_ensures(generator, (j,), m@[j as int]));
        }
    }
    m
}

/// Copies a table over another of the same length.
pub fn par_copy(dst: &mut Vec<B128>, src: &[B128])
    requires
        old(dst)@.len() == src@.len(),
    ensures
        final(dst)@ == src@,
{
    let mut i: usize = 0;
    while i < src.len()
        invariant
            i <= src@.len(),
            dst@.len() == src@.len(),
            forall|j: int| 0 <= j < i ==> dst@[j] == src@[j],
        decreases src@.len() - i,
    {
        dst.set(i, src[i]);
        i = i + 1;
    }
    assert(dst@ =~= src@);
}

/// A value is the entry of a table that `sel` picks for a term.
pub open spec fn gathers<S: Fn(&Term) -> usize>(sel: S, term: Term, tensor: Seq<B128>, v: B128) -> bool {
    exists|s: usize| #[trigger] call_ensures(sel, (&term,), s) && v == tensor[s as int]
}

/// The column of a table of values over `2^log_len` rows: the value that `sel` picks for each term,
/// and the value at zero for the padding rows.
pub fn gather_column<S: Fn(&Term) -> usize>(
    terms: &[Term],
    tensor: &[B128],
    log_len: usize,
    sel: S,
) -> (col: Vec<B128>)
    requires
        tensor@.len() > 0,
        exp2(log_len as nat) <= usize::MAX,
        forall|t: int| 0 <= t < terms@.len() ==> call_requires(sel, (&#[trigger] terms@[t],)),
        forall|t: int, s: usize|
            0 <= t < terms@.len() && #[trigger] call_ensures(sel, (&terms@[t],), s) ==> s
                < tensor@.len(),
    ensures
        col@.len() == exp2(log_len as nat),
        forall|t: int|
            0 <= t < col@.len() && t < terms@.len() ==> gathers(
                sel,
                terms@[t],
                tensor@,
                #[trigger] col@[t],
            ),
        forall|t: int|
            terms@.len() <= t < col@.len() ==> #[trigger] col@[t] == tensor@[0],
{
    let len: usize = exp2_usize(log_len);
    let mut col: Vec<B128> = Vec::new();
    let mut t: usize = 0;
    while t < len
        invariant
            t <= len,
            col@.len() == t,
            tensor@.len() > 0,
            forall|t: int| 0 <= t < terms@.len() ==> call_requires(sel, (&#[trigger] terms@[t],)),
            forall|t: int, s: usize|
                0 <= t < terms@.len() && #[trigger] call_ensures(sel, (&terms@[t],), s) ==> s
                    < tensor@.len(),
            forall|j: int|
                0 <= j < t && j < terms@.len() ==> gathers(
                    sel,
                    terms@[j],
                    tensor@,
                    #[trigger] col@[j],
                ),
            forall|j: int| terms@.len() <= j < t ==> #[trigger] col@[j] == tensor@[0],
        decreases len - t,
    {
        if t < terms.len() {
            assert(call_requires(sel, (&terms@[t as int],)));
            let s: usize = sel(&terms[t]);
            assert(call_ensures(sel, (&terms@[t as int],), s));
            col.push(tensor[s]);
            assert(gathers(sel, terms@[t as int], tensor@, tensor@[s as int]));
        } else {
            col.push(tensor[0]);
        }
        t = t + 1;
    }
    col
}

/// The histogram table of a batch, entry by entry.
pub fn assemble_m_d_packed(dims: &ShapeDims, h: &Histograms) -> (m: Vec<B128>)
    requires
        dims.derived(),
        dims.fits(),
        h.d_x@.len() <= exp2(dims.n_a as nat),
        h.d_seg@.len() <= exp2(dims.n_a as nat),
        h.d_g@.len() <= exp2(dims.n_a as nat),
    ensures
        m@ == histogram_table(*dims, h.d_x@, h.d_seg@, h.d_g@),
        m@.len() == exp2(dims.n_d as nat),
{
    proof {
        lemma_exp2_pos(dims.n_a as nat);
        assert(exp2(dims.n_d as nat) == 2 * exp2((dims.n_a + 1) as nat));
        assert(exp2((dims.n_a + 1) as nat) == 2 * exp2(dims.n_a as nat));
    }
    let block: usize = exp2_usize(dims.n_a);
    let generator = |w: usize| -> (e: B128)
        requires
            w < 4 * block,
        ensures
            e == histogram_table(*dims, h.d_x@, h.d_seg@, h.d_g@)[w as int],
        {
            if w < block {
                entry_or_zero(&h.d_x, w)
            } else if w < 2 * block {
                entry_or_zero(&h.d_seg, w - block)
            } else if w < 3 * block {
                entry_or_zero(&h.d_g, w - 2 * block)
            } else {
                zero()
            }
        };
    let m = build_buffer_par(dims.n_d, generator);
    let ghost rows = histogram_table(*dims, h.d_x@, h.d_seg@, h.d_g@);
    assert(m@ =~= rows) by {
        assert forall|i: int| 0 <= i < m@.len() implies m@[i] == rows[i] by {
            let j: usize = i as usize;
            assert(call_ensures(generator, (j,), m@[j as int]));
        }
    }
    m
}

/// An entry, or zero beyond the end.
fn entry_or_zero(v: &Vec<B128>, i: usize) -> (e: B128)
    ensures
        e == (if i < v@.len() {
            v@[i as int]
        } else {
            zero()
        }),
{
    if i < v.len() {
        v[i]
    } else {
        zero()
    }
}

/// The leaves of the fraction tree: for every row of the three blocks, its weight over its distance
/// from the pole challenge, and for every histogram index its entry over the index's distance.
///
/// `eq_rho` is the indicator table of the row challenge and `m_d` the histogram table.
pub fn build_phase_c_leaf_halves(table: &TermTable, tau: B128, eq_rho: &Vec<B128>, m_d: &Vec<B128>) -> (r:
    Result<FracLayer, DischargeError>)
    requires
        table.wf(),
        table.dims.fits(),
        table.dims.n_a <= 125,
        exp2((table.dims.n_d + 1) as nat) <= usize::MAX,
        eq_rho@.len() == exp2(table.dims.n_t as nat),
        m_d@.len() == exp2(table.dims.n_d as nat),
    ensures
        match r {
            Ok(leaf) => {
                &&& tau.bits >= exp2((table.dims.n_a + 2) as nat)
                &&& leaf.wf((table.dims.n_d + 1) as nat)
                &&& leaf.num() == leaf_num(table.dims, eq_rho@, m_d@)
                &&& leaf.den() == leaf_den(table.dims, table.terms@, tau)
            },
            Err(e) => tau.bits < exp2((table.dims.n_a + 2) as nat) && e
                == DischargeError::TauInPoleRange,
        },
{
    let dims = &table.dims;
    proof {
        lemma_exp2_shift((dims.n_a + 2) as nat);
    }
    let bound: u128 = 1u128 << ((dims.n_a + 2) as u128);
    if tau.val() < bound {
        return Err(DischargeError::TauInPoleRange);
    }
    proof {
        assert(exp2((dims.n_d + 1) as nat) == 2 * exp2(dims.n_d as nat));
        lemma_exp2_mono(dims.n_t as nat, dims.n_d as nat);
    }
    let block: usize = exp2_usize(dims.n_d);
    let mut num_lo: Vec<B128> = Vec::new();
    push_weights(&mut num_lo, eq_rho, block);
    push_weights(&mut num_lo, eq_rho, block);
    let mut num_hi: Vec<B128> = Vec::new();
    push_weights(&mut num_hi, eq_rho, block);
    push_weights(&mut num_hi, m_d, block);
    let mut den_lo: Vec<B128> = Vec::new();
    push_distances(&mut den_lo, table, tau, 0, block);
    push_distances(&mut den_lo, table, tau, 1, block);
    let mut den_hi: Vec<B128> = Vec::new();
    push_distances(&mut den_hi, table, tau, 2, block);
    let ghost head = den_hi@;
    let ghost last = Seq::new(block as nat, |t: int| tau + embed(t));
    let mut t: usize = 0;
    while t < block
        invariant
            t <= block,
            last == Seq::new(block as nat, |t: int| tau + embed(t)),
            den_hi@ == head + last.take(t as int),
        decreases block - t,
    {
        den_hi.push(tau + B128::new(t as u128));
        t = t + 1;
        assert(den_hi@ =~= head + last.take(t as int));
    }
    let leaf = FracLayer { num_lo, num_hi, den_lo, den_hi };
    proof {
        assert(last.take(block as int) =~= last);
        assert(padded(m_d@, block as nat) =~= m_d@);
        assert(leaf.num() =~= leaf_num(*dims, eq_rho@, m_d@));
        assert(leaf.den() =~= leaf_den(*dims, table.terms@, tau));
    }
    Ok(leaf)
}

/// Appends a table of weights, padded with zeros to a block.
fn push_weights(v: &mut Vec<B128>, w: &Vec<B128>, block: usize)
    requires
        w@.len() <= block,
    ensures
        final(v)@ == old(v)@ + padded(w@, block as nat),
{
    let mut i: usize = 0;
    while i < block
        invariant
            i <= block,
            v@ == old(v)@ + padded(w@, block as nat).take(i as int),
        decreases block - i,
    {
        v.push(entry_or_zero(w, i));
        i = i + 1;
        assert(v@ =~= old(v)@ + padded(w@, block as nat).take(i as int));
    }
    assert(padded(w@, block as nat).take(block as int) =~= padded(w@, block as nat));
}

/// Appends the distances of one block of rows from the pole challenge.
fn push_distances(v: &mut Vec<B128>, table: &TermTable, tau: B128, blk: usize, block: usize)
    requires
        table.wf(),
        table.dims.fits(),
        table.dims.n_a <= 125,
        blk < 3,
        block == exp2(table.dims.n_d as nat),
    ensures
        final(v)@ == old(v)@ + Seq::new(
            block as nat,
            |t: int| tau + vk_column(table.dims, table.terms@, blk as int)[t],
        ),
{
    let ghost col = Seq::new(
        block as nat,
        |t: int| tau + vk_column(table.dims, table.terms@, blk as int)[t],
    );
    let mut t: usize = 0;
    while t < block
        invariant
            t <= block,
            table.wf(),
            table.dims.fits(),
            table.dims.n_a <= 125,
            blk < 3,
            block == exp2(table.dims.n_d as nat),
            col == Seq::new(
                block as nat,
                |t: int| tau + vk_column(table.dims, table.terms@, blk as int)[t],
            ),
            v@ == old(v)@ + col.take(t as int),
        decreases block - t,
    {
        let addr: u64 = row_address(table, blk, t);
        v.push(tau + vk_entry(blk, addr, table.dims.n_a));
        t = t + 1;
        assert(v@ =~= old(v)@ + col.take(t as int));
    }
    assert(col.take(block as int) =~= col);
}

/// The evaluations at a point of the three blocks of the row table, in one pass over the terms:
/// all padding rows of a block hold its tag, and their weights add up to what the terms leave of
/// one.
///
/// `eq_pi` is the indicator table of the point.
pub fn vk_corner_values_packed(table: &TermTable, eq_pi: &Vec<B128>) -> (r: [B128; 3])
    requires
        table.wf(),
        table.dims.fits(),
        table.dims.n_a <= 126,
        exists|pi: Seq<B128>| pi.len() == table.dims.n_d && eq_pi@ == #[trigger] eq_tensor(pi),
    ensures
        forall|pi: Seq<B128>, blk: int|
            pi.len() == table.dims.n_d && eq_pi@ == eq_tensor(pi) && 0 <= blk < 3 ==> r@[blk]
                == #[trigger] mle(vk_column(table.dims, table.terms@, blk), pi),
{
    let dims = &table.dims;
    let ghost p0 = choose|pi: Seq<B128>|
        pi.len() == table.dims.n_d && eq_pi@ == #[trigger] eq_tensor(pi);
    let ghost terms = table.terms@;
    let n: usize = table.terms.len();
    proof {
        lemma_log2_ceil(dims.n_terms as nat);
        lemma_exp2_mono(dims.n_t as nat, dims.n_d as nat);
    }
    let kappa = tags(dims.n_a);
    let mut vx = zero();
    let mut vy = zero();
    let mut vu = zero();
    let mut se = zero();
    let mut t: usize = 0;
    while t < n
        invariant
            t <= n,
            n == terms.len(),
            n <= eq_pi@.len(),
            terms == table.terms@,
            *dims == table.dims,
            table.wf(),
            dims.fits(),
            dims.n_a <= 126,
            eq_pi@.len() == exp2(dims.n_d as nat),
            vx == sum(|t: int| eq_pi@[t] * vk_column(*dims, terms, 0)[t], t as nat),
            vy == sum(|t: int| eq_pi@[t] * vk_column(*dims, terms, 1)[t], t as nat),
            vu == sum(|t: int| eq_pi@[t] * vk_column(*dims, terms, 2)[t], t as nat),
            se == sum(|t: int| eq_pi@[t], t as nat),
        decreases n - t,
    {
        let e = eq_pi[t];
        let ax: u64 = row_address(table, 0, t);
        let ay: u64 = row_address(table, 1, t);
        let au: u64 = row_address(table, 2, t);
        vx = vx + e * vk_entry(0, ax, dims.n_a);
        vy = vy + e * vk_entry(1, ay, dims.n_a);
        vu = vu + e * vk_entry(2, au, dims.n_a);
        se = se + e;
        t = t + 1;
    }
    let pad_mass = one() + se;
    let r = [vx, vy + kappa[1] * pad_mass, vu + kappa[2] * pad_mass];
    proof {
        assert forall|pi: Seq<B128>, blk: int|
            pi.len() == dims.n_d && eq_pi@ == eq_tensor(pi) && 0 <= blk < 3 implies r@[blk]
            == #[trigger] mle(vk_column(*dims, terms, blk), pi) by {
            lemma_corner(*dims, terms, eq_pi@, pi, blk);
        }
    }
    r
}

/// The evaluation of a block of the row table: the terms' part, and the tag times the mass of the
/// padding rows.
proof fn lemma_corner(dims: ShapeDims, terms: Seq<Term>, eq_pi: Seq<B128>, pi: Seq<B128>, blk: int)
    requires
        dims.segmented(),
        pi.len() == dims.n_d,
        eq_pi == eq_tensor(pi),
        terms.len() <= exp2(dims.n_d as nat),
        0 <= blk < 3,
    ensures
        mle(vk_column(dims, terms, blk), pi) == sum(
            |t: int| eq_pi[t] * vk_column(dims, terms, blk)[t],
            terms.len(),
        ) + tag(dims.n_a as nat, blk) * (one() + sum(|t: int| eq_pi[t], terms.len())),
        blk == 0 ==> tag(dims.n_a as nat, blk) == zero(),
        blk == 0 ==> mle(vk_column(dims, terms, blk), pi) == sum(
            |t: int| eq_pi[t] * vk_column(dims, terms, blk)[t],
            terms.len(),
        ),
{
    broadcast use group_units;

    let col = vk_column(dims, terms, blk);
    let n = exp2(dims.n_d as nat);
    let k = terms.len();
    let rest = (n - k) as nat;
    let kappa = tag(dims.n_a as nat, blk);
    lemma_exp2_pos(dims.lp as nat);
    let full = |t: int| col[t] * eq_tensor(pi)[t];
    let head = |t: int| eq_pi[t] * col[t];
    let tail = |t: int| col[k + t] * eq_tensor(pi)[k + t];
    lemma_sum_split(full, tail, k, rest);
    assert forall|t: int| 0 <= t < k implies #[trigger] full(t) == head(t) by {
        law_mul_commutes(col[t], eq_pi[t]);
    }
    lemma_sum_ext(full, head, k);
    let mass = |t: int| eq_pi[t];
    let mass_tail = |t: int| eq_pi[k + t];
    assert forall|t: int| 0 <= t < rest implies #[trigger] tail(t) == kappa * mass_tail(t) by {
        assert(address(dims, terms, blk, k + t) == 0);
    }
    lemma_sum_scale(kappa, mass_tail, tail, rest);
    lemma_sum_split(mass, mass_tail, k, rest);
    law_eq_mass(pi);
    lemma_sum_ext(mass, |i: int| eq_at(i, pi), n);
    // one == head mass + tail mass, so the tail mass is one plus the head mass.
    let (hm, tm) = (sum(mass, k), sum(mass_tail, rest));
    assert(hm + tm == one());
    assert(tm == one() + hm) by {
        law_add_commutes(hm, tm);
        law_add_associates(tm, hm, hm);
    }
    assert(0 * exp2(dims.n_a as nat) == 0);
}

/// Adds a multiple of a table to the low entries of another.
pub fn axpy_dense_par(w_eq: &mut Vec<B128>, tensor: &[B128], scale: B128)
    requires
        tensor@.len() <= old(w_eq)@.len(),
    ensures
        final(w_eq)@.len() == old(w_eq)@.len(),
        forall|i: int|
            0 <= i < tensor@.len() ==> #[trigger] final(w_eq)@[i] == old(w_eq)@[i] + scale
                * tensor@[i],
        forall|i: int|
            tensor@.len() <= i < old(w_eq)@.len() ==> #[trigger] final(w_eq)@[i] == old(w_eq)@[i],
{
    let mut i: usize = 0;
    while i < tensor.len()
        invariant
            i <= tensor@.len(),
            tensor@.len() <= w_eq@.len(),
            w_eq@.len() == old(w_eq)@.len(),
            forall|j: int|
                0 <= j < i ==> #[trigger] w_eq@[j] == old(w_eq)@[j] + scale * tensor@[j],
            forall|j: int| i <= j < w_eq@.len() ==> #[trigger] w_eq@[j] == old(w_eq)@[j],
        decreases tensor@.len() - i,
    {
        let v = w_eq[i] + scale * tensor[i];
        w_eq.set(i, v);
        i = i + 1;
    }
}

} // verus!
