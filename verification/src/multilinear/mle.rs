//! Multilinear extensions and their evaluation.

use crate::field::element::{one, zero, B128};
use crate::field::ring::{
    group_units, law_add_associates, law_distributes, law_distributes_right, law_mul_associates,
    law_mul_commutes,
};
use crate::field::sums::{
    lemma_sum_add, lemma_sum_ext, lemma_sum_scale, lemma_sum_split, lemma_sum_zeros, sum,
};
use crate::multilinear::eq::{bits_of, eq_at, eq_points, eq_tensor, eq_zero, law_eq_points_of_bits};
use crate::multilinear::exp2::{exp2, lemma_exp2_add, lemma_exp2_mono, lemma_exp2_pos};
use vstd::prelude::*;

verus! {

/// The inner product of the first `n` entries of two tables.
pub open spec fn dot(v: Seq<B128>, w: Seq<B128>, n: nat) -> B128 {
    sum(|i: int| v[i] * w[i], n)
}

/// The value at `r` of the multilinear polynomial whose values on the cube are `v`.
pub open spec fn mle(v: Seq<B128>, r: Seq<B128>) -> B128 {
    dot(v, eq_tensor(r), exp2(r.len()))
}

/// The lower half of a table: its top variable at zero.
pub open spec fn lower(v: Seq<B128>) -> Seq<B128> {
    v.subrange(0, v.len() as int / 2)
}

/// The upper half of a table: its top variable at one.
pub open spec fn upper(v: Seq<B128>) -> Seq<B128> {
    v.subrange(v.len() as int / 2, v.len() as int)
}

/// The table with its top variable bound to `c`.
pub open spec fn fold_top(v: Seq<B128>, c: B128) -> Seq<B128> {
    Seq::new((v.len() / 2) as nat, |i: int| lower(v)[i] + (lower(v)[i] + upper(v)[i]) * c)
}

/// The value at `c` of the line through `a` at zero and `b` at one.
pub open spec fn line(a: B128, b: B128, c: B128) -> B128 {
    a + (a + b) * c
}

/// Entry by entry sum of two tables.
pub open spec fn table_add(v: Seq<B128>, w: Seq<B128>) -> Seq<B128> {
    Seq::new(v.len(), |i: int| v[i] + w[i])
}

/// Entry by entry multiple of a table.
pub open spec fn table_scale(c: B128, v: Seq<B128>) -> Seq<B128> {
    Seq::new(v.len(), |i: int| c * v[i])
}

/// A table of zeros.
pub open spec fn zeros(n: nat) -> Seq<B128> {
    Seq::new(n, |i: int| zero())
}

/// An inner product depends only on the entries it covers.
pub proof fn lemma_dot_ext(v: Seq<B128>, w: Seq<B128>, v2: Seq<B128>, w2: Seq<B128>, n: nat)
    requires
        forall|i: int| 0 <= i < n ==> #[trigger] v[i] == v2[i],
        forall|i: int| 0 <= i < n ==> #[trigger] w[i] == w2[i],
    ensures
        dot(v, w, n) == dot(v2, w2, n),
{
    let f = |i: int| v[i] * w[i];
    let g = |i: int| v2[i] * w2[i];
    assert forall|i: int| 0 <= i < n implies #[trigger] f(i) == g(i) by {
        assert(v[i] == v2[i] && w[i] == w2[i]);
    }
    lemma_sum_ext(f, g, n);
}

/// An inner product is symmetric.
pub proof fn lemma_dot_commutes(v: Seq<B128>, w: Seq<B128>, n: nat)
    ensures
        dot(v, w, n) == dot(w, v, n),
{
    let f = |i: int| v[i] * w[i];
    let g = |i: int| w[i] * v[i];
    assert forall|i: int| 0 <= i < n implies #[trigger] f(i) == g(i) by {
        law_mul_commutes(v[i], w[i]);
    }
    lemma_sum_ext(f, g, n);
}

/// An inner product is linear in its first table.
pub proof fn lemma_dot_linear(c: B128, v: Seq<B128>, u: Seq<B128>, w: Seq<B128>, n: nat)
    requires
        v.len() >= n,
        u.len() >= n,
    ensures
        dot(table_scale(c, v), w, n) == c * dot(v, w, n),
        dot(table_add(v, u), w, n) == dot(v, w, n) + dot(u, w, n),
{
    let f = |i: int| v[i] * w[i];
    let g = |i: int| u[i] * w[i];
    let sc = |i: int| table_scale(c, v)[i] * w[i];
    let ad = |i: int| table_add(v, u)[i] * w[i];
    assert forall|i: int| 0 <= i < n implies #[trigger] sc(i) == c * f(i) by {
        law_mul_associates(c, v[i], w[i]);
    }
    lemma_sum_scale(c, f, sc, n);
    assert forall|i: int| 0 <= i < n implies #[trigger] ad(i) == f(i) + g(i) by {
        law_distributes_right(v[i], u[i], w[i]);
    }
    lemma_sum_add(f, g, ad, n);
}

/// The extension splits over its top variable.
pub proof fn law_mle_split(v: Seq<B128>, r: Seq<B128>)
    requires
        r.len() > 0,
        v.len() == exp2(r.len()),
    ensures
        mle(v, r) == (one() + r.last()) * mle(lower(v), r.drop_last()) + r.last() * mle(
            upper(v),
            r.drop_last(),
        ),
{
    let s = r.drop_last();
    let c = r.last();
    let half = exp2(s.len());
    let f = |i: int| v[i] * eq_tensor(r)[i];
    let hi = |i: int| v[half + i] * eq_tensor(r)[half + i];
    lemma_sum_split(f, hi, half, half);
    let lo_base = |i: int| lower(v)[i] * eq_tensor(s)[i];
    let hi_base = |i: int| upper(v)[i] * eq_tensor(s)[i];
    assert forall|i: int| 0 <= i < half implies #[trigger] f(i) == (one() + c) * lo_base(i) by {
        let e = eq_at(i, s);
        law_mul_commutes(e, one() + c);
        law_mul_associates(v[i], one() + c, e);
        law_mul_commutes(v[i], one() + c);
        law_mul_associates(one() + c, v[i], e);
    }
    lemma_sum_scale(one() + c, lo_base, f, half);
    assert forall|i: int| 0 <= i < half implies #[trigger] hi(i) == c * hi_base(i) by {
        let e = eq_at(i, s);
        law_mul_commutes(e, c);
        law_mul_associates(v[half + i], c, e);
        law_mul_commutes(v[half + i], c);
        law_mul_associates(c, v[half + i], e);
    }
    lemma_sum_scale(c, hi_base, hi, half);
}

/// `a + (a + b) * c` is `(1 + c) * a + c * b`.
pub proof fn lemma_line(a: B128, b: B128, c: B128)
    ensures
        line(a, b, c) == (one() + c) * a + c * b,
{
    broadcast use group_units;

    law_distributes_right(a, b, c);
    law_distributes_right(one(), c, a);
    law_mul_commutes(a, c);
    law_mul_commutes(b, c);
    law_add_associates(a, c * a, c * b);
}

/// The extension is the line through the extensions of its two halves.
pub proof fn law_mle_line(v: Seq<B128>, r: Seq<B128>)
    requires
        r.len() > 0,
        v.len() == exp2(r.len()),
    ensures
        mle(v, r) == line(mle(lower(v), r.drop_last()), mle(upper(v), r.drop_last()), r.last()),
{
    law_mle_split(v, r);
    lemma_line(mle(lower(v), r.drop_last()), mle(upper(v), r.drop_last()), r.last());
}

/// The extension is additive, and commutes with scaling.
pub proof fn law_mle_linear(c: B128, v: Seq<B128>, w: Seq<B128>, r: Seq<B128>)
    requires
        v.len() >= exp2(r.len()),
        w.len() >= exp2(r.len()),
    ensures
        mle(table_add(v, w), r) == mle(v, r) + mle(w, r),
        mle(table_scale(c, v), r) == c * mle(v, r),
{
    lemma_dot_linear(c, v, w, eq_tensor(r), exp2(r.len()));
}

/// Binding the top variable of a table evaluates its extension there.
pub proof fn law_mle_fold(v: Seq<B128>, r: Seq<B128>)
    requires
        r.len() > 0,
        v.len() == exp2(r.len()),
    ensures
        mle(v, r) == mle(fold_top(v, r.last()), r.drop_last()),
{
    let s = r.drop_last();
    let c = r.last();
    let (lo, hi) = (lower(v), upper(v));
    law_mle_split(v, r);
    let a = table_scale(one() + c, lo);
    let b = table_scale(c, hi);
    assert(fold_top(v, c) =~= table_add(a, b)) by {
        assert forall|i: int| 0 <= i < lo.len() implies #[trigger] fold_top(v, c)[i] == a[i]
            + b[i] by {
            lemma_line(lo[i], hi[i], c);
        }
    }
    law_mle_linear(one() + c, lo, lo, s);
    law_mle_linear(c, hi, hi, s);
    law_mle_linear(c, a, b, s);
}

/// The extension of a single value is that value.
pub proof fn law_mle_constant(v: Seq<B128>)
    requires
        v.len() == 1,
    ensures
        mle(v, Seq::empty()) == v[0],
{
    broadcast use group_units;

    let f = |i: int| v[i] * eq_tensor(Seq::empty())[i];
    assert(sum(f, 1) == sum(f, 0) + f(0));
}

/// The extension of a table of zeros is zero.
pub proof fn law_mle_zeros(v: Seq<B128>, r: Seq<B128>)
    requires
        forall|i: int| 0 <= i < exp2(r.len()) ==> #[trigger] v[i] == zero(),
    ensures
        mle(v, r) == zero(),
{
    broadcast use group_units;

    let f = |i: int| v[i] * eq_tensor(r)[i];
    lemma_sum_zeros(f, exp2(r.len()));
}

/// The extension depends only on the values on the cube.
pub proof fn law_mle_ext(v: Seq<B128>, w: Seq<B128>, r: Seq<B128>)
    requires
        forall|i: int| 0 <= i < exp2(r.len()) ==> #[trigger] v[i] == w[i],
    ensures
        mle(v, r) == mle(w, r),
{
    lemma_dot_ext(v, eq_tensor(r), w, eq_tensor(r), exp2(r.len()));
}

/// The extension of a product table `a[i] * b[j]` at a concatenated point: here `a` is the
/// indicator of a point, so the extension of an indicator's table is the indicator.
pub proof fn law_mle_of_tensor(a: Seq<B128>, r: Seq<B128>)
    requires
        a.len() == r.len(),
    ensures
        mle(eq_tensor(a), r) == eq_points(a, r),
    decreases r.len(),
{
    broadcast use group_units;

    if r.len() == 0 {
        assert(eq_tensor(a).len() == 1);
        assert(r =~= Seq::empty());
        law_mle_constant(eq_tensor(a));
    } else {
        let (a1, r1) = (a.drop_last(), r.drop_last());
        let (x, y) = (a.last(), r.last());
        law_mle_split(eq_tensor(a), r);
        let t = eq_tensor(a1);
        assert(lower(eq_tensor(a)) =~= table_scale(one() + x, t)) by {
            assert forall|i: int| 0 <= i < t.len() implies #[trigger] eq_tensor(a)[i] == (one() + x)
                * t[i] by {
                law_mul_commutes(eq_at(i, a1), one() + x);
            }
        }
        assert(upper(eq_tensor(a)) =~= table_scale(x, t)) by {
            assert forall|i: int| 0 <= i < t.len() implies #[trigger] upper(eq_tensor(a))[i] == x
                * t[i] by {
                law_mul_commutes(eq_at(i, a1), x);
            }
        }
        law_mle_linear(one() + x, t, t, r1);
        law_mle_linear(x, t, t, r1);
        law_mle_of_tensor(a1, r1);
        let e = eq_points(a1, r1);
        lemma_eq_step(x, y, e);
    }
}

/// `(1 + y)(1 + x) e + y x e == e (1 + x + y)` in characteristic two.
proof fn lemma_eq_step(x: B128, y: B128, e: B128)
    ensures
        (one() + y) * ((one() + x) * e) + y * (x * e) == e * (one() + x + y),
{
    broadcast use group_units;

    law_mul_associates(one() + y, one() + x, e);
    law_mul_associates(y, x, e);
    law_distributes_right((one() + y) * (one() + x), y * x, e);
    law_distributes_right(one(), y, one() + x);
    law_distributes(y, one(), x);
    // (1 + x) + (y + y x) + y x
    let q = one() + x;
    law_add_associates(q, y + y * x, y * x);
    law_add_associates(y, y * x, y * x);
    law_mul_commutes(e, q + y);
}

/// At a cube point the extension takes the table's value.
pub proof fn law_mle_at_bits(v: Seq<B128>, i: int, n: nat)
    requires
        v.len() == exp2(n),
        0 <= i < exp2(n),
    ensures
        mle(v, bits_of(i, n)) == v[i],
    decreases n,
{
    broadcast use group_units;

    let b = bits_of(i, n);
    if n == 0 {
        assert(b =~= Seq::empty());
        law_mle_constant(v);
    } else {
        let half = exp2((n - 1) as nat);
        law_eq_points_of_bits(i, Seq::new(n, |k: int| zero()));
        law_mle_split(v, b);
        if i < half {
            assert(b.drop_last() =~= bits_of(i, (n - 1) as nat));
            law_mle_at_bits(lower(v), i, (n - 1) as nat);
        } else {
            assert(b.drop_last() =~= bits_of(i - half, (n - 1) as nat));
            law_mle_at_bits(upper(v), i - half, (n - 1) as nat);
        }
    }
}

/// The extension of a table that is zero above its first `2^m` entries.
pub proof fn law_mle_padded(v: Seq<B128>, w: Seq<B128>, a: Seq<B128>, b: Seq<B128>)
    requires
        v.len() == exp2(a.len()),
        w.len() == exp2(a.len() + b.len()),
        forall|i: int| 0 <= i < v.len() ==> #[trigger] w[i] == v[i],
        forall|i: int| v.len() <= i < w.len() ==> #[trigger] w[i] == zero(),
    ensures
        mle(w, a + b) == mle(v, a) * eq_zero(b),
    decreases b.len(),
{
    broadcast use group_units;

    if b.len() == 0 {
        assert(a + b =~= a);
        assert(w =~= v);
    } else {
        let b1 = b.drop_last();
        let c = b.last();
        let r = a + b;
        assert(r.drop_last() =~= a + b1);
        assert(r.last() == c);
        lemma_exp2_mono(a.len(), a.len() + b1.len());
        assert(w.len() == 2 * exp2(a.len() + b1.len()));
        law_mle_split(w, r);
        law_mle_padded(v, lower(w), a, b1);
        law_mle_zeros(upper(w), a + b1);
        let m = mle(v, a);
        law_mul_commutes(one() + c, m * eq_zero(b1));
        law_mul_associates(m, eq_zero(b1), one() + c);
    }
}

/// The extension of a table that repeats a table of length `2^m` ignores the high coordinates.
pub proof fn law_mle_repeated(v: Seq<B128>, w: Seq<B128>, a: Seq<B128>, b: Seq<B128>)
    requires
        v.len() == exp2(a.len()),
        w.len() == exp2(a.len() + b.len()),
        forall|i: int| 0 <= i < w.len() ==> #[trigger] w[i] == v[i % (v.len() as int)],
    ensures
        mle(w, a + b) == mle(v, a),
    decreases b.len(),
{
    broadcast use group_units;

    lemma_exp2_pos(a.len());
    if b.len() == 0 {
        assert(a + b =~= a);
        assert(w =~= v) by {
            assert forall|i: int| 0 <= i < w.len() implies #[trigger] w[i] == v[i] by {
                vstd::arithmetic::div_mod::lemma_small_mod(i as nat, v.len());
            }
        }
    } else {
        let b1 = b.drop_last();
        let c = b.last();
        let r = a + b;
        assert(r.drop_last() =~= a + b1);
        assert(r.last() == c);
        let half = exp2(a.len() + b1.len());
        assert(w.len() == 2 * half);
        law_mle_split(w, r);
        law_mle_repeated(v, lower(w), a, b1);
        assert forall|i: int| 0 <= i < half implies #[trigger] upper(w)[i] == v[i % (
        v.len() as int)] by {
            lemma_exp2_add(a.len(), b1.len());
            let q = exp2(b1.len()) as int;
            let d = v.len() as int;
            assert(half + i == q * d + i) by {
                assert(d * q == q * d) by (nonlinear_arith);
            }
            vstd::arithmetic::div_mod::lemma_mod_multiples_vanish(q, i, d);
            assert(w[half + i] == v[(half + i) % d]);
            assert(d * q + i == half + i) by (nonlinear_arith)
                requires
                    half + i == q * d + i,
            ;
        }
        law_mle_repeated(v, upper(w), a, b1);
        let m = mle(v, a);
        law_distributes_right(one(), c, m);
        law_add_associates(m, c * m, c * m);
    }
}

/// Four blocks of a table, selected by its two top variables: the extension is the sum of the
/// blocks' extensions, each weighted by the indicator of its selectors.
pub proof fn law_mle_blocks(
    b0: Seq<B128>,
    b1: Seq<B128>,
    b2: Seq<B128>,
    b3: Seq<B128>,
    a: Seq<B128>,
    hi: Seq<B128>,
)
    requires
        hi.len() == 2,
        b0.len() == exp2(a.len()),
        b1.len() == exp2(a.len()),
        b2.len() == exp2(a.len()),
        b3.len() == exp2(a.len()),
    ensures
        mle(b0 + b1 + b2 + b3, a + hi) == eq_points(seq![zero(), zero()], hi) * mle(b0, a)
            + eq_points(seq![one(), zero()], hi) * mle(b1, a) + eq_points(seq![zero(), one()], hi)
            * mle(b2, a) + eq_points(seq![one(), one()], hi) * mle(b3, a),
{
    let (c0, c1) = (hi[0], hi[1]);
    let full = b0 + b1 + b2 + b3;
    let r = a + hi;
    let r1 = a.push(c0);
    assert(r.drop_last() =~= r1);
    assert(r.last() == c1);
    assert(r1.drop_last() =~= a);
    assert(full.len() == 4 * exp2(a.len()));
    assert(exp2(r.len()) == 2 * exp2(r1.len()));
    assert(exp2(r1.len()) == 2 * exp2(a.len()));
    assert(lower(full) =~= b0 + b1);
    assert(upper(full) =~= b2 + b3);
    law_mle_split(full, r);
    assert(lower(b0 + b1) =~= b0);
    assert(upper(b0 + b1) =~= b1);
    assert(lower(b2 + b3) =~= b2);
    assert(upper(b2 + b3) =~= b3);
    law_mle_split(b0 + b1, r1);
    law_mle_split(b2 + b3, r1);
    lemma_eq_points_two(zero(), zero(), hi);
    lemma_eq_points_two(one(), zero(), hi);
    lemma_eq_points_two(zero(), one(), hi);
    lemma_eq_points_two(one(), one(), hi);
    lemma_block_weights(c0, c1, mle(b0, a), mle(b1, a), mle(b2, a), mle(b3, a));
}

/// The indicator at two selectors, written out.
pub proof fn lemma_eq_points_two(x: B128, y: B128, hi: Seq<B128>)
    requires
        hi.len() == 2,
    ensures
        eq_points(seq![x, y], hi) == (one() + x + hi[0]) * (one() + y + hi[1]),
{
    broadcast use group_units;

    let p = seq![x, y];
    assert(p.drop_last() =~= seq![x]);
    assert(hi.drop_last() =~= seq![hi[0]]);
    assert(seq![x].drop_last() =~= Seq::<B128>::empty());
    assert(seq![hi[0]].drop_last() =~= Seq::<B128>::empty());
    reveal_with_fuel(eq_points, 3);
}

proof fn lemma_block_weights(c0: B128, c1: B128, m0: B128, m1: B128, m2: B128, m3: B128)
    ensures
        (one() + c1) * ((one() + c0) * m0 + c0 * m1) + c1 * ((one() + c0) * m2 + c0 * m3) == ((
        one() + zero() + c0) * (one() + zero() + c1)) * m0 + ((one() + one() + c0) * (one()
            + zero() + c1)) * m1 + ((one() + zero() + c0) * (one() + one() + c1)) * m2 + ((one()
            + one() + c0) * (one() + one() + c1)) * m3,
{
    broadcast use group_units;

    let (d0, d1) = (one() + c0, one() + c1);
    law_distributes(d1, d0 * m0, c0 * m1);
    law_distributes(c1, d0 * m2, c0 * m3);
    law_mul_associates(d1, d0, m0);
    law_mul_commutes(d1, d0);
    law_mul_associates(d1, c0, m1);
    law_mul_commutes(d1, c0);
    law_mul_associates(c1, d0, m2);
    law_mul_commutes(c1, d0);
    law_mul_associates(c1, c0, m3);
    law_mul_commutes(c1, c0);
    let (w0, w1, w2, w3) = ((d0 * d1) * m0, (c0 * d1) * m1, (d0 * c1) * m2, (c0 * c1) * m3);
    law_add_associates(w0 + w1, w2, w3);
}

/// The line through `a` at zero and `b` at one, at `c`.
pub fn extrapolate_line(a: B128, b: B128, c: B128) -> (r: B128)
    ensures
        r == line(a, b, c),
{
    a + (a + b) * c
}

/// Binds the top variable of a table in place.
pub fn fold_highest_var_inplace(v: &mut Vec<B128>, c: B128)
    requires
        old(v)@.len() % 2 == 0,
    ensures
        final(v)@ == fold_top(old(v)@, c),
{
    let half: usize = v.len() / 2;
    let ghost before = v@;
    let mut i: usize = 0;
    while i < half
        invariant
            i <= half,
            v@.len() == before.len(),
            before.len() == 2 * half,
            2 * half <= usize::MAX,
            forall|j: int| 0 <= j < i ==> #[trigger] v@[j] == fold_top(before, c)[j],
            forall|j: int| i <= j < before.len() ==> #[trigger] v@[j] == before[j],
        decreases half - i,
    {
        let lo = v[i];
        let hi = v[half + i];
        v.set(i, extrapolate_line(lo, hi, c));
        i = i + 1;
    }
    v.truncate(half);
    assert(v@ =~= fold_top(before, c));
}

/// The value at `point` of the multilinear polynomial with the given table of values.
pub fn evaluate(vals: &[B128], point: &[B128]) -> (r: B128)
    requires
        vals@.len() == exp2(point@.len()),
    ensures
        r == mle(vals@, point@),
{
    let mut v: Vec<B128> = Vec::new();
    let mut j: usize = 0;
    while j < vals.len()
        invariant
            j <= vals.len(),
            v@ == vals@.take(j as int),
        decreases vals.len() - j,
    {
        v.push(vals[j]);
        j = j + 1;
        assert(v@ =~= vals@.take(j as int));
    }
    assert(v@ =~= vals@);
    let mut k: usize = point.len();
    assert(point@.take(k as int) =~= point@);
    while k > 0
        invariant
            k <= point.len(),
            v@.len() == exp2(k as nat),
            mle(v@, point@.take(k as int)) == mle(vals@, point@),
        decreases k,
    {
        let ghost p = point@.take(k as int);
        proof {
            law_mle_fold(v@, p);
            assert(p.drop_last() =~= point@.take(k - 1));
        }
        fold_highest_var_inplace(&mut v, point[k - 1]);
        k = k - 1;
    }
    proof {
        assert(point@.take(0) =~= Seq::empty());
        law_mle_constant(v@);
    }
    v[0]
}

} // verus!
