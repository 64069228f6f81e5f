//! The equality indicator `eq(x, y)`: the multilinear polynomial that is one where `x == y` on the
//! cube and zero where they differ.

use crate::field::element::{one, zero, B128};
use crate::field::ring::{
    group_units, law_add_associates, law_add_commutes, law_distributes, law_mul_associates,
    law_mul_commutes, law_mul_one,
};
use crate::field::sums::{lemma_sum_scale, lemma_sum_split, sum};
use crate::multilinear::exp2::{exp2, lemma_exp2_add, lemma_exp2_mono, lemma_exp2_pos};
use vstd::prelude::*;

verus! {

/// The value of `eq(i, r)` at the cube point whose coordinates are the bits of `i`:
/// the product of `r[k]` over the set bits of `i` and `1 + r[k]` over the others.
pub open spec fn eq_at(i: int, r: Seq<B128>) -> B128
    decreases r.len(),
{
    if r.len() == 0 {
        one()
    } else {
        let half = exp2((r.len() - 1) as nat);
        if i < half {
            eq_at(i, r.drop_last()) * (one() + r.last())
        } else {
            eq_at(i - half, r.drop_last()) * r.last()
        }
    }
}

/// The table of `eq(., r)` over the cube.
pub open spec fn eq_tensor(r: Seq<B128>) -> Seq<B128> {
    Seq::new(exp2(r.len()), |i: int| eq_at(i, r))
}

/// The product of `1 + r[k]` over all coordinates: `eq(0, r)`.
pub open spec fn eq_zero(r: Seq<B128>) -> B128
    decreases r.len(),
{
    if r.len() == 0 {
        one()
    } else {
        eq_zero(r.drop_last()) * (one() + r.last())
    }
}

/// The product of `1 + a[k] + b[k]` over all coordinates, which is `a[k] b[k] + (1 + a[k])(1 +
/// b[k])` in characteristic two.
pub open spec fn eq_points(a: Seq<B128>, b: Seq<B128>) -> B128
    decreases a.len(),
{
    if a.len() == 0 {
        one()
    } else {
        eq_points(a.drop_last(), b.drop_last()) * (one() + a.last() + b.last())
    }
}

/// The bits of `i`, as field elements.
pub open spec fn bits_of(i: int, n: nat) -> Seq<B128>
    decreases n,
{
    if n == 0 {
        Seq::empty()
    } else {
        let half = exp2((n - 1) as nat);
        if i < half {
            bits_of(i, (n - 1) as nat).push(zero())
        } else {
            bits_of(i - half, (n - 1) as nat).push(one())
        }
    }
}

/// `eq(0, r)` is the product of `1 + r[k]`.
pub proof fn law_eq_at_zero(r: Seq<B128>)
    ensures
        eq_at(0, r) == eq_zero(r),
    decreases r.len(),
{
    if r.len() > 0 {
        lemma_exp2_pos((r.len() - 1) as nat);
        law_eq_at_zero(r.drop_last());
    }
}

/// The table of `eq(., r)` sums to one over the cube.
pub proof fn law_eq_mass(r: Seq<B128>)
    ensures
        sum(|i: int| eq_at(i, r), exp2(r.len())) == one(),
    decreases r.len(),
{
    broadcast use group_units;

    let f = |i: int| eq_at(i, r);
    if r.len() == 0 {
        assert(sum(f, 1) == sum(f, 0) + f(0));
    } else {
        let s = r.drop_last();
        let c = r.last();
        let half = exp2(s.len());
        let base = |i: int| eq_at(i, s);
        let hi = |i: int| eq_at(half + i, r);
        law_eq_mass(s);
        lemma_sum_split(f, hi, half, half);
        assert forall|i: int| 0 <= i < half implies #[trigger] f(i) == (one() + c) * base(i) by {
            law_mul_commutes(eq_at(i, s), one() + c);
        }
        lemma_sum_scale(one() + c, base, f, half);
        assert forall|i: int| 0 <= i < half implies #[trigger] hi(i) == c * base(i) by {
            law_mul_commutes(eq_at(i, s), c);
        }
        lemma_sum_scale(c, base, hi, half);
        law_add_associates(one(), c, c);
    }
}

/// The indicator of a concatenated point factors: the low part of the index belongs to the first
/// point and the high part to the second.
pub proof fn law_eq_at_concat(i: int, j: int, a: Seq<B128>, b: Seq<B128>)
    requires
        0 <= i < exp2(a.len()),
        0 <= j < exp2(b.len()),
    ensures
        eq_at(i + exp2(a.len()) * j, a + b) == eq_at(i, a) * eq_at(j, b),
    decreases b.len(),
{
    broadcast use group_units;

    let w = exp2(a.len()) as int;
    if b.len() == 0 {
        assert(a + b =~= a);
        assert(w * j == 0) by (nonlinear_arith)
            requires
                j == 0,
        ;
    } else {
        let b1 = b.drop_last();
        let c = b.last();
        let h = exp2(b1.len()) as int;
        lemma_exp2_add(a.len(), b1.len());
        assert((a + b).drop_last() =~= a + b1);
        assert((a + b).last() == c);
        assert(exp2(((a + b).len() - 1) as nat) == w * h);
        if j < h {
            assert(i + w * j < w * h) by (nonlinear_arith)
                requires
                    0 <= i < w,
                    j + 1 <= h,
            ;
            law_eq_at_concat(i, j, a, b1);
            law_mul_associates(eq_at(i, a), eq_at(j, b1), one() + c);
        } else {
            assert(i + w * j >= w * h) by (nonlinear_arith)
                requires
                    0 <= i < w,
                    j >= h,
            ;
            assert(i + w * j - w * h == i + w * (j - h)) by (nonlinear_arith);
            law_eq_at_concat(i, j - h, a, b1);
            law_mul_associates(eq_at(i, a), eq_at(j - h, b1), c);
        }
    }
}

/// At a cube point the product form and the table agree.
pub proof fn law_eq_points_of_bits(i: int, r: Seq<B128>)
    requires
        0 <= i < exp2(r.len()),
    ensures
        eq_points(bits_of(i, r.len()), r) == eq_at(i, r),
        bits_of(i, r.len()).len() == r.len(),
    decreases r.len(),
{
    broadcast use group_units;

    if r.len() > 0 {
        let half = exp2((r.len() - 1) as nat);
        let b = bits_of(i, r.len());
        let c = r.last();
        if i < half {
            law_eq_points_of_bits(i, r.drop_last());
            assert(b.drop_last() =~= bits_of(i, (r.len() - 1) as nat));
        } else {
            law_eq_points_of_bits(i - half, r.drop_last());
            assert(b.drop_last() =~= bits_of(i - half, (r.len() - 1) as nat));
        }
    }
}

/// `eq(x, y)` is symmetric.
pub proof fn law_eq_points_commutes(a: Seq<B128>, b: Seq<B128>)
    requires
        a.len() == b.len(),
    ensures
        eq_points(a, b) == eq_points(b, a),
    decreases a.len(),
{
    if a.len() > 0 {
        law_eq_points_commutes(a.drop_last(), b.drop_last());
        let (x, y) = (a.last(), b.last());
        law_add_associates(one(), x, y);
        law_add_associates(one(), y, x);
        law_add_commutes(x, y);
    }
}

/// `eq(0, r)` is the product form at the zero point.
pub proof fn law_eq_points_zero(z: Seq<B128>, r: Seq<B128>)
    requires
        z.len() == r.len(),
        forall|k: int| 0 <= k < z.len() ==> z[k] == zero(),
    ensures
        eq_points(z, r) == eq_zero(r),
        eq_points(r, z) == eq_zero(r),
    decreases r.len(),
{
    broadcast use group_units;

    if r.len() > 0 {
        law_eq_points_zero(z.drop_last(), r.drop_last());
    }
}

/// The product form splits over a concatenation.
pub proof fn law_eq_points_concat(a: Seq<B128>, b: Seq<B128>, c: Seq<B128>, d: Seq<B128>)
    requires
        a.len() == c.len(),
        b.len() == d.len(),
    ensures
        eq_points(a + b, c + d) == eq_points(a, c) * eq_points(b, d),
    decreases b.len(),
{
    broadcast use group_units;

    if b.len() == 0 {
        assert(a + b =~= a);
        assert(c + d =~= c);
    } else {
        assert((a + b).drop_last() =~= a + b.drop_last());
        assert((c + d).drop_last() =~= c + d.drop_last());
        law_eq_points_concat(a, b.drop_last(), c, d.drop_last());
        law_mul_associates(
            eq_points(a, c),
            eq_points(b.drop_last(), d.drop_last()),
            one() + b.last() + d.last(),
        );
    }
}

/// `eq(0, .)` splits over a concatenation.
pub proof fn law_eq_zero_concat(a: Seq<B128>, b: Seq<B128>)
    ensures
        eq_zero(a + b) == eq_zero(a) * eq_zero(b),
    decreases b.len(),
{
    broadcast use group_units;

    if b.len() == 0 {
        assert(a + b =~= a);
    } else {
        assert((a + b).drop_last() =~= a + b.drop_last());
        law_eq_zero_concat(a, b.drop_last());
        law_mul_associates(eq_zero(a), eq_zero(b.drop_last()), one() + b.last());
    }
}

/// `eq(x, y)` in one variable: `1 + x + y`.
pub fn eq_one_var(x: B128, y: B128) -> (r: B128)
    ensures
        r == one() + x + y,
{
    one() + x + y
}

/// `eq(0, r)`: the product of `1 + r[k]`.
pub fn eq_ind_zero(r: &[B128]) -> (v: B128)
    ensures
        v == eq_zero(r@),
{
    let mut acc = one();
    let mut k: usize = 0;
    while k < r.len()
        invariant
            k <= r.len(),
            acc == eq_zero(r@.take(k as int)),
        decreases r.len() - k,
    {
        assert(r@.take(k + 1).drop_last() =~= r@.take(k as int));
        acc = acc * (one() + r[k]);
        k = k + 1;
    }
    assert(r@.take(k as int) =~= r@);
    acc
}

/// `eq(a, b)` for two points of the same length.
pub fn eq_ind(a: &[B128], b: &[B128]) -> (v: B128)
    requires
        a@.len() == b@.len(),
    ensures
        v == eq_points(a@, b@),
{
    let mut acc = one();
    let mut k: usize = 0;
    while k < a.len()
        invariant
            k <= a.len(),
            a@.len() == b@.len(),
            acc == eq_points(a@.take(k as int), b@.take(k as int)),
        decreases a.len() - k,
    {
        assert(a@.take(k + 1).drop_last() =~= a@.take(k as int));
        assert(b@.take(k + 1).drop_last() =~= b@.take(k as int));
        acc = acc * (one() + a[k] + b[k]);
        k = k + 1;
    }
    assert(a@.take(k as int) =~= a@);
    assert(b@.take(k as int) =~= b@);
    acc
}

/// The table of `scale * eq(., point)` over the cube.
pub fn scaled_eq_ind_partial_eval_scalars(point: &[B128], scale: B128) -> (v: Vec<B128>)
    requires
        exp2(point@.len()) <= usize::MAX,
    ensures
        v@.len() == exp2(point@.len()),
        forall|i: int| 0 <= i < v@.len() ==> #[trigger] v@[i] == scale * eq_at(i, point@),
{
    broadcast use group_units;

    let mut v: Vec<B128> = Vec::new();
    v.push(scale);
    let mut k: usize = 0;
    while k < point.len()
        invariant
            k <= point.len(),
            exp2(point@.len()) <= usize::MAX,
            v@.len() == exp2(k as nat),
            forall|i: int|
                0 <= i < v@.len() ==> #[trigger] v@[i] == scale * eq_at(
                    i,
                    point@.take(k as int),
                ),
        decreases point.len() - k,
    {
        let ghost before = v@;
        let ghost p0 = point@.take(k as int);
        let ghost p1 = point@.take(k + 1);
        let r = point[k];
        let half: usize = v.len();
        proof {
            lemma_exp2_mono((k + 1) as nat, point@.len());
            assert(p1.drop_last() =~= p0);
            assert(p1.last() == r);
        }
        let mut i: usize = 0;
        while i < half
            invariant
                i <= half,
                half == before.len(),
                half == exp2(k as nat),
                v@.len() == half + i,
                p1.len() == k + 1,
                p1.drop_last() == p0,
                p1.last() == r,
                forall|j: int|
                    0 <= j < half ==> #[trigger] before[j] == scale * eq_at(j, p0),
                forall|j: int| i <= j < half ==> v@[j] == before[j],
                forall|j: int| 0 <= j < i ==> #[trigger] v@[j] == scale * eq_at(j, p1),
                forall|j: int|
                    half <= j < half + i ==> #[trigger] v@[j] == scale * eq_at(j, p1),
            decreases half - i,
        {
            let lo = v[i];
            let hi = lo * r;
            proof {
                let e = eq_at(i as int, p0);
                assert(before[i as int] == scale * e);
                law_mul_associates(scale, e, r);
                law_mul_associates(scale, e, one() + r);
                law_distributes(lo, one(), r);
                law_mul_one(lo);
                assert(lo == before[i as int]);
                assert(lo + hi == lo * (one() + r));
                assert(eq_at(i as int, p1) == e * (one() + r));
                assert(eq_at(half + i, p1) == e * r);
            }
            v.set(i, lo + hi);
            v.push(hi);
            i = i + 1;
        }
        k = k + 1;
    }
    assert(point@.take(k as int) =~= point@);
    v
}

/// The table of `eq(., point)` over the cube.
pub fn eq_ind_partial_eval_scalars(point: &[B128]) -> (v: Vec<B128>)
    requires
        exp2(point@.len()) <= usize::MAX,
    ensures
        v@ == eq_tensor(point@),
{
    broadcast use group_units;

    let v = scaled_eq_ind_partial_eval_scalars(point, one());
    assert(v@ =~= eq_tensor(point@));
    v
}

} // verus!
