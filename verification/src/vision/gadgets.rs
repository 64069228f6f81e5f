//! Field arithmetic, inversion and the affine maps of the S-box as gadgets.

use crate::field::element::{one, zero, B128};
use crate::field::inverse::{frobenius, inv, law_inverse, law_mul_cancel};
use crate::field::ring::{group_units, law_mul_commutes};
use crate::field::sums::sum;
use crate::vision::circuit::{
    pair_below, value, xor_of, CircuitBuilder, Equality, GhashWire, HintKind, Wire, WitnessFiller,
};
use crate::vision::hints::affine;
use crate::vision::words::{
    ghash_to_words, high, join, law_join_add, law_mul_x_words, law_words, low, words_to_ghash, x,
};
use vstd::prelude::*;
use vstd::string::*;

verus! {

impl GhashWire {
    /// A constant element.
    pub fn constant(b: &mut CircuitBuilder, val: B128) -> (w: GhashWire)
        requires
            old(b).wf(),
        ensures
            final(b).grew(*old(b), 0, 0),
            final(b).has(w),
            final(b).equalities@ == old(b).equalities@,
            forall|v: Seq<u64>| #[trigger] final(b).gates_hold(v) ==> value(v, w) == val,
    {
        let (lo, hi) = ghash_to_words(val);
        proof {
            law_words(val, 0, 0);
        }
        let lo = b.add_constant(lo);
        let hi = b.add_constant(hi);
        GhashWire { lo, hi }
    }

    /// An element that a prover may choose.
    pub fn witness(b: &mut CircuitBuilder) -> (w: GhashWire)
        requires
            old(b).wf(),
        ensures
            final(b).grew(*old(b), 0, 0),
            final(b).has(w),
            final(b).equalities@ == old(b).equalities@,
            w.lo.index == old(b).gates@.len(),
            w.hi.index == old(b).gates@.len() + 1,
            final(b).gates@[w.lo.index as int] is Witness,
            final(b).gates@[w.hi.index as int] is Witness,
    {
        let lo = b.add_witness();
        let hi = b.add_witness();
        GhashWire { lo, hi }
    }

    /// Puts an element on the wires.
    pub fn populate(&self, w: &mut WitnessFiller, val: B128)
        requires
            pair_below(*self, old(w).words@.len()),
            self.lo.index != self.hi.index,
        ensures
            final(w).words@ == old(w).words@.update(self.lo.index as int, low(val)).update(
                self.hi.index as int,
                high(val),
            ),
            value(final(w).words@, *self) == val,
    {
        let (lo, hi) = ghash_to_words(val);
        proof {
            law_words(val, 0, 0);
        }
        w.words.set(self.lo.index, lo);
        w.words.set(self.hi.index, hi);
    }

    /// The element on the wires.
    pub fn read(&self, w: &WitnessFiller) -> (val: B128)
        requires
            pair_below(*self, w.words@.len()),
        ensures
            val == value(w.words@, *self),
    {
        words_to_ghash(w.words[self.lo.index], w.words[self.hi.index])
    }

    /// Commits both wires.
    pub fn force_commit(&self, b: &mut CircuitBuilder)
        requires
            old(b).wf(),
            old(b).has(*self),
        ensures
            final(b).wf(),
            final(b).gates@ == old(b).gates@,
            final(b).equalities@ == old(b).equalities@,
            final(b).committed@.contains(self.lo),
            final(b).committed@.contains(self.hi),
            forall|k: int|
                0 <= k < old(b).committed@.len() ==> final(b).committed@[k] == old(b).committed@[k],
            final(b).bmuls() == old(b).bmuls(),
            old(b).ands() <= final(b).ands() <= old(b).ands() + 2,
            self.lo != self.hi && !old(b).committed@.contains(self.lo)
                && !old(b).committed@.contains(self.hi) ==> final(b).ands() == old(b).ands() + (
            if old(b).gates@[self.lo.index as int].is_linear() {
                1nat
            } else {
                0
            }) + (if old(b).gates@[self.hi.index as int].is_linear() {
                1nat
            } else {
                0
            }),
    {
        let ghost c0 = b.committed@;
        b.force_commit(self.lo);
        let ghost c1 = b.committed@;
        proof {
            if !c0.contains(self.lo) {
                assert(c1[c0.len() as int] == self.lo);
                if c1.contains(self.hi) && self.lo != self.hi {
                    let k = choose|k: int| 0 <= k < c1.len() && c1[k] == self.hi;
                    assert(c0[k] == self.hi);
                }
            }
            assert(c1.contains(self.lo));
        }
        b.force_commit(self.hi);
        proof {
            let c2 = b.committed@;
            let k = choose|k: int| 0 <= k < c1.len() && c1[k] == self.lo;
            assert(c2[k] == self.lo);
            if !c1.contains(self.hi) {
                assert(c2[c1.len() as int] == self.hi);
            }
        }
    }
}

/// The product of two elements: one BMUL constraint.
pub fn ghash_mul(b: &mut CircuitBuilder, x: GhashWire, y: GhashWire) -> (w: GhashWire)
    requires
        old(b).wf(),
        old(b).has(x),
        old(b).has(y),
    ensures
        final(b).grew(*old(b), 1, 0),
        final(b).has(w),
        final(b).equalities@ == old(b).equalities@,
        forall|v: Seq<u64>| #[trigger]
            final(b).gates_hold(v) ==> value(v, w) == value(v, x) * value(v, y),
{
    b.bmul(x, y)
}

/// The product with a constant: one BMUL constraint.
pub fn ghash_mul_const(b: &mut CircuitBuilder, x: GhashWire, c: B128) -> (w: GhashWire)
    requires
        old(b).wf(),
        old(b).has(x),
    ensures
        final(b).grew(*old(b), 1, 0),
        final(b).has(w),
        final(b).equalities@ == old(b).equalities@,
        forall|v: Seq<u64>| #[trigger] final(b).gates_hold(v) ==> value(v, w) == value(v, x) * c,
{
    let y = GhashWire::constant(b, c);
    ghash_mul(b, x, y)
}

/// The square of an element: one BMUL constraint.
pub fn ghash_square(b: &mut CircuitBuilder, x: GhashWire) -> (w: GhashWire)
    requires
        old(b).wf(),
        old(b).has(x),
    ensures
        final(b).grew(*old(b), 1, 0),
        final(b).has(w),
        final(b).equalities@ == old(b).equalities@,
        forall|v: Seq<u64>| #[trigger]
            final(b).gates_hold(v) ==> value(v, w) == value(v, x) * value(v, x),
{
    ghash_mul(b, x, x)
}

/// The sum of two elements: no constraint.
pub fn ghash_xor(b: &mut CircuitBuilder, x: GhashWire, y: GhashWire) -> (w: GhashWire)
    requires
        old(b).wf(),
        old(b).has(x),
        old(b).has(y),
    ensures
        final(b).grew(*old(b), 0, 0),
        final(b).has(w),
        final(b).equalities@ == old(b).equalities@,
        forall|v: Seq<u64>| #[trigger]
            final(b).gates_hold(v) ==> value(v, w) == value(v, x) + value(v, y),
{
    let lo = b.bxor(x.lo, y.lo);
    let hi = b.bxor(x.hi, y.hi);
    let w = GhashWire { lo, hi };
    proof {
        assert forall|v: Seq<u64>| #[trigger] b.gates_hold(v) implies value(v, w) == value(v, x)
            + value(v, y) by {
            law_join_add(
                v[x.lo.index as int],
                v[x.hi.index as int],
                v[y.lo.index as int],
                v[y.hi.index as int],
            );
        }
    }
    w
}

/// The sum of the first `k` of some elements.
pub open spec fn value_sum(v: Seq<u64>, xs: Seq<GhashWire>, k: nat) -> B128
    decreases k,
{
    if k == 0 {
        zero()
    } else {
        value_sum(v, xs, (k - 1) as nat) + value(v, xs[k - 1])
    }
}

/// Exclusive or of the words is the sum of the elements.
proof fn lemma_value_sum(
    v: Seq<u64>,
    xs: Seq<GhashWire>,
    los: Seq<Wire>,
    his: Seq<Wire>,
    k: nat,
)
    requires
        k <= xs.len(),
        los.len() == xs.len(),
        his.len() == xs.len(),
        forall|i: int| 0 <= i < xs.len() ==> los[i] == (#[trigger] xs[i]).lo && his[i] == xs[i].hi,
    ensures
        join(xor_of(v, los, k), xor_of(v, his, k)) == value_sum(v, xs, k),
    decreases k,
{
    if k == 0 {
        law_join_add(0, 0, 0, 0);
    } else {
        lemma_value_sum(v, xs, los, his, (k - 1) as nat);
        let last = xs[k - 1];
        law_join_add(
            xor_of(v, los, (k - 1) as nat),
            xor_of(v, his, (k - 1) as nat),
            v[last.lo.index as int],
            v[last.hi.index as int],
        );
    }
}

/// The sum of some elements: no constraint.
pub fn ghash_xor_multi(b: &mut CircuitBuilder, xs: &[GhashWire]) -> (w: GhashWire)
    requires
        old(b).wf(),
        forall|i: int| 0 <= i < xs@.len() ==> old(b).has(#[trigger] xs@[i]),
    ensures
        final(b).grew(*old(b), 0, 0),
        final(b).has(w),
        final(b).equalities@ == old(b).equalities@,
        forall|v: Seq<u64>| #[trigger]
            final(b).gates_hold(v) ==> value(v, w) == value_sum(v, xs@, xs@.len()),
{
    let mut los: Vec<Wire> = Vec::new();
    let mut his: Vec<Wire> = Vec::new();
    let mut i: usize = 0;
    while i < xs.len()
        invariant
            i <= xs@.len(),
            los@.len() == i,
            his@.len() == i,
            forall|k: int| 0 <= k < i ==> #[trigger] los@[k] == xs@[k].lo,
            forall|k: int| 0 <= k < i ==> #[trigger] his@[k] == xs@[k].hi,
        decreases xs@.len() - i,
    {
        los.push(xs[i].lo);
        his.push(xs[i].hi);
        i = i + 1;
    }
    proof {
        assert forall|j: int| 0 <= j < los@.len() implies (#[trigger] los@[j]).index
            < b.gates@.len() by {
            assert(b.has(xs@[j]));
        }
        assert forall|j: int| 0 <= j < his@.len() implies (#[trigger] his@[j]).index
            < b.gates@.len() by {
            assert(b.has(xs@[j]));
        }
    }
    let ghost l = los@;
    let ghost h = his@;
    let lo = b.bxor_multi(los);
    let hi = b.bxor_multi(his);
    let w = GhashWire { lo, hi };
    proof {
        assert forall|v: Seq<u64>| #[trigger] b.gates_hold(v) implies value(v, w) == value_sum(
            v,
            xs@,
            xs@.len(),
        ) by {
            lemma_value_sum(v, xs@, l, h, xs@.len());
        }
    }
    w
}

/// An equality of two wires, under a name.
pub open spec fn equality(name: String, x: Wire, y: Wire) -> Equality {
    Equality { name, x, y }
}

/// Demands that two elements are equal: two AND constraints, one for each word, under the given name
/// with the word's place behind it.
pub fn ghash_assert_eq(b: &mut CircuitBuilder, name: &str, x: GhashWire, y: GhashWire)
    requires
        old(b).wf(),
        old(b).has(x),
        old(b).has(y),
    ensures
        final(b).grew(*old(b), 0, 2),
        final(b).gates@ == old(b).gates@,
        exists|lo: String, hi: String|
            {
                &&& lo@ == name@ + "_lo"@
                &&& hi@ == name@ + "_hi"@
                &&& final(b).equalities@ == old(b).equalities@.push(
                    #[trigger] equality(lo, x.lo, y.lo),
                ).push(#[trigger] equality(hi, x.hi, y.hi))
            },
        forall|v: Seq<u64>| #[trigger]
            final(b).equalities_hold(v) == (old(b).equalities_hold(v) && value(v, x) == value(
                v,
                y,
            )),
{
    let ghost before = *b;
    let mut lo = String::from_str(name);
    lo.append("_lo");
    let ghost first = lo;
    b.assert_eq(lo, x.lo, y.lo);
    let ghost mid = *b;
    let mut hi = String::from_str(name);
    hi.append("_hi");
    let ghost second = hi;
    b.assert_eq(hi, x.hi, y.hi);
    proof {
        assert(b.equalities@ == before.equalities@.push(equality(first, x.lo, y.lo)).push(
            equality(second, x.hi, y.hi),
        ));
        assert forall|v: Seq<u64>| #[trigger] b.equalities_hold(v) == (before.equalities_hold(v)
            && value(v, x) == value(v, y)) by {
            assert(mid.equalities_hold(v) == (before.equalities_hold(v) && v[x.lo.index as int]
                == v[y.lo.index as int]));
            law_words(zero(), v[x.lo.index as int], v[x.hi.index as int]);
            law_words(zero(), v[y.lo.index as int], v[y.hi.index as int]);
        }
    }
}

/// The product with `X` by shifts in place of a field product: one AND constraint.
pub fn ghash_mul_x_shift(b: &mut CircuitBuilder, a: GhashWire) -> (w: GhashWire)
    requires
        old(b).wf(),
        old(b).has(a),
    ensures
        final(b).grew(*old(b), 0, 1),
        final(b).has(w),
        final(b).equalities@ == old(b).equalities@,
        forall|v: Seq<u64>| #[trigger] final(b).gates_hold(v) ==> value(v, w) == x() * value(v, a),
{
    let hi_shifted = b.shl(a.hi, 1);
    let carry = b.shr(a.lo, 63);
    let hi = b.bxor(hi_shifted, carry);
    let lo_shifted = b.shl(a.lo, 1);
    let top_broadcast = b.sar(a.hi, 63);
    let fold = b.add_constant(0x87);
    let reduction = b.band(top_broadcast, fold);
    let lo = b.bxor(lo_shifted, reduction);
    let w = GhashWire { lo, hi };
    proof {
        assert forall|v: Seq<u64>| #[trigger] b.gates_hold(v) implies value(v, w) == x() * value(
            v,
            a,
        ) by {
            law_mul_x_words(v[a.lo.index as int], v[a.hi.index as int]);
        }
    }
    w
}

/// The claimed inverse of an element, and the product of the two.
#[derive(Debug, Clone, Copy)]
pub struct InvertOrZeroWires {
    /// The claimed inverse, or zero for zero.
    pub w: GhashWire,
    /// The product: one for a nonzero element, and zero for zero.
    pub e: GhashWire,
}

/// For `e = x * w`, the two equations `e * x = x` and `e * w = w` hold for the inverse of `x` and
/// for nothing else.
pub proof fn law_invert_or_zero(x: B128, w: B128)
    ensures
        ((x * w) * x == x && (x * w) * w == w) == (w == inv(x)),
        w == inv(x) ==> x * w == if x == zero() {
            zero()
        } else {
            one()
        },
{
    broadcast use group_units;

    if x == zero() {
        assert(zero() * w == zero());
    } else {
        law_inverse(x);
        if (x * w) * x == x {
            law_mul_commutes(x * w, x);
            assert(x * (x * w) == x * one());
            law_mul_cancel(x, x * w, one());
            assert(x * w == x * inv(x));
            law_mul_cancel(x, w, inv(x));
        }
    }
}

/// The constraints of an inversion for a claimed inverse: three BMUL and four AND constraints. The
/// result is the product of the two. The equalities that are added hold exactly when the claim is
/// the inverse, with zero for zero.
pub fn invert_or_zero_constrain(b: &mut CircuitBuilder, x: GhashWire, w: GhashWire) -> (e: GhashWire)
    requires
        old(b).wf(),
        old(b).has(x),
        old(b).has(w),
    ensures
        final(b).grew(*old(b), 3, 4),
        final(b).has(e),
        forall|v: Seq<u64>| #[trigger] final(b).gates_hold(v) ==> {
            &&& value(v, e) == value(v, x) * value(v, w)
            &&& final(b).equalities_hold(v) == (old(b).equalities_hold(v) && value(v, w) == inv(
                value(v, x),
            ))
        },
{
    let ghost before = *b;
    let e = ghash_mul(b, x, w);
    let ex = ghash_mul(b, e, x);
    let ghost b1 = *b;
    ghash_assert_eq(b, "invert_or_zero_ex", ex, x);
    let ghost b2 = *b;
    let ew = ghash_mul(b, e, w);
    let ghost b3 = *b;
    ghash_assert_eq(b, "invert_or_zero_ew", ew, w);
    proof {
        let after = *b;
        assert forall|v: Seq<u64>| #[trigger] after.gates_hold(v) implies value(v, e) == value(v, x)
            * value(v, w) && after.equalities_hold(v) == (before.equalities_hold(v) && value(v, w)
            == inv(value(v, x))) by {
            law_invert_or_zero(value(v, x), value(v, w));
            assert(b3.gates_hold(v));
            lemma_same_equalities(b1, before, v);
            lemma_same_equalities(b3, b2, v);
            assert(b2.equalities_hold(v) == (b1.equalities_hold(v) && value(v, ex) == value(
                v,
                x,
            )));
        }
    }
    e
}

/// The equalities alone decide whether they hold.
pub proof fn lemma_same_equalities(a: CircuitBuilder, b: CircuitBuilder, v: Seq<u64>)
    requires
        a.equalities@ == b.equalities@,
    ensures
        a.equalities_hold(v) == b.equalities_hold(v),
{
    if a.equalities_hold(v) {
        assert forall|j: int| 0 <= j < b.equalities@.len() implies #[trigger] b.equality_holds(
            v,
            j,
        ) by {
            assert(a.equality_holds(v, j));
        }
    }
    if b.equalities_hold(v) {
        assert forall|j: int| 0 <= j < a.equalities@.len() implies #[trigger] a.equality_holds(
            v,
            j,
        ) by {
            assert(b.equality_holds(v, j));
        }
    }
}

/// The inverse of an element, with zero for zero, by a hint: three BMUL and four AND constraints.
/// An assignment that satisfies the circuit carries the inverse, and one that follows the hint
/// meets the equalities that are added.
pub fn invert_or_zero(b: &mut CircuitBuilder, x: GhashWire) -> (r: InvertOrZeroWires)
    requires
        old(b).wf(),
        old(b).has(x),
    ensures
        final(b).grew(*old(b), 3, 4),
        final(b).has(r.w),
        final(b).has(r.e),
        forall|v: Seq<u64>| #[trigger] final(b).gates_hold(v) ==> {
            &&& value(v, r.e) == value(v, x) * value(v, r.w)
            &&& final(b).equalities_hold(v) == (old(b).equalities_hold(v) && value(v, r.w) == inv(
                value(v, x),
            ))
        },
        forall|b_inv: Seq<B128>, v: Seq<u64>| #[trigger]
            final(b).follows(b_inv, v) ==> value(v, r.w) == inv(value(v, x)),
{
    let ghost before = *b;
    let w = b.call_hint(HintKind::Invert, x);
    let ghost mid = *b;
    let e = invert_or_zero_constrain(b, x, w);
    proof {
        assert forall|v: Seq<u64>| #[trigger] b.gates_hold(v) implies b.equalities_hold(v) == (
        before.equalities_hold(v) && value(v, w) == inv(value(v, x))) by {
            lemma_same_equalities(mid, before, v);
        }
    }
    InvertOrZeroWires { w, e }
}

/// The value of the forward affine map, written out.
pub proof fn lemma_forward(c: Seq<B128>, y: B128)
    requires
        c.len() == 4,
    ensures
        affine(c, y) == c[0] + (((zero() + c[1] * y) + c[2] * (y * y)) + c[3] * ((y * y) * (y
            * y))),
{
    let f = |i: int| c[i + 1] * frobenius(y, i as nat);
    reveal_with_fuel(sum, 4);
    reveal_with_fuel(frobenius, 3);
    assert(sum(f, 3) == sum(f, 2) + f(2));
    assert(sum(f, 2) == sum(f, 1) + f(1));
    assert(sum(f, 1) == sum(f, 0) + f(0));
    assert(frobenius(y, 1) == y * y);
    assert(frobenius(y, 2) == (y * y) * (y * y));
}

/// The forward affine map `B0 + B1 y + B2 y^2 + B3 y^4`: five BMUL constraints.
pub fn b_fwd_affine(b: &mut CircuitBuilder, coeffs: &[B128; 4], y: GhashWire) -> (w: GhashWire)
    requires
        old(b).wf(),
        old(b).has(y),
    ensures
        final(b).grew(*old(b), 5, 0),
        final(b).has(w),
        final(b).equalities@ == old(b).equalities@,
        forall|v: Seq<u64>| #[trigger]
            final(b).gates_hold(v) ==> value(v, w) == affine(coeffs@, value(v, y)),
{
    let y2 = ghash_square(b, y);
    let y4 = ghash_square(b, y2);
    let t1 = ghash_mul_const(b, y, coeffs[1]);
    let t2 = ghash_mul_const(b, y2, coeffs[2]);
    let t3 = ghash_mul_const(b, y4, coeffs[3]);
    let c0 = GhashWire::constant(b, coeffs[0]);
    let terms: [GhashWire; 4] = [c0, t1, t2, t3];
    let w = ghash_xor_multi(b, &terms);
    proof {
        assert forall|v: Seq<u64>| #[trigger] b.gates_hold(v) implies value(v, w) == affine(
            coeffs@,
            value(v, y),
        ) by {
            let c = coeffs@;
            let a = value(v, y);
            lemma_forward(c, a);
            reveal_with_fuel(value_sum, 5);
            assert(value_sum(v, terms@, 4) == (((zero() + value(v, c0)) + value(v, t1)) + value(
                v,
                t2,
            )) + value(v, t3));
            law_mul_commutes(a, c[1]);
            law_mul_commutes(a * a, c[2]);
            law_mul_commutes((a * a) * (a * a), c[3]);
            lemma_sum4(c[0], c[1] * a, c[2] * (a * a), c[3] * ((a * a) * (a * a)));
        }
    }
    w
}

/// A sum of four terms in another order of brackets.
proof fn lemma_sum4(a: B128, b: B128, c: B128, d: B128)
    ensures
        a + (((zero() + b) + c) + d) == (((zero() + a) + b) + c) + d,
{
    broadcast use group_units;

    crate::field::ring::law_add_associates(a, b + c, d);
    crate::field::ring::law_add_associates(a, b, c);
}

/// The claimed value of the inverse affine map.
#[derive(Debug, Clone, Copy)]
pub struct BInvWires {
    pub y: GhashWire,
}

/// The inverse affine map by a hint, checked with the forward map: five BMUL and two AND
/// constraints. The equalities that are added hold exactly when the forward map of the result is
/// the argument.
pub fn b_inv_affine_hinted(b: &mut CircuitBuilder, coeffs: &[B128; 4], x: GhashWire) -> (r: BInvWires)
    requires
        old(b).wf(),
        old(b).has(x),
    ensures
        final(b).grew(*old(b), 5, 2),
        final(b).has(r.y),
        forall|v: Seq<u64>| #[trigger]
            final(b).gates_hold(v) ==> final(b).equalities_hold(v) == (old(b).equalities_hold(v)
                && affine(coeffs@, value(v, r.y)) == value(v, x)),
        forall|b_inv: Seq<B128>, v: Seq<u64>| #[trigger]
            final(b).follows(b_inv, v) ==> value(v, r.y) == affine(b_inv, value(v, x)),
{
    let ghost before = *b;
    let y = b.call_hint(HintKind::BInv, x);
    let check = b_fwd_affine(b, coeffs, y);
    let ghost mid = *b;
    ghash_assert_eq(b, "b_inv_fwd_check", check, x);
    proof {
        assert forall|v: Seq<u64>| #[trigger] b.gates_hold(v) implies b.equalities_hold(v) == (
        before.equalities_hold(v) && affine(coeffs@, value(v, y)) == value(v, x)) by {
            assert(mid.gates_hold(v));
            lemma_same_equalities(mid, before, v);
        }
    }
    BInvWires { y }
}

/// No elements sum to zero, and one more element is added.
pub proof fn law_value_sum_grows(v: Seq<u64>, xs: Seq<GhashWire>, w: GhashWire)
    ensures
        value_sum(v, Seq::<GhashWire>::empty(), 0) == zero(),
        value_sum(v, xs.push(w), (xs.len() + 1) as nat) == value_sum(v, xs, xs.len()) + value(v, w),
{
    lemma_value_sum_ext(v, xs, xs.push(w), xs.len());
}

/// Lists that begin alike have the same sum over the common part.
proof fn lemma_value_sum_ext(v: Seq<u64>, p: Seq<GhashWire>, q: Seq<GhashWire>, k: nat)
    requires
        k <= p.len(),
        k <= q.len(),
        forall|i: int| 0 <= i < k ==> p[i] == q[i],
    ensures
        value_sum(v, p, k) == value_sum(v, q, k),
    decreases k,
{
    if k > 0 {
        lemma_value_sum_ext(v, p, q, (k - 1) as nat);
    }
}

} // verus!
