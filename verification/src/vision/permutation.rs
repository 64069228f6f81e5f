//! The MDS layers and the Vision permutations as gadgets.
//!
//! A permutation adds a first round constant and then runs rounds of two half-rounds. A half-round
//! applies the S-box to every element, multiplies by a circulant MDS matrix and adds a round
//! constant. The S-box inverts and then applies an affine map: the inverse map in the first
//! half-round, and the forward map in the second.

use crate::field::element::{one, zero, B128};
use crate::field::inverse::inv;
use crate::field::ring::{group_units, law_distributes_right, law_mul_commutes, law_one_mul};
use crate::field::sums::sum;
use crate::vision::circuit::{value, CircuitBuilder, GhashWire};
use crate::vision::gadgets::{
    b_fwd_affine, b_inv_affine_hinted, ghash_mul_const, ghash_xor, ghash_xor_multi, invert_or_zero,
    lemma_same_equalities, value_sum,
};
use crate::vision::hints::affine;
use crate::vision::words::{x, x_inv};
use vstd::prelude::*;

verus! {

/// The number of rounds of a permutation.
pub const NUM_ROUNDS: usize = 8;

/// The constants of a permutation: the coefficients of the forward affine map, and one round
/// constant for the start and for each half-round.
#[derive(Debug)]
pub struct VisionConstants {
    pub b_fwd: [B128; 4],
    pub round_constants: Vec<Vec<B128>>,
}

impl VisionConstants {
    /// The constants are those of a state of `m` elements.
    pub open spec fn fits(self, m: nat) -> bool {
        &&& self.round_constants@.len() == 1 + 2 * NUM_ROUNDS
        &&& forall|i: int|
            0 <= i < self.round_constants@.len() ==> (#[trigger] self.round_constants@[i])@.len()
                == m
    }
}

/// The elements on some wires.
pub open spec fn values(v: Seq<u64>, ws: Seq<GhashWire>) -> Seq<B128> {
    Seq::new(ws.len(), |i: int| value(v, ws[i]))
}

/// The product of the circulant matrix with a given first row and a state.
pub open spec fn circulant(row: Seq<B128>, a: Seq<B128>) -> Seq<B128> {
    Seq::new(a.len(), |i: int| sum(row_terms(row, a, i), a.len()))
}

/// The terms of one element of a circulant product: each row is the one above, moved on by one.
pub open spec fn row_terms(row: Seq<B128>, a: Seq<B128>, i: int) -> spec_fn(int) -> B128 {
    |j: int| row[(j - i) % (a.len() as int)] * a[j]
}

/// The first row of the MDS matrix for four elements.
pub open spec fn row_4() -> Seq<B128> {
    seq![x(), x() + one(), one(), one()]
}

/// The first row of the MDS matrix for six elements.
pub open spec fn row_6() -> Seq<B128> {
    seq![x_inv(), x_inv(), x(), one(), x(), x() + one()]
}

/// The first row of the MDS matrix for `m` elements.
pub open spec fn row_of(m: nat) -> Seq<B128> {
    if m == 4 {
        row_4()
    } else {
        row_6()
    }
}

/// The rows of the smaller matrix as exclusive or of words: `a` holds the elements and `q` their
/// products with `X`.
proof fn lemma_rows_4(
    a0: u128,
    a1: u128,
    a2: u128,
    a3: u128,
    q0: u128,
    q1: u128,
    q2: u128,
    q3: u128,
)
    by (bit_vector)
    ensures
        (((0 ^ a0) ^ ((((0 ^ a0) ^ a1) ^ a2) ^ a3)) ^ q0) ^ q1 == (((0 ^ q0) ^ (q1 ^ a1)) ^ a2)
            ^ a3,
        (((0 ^ a1) ^ ((((0 ^ a0) ^ a1) ^ a2) ^ a3)) ^ q1) ^ q2 == (((0 ^ a0) ^ q1) ^ (q2 ^ a2))
            ^ a3,
        (((0 ^ a2) ^ ((((0 ^ a0) ^ a1) ^ a2) ^ a3)) ^ q2) ^ q3 == (((0 ^ a0) ^ a1) ^ q2) ^ (q3
            ^ a3),
        (((0 ^ a3) ^ ((((0 ^ a0) ^ a1) ^ a2) ^ a3)) ^ q3) ^ q0 == (((0 ^ (q0 ^ a0)) ^ a1) ^ a2)
            ^ q3,
{
}

/// The rows of the larger matrix as exclusive or of words: `a` holds the elements, `q` their
/// products with `X` and `p` those with its inverse.
proof fn lemma_rows_6(
    a0: u128,
    a1: u128,
    a2: u128,
    a3: u128,
    a4: u128,
    a5: u128,
    q0: u128,
    q1: u128,
    q2: u128,
    q3: u128,
    q4: u128,
    q5: u128,
    p0: u128,
    p1: u128,
    p2: u128,
    p3: u128,
    p4: u128,
    p5: u128,
)
    by (bit_vector)
    ensures
        ((((((0 ^ p0) ^ p1) ^ q2) ^ q4) ^ a3) ^ q5) ^ a5 == (((((0 ^ p0) ^ p1) ^ q2) ^ a3) ^ q4)
            ^ (q5 ^ a5),
        ((((((0 ^ q0) ^ a0) ^ p1) ^ p2) ^ q3) ^ a4) ^ q5 == (((((0 ^ (q0 ^ a0)) ^ p1) ^ p2) ^ q3)
            ^ a4) ^ q5,
        ((((((0 ^ q0) ^ q1) ^ a1) ^ p2) ^ p3) ^ q4) ^ a5 == (((((0 ^ q0) ^ (q1 ^ a1)) ^ p2) ^ p3)
            ^ q4) ^ a5,
        ((((((0 ^ a0) ^ q1) ^ q2) ^ a2) ^ p3) ^ p4) ^ q5 == (((((0 ^ a0) ^ q1) ^ (q2 ^ a2)) ^ p3)
            ^ p4) ^ q5,
        ((((((0 ^ q0) ^ a1) ^ q2) ^ q3) ^ a3) ^ p4) ^ p5 == (((((0 ^ q0) ^ a1) ^ q2) ^ (q3 ^ a3))
            ^ p4) ^ p5,
        ((((((0 ^ p0) ^ p5) ^ q1) ^ a2) ^ q3) ^ q4) ^ a4 == (((((0 ^ p0) ^ q1) ^ a2) ^ q3) ^ (q4
            ^ a4)) ^ p5,
{
}

/// The product with each entry of a first row, in terms of the products with `X` and its inverse.
proof fn lemma_entries(a: B128)
    ensures
        x() * a == a * x(),
        x_inv() * a == a * x_inv(),
        (x() + one()) * a == a * x() + a,
        one() * a == a,
{
    law_mul_commutes(x(), a);
    law_mul_commutes(x_inv(), a);
    law_distributes_right(x(), one(), a);
    law_one_mul(a);
}

/// The first row of a sum of four terms.
proof fn lemma_sum_4(f: spec_fn(int) -> B128)
    ensures
        sum(f, 4) == (((zero() + f(0)) + f(1)) + f(2)) + f(3),
{
    reveal_with_fuel(sum, 5);
}

/// A sum of six terms.
proof fn lemma_sum_6(f: spec_fn(int) -> B128)
    ensures
        sum(f, 6) == (((((zero() + f(0)) + f(1)) + f(2)) + f(3)) + f(4)) + f(5),
{
    reveal_with_fuel(sum, 7);
}

/// The circulant product for four elements, element by element.
proof fn lemma_circulant_4(a: Seq<B128>)
    requires
        a.len() == 4,
    ensures
        ({
            let s = (((zero() + a[0]) + a[1]) + a[2]) + a[3];
            let c = circulant(row_4(), a);
            &&& c[0] == (((zero() + a[0]) + s) + a[0] * x()) + a[1] * x()
            &&& c[1] == (((zero() + a[1]) + s) + a[1] * x()) + a[2] * x()
            &&& c[2] == (((zero() + a[2]) + s) + a[2] * x()) + a[3] * x()
            &&& c[3] == (((zero() + a[3]) + s) + a[3] * x()) + a[0] * x()
        }),
{
    let r = row_4();
    assert(r[0] == x() && r[1] == x() + one() && r[2] == one() && r[3] == one());
    lemma_entries(a[0]);
    lemma_entries(a[1]);
    lemma_entries(a[2]);
    lemma_entries(a[3]);
    lemma_sum_4(row_terms(r, a, 0));
    lemma_sum_4(row_terms(r, a, 1));
    lemma_sum_4(row_terms(r, a, 2));
    lemma_sum_4(row_terms(r, a, 3));
    lemma_rows_4(
        a[0].bits,
        a[1].bits,
        a[2].bits,
        a[3].bits,
        (a[0] * x()).bits,
        (a[1] * x()).bits,
        (a[2] * x()).bits,
        (a[3] * x()).bits,
    );
    reveal(B128::spec_add);
}

/// The circulant product for six elements, element by element.
proof fn lemma_circulant_6(a: Seq<B128>)
    requires
        a.len() == 6,
    ensures
        ({
            let q = |i: int| a[i] * x();
            let p = |i: int| a[i] * x_inv();
            let c = circulant(row_6(), a);
            &&& c[0] == ((((((zero() + p(0)) + p(1)) + q(2)) + q(4)) + a[3]) + q(5)) + a[5]
            &&& c[1] == ((((((zero() + q(0)) + a[0]) + p(1)) + p(2)) + q(3)) + a[4]) + q(5)
            &&& c[2] == ((((((zero() + q(0)) + q(1)) + a[1]) + p(2)) + p(3)) + q(4)) + a[5]
            &&& c[3] == ((((((zero() + a[0]) + q(1)) + q(2)) + a[2]) + p(3)) + p(4)) + q(5)
            &&& c[4] == ((((((zero() + q(0)) + a[1]) + q(2)) + q(3)) + a[3]) + p(4)) + p(5)
            &&& c[5] == ((((((zero() + p(0)) + p(5)) + q(1)) + a[2]) + q(3)) + q(4)) + a[4]
        }),
{
    let r = row_6();
    assert(r[0] == x_inv() && r[1] == x_inv() && r[2] == x());
    assert(r[3] == one() && r[4] == x() && r[5] == x() + one());
    lemma_entries(a[0]);
    lemma_entries(a[1]);
    lemma_entries(a[2]);
    lemma_entries(a[3]);
    lemma_entries(a[4]);
    lemma_entries(a[5]);
    lemma_sum_6(row_terms(r, a, 0));
    lemma_sum_6(row_terms(r, a, 1));
    lemma_sum_6(row_terms(r, a, 2));
    lemma_sum_6(row_terms(r, a, 3));
    lemma_sum_6(row_terms(r, a, 4));
    lemma_sum_6(row_terms(r, a, 5));
    lemma_rows_6(
        a[0].bits,
        a[1].bits,
        a[2].bits,
        a[3].bits,
        a[4].bits,
        a[5].bits,
        (a[0] * x()).bits,
        (a[1] * x()).bits,
        (a[2] * x()).bits,
        (a[3] * x()).bits,
        (a[4] * x()).bits,
        (a[5] * x()).bits,
        (a[0] * x_inv()).bits,
        (a[1] * x_inv()).bits,
        (a[2] * x_inv()).bits,
        (a[3] * x_inv()).bits,
        (a[4] * x_inv()).bits,
        (a[5] * x_inv()).bits,
    );
    reveal(B128::spec_add);
}

/// All wires exist.
pub open spec fn has_all(b: CircuitBuilder, ws: Seq<GhashWire>) -> bool {
    forall|i: int| 0 <= i < ws.len() ==> b.has(#[trigger] ws[i])
}

/// The sum of four elements.
fn xor_4(b: &mut CircuitBuilder, p: GhashWire, q: GhashWire, r: GhashWire, s: GhashWire) -> (w:
    GhashWire)
    requires
        old(b).wf(),
        old(b).has(p),
        old(b).has(q),
        old(b).has(r),
        old(b).has(s),
    ensures
        final(b).grew(*old(b), 0, 0),
        final(b).has(w),
        final(b).equalities@ == old(b).equalities@,
        forall|v: Seq<u64>| #[trigger]
            final(b).gates_hold(v) ==> value(v, w) == (((zero() + value(v, p)) + value(v, q))
                + value(v, r)) + value(v, s),
{
    let terms: [GhashWire; 4] = [p, q, r, s];
    let w = ghash_xor_multi(b, &terms);
    proof {
        reveal_with_fuel(value_sum, 5);
    }
    w
}

/// The sum of seven elements.
fn xor_7(b: &mut CircuitBuilder, t: [GhashWire; 7]) -> (w: GhashWire)
    requires
        old(b).wf(),
        has_all(*old(b), t@),
    ensures
        final(b).grew(*old(b), 0, 0),
        final(b).has(w),
        final(b).equalities@ == old(b).equalities@,
        forall|v: Seq<u64>| #[trigger]
            final(b).gates_hold(v) ==> value(v, w) == ((((((zero() + value(v, t@[0])) + value(
                v,
                t@[1],
            )) + value(v, t@[2])) + value(v, t@[3])) + value(v, t@[4])) + value(v, t@[5])) + value(
                v,
                t@[6],
            ),
{
    let w = ghash_xor_multi(b, &t);
    proof {
        reveal_with_fuel(value_sum, 8);
    }
    w
}

/// The MDS matrix for four elements: four BMUL constraints, since `X` times each element is needed
/// once only.
pub fn mds_4(b: &mut CircuitBuilder, a: &[GhashWire; 4]) -> (out: [GhashWire; 4])
    requires
        old(b).wf(),
        has_all(*old(b), a@),
    ensures
        final(b).grew(*old(b), 4, 0),
        has_all(*final(b), out@),
        final(b).equalities@ == old(b).equalities@,
        forall|v: Seq<u64>| #[trigger]
            final(b).gates_hold(v) ==> values(v, out@) == circulant(row_4(), values(v, a@)),
{
    assert(b.has(a@[0]) && b.has(a@[1]) && b.has(a@[2]) && b.has(a@[3]));
    let m0 = ghash_mul_const(b, a[0], x());
    let m1 = ghash_mul_const(b, a[1], x());
    let m2 = ghash_mul_const(b, a[2], x());
    let m3 = ghash_mul_const(b, a[3], x());
    let sum = xor_4(b, a[0], a[1], a[2], a[3]);
    let o0 = xor_4(b, a[0], sum, m0, m1);
    let o1 = xor_4(b, a[1], sum, m1, m2);
    let o2 = xor_4(b, a[2], sum, m2, m3);
    let o3 = xor_4(b, a[3], sum, m3, m0);
    let out: [GhashWire; 4] = [o0, o1, o2, o3];
    proof {
        assert forall|v: Seq<u64>| #[trigger] b.gates_hold(v) implies values(v, out@) == circulant(
            row_4(),
            values(v, a@),
        ) by {
            lemma_circulant_4(values(v, a@));
            assert(values(v, out@) =~= circulant(row_4(), values(v, a@)));
        }
    }
    out
}

/// The products of six elements with a constant: six BMUL constraints.
fn mul_all_6(b: &mut CircuitBuilder, a: &[GhashWire; 6], c: B128) -> (out: [GhashWire; 6])
    requires
        old(b).wf(),
        has_all(*old(b), a@),
    ensures
        final(b).grew(*old(b), 6, 0),
        has_all(*final(b), out@),
        final(b).equalities@ == old(b).equalities@,
        forall|v: Seq<u64>, k: int| #[trigger]
            final(b).gates_hold(v) && 0 <= k < 6 ==> value(v, #[trigger] out@[k]) == value(
                v,
                a@[k],
            ) * c,
{
    assert(b.has(a@[0]) && b.has(a@[1]) && b.has(a@[2]));
    assert(b.has(a@[3]) && b.has(a@[4]) && b.has(a@[5]));
    let q0 = ghash_mul_const(b, a[0], c);
    let q1 = ghash_mul_const(b, a[1], c);
    let q2 = ghash_mul_const(b, a[2], c);
    let q3 = ghash_mul_const(b, a[3], c);
    let q4 = ghash_mul_const(b, a[4], c);
    let q5 = ghash_mul_const(b, a[5], c);
    [q0, q1, q2, q3, q4, q5]
}

/// The MDS matrix for six elements: twelve BMUL constraints, since `X` and its inverse times each
/// element are needed once only.
#[verifier::rlimit(40)]
pub fn mds_6(b: &mut CircuitBuilder, a: &[GhashWire; 6]) -> (out: [GhashWire; 6])
    requires
        old(b).wf(),
        has_all(*old(b), a@),
    ensures
        final(b).grew(*old(b), 12, 0),
        has_all(*final(b), out@),
        final(b).equalities@ == old(b).equalities@,
        forall|v: Seq<u64>| #[trigger]
            final(b).gates_hold(v) ==> values(v, out@) == circulant(row_6(), values(v, a@)),
{
    let q = mul_all_6(b, a, x());
    let ghost b1 = *b;
    let p = mul_all_6(b, a, x_inv());
    let ghost b2 = *b;
    proof {
        assert(b.has(a@[0]) && b.has(a@[1]) && b.has(a@[2]));
        assert(b.has(a@[3]) && b.has(a@[4]) && b.has(a@[5]));
        assert(b1.has(q@[0]) && b1.has(q@[1]) && b1.has(q@[2]));
        assert(b1.has(q@[3]) && b1.has(q@[4]) && b1.has(q@[5]));
        assert(b.has(p@[0]) && b.has(p@[1]) && b.has(p@[2]));
        assert(b.has(p@[3]) && b.has(p@[4]) && b.has(p@[5]));
    }
    let o0 = xor_7(b, [p[0], p[1], q[2], q[4], a[3], q[5], a[5]]);
    let o1 = xor_7(b, [q[0], a[0], p[1], p[2], q[3], a[4], q[5]]);
    let o2 = xor_7(b, [q[0], q[1], a[1], p[2], p[3], q[4], a[5]]);
    let o3 = xor_7(b, [a[0], q[1], q[2], a[2], p[3], p[4], q[5]]);
    let o4 = xor_7(b, [q[0], a[1], q[2], q[3], a[3], p[4], p[5]]);
    let o5 = xor_7(b, [p[0], p[5], q[1], a[2], q[3], q[4], a[4]]);
    let out: [GhashWire; 6] = [o0, o1, o2, o3, o4, o5];
    proof {
        assert forall|v: Seq<u64>| #[trigger] b.gates_hold(v) implies values(v, out@) == circulant(
            row_6(),
            values(v, a@),
        ) by {
            assert(b2.gates_hold(v));
            assert(b1.gates_hold(v));
            let s = values(v, a@);
            lemma_circulant_6(s);
            assert(value(v, q@[0]) == s[0] * x());
            assert(value(v, q@[1]) == s[1] * x());
            assert(value(v, q@[2]) == s[2] * x());
            assert(value(v, q@[3]) == s[3] * x());
            assert(value(v, q@[4]) == s[4] * x());
            assert(value(v, q@[5]) == s[5] * x());
            assert(value(v, p@[0]) == s[0] * x_inv());
            assert(value(v, p@[1]) == s[1] * x_inv());
            assert(value(v, p@[2]) == s[2] * x_inv());
            assert(value(v, p@[3]) == s[3] * x_inv());
            assert(value(v, p@[4]) == s[4] * x_inv());
            assert(value(v, p@[5]) == s[5] * x_inv());
            assert(values(v, out@) =~= circulant(row_6(), s));
        }
    }
    out
}

/// Which affine map a half-round applies behind the inversion.
#[derive(Debug, Clone, Copy, PartialEq, Eq, Structural)]
pub enum BMap {
    /// The inverse map, by a hint.
    Inv,
    /// The forward map.
    Fwd,
}

/// What the S-box demands of an element and its image.
pub open spec fn sbox_relates(b_fwd: Seq<B128>, map: BMap, a: B128, y: B128) -> bool {
    match map {
        BMap::Inv => affine(b_fwd, y) == inv(a),
        BMap::Fwd => y == affine(b_fwd, inv(a)),
    }
}

/// The affine map given by `b_inv` undoes the one given by `b_fwd`.
pub open spec fn undoes(b_fwd: Seq<B128>, b_inv: Seq<B128>) -> bool {
    forall|a: B128| #[trigger] affine(b_fwd, affine(b_inv, a)) == a
}

/// The AND constraints of the S-box for one element.
pub open spec fn sbox_ands(map: BMap) -> nat {
    match map {
        BMap::Inv => 6,
        BMap::Fwd => 4,
    }
}

/// The S-box for one element.
fn sbox(b: &mut CircuitBuilder, b_fwd: &[B128; 4], a: GhashWire, map: BMap) -> (y: GhashWire)
    requires
        old(b).wf(),
        old(b).has(a),
    ensures
        final(b).grew(*old(b), 8, sbox_ands(map)),
        final(b).has(y),
        forall|v: Seq<u64>| #[trigger]
            final(b).gates_hold(v) && final(b).equalities_hold(v) ==> sbox_relates(
                b_fwd@,
                map,
                value(v, a),
                value(v, y),
            ),
        forall|b_inv: Seq<B128>, v: Seq<u64>| #[trigger]
            final(b).follows(b_inv, v) && undoes(b_fwd@, b_inv) && old(b).equalities_hold(v)
                ==> final(b).equalities_hold(v),
{
    let ghost before = *b;
    let r = invert_or_zero(b, a);
    let ghost mid = *b;
    match map {
        BMap::Inv => {
            let y = b_inv_affine_hinted(b, b_fwd, r.w).y;
            proof {
                assert forall|b_inv: Seq<B128>, v: Seq<u64>| #[trigger]
                    b.follows(b_inv, v) && undoes(b_fwd@, b_inv) && before.equalities_hold(
                    v,
                ) implies b.equalities_hold(v) by {
                    assert(mid.follows(b_inv, v));
                    assert(mid.gates_hold(v));
                    assert(affine(b_fwd@, affine(b_inv, value(v, r.w))) == value(v, r.w));
                }
                assert forall|v: Seq<u64>| #[trigger]
                    b.gates_hold(v) && b.equalities_hold(v) implies sbox_relates(
                    b_fwd@,
                    map,
                    value(v, a),
                    value(v, y),
                ) by {
                    assert(mid.gates_hold(v));
                }
            }
            y
        },
        BMap::Fwd => {
            let y = b_fwd_affine(b, b_fwd, r.w);
            proof {
                assert forall|b_inv: Seq<B128>, v: Seq<u64>| #[trigger]
                    b.follows(b_inv, v) && undoes(b_fwd@, b_inv) && before.equalities_hold(
                    v,
                ) implies b.equalities_hold(v) by {
                    assert(mid.follows(b_inv, v));
                    assert(mid.gates_hold(v));
                    lemma_same_equalities(*b, mid, v);
                }
                assert forall|v: Seq<u64>| #[trigger]
                    b.gates_hold(v) && b.equalities_hold(v) implies sbox_relates(
                    b_fwd@,
                    map,
                    value(v, a),
                    value(v, y),
                ) by {
                    assert(mid.gates_hold(v));
                    lemma_same_equalities(*b, mid, v);
                }
            }
            y
        },
    }
}

/// The S-box for every element of a state.
fn sbox_layer(b: &mut CircuitBuilder, b_fwd: &[B128; 4], state: &Vec<GhashWire>, map: BMap) -> (out:
    Vec<GhashWire>)
    requires
        old(b).wf(),
        has_all(*old(b), state@),
    ensures
        final(b).grew(*old(b), 8 * state@.len(), sbox_ands(map) * state@.len()),
        out@.len() == state@.len(),
        has_all(*final(b), out@),
        forall|v: Seq<u64>| #[trigger]
            final(b).gates_hold(v) && final(b).equalities_hold(v) ==> layer_relates(
                b_fwd@,
                map,
                values(v, state@),
                values(v, out@),
            ),
        forall|b_inv: Seq<B128>, v: Seq<u64>| #[trigger]
            final(b).follows(b_inv, v) && undoes(b_fwd@, b_inv) && old(b).equalities_hold(v)
                ==> final(b).equalities_hold(v),
{
    let ghost before = *b;
    let mut out: Vec<GhashWire> = Vec::new();
    let mut i: usize = 0;
    while i < state.len()
        invariant
            i <= state@.len(),
            out@.len() == i,
            before.wf(),
            has_all(before, state@),
            b.grew(before, 8 * i as nat, sbox_ands(map) * i as nat),
            has_all(*b, out@),
            forall|v: Seq<u64>| #[trigger]
                b.gates_hold(v) && b.equalities_hold(v) ==> layer_relates(
                    b_fwd@,
                    map,
                    values(v, state@).take(i as int),
                    values(v, out@),
                ),
            forall|b_inv: Seq<B128>, v: Seq<u64>| #[trigger]
                b.follows(b_inv, v) && undoes(b_fwd@, b_inv) && before.equalities_hold(v)
                    ==> b.equalities_hold(v),
        decreases state@.len() - i,
    {
        let ghost mid = *b;
        let ghost done = out@;
        assert(before.has(state@[i as int]));
        let y = sbox(b, b_fwd, state[i], map);
        out.push(y);
        proof {
            assert(sbox_ands(map) * i + sbox_ands(map) == sbox_ands(map) * (i + 1))
                by (nonlinear_arith);
            assert forall|v: Seq<u64>| #[trigger]
                b.gates_hold(v) && b.equalities_hold(v) implies layer_relates(
                b_fwd@,
                map,
                values(v, state@).take(i + 1),
                values(v, out@),
            ) by {
                assert(mid.gates_hold(v) && mid.equalities_hold(v));
                let s = values(v, state@);
                let o = values(v, out@);
                assert forall|k: int| 0 <= k < i + 1 implies sbox_relates(
                    b_fwd@,
                    map,
                    s.take(i + 1)[k],
                    #[trigger] o[k],
                ) by {
                    if k < i {
                        assert(values(v, done)[k] == o[k]);
                        assert(s.take(i as int)[k] == s.take(i + 1)[k]);
                    }
                }
            }
            assert forall|k: int| 0 <= k < out@.len() implies b.has(#[trigger] out@[k]) by {
                if k < i {
                    assert(mid.has(done[k]));
                }
            }
        }
        i = i + 1;
    }
    proof {
        assert forall|v: Seq<u64>| #[trigger]
            b.gates_hold(v) && b.equalities_hold(v) implies layer_relates(
            b_fwd@,
            map,
            values(v, state@),
            values(v, out@),
        ) by {
            assert(values(v, state@).take(i as int) =~= values(v, state@));
        }
    }
    out
}

/// What the S-box demands of a state and its image.
pub open spec fn layer_relates(b_fwd: Seq<B128>, map: BMap, a: Seq<B128>, y: Seq<B128>) -> bool {
    &&& y.len() == a.len()
    &&& forall|k: int| 0 <= k < y.len() ==> sbox_relates(b_fwd, map, a[k], #[trigger] y[k])
}

/// The sum of two states.
pub open spec fn state_add(a: Seq<B128>, c: Seq<B128>) -> Seq<B128> {
    Seq::new(a.len(), |i: int| a[i] + c[i])
}

/// Adds a round constant to a state: no constraint.
fn add_round_constants(b: &mut CircuitBuilder, state: &Vec<GhashWire>, rc: &Vec<B128>) -> (out: Vec<
    GhashWire,
>)
    requires
        old(b).wf(),
        has_all(*old(b), state@),
        rc@.len() == state@.len(),
    ensures
        final(b).grew(*old(b), 0, 0),
        out@.len() == state@.len(),
        has_all(*final(b), out@),
        final(b).equalities@ == old(b).equalities@,
        forall|v: Seq<u64>| #[trigger]
            final(b).gates_hold(v) ==> values(v, out@) == state_add(values(v, state@), rc@),
{
    let ghost before = *b;
    let mut out: Vec<GhashWire> = Vec::new();
    let mut i: usize = 0;
    while i < state.len()
        invariant
            i <= state@.len(),
            rc@.len() == state@.len(),
            out@.len() == i,
            before.wf(),
            has_all(before, state@),
            b.grew(before, 0, 0),
            b.equalities@ == before.equalities@,
            has_all(*b, out@),
            forall|v: Seq<u64>, k: int| #[trigger]
                b.gates_hold(v) && 0 <= k < i ==> value(v, #[trigger] out@[k]) == value(
                    v,
                    state@[k],
                ) + rc@[k],
        decreases state@.len() - i,
    {
        let ghost mid = *b;
        let ghost done = out@;
        assert(before.has(state@[i as int]));
        let c = GhashWire::constant(b, rc[i]);
        let y = ghash_xor(b, state[i], c);
        out.push(y);
        proof {
            assert forall|v: Seq<u64>, k: int| #[trigger]
                b.gates_hold(v) && 0 <= k < i + 1 implies value(v, #[trigger] out@[k]) == value(
                v,
                state@[k],
            ) + rc@[k] by {
                assert(mid.gates_hold(v));
                if k < i {
                    assert(out@[k] == done[k]);
                }
            }
            assert forall|k: int| 0 <= k < out@.len() implies b.has(#[trigger] out@[k]) by {
                if k < i {
                    assert(mid.has(done[k]));
                }
            }
        }
        i = i + 1;
    }
    proof {
        assert forall|v: Seq<u64>| #[trigger] b.gates_hold(v) implies values(v, out@) == state_add(
            values(v, state@),
            rc@,
        ) by {
            assert(values(v, out@) =~= state_add(values(v, state@), rc@));
        }
    }
    out
}

/// The BMUL constraints of an MDS layer.
pub open spec fn mds_bmuls(m: nat) -> nat {
    if m == 4 {
        4
    } else {
        12
    }
}

/// The MDS layer for a state of four or six elements.
fn mds_layer(b: &mut CircuitBuilder, a: &Vec<GhashWire>) -> (out: Vec<GhashWire>)
    requires
        old(b).wf(),
        has_all(*old(b), a@),
        a@.len() == 4 || a@.len() == 6,
    ensures
        final(b).grew(*old(b), mds_bmuls(a@.len()), 0),
        out@.len() == a@.len(),
        has_all(*final(b), out@),
        final(b).equalities@ == old(b).equalities@,
        forall|v: Seq<u64>| #[trigger]
            final(b).gates_hold(v) ==> values(v, out@) == circulant(
                row_of(a@.len()),
                values(v, a@),
            ),
{
    if a.len() == 4 {
        let state: [GhashWire; 4] = [a[0], a[1], a[2], a[3]];
        assert(state@ =~= a@);
        let o = mds_4(b, &state);
        let out: Vec<GhashWire> = vec![o[0], o[1], o[2], o[3]];
        assert(out@ =~= o@);
        out
    } else {
        let state: [GhashWire; 6] = [a[0], a[1], a[2], a[3], a[4], a[5]];
        assert(state@ =~= a@);
        let o = mds_6(b, &state);
        let out: Vec<GhashWire> = vec![o[0], o[1], o[2], o[3], o[4], o[5]];
        assert(out@ =~= o@);
        out
    }
}

/// The forward affine map sends no two elements to one.
pub open spec fn injective(b_fwd: Seq<B128>) -> bool {
    forall|y: B128, z: B128| #[trigger]
        affine(b_fwd, y) == #[trigger] affine(b_fwd, z) ==> y == z
}

/// The S-box of a permutation.
pub open spec fn sbox_value(b_fwd: Seq<B128>, map: BMap, a: B128) -> B128 {
    match map {
        BMap::Inv => choose|y: B128| #[trigger] affine(b_fwd, y) == inv(a),
        BMap::Fwd => affine(b_fwd, inv(a)),
    }
}

/// Where the forward map is injective, the S-box is the only image that the constraints allow.
pub proof fn law_sbox_unique(b_fwd: Seq<B128>, map: BMap, a: B128, y: B128)
    requires
        injective(b_fwd),
        sbox_relates(b_fwd, map, a, y),
    ensures
        y == sbox_value(b_fwd, map, a),
{
    if map is Inv {
        assert(affine(b_fwd, y) == inv(a));
        let z = sbox_value(b_fwd, map, a);
        assert(affine(b_fwd, z) == inv(a));
    }
}

/// A map that undoes the forward map on one side makes it the S-box that the hint computes, once
/// the forward map is injective.
pub proof fn law_hint_is_sbox(b_fwd: Seq<B128>, b_inv: Seq<B128>, a: B128)
    requires
        injective(b_fwd),
        undoes(b_fwd, b_inv),
    ensures
        affine(b_inv, inv(a)) == sbox_value(b_fwd, BMap::Inv, a),
{
    assert(affine(b_fwd, affine(b_inv, inv(a))) == inv(a));
    law_sbox_unique(b_fwd, BMap::Inv, a, affine(b_inv, inv(a)));
}

/// One half-round of a permutation.
pub open spec fn half_round_value(
    b_fwd: Seq<B128>,
    map: BMap,
    rc: Seq<B128>,
    s: Seq<B128>,
) -> Seq<B128> {
    state_add(
        circulant(row_of(s.len()), Seq::new(s.len(), |i: int| sbox_value(b_fwd, map, s[i]))),
        rc,
    )
}

/// The state of a permutation behind `r` rounds.
pub open spec fn vision_state(
    b_fwd: Seq<B128>,
    rcs: Seq<Vec<B128>>,
    s: Seq<B128>,
    r: nat,
) -> Seq<B128>
    decreases r,
{
    if r == 0 {
        state_add(s, rcs[0]@)
    } else {
        half_round_value(
            b_fwd,
            BMap::Fwd,
            rcs[2 * r as int]@,
            half_round_value(
                b_fwd,
                BMap::Inv,
                rcs[2 * r as int - 1]@,
                vision_state(b_fwd, rcs, s, (r - 1) as nat),
            ),
        )
    }
}

/// One half-round.
fn half_round(
    b: &mut CircuitBuilder,
    b_fwd: &[B128; 4],
    state: &Vec<GhashWire>,
    map: BMap,
    rc: &Vec<B128>,
) -> (out: Vec<GhashWire>)
    requires
        old(b).wf(),
        has_all(*old(b), state@),
        state@.len() == 4 || state@.len() == 6,
        rc@.len() == state@.len(),
    ensures
        final(b).grew(
            *old(b),
            8 * state@.len() + mds_bmuls(state@.len()),
            sbox_ands(map) * state@.len(),
        ),
        out@.len() == state@.len(),
        has_all(*final(b), out@),
        forall|v: Seq<u64>| #[trigger]
            final(b).gates_hold(v) && final(b).equalities_hold(v) && injective(b_fwd@) ==> values(
                v,
                out@,
            ) == half_round_value(b_fwd@, map, rc@, values(v, state@)),
        forall|b_inv: Seq<B128>, v: Seq<u64>| #[trigger]
            final(b).follows(b_inv, v) && undoes(b_fwd@, b_inv) && old(b).equalities_hold(v)
                ==> final(b).equalities_hold(v),
{
    let ghost before = *b;
    let s = sbox_layer(b, b_fwd, state, map);
    let ghost b1 = *b;
    let m = mds_layer(b, &s);
    let ghost b2 = *b;
    let out = add_round_constants(b, &m, rc);
    proof {
        let after = *b;
        assert forall|v: Seq<u64>| #[trigger]
            after.gates_hold(v) && after.equalities_hold(v) && injective(b_fwd@) implies values(
            v,
            out@,
        ) == half_round_value(b_fwd@, map, rc@, values(v, state@)) by {
            assert(b2.gates_hold(v));
            assert(b1.gates_hold(v));
            lemma_same_equalities(after, b1, v);
            let a = values(v, state@);
            let y = values(v, s@);
            let image = Seq::new(a.len(), |i: int| sbox_value(b_fwd@, map, a[i]));
            assert(layer_relates(b_fwd@, map, a, y));
            assert forall|k: int| 0 <= k < y.len() implies y[k] == image[k] by {
                assert(sbox_relates(b_fwd@, map, a[k], y[k]));
                law_sbox_unique(b_fwd@, map, a[k], y[k]);
            }
            assert(y =~= image);
        }
        assert forall|b_inv: Seq<B128>, v: Seq<u64>| #[trigger]
            after.follows(b_inv, v) && undoes(b_fwd@, b_inv) && before.equalities_hold(v) implies
            after.equalities_hold(v) by {
            assert(b2.follows(b_inv, v));
            assert(b1.follows(b_inv, v));
            lemma_same_equalities(after, b1, v);
        }
    }
    out
}

/// The BMUL constraints of `r` rounds for `m` elements.
pub open spec fn round_bmuls(m: nat, r: nat) -> nat {
    if m == 4 {
        72 * r
    } else {
        120 * r
    }
}

/// The AND constraints of `r` rounds for `m` elements.
pub open spec fn round_ands(m: nat, r: nat) -> nat {
    if m == 4 {
        40 * r
    } else {
        60 * r
    }
}

/// The permutation of a state of four or six elements.
fn vision_permutation(b: &mut CircuitBuilder, consts: &VisionConstants, input: &Vec<GhashWire>) -> (
out: Vec<GhashWire>)
    requires
        old(b).wf(),
        has_all(*old(b), input@),
        input@.len() == 4 || input@.len() == 6,
        consts.fits(input@.len()),
    ensures
        final(b).grew(
            *old(b),
            round_bmuls(input@.len(), NUM_ROUNDS as nat),
            round_ands(input@.len(), NUM_ROUNDS as nat),
        ),
        out@.len() == input@.len(),
        has_all(*final(b), out@),
        forall|v: Seq<u64>| #[trigger]
            final(b).gates_hold(v) && final(b).equalities_hold(v) && injective(consts.b_fwd@)
                ==> values(v, out@) == vision_state(
                consts.b_fwd@,
                consts.round_constants@,
                values(v, input@),
                NUM_ROUNDS as nat,
            ),
        forall|b_inv: Seq<B128>, v: Seq<u64>| #[trigger]
            final(b).follows(b_inv, v) && undoes(consts.b_fwd@, b_inv) && old(b).equalities_hold(v)
                ==> final(b).equalities_hold(v),
{
    let ghost before = *b;
    let ghost m = input@.len();
    assert(consts.round_constants@[0]@.len() == m);
    let mut state = add_round_constants(b, input, &consts.round_constants[0]);
    proof {
        let now = *b;
        assert forall|b_inv: Seq<B128>, v: Seq<u64>| #[trigger]
            now.follows(b_inv, v) && undoes(consts.b_fwd@, b_inv) && before.equalities_hold(
            v,
        ) implies now.equalities_hold(v) by {
            lemma_same_equalities(now, before, v);
        }
    }
    let mut r: usize = 0;
    while r < NUM_ROUNDS
        invariant
            r <= NUM_ROUNDS,
            m == input@.len(),
            m == 4 || m == 6,
            consts.fits(m),
            before.wf(),
            state@.len() == m,
            has_all(*b, state@),
            b.grew(before, round_bmuls(m, r as nat), round_ands(m, r as nat)),
            forall|v: Seq<u64>| #[trigger]
                b.gates_hold(v) && b.equalities_hold(v) && injective(consts.b_fwd@) ==> values(
                    v,
                    state@,
                ) == vision_state(
                    consts.b_fwd@,
                    consts.round_constants@,
                    values(v, input@),
                    r as nat,
                ),
            forall|b_inv: Seq<B128>, v: Seq<u64>| #[trigger]
                b.follows(b_inv, v) && undoes(consts.b_fwd@, b_inv) && before.equalities_hold(v)
                    ==> b.equalities_hold(v),
        decreases NUM_ROUNDS - r,
    {
        let ghost b0 = *b;
        assert(consts.round_constants@[1 + 2 * r]@.len() == m);
        assert(consts.round_constants@[2 + 2 * r]@.len() == m);
        let s1 = half_round(
            b,
            &consts.b_fwd,
            &state,
            BMap::Inv,
            &consts.round_constants[1 + 2 * r],
        );
        let ghost b1 = *b;
        let ghost s0 = state@;
        state = half_round(
            b,
            &consts.b_fwd,
            &s1,
            BMap::Fwd,
            &consts.round_constants[2 + 2 * r],
        );
        proof {
            let now = *b;
            if m == 4 {
                assert(sbox_ands(BMap::Inv) * m == 24 && sbox_ands(BMap::Fwd) * m == 16);
            } else {
                assert(sbox_ands(BMap::Inv) * m == 36 && sbox_ands(BMap::Fwd) * m == 24);
            }
            assert forall|v: Seq<u64>| #[trigger]
                now.gates_hold(v) && now.equalities_hold(v) && injective(
                consts.b_fwd@,
            ) implies values(v, state@) == vision_state(
                consts.b_fwd@,
                consts.round_constants@,
                values(v, input@),
                (r + 1) as nat,
            ) by {
                assert(b1.gates_hold(v) && b1.equalities_hold(v));
                assert(b0.gates_hold(v) && b0.equalities_hold(v));
            }
            assert forall|b_inv: Seq<B128>, v: Seq<u64>| #[trigger]
                now.follows(b_inv, v) && undoes(consts.b_fwd@, b_inv) && before.equalities_hold(
                v,
            ) implies now.equalities_hold(v) by {
                assert(b1.follows(b_inv, v));
                assert(b0.follows(b_inv, v));
            }
        }
        r = r + 1;
    }
    state
}

/// The Vision permutation of four elements: 576 BMUL and 320 AND constraints. Where the forward
/// affine map is injective, every assignment that satisfies the circuit carries the permutation;
/// and an assignment that follows hints which undo the forward map meets all equalities that are
/// added.
pub fn vision4_permutation(b: &mut CircuitBuilder, consts: &VisionConstants, state: [GhashWire; 4]) -> (
out: [GhashWire; 4])
    requires
        old(b).wf(),
        has_all(*old(b), state@),
        consts.fits(4),
    ensures
        final(b).grew(*old(b), 576, 320),
        has_all(*final(b), out@),
        forall|v: Seq<u64>| #[trigger]
            final(b).satisfied(v) && injective(consts.b_fwd@) ==> values(v, out@) == vision_state(
                consts.b_fwd@,
                consts.round_constants@,
                values(v, state@),
                NUM_ROUNDS as nat,
            ),
        forall|b_inv: Seq<B128>, v: Seq<u64>| #[trigger]
            final(b).follows(b_inv, v) && undoes(consts.b_fwd@, b_inv) && old(b).equalities_hold(v)
                ==> final(b).satisfied(v),
{
    let input: Vec<GhashWire> = vec![state[0], state[1], state[2], state[3]];
    assert(input@ =~= state@);
    let o = vision_permutation(b, consts, &input);
    let out: [GhashWire; 4] = [o[0], o[1], o[2], o[3]];
    assert(out@ =~= o@);
    out
}

/// The Vision permutation of six elements: 960 BMUL and 480 AND constraints. Where the forward
/// affine map is injective, every assignment that satisfies the circuit carries the permutation;
/// and an assignment that follows hints which undo the forward map meets all equalities that are
/// added.
pub fn vision6_permutation(b: &mut CircuitBuilder, consts: &VisionConstants, state: [GhashWire; 6]) -> (
out: [GhashWire; 6])
    requires
        old(b).wf(),
        has_all(*old(b), state@),
        consts.fits(6),
    ensures
        final(b).grew(*old(b), 960, 480),
        has_all(*final(b), out@),
        forall|v: Seq<u64>| #[trigger]
            final(b).satisfied(v) && injective(consts.b_fwd@) ==> values(v, out@) == vision_state(
                consts.b_fwd@,
                consts.round_constants@,
                values(v, state@),
                NUM_ROUNDS as nat,
            ),
        forall|b_inv: Seq<B128>, v: Seq<u64>| #[trigger]
            final(b).follows(b_inv, v) && undoes(consts.b_fwd@, b_inv) && old(b).equalities_hold(v)
                ==> final(b).satisfied(v),
{
    let input: Vec<GhashWire> = vec![state[0], state[1], state[2], state[3], state[4], state[5]];
    assert(input@ =~= state@);
    let o = vision_permutation(b, consts, &input);
    let out: [GhashWire; 6] = [o[0], o[1], o[2], o[3], o[4], o[5]];
    assert(out@ =~= o@);
    out
}

/// A state with one element.
pub open spec fn unit(m: nat, j: int, c: B128) -> Seq<B128> {
    Seq::new(
        m,
        |i: int|
            if i == j {
                c
            } else {
                zero()
            },
    )
}

/// The matrix moves its first row on by one from row to row: what element `j` alone contributes to
/// element `i` is its product with the first row's entry `j - i`, counted round the state.
pub proof fn law_circulant_unit(row: Seq<B128>, m: nat, i: int, j: int, c: B128)
    requires
        0 <= i < m,
        0 <= j < m,
    ensures
        circulant(row, unit(m, j, c)).len() == m,
        i <= j ==> circulant(row, unit(m, j, c))[i] == row[j - i] * c,
        j < i ==> circulant(row, unit(m, j, c))[i] == row[m + j - i] * c,
{
    broadcast use group_units;

    let a = unit(m, j, c);
    let f = row_terms(row, a, i);
    assert forall|k: int| 0 <= k < m && k != j implies #[trigger] f(k) == zero() by {
        assert(a[k] == zero());
    }
    crate::field::sums::lemma_sum_single(f, m, j);
    assert(a[j] == c);
    if i <= j {
        vstd::arithmetic::div_mod::lemma_small_mod((j - i) as nat, m);
    } else {
        vstd::arithmetic::div_mod::lemma_mod_add_multiples_vanish(j - i, m as int);
        vstd::arithmetic::div_mod::lemma_small_mod((m + j - i) as nat, m);
    }
}

/// The matrix is linear.
pub proof fn law_circulant_adds(row: Seq<B128>, a: Seq<B128>, c: Seq<B128>, i: int)
    requires
        a.len() == c.len(),
        0 <= i < a.len(),
    ensures
        circulant(row, state_add(a, c))[i] == circulant(row, a)[i] + circulant(row, c)[i],
{
    let (f, g, h) = (
        row_terms(row, a, i),
        row_terms(row, c, i),
        row_terms(row, state_add(a, c), i),
    );
    assert forall|k: int| 0 <= k < a.len() implies #[trigger] h(k) == f(k) + g(k) by {
        crate::field::ring::law_distributes(row[(k - i) % (a.len() as int)], a[k], c[k]);
    }
    crate::field::sums::lemma_sum_add(f, g, h, a.len());
}

/// The first rows of the two matrices, by the bits of their entries: over `X`, for four elements `X`,
/// `X + 1`, 1 and 1; for six, twice the inverse of `X`, then `X`, 1, `X` and `X + 1`.
pub proof fn law_first_rows()
    ensures
        row_of(4).len() == 4,
        row_of(4)[0].bits == 2,
        row_of(4)[1].bits == 3,
        row_of(4)[2].bits == 1,
        row_of(4)[3].bits == 1,
        row_of(6).len() == 6,
        row_of(6)[0] * row_of(4)[0] == one(),
        row_of(6)[1] == row_of(6)[0],
        row_of(6)[2].bits == 2,
        row_of(6)[3].bits == 1,
        row_of(6)[4].bits == 2,
        row_of(6)[5].bits == 3,
{
    assert(2u128 ^ 1u128 == 3u128) by (bit_vector);
    reveal(B128::spec_add);
    crate::vision::words::law_x_inv();
    law_mul_commutes(x_inv(), x());
}

/// The S-box in terms of a claimed inverse `w` of `a`, zero for zero: the forward kind applies the
/// forward map to it, and what the inverse kind gives is whatever the forward map takes to it.
pub proof fn law_sbox(b_fwd: Seq<B128>, a: B128, w: B128, y: B128)
    requires
        a == zero() ==> w == zero(),
        a != zero() ==> a * w == one(),
    ensures
        sbox_value(b_fwd, BMap::Fwd, a) == affine(b_fwd, w),
        injective(b_fwd) && affine(b_fwd, y) == w ==> sbox_value(b_fwd, BMap::Inv, a) == y,
        sbox_relates(b_fwd, BMap::Fwd, a, y) <==> y == affine(b_fwd, w),
        sbox_relates(b_fwd, BMap::Inv, a, y) <==> affine(b_fwd, y) == w,
{
    if a != zero() {
        crate::field::inverse::law_inverse_unique(a, w);
    }
    if injective(b_fwd) && affine(b_fwd, y) == w {
        law_sbox_unique(b_fwd, BMap::Inv, a, y);
    }
}

/// A permutation begins by adding the first round constant.
pub proof fn law_permutation_begins(b_fwd: Seq<B128>, rcs: Seq<Vec<B128>>, s: Seq<B128>, i: int)
    requires
        0 <= i < s.len(),
    ensures
        vision_state(b_fwd, rcs, s, 0).len() == s.len(),
        vision_state(b_fwd, rcs, s, 0)[i] == s[i] + rcs[0]@[i],
{
}

/// A round, step by step: `p` holds the elements that the forward map takes to the inverses of the
/// state's, `half` their matrix product with the next round constant added, `q` the forward map of the
/// inverses of those; the round ends with the matrix product of `q`, and the round constant behind it
/// added.
pub proof fn law_permutation_round(
    b_fwd: Seq<B128>,
    rcs: Seq<Vec<B128>>,
    s: Seq<B128>,
    r: nat,
    p: Seq<B128>,
    half: Seq<B128>,
    q: Seq<B128>,
)
    requires
        injective(b_fwd),
        p.len() == s.len(),
        half.len() == s.len(),
        q.len() == s.len(),
        forall|i: int|
            0 <= i < s.len() ==> affine(b_fwd, #[trigger] p[i]) == inv(
                vision_state(b_fwd, rcs, s, r)[i],
            ),
        forall|i: int|
            0 <= i < s.len() ==> #[trigger] half[i] == circulant(row_of(s.len()), p)[i]
                + rcs[2 * r as int + 1]@[i],
        forall|i: int| 0 <= i < s.len() ==> #[trigger] q[i] == affine(b_fwd, inv(half[i])),
    ensures
        vision_state(b_fwd, rcs, s, r + 1).len() == s.len(),
        forall|i: int|
            0 <= i < s.len() ==> #[trigger] vision_state(b_fwd, rcs, s, r + 1)[i] == circulant(
                row_of(s.len()),
                q,
            )[i] + rcs[2 * r as int + 2]@[i],
{
    lemma_state_len(b_fwd, rcs, s, r);
    let t = vision_state(b_fwd, rcs, s, r);
    let rc1 = rcs[2 * r as int + 1]@;
    let h = half_round_value(b_fwd, BMap::Inv, rc1, t);
    let im = Seq::new(t.len(), |i: int| sbox_value(b_fwd, BMap::Inv, t[i]));
    assert forall|i: int| 0 <= i < s.len() implies im[i] == p[i] by {
        assert(affine(b_fwd, p[i]) == inv(t[i]));
        law_sbox_unique(b_fwd, BMap::Inv, t[i], p[i]);
    }
    assert(im =~= p);
    assert(h =~= half);
    let im2 = Seq::new(h.len(), |i: int| sbox_value(b_fwd, BMap::Fwd, h[i]));
    assert(im2 =~= q);
    assert(2 * (r + 1) - 1 == 2 * r + 1);
    assert(2 * (r + 1) == 2 * r + 2);
}

/// A state keeps its number of elements.
proof fn lemma_state_len(b_fwd: Seq<B128>, rcs: Seq<Vec<B128>>, s: Seq<B128>, r: nat)
    ensures
        vision_state(b_fwd, rcs, s, r).len() == s.len(),
    decreases r,
{
    if r > 0 {
        lemma_state_len(b_fwd, rcs, s, (r - 1) as nat);
    }
}

/// A permutation has eight rounds, so its constants are one for the start and two for each round: 17
/// lists of as many elements as the state.
pub proof fn law_constants_fit(consts: VisionConstants, m: nat)
    ensures
        NUM_ROUNDS == 8,
        consts.fits(m) <==> consts.round_constants@.len() == 17 && forall|i: int|
            0 <= i < 17 ==> (#[trigger] consts.round_constants@[i])@.len() == m,
{
}

/// What a round costs more: for four elements 72 BMUL and 40 AND constraints, and for six 120 and 60.
pub proof fn law_round_costs(r: nat)
    ensures
        round_bmuls(4, 0) == 0,
        round_bmuls(6, 0) == 0,
        round_ands(4, 0) == 0,
        round_ands(6, 0) == 0,
        round_bmuls(4, r + 1) == round_bmuls(4, r) + 72,
        round_bmuls(6, r + 1) == round_bmuls(6, r) + 120,
        round_ands(4, r + 1) == round_ands(4, r) + 40,
        round_ands(6, r + 1) == round_ands(6, r) + 60,
        round_bmuls(4, 1) == 2 * (8 * 4 + mds_bmuls(4)),
        round_bmuls(6, 1) == 2 * (8 * 6 + mds_bmuls(6)),
        round_ands(4, 1) == 4 * (sbox_ands(BMap::Inv) + sbox_ands(BMap::Fwd)),
        round_ands(6, 1) == 6 * (sbox_ands(BMap::Inv) + sbox_ands(BMap::Fwd)),
{
}

} // verus!
