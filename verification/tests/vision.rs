//! The gadgets of the Vision permutations, against plain field arithmetic.

use recursion_discharge::field::element::{one, zero, B128};
use recursion_discharge::vision::circuit::{CircuitBuilder, GhashWire, WitnessFiller};
use recursion_discharge::vision::gadgets::{
    b_fwd_affine, b_inv_affine_hinted, ghash_assert_eq, ghash_mul, ghash_mul_const,
    ghash_mul_x_shift, invert_or_zero, invert_or_zero_constrain,
};
use recursion_discharge::vision::hints::{GhashInvertHint, VisionBInvHint};
use recursion_discharge::vision::permutation::{
    mds_4, mds_6, vision4_permutation, vision6_permutation, VisionConstants, NUM_ROUNDS,
};
use recursion_discharge::vision::words::{ghash_to_words, words_to_ghash, x, x_inv};

struct Draws {
    state: u64,
}

impl Draws {
    fn new(seed: u64) -> Self {
        Draws { state: seed ^ 0x5851f42d4c957f2d }
    }

    fn word(&mut self) -> u64 {
        self.state = self.state.wrapping_add(0x9e3779b97f4a7c15);
        let mut z = self.state;
        z = (z ^ (z >> 30)).wrapping_mul(0xbf58476d1ce4e5b9);
        z = (z ^ (z >> 27)).wrapping_mul(0x94d049bb133111eb);
        z ^ (z >> 31)
    }

    fn elem(&mut self) -> B128 {
        B128::new(((self.word() as u128) << 64) | self.word() as u128)
    }
}

/// Interesting elements: zero, one, single bits, all ones.
fn edge_elements() -> Vec<B128> {
    let mut v = vec![zero(), one(), B128::new(u128::MAX)];
    for bit in [1, 63, 64, 127] {
        v.push(B128::new(1u128 << bit));
    }
    v
}

// ---------------------------------------------------------------------------------------------
// Constants for the tests: an affine bijection and its inverse.
// ---------------------------------------------------------------------------------------------

fn power(a: B128, e: u128) -> B128 {
    let (mut acc, mut base, mut e) = (one(), a, e);
    while e > 0 {
        if e & 1 == 1 {
            acc = acc * base;
        }
        base = base * base;
        e >>= 1;
    }
    acc
}

/// `B0 + B1 y + B3 y^4`, which is a bijection because `B1 / B3` is no cube.
fn b_fwd() -> [B128; 4] {
    let mut draws = Draws::new(4096);
    let b0 = draws.elem();
    let b3 = draws.elem();
    loop {
        let b1 = draws.elem();
        let ratio = b1 * b3.invert_or_zero();
        if power(ratio, u128::MAX / 3) != one() {
            return [b0, b1, zero(), b3];
        }
    }
}

/// The forward map.
fn forward(c: &[B128; 4], y: B128) -> B128 {
    let y2 = y * y;
    c[0] + c[1] * y + c[2] * y2 + c[3] * (y2 * y2)
}

/// The coefficients of the inverse map: with `L(y) = a y + b y^4`, the composition of linearized
/// polynomials turns `M(L(y)) = y` into one equation per power, solved along two cycles.
fn b_inv(c: &[B128; 4]) -> VisionBInvHint {
    // M(z) = sum m_i z^(2^i). The coefficient of y^(2^k) in M(L(y)) is
    // m_k a^(2^k) + m_(k-2) b^(2^(k-2)), indices modulo 128. It is one for k = 0 and zero elsewhere.
    let (a, b) = (c[1], c[3]);
    let frob = |v: B128, k: usize| (0..k % 128).fold(v, |acc, _| acc * acc);
    let mut m = vec![zero(); 128];
    // Even indices: m_k = r_k m_(k-2) for k != 0, so m_126 = product * m_0.
    let ratio = |k: usize| frob(b, k + 126) * frob(a, k).invert_or_zero();
    let product = (1..64).fold(one(), |acc, j| acc * ratio(2 * j));
    // m_0 a + m_126 b^(2^126) = 1
    m[0] = (a + product * frob(b, 126)).invert_or_zero();
    for j in 1..64 {
        m[2 * j] = ratio(2 * j) * m[2 * (j - 1)];
    }
    // Odd indices are all zero.
    let shift = (0..128).fold(zero(), |acc, i| acc + m[i] * frob(c[0], i));
    let mut coeffs = vec![shift];
    coeffs.extend(m);
    VisionBInvHint { coeffs }
}

fn backward(hint: &VisionBInvHint, z: B128) -> B128 {
    let (lo, hi) = ghash_to_words(z);
    let (lo, hi) = hint.execute(lo, hi);
    words_to_ghash(lo, hi)
}

#[test]
fn the_test_maps_undo_each_other() {
    let fwd = b_fwd();
    let hint = b_inv(&fwd);
    assert_eq!(hint.coeffs.len(), 129);
    let mut draws = Draws::new(1);
    for _ in 0..16 {
        let z = draws.elem();
        assert_eq!(backward(&hint, forward(&fwd, z)), z);
        assert_eq!(forward(&fwd, backward(&hint, z)), z);
    }
}

// ---------------------------------------------------------------------------------------------
// Differential tests.
// ---------------------------------------------------------------------------------------------

#[test]
fn test_bmul_matches_native() {
    const N: usize = 64;
    let mut b = CircuitBuilder::new();
    let xs: Vec<GhashWire> = (0..N).map(|_| GhashWire::witness(&mut b)).collect();
    let ys: Vec<GhashWire> = (0..N).map(|_| GhashWire::witness(&mut b)).collect();
    let prods: Vec<GhashWire> = (0..N).map(|i| ghash_mul(&mut b, xs[i], ys[i])).collect();
    for p in &prods {
        p.force_commit(&mut b);
    }
    let mut rng = Draws::new(0);
    let mut w = b.new_witness_filler();
    let mut expected = Vec::with_capacity(N);
    for i in 0..N {
        let (xv, yv) = if i < edge_elements().len() {
            (edge_elements()[i], rng.elem())
        } else {
            (rng.elem(), rng.elem())
        };
        xs[i].populate(&mut w, xv);
        ys[i].populate(&mut w, yv);
        expected.push(xv * yv);
    }
    b.populate_wire_witness(&b_inv(&b_fwd()), &mut w).unwrap();
    for i in 0..N {
        assert_eq!(prods[i].read(&w), expected[i], "bmul mismatch at pair {i}");
    }
    assert!(b.verify_all_constraints(&w));
}

#[test]
fn test_invert_or_zero_differential() {
    let mut b = CircuitBuilder::new();
    let x = GhashWire::witness(&mut b);
    let inv = invert_or_zero(&mut b, x);
    inv.w.force_commit(&mut b);
    let hint = b_inv(&b_fwd());
    let mut rng = Draws::new(1);
    let mut inputs = edge_elements();
    inputs.extend((0..32).map(|_| rng.elem()));
    for xv in inputs {
        let mut w = b.new_witness_filler();
        x.populate(&mut w, xv);
        b.populate_wire_witness(&hint, &mut w).unwrap();
        assert_eq!(inv.w.read(&w), xv.invert_or_zero(), "wrong inverse for {xv:?}");
        let expected_e = if xv == zero() { zero() } else { one() };
        assert_eq!(inv.e.read(&w), expected_e, "wrong indicator for {xv:?}");
        assert!(b.verify_all_constraints(&w));
    }
}

#[test]
fn test_b_maps_differential() {
    let fwd_coeffs = b_fwd();
    let hint = b_inv(&fwd_coeffs);
    let mut b = CircuitBuilder::new();
    let x = GhashWire::witness(&mut b);
    let fwd = b_fwd_affine(&mut b, &fwd_coeffs, x);
    fwd.force_commit(&mut b);
    let inv = b_inv_affine_hinted(&mut b, &fwd_coeffs, x);
    inv.y.force_commit(&mut b);
    let mut rng = Draws::new(2);
    let mut inputs = edge_elements();
    inputs.extend((0..32).map(|_| rng.elem()));
    for xv in inputs {
        let mut w = b.new_witness_filler();
        x.populate(&mut w, xv);
        b.populate_wire_witness(&hint, &mut w).unwrap();
        assert_eq!(fwd.read(&w), forward(&fwd_coeffs, xv), "B_fwd mismatch for {xv:?}");
        assert_eq!(inv.y.read(&w), backward(&hint, xv), "B_inv mismatch for {xv:?}");
        assert!(b.verify_all_constraints(&w));
    }
}

/// The circulant products, written out.
fn mds_4_native(a: &mut [B128; 4]) {
    let sum = a.iter().fold(zero(), |acc, v| acc + *v);
    let s = *a;
    for i in 0..4 {
        a[i] = s[i] + sum + x() * (s[i] + s[(i + 1) % 4]);
    }
}

fn mds_6_native(a: &mut [B128; 6]) {
    let row = [x_inv(), x_inv(), x(), one(), x(), x() + one()];
    let s = *a;
    for i in 0..6 {
        a[i] = (0..6).fold(zero(), |acc, j| acc + row[(j + 6 - i) % 6] * s[j]);
    }
}

#[test]
fn test_mds_differential() {
    let mut b = CircuitBuilder::new();
    let in4: [GhashWire; 4] = std::array::from_fn(|_| GhashWire::witness(&mut b));
    let out4 = mds_4(&mut b, &in4);
    let in6: [GhashWire; 6] = std::array::from_fn(|_| GhashWire::witness(&mut b));
    let out6 = mds_6(&mut b, &in6);
    for o in out4.iter().chain(&out6) {
        o.force_commit(&mut b);
    }
    let hint = b_inv(&b_fwd());
    let mut rng = Draws::new(3);
    for _ in 0..32 {
        let v4: [B128; 4] = std::array::from_fn(|_| rng.elem());
        let v6: [B128; 6] = std::array::from_fn(|_| rng.elem());
        let mut n4 = v4;
        mds_4_native(&mut n4);
        let mut n6 = v6;
        mds_6_native(&mut n6);
        let mut w = b.new_witness_filler();
        for i in 0..4 {
            in4[i].populate(&mut w, v4[i]);
        }
        for i in 0..6 {
            in6[i].populate(&mut w, v6[i]);
        }
        b.populate_wire_witness(&hint, &mut w).unwrap();
        for i in 0..4 {
            assert_eq!(out4[i].read(&w), n4[i], "mds_4 mismatch at {i}");
        }
        for i in 0..6 {
            assert_eq!(out6[i].read(&w), n6[i], "mds_6 mismatch at {i}");
        }
        assert!(b.verify_all_constraints(&w));
    }
}

fn constants(m: usize) -> VisionConstants {
    let mut draws = Draws::new(m as u64 + 100);
    let round_constants =
        (0..1 + 2 * NUM_ROUNDS).map(|_| (0..m).map(|_| draws.elem()).collect()).collect();
    VisionConstants { b_fwd: b_fwd(), round_constants }
}

/// The permutation in plain field arithmetic.
fn native_permutation<const M: usize>(
    consts: &VisionConstants,
    hint: &VisionBInvHint,
    mds: fn(&mut [B128; M]),
    state: &mut [B128; M],
) {
    let add_rc = |s: &mut [B128; M], rc: &Vec<B128>| {
        for i in 0..M {
            s[i] = s[i] + rc[i];
        }
    };
    add_rc(state, &consts.round_constants[0]);
    for r in 0..NUM_ROUNDS {
        for v in state.iter_mut() {
            *v = backward(hint, v.invert_or_zero());
        }
        mds(state);
        add_rc(state, &consts.round_constants[1 + 2 * r]);
        for v in state.iter_mut() {
            *v = forward(&consts.b_fwd, v.invert_or_zero());
        }
        mds(state);
        add_rc(state, &consts.round_constants[2 + 2 * r]);
    }
}

/// Edge states: all zero, all ones, and single bits.
fn edge_states<const M: usize>() -> Vec<[B128; M]> {
    let mut states = vec![[zero(); M], [B128::new(u128::MAX); M]];
    for elem in 0..M {
        for bit in [0u32, 63, 64, 127] {
            let mut s = [zero(); M];
            s[elem] = B128::new(1u128 << bit);
            states.push(s);
        }
    }
    states
}

fn run_permutation_differential<const M: usize>(
    circuit_perm: fn(&mut CircuitBuilder, &VisionConstants, [GhashWire; M]) -> [GhashWire; M],
    mds: fn(&mut [B128; M]),
    seed: u64,
) {
    let consts = constants(M);
    let hint = b_inv(&consts.b_fwd);
    let mut b = CircuitBuilder::new();
    let input: [GhashWire; M] = std::array::from_fn(|_| GhashWire::witness(&mut b));
    let output = circuit_perm(&mut b, &consts, input);
    for o in &output {
        o.force_commit(&mut b);
    }
    let mut rng = Draws::new(seed);
    let mut states = edge_states::<M>();
    states.extend((0..100).map(|_| std::array::from_fn(|_| rng.elem())));
    for state in states {
        let mut expected = state;
        native_permutation(&consts, &hint, mds, &mut expected);
        let mut w = b.new_witness_filler();
        for i in 0..M {
            input[i].populate(&mut w, state[i]);
        }
        b.populate_wire_witness(&hint, &mut w).unwrap();
        for i in 0..M {
            assert_eq!(
                output[i].read(&w),
                expected[i],
                "Vision-{M} circuit/native mismatch at element {i} for input {state:?}"
            );
        }
        assert!(b.verify_all_constraints(&w));
    }
}

#[test]
fn test_vision4_differential() {
    run_permutation_differential::<4>(vision4_permutation, mds_4_native, 4);
}

#[test]
fn test_vision6_differential() {
    run_permutation_differential::<6>(vision6_permutation, mds_6_native, 5);
}

#[test]
fn test_mul_x_shift_differential() {
    let mut b = CircuitBuilder::new();
    let xw = GhashWire::witness(&mut b);
    let shifted = ghash_mul_x_shift(&mut b, xw);
    shifted.force_commit(&mut b);
    let via_bmul = ghash_mul_const(&mut b, xw, x());
    via_bmul.force_commit(&mut b);
    let hint = b_inv(&b_fwd());
    let mut rng = Draws::new(6);
    let mut inputs = edge_elements();
    inputs.extend((0..32).map(|_| rng.elem()));
    for xv in inputs {
        let mut w = b.new_witness_filler();
        xw.populate(&mut w, xv);
        b.populate_wire_witness(&hint, &mut w).unwrap();
        let v = xv.val();
        let expected = B128::new((v << 1) ^ if v >> 127 == 1 { 0x87 } else { 0 });
        assert_eq!(shifted.read(&w), expected, "shift-based mul_x mismatch for {xv:?}");
        assert_eq!(via_bmul.read(&w), expected, "bmul-based mul_x mismatch for {xv:?}");
        assert!(b.verify_all_constraints(&w));
    }
}

// ---------------------------------------------------------------------------------------------
// Hints may be forged.
// ---------------------------------------------------------------------------------------------

#[test]
fn test_invert_or_zero_rejects_wrong_witness() {
    let mut b = CircuitBuilder::new();
    let x = GhashWire::witness(&mut b);
    let w_claim = GhashWire::witness(&mut b);
    let _e = invert_or_zero_constrain(&mut b, x, w_claim);
    let hint = b_inv(&b_fwd());
    let mut rng = Draws::new(7);
    let run = |xv: B128, wv: B128| {
        let mut w = b.new_witness_filler();
        x.populate(&mut w, xv);
        w_claim.populate(&mut w, wv);
        b.populate_wire_witness(&hint, &mut w)
    };
    for _ in 0..16 {
        let xv = rng.elem();
        run(xv, xv.invert_or_zero()).expect("honest inverse must satisfy the gadget");
        let delta = rng.elem();
        if delta != zero() {
            run(xv, xv.invert_or_zero() + delta).expect_err("forged inverse must be rejected");
        }
        run(xv, zero()).expect_err("claiming 0 for nonzero x must be rejected");
    }
    run(zero(), zero()).expect("x=0, w=0 must satisfy the gadget");
    run(zero(), one()).expect_err("x=0 with nonzero w must be rejected");
    run(zero(), rng.elem()).expect_err("x=0 with random w must be rejected");
}

#[test]
fn test_b_inv_rejects_wrong_witness() {
    let fwd = b_fwd();
    let hint = b_inv(&fwd);
    let mut b = CircuitBuilder::new();
    let x = GhashWire::witness(&mut b);
    let y_claim = GhashWire::witness(&mut b);
    let check = b_fwd_affine(&mut b, &fwd, y_claim);
    ghash_assert_eq(&mut b, "b_inv_fwd_check", check, x);
    assert_eq!(b.equalities[0].name, "b_inv_fwd_check_lo");
    assert_eq!(b.equalities[1].name, "b_inv_fwd_check_hi");
    let mut rng = Draws::new(8);
    let run = |xv: B128, yv: B128| {
        let mut w = b.new_witness_filler();
        x.populate(&mut w, xv);
        y_claim.populate(&mut w, yv);
        b.populate_wire_witness(&hint, &mut w)
    };
    for _ in 0..16 {
        let xv = rng.elem();
        let y_true = backward(&hint, xv);
        run(xv, y_true).expect("honest B_inv output must satisfy the gadget");
        let delta = rng.elem();
        if delta != zero() {
            run(xv, y_true + delta).expect_err("forged B_inv output must be rejected");
        }
    }
}

fn flip(w: &mut WitnessFiller, target: GhashWire, flip_hi: bool) {
    let wire = if flip_hi { target.hi } else { target.lo };
    w.words[wire.index] ^= 1;
}

#[test]
fn test_hint_wire_tamper_detected() {
    let fwd = b_fwd();
    let hint = b_inv(&fwd);
    let mut b = CircuitBuilder::new();
    let x = GhashWire::witness(&mut b);
    let inv = invert_or_zero(&mut b, x);
    let binv = b_inv_affine_hinted(&mut b, &fwd, inv.w);
    let mut rng = Draws::new(9);
    let xv = rng.elem();
    let honest = || {
        let mut w = b.new_witness_filler();
        x.populate(&mut w, xv);
        b.populate_wire_witness(&hint, &mut w).unwrap();
        w
    };
    assert!(b.verify_all_constraints(&honest()));
    let targets =
        [("inverse hint w", inv.w), ("indicator e", inv.e), ("B_inv hint y", binv.y)];
    for (name, target) in targets {
        for flip_hi in [false, true] {
            let mut w = honest();
            flip(&mut w, target, flip_hi);
            assert!(
                !b.verify_all_constraints(&w),
                "tampering {name} ({}) must violate the constraint system",
                if flip_hi { "hi" } else { "lo" },
            );
        }
    }
}

#[test]
fn test_invert_compensated_tamper_detected() {
    let mut b = CircuitBuilder::new();
    let x = GhashWire::witness(&mut b);
    let inv = invert_or_zero(&mut b, x);
    let hint = b_inv(&b_fwd());
    let mut rng = Draws::new(10);
    let xv = rng.elem();
    let w_forged = rng.elem();
    assert_ne!(w_forged, xv.invert_or_zero());
    let mut w = b.new_witness_filler();
    x.populate(&mut w, xv);
    b.populate_wire_witness(&hint, &mut w).unwrap();
    // The product stays consistent with the forged inverse; the two equations still fail.
    inv.w.populate(&mut w, w_forged);
    inv.e.populate(&mut w, xv * w_forged);
    assert!(
        !b.verify_all_constraints(&w),
        "compensated inverse forgery must violate the constraint system"
    );
}

// ---------------------------------------------------------------------------------------------
// Constraint counts.
// ---------------------------------------------------------------------------------------------

fn stats_of(build: impl FnOnce(&mut CircuitBuilder)) -> (usize, usize) {
    let mut b = CircuitBuilder::new();
    build(&mut b);
    b.stats()
}

fn consume(b: &mut CircuitBuilder, outs: &[GhashWire]) {
    let mut acc = outs[0];
    for o in &outs[1..] {
        acc = ghash_mul(b, acc, *o);
    }
    if outs.len() == 1 {
        let other = GhashWire::witness(b);
        acc = ghash_mul(b, acc, other);
    }
    acc.force_commit(b);
}

fn commit_all(b: &mut CircuitBuilder, outs: &[GhashWire]) {
    for o in outs {
        o.force_commit(b);
    }
}

fn state<const M: usize>(b: &mut CircuitBuilder) -> [GhashWire; M] {
    std::array::from_fn(|_| GhashWire::witness(b))
}

#[test]
fn test_circuit_stats() {
    let fwd = b_fwd();
    let (c4, c6) = (constants(4), constants(6));
    // (name, stats, expected BMUL, expected AND)
    let committed: Vec<(&str, (usize, usize), usize, usize)> = vec![
        (
            "invert_or_zero",
            stats_of(|b| {
                let x = GhashWire::witness(b);
                invert_or_zero(b, x);
            }),
            3,
            4,
        ),
        (
            "b_fwd_affine",
            stats_of(|b| {
                let x = GhashWire::witness(b);
                b_fwd_affine(b, &fwd, x).force_commit(b);
            }),
            5,
            2,
        ),
        (
            "b_inv_affine_hinted",
            stats_of(|b| {
                let x = GhashWire::witness(b);
                b_inv_affine_hinted(b, &fwd, x);
            }),
            5,
            2,
        ),
        (
            "sbox (B_inv half)",
            stats_of(|b| {
                let x = GhashWire::witness(b);
                let inv = invert_or_zero(b, x);
                b_inv_affine_hinted(b, &fwd, inv.w).y.force_commit(b);
            }),
            8,
            6,
        ),
        (
            "sbox (B_fwd half)",
            stats_of(|b| {
                let x = GhashWire::witness(b);
                let inv = invert_or_zero(b, x);
                b_fwd_affine(b, &fwd, inv.w).force_commit(b);
            }),
            8,
            6,
        ),
        (
            "mds_4",
            stats_of(|b| {
                let a = state::<4>(b);
                let outs = mds_4(b, &a);
                commit_all(b, &outs);
            }),
            4,
            8,
        ),
        (
            "mds_6",
            stats_of(|b| {
                let a = state::<6>(b);
                let outs = mds_6(b, &a);
                commit_all(b, &outs);
            }),
            12,
            12,
        ),
        (
            "mul_x via const BMUL",
            stats_of(|b| {
                let xw = GhashWire::witness(b);
                ghash_mul_const(b, xw, x()).force_commit(b);
            }),
            1,
            0,
        ),
        (
            "mul_x via shifts",
            stats_of(|b| {
                let xw = GhashWire::witness(b);
                ghash_mul_x_shift(b, xw).force_commit(b);
            }),
            0,
            3,
        ),
        (
            "Vision-4 permutation",
            stats_of(|b| {
                let s = state::<4>(b);
                let outs = vision4_permutation(b, &c4, s);
                commit_all(b, &outs);
            }),
            576,
            328,
        ),
        (
            "Vision-6 permutation",
            stats_of(|b| {
                let s = state::<6>(b);
                let outs = vision6_permutation(b, &c6, s);
                commit_all(b, &outs);
            }),
            960,
            492,
        ),
    ];
    let consumed: Vec<(&str, (usize, usize), usize, usize)> = vec![
        (
            "b_fwd_affine (+1 bmul)",
            stats_of(|b| {
                let x = GhashWire::witness(b);
                let out = b_fwd_affine(b, &fwd, x);
                consume(b, &[out]);
            }),
            6,
            0,
        ),
        (
            "mds_4 (+3 bmul)",
            stats_of(|b| {
                let a = state::<4>(b);
                let outs = mds_4(b, &a);
                consume(b, &outs);
            }),
            7,
            0,
        ),
        (
            "mds_6 (+5 bmul)",
            stats_of(|b| {
                let a = state::<6>(b);
                let outs = mds_6(b, &a);
                consume(b, &outs);
            }),
            17,
            0,
        ),
        (
            "mul_x shifts (+1 bmul)",
            stats_of(|b| {
                let xw = GhashWire::witness(b);
                let out = ghash_mul_x_shift(b, xw);
                consume(b, &[out]);
            }),
            1,
            1,
        ),
        (
            "Vision-4 perm (+3 bmul)",
            stats_of(|b| {
                let s = state::<4>(b);
                let outs = vision4_permutation(b, &c4, s);
                consume(b, &outs);
            }),
            579,
            320,
        ),
        (
            "Vision-6 perm (+5 bmul)",
            stats_of(|b| {
                let s = state::<6>(b);
                let outs = vision6_permutation(b, &c6, s);
                consume(b, &outs);
            }),
            965,
            480,
        ),
    ];
    for (name, stat, expected_bmul, expected_and) in committed.iter().chain(&consumed) {
        assert_eq!(stat.0, *expected_bmul, "{name}: BMUL count drifted from the pinned value");
        assert_eq!(stat.1, *expected_and, "{name}: AND count drifted from the pinned value");
    }
}

#[test]
fn committing_twice_costs_once() {
    let mut b = CircuitBuilder::new();
    let a = GhashWire::witness(&mut b);
    let y = ghash_mul_x_shift(&mut b, a);
    y.force_commit(&mut b);
    y.force_commit(&mut b);
    assert_eq!(b.stats(), (0, 3));
}

#[test]
fn hints_have_names_and_shapes() {
    assert_eq!(GhashInvertHint.name(), "binius.vision.ghash_invert_or_zero");
    assert_eq!(GhashInvertHint.shape(), (2, 2));
    let hint = b_inv(&b_fwd());
    assert_eq!(hint.name(), "binius.vision.b_inv_affine");
    assert_eq!(hint.shape(), (2, 2));
    assert_eq!(GhashInvertHint.execute(0, 0), (0, 0));
    assert_eq!(GhashInvertHint.execute(1, 0), (1, 0));
    let (lo, hi) = GhashInvertHint.execute(2, 0);
    assert_eq!(words_to_ghash(lo, hi), x_inv());
}

#[test]
fn words_and_elements() {
    let v = B128::new(0x0123_4567_89ab_cdef_fedc_ba98_7654_3210);
    assert_eq!(ghash_to_words(v), (0xfedc_ba98_7654_3210, 0x0123_4567_89ab_cdef));
    assert_eq!(words_to_ghash(0xfedc_ba98_7654_3210, 0x0123_4567_89ab_cdef), v);
    assert_eq!(x() * x_inv(), one());
}
