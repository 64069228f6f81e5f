//! Powers of two, and logarithms to base two.

use vstd::prelude::*;

verus! {

/// `2^n`.
pub open spec fn exp2(n: nat) -> nat
    decreases n,
{
    if n == 0 {
        1
    } else {
        2 * exp2((n - 1) as nat)
    }
}

/// The least `k` with `2^k >= v`.
pub open spec fn log2_ceil(v: nat) -> nat
    decreases v,
{
    if v <= 1 {
        0
    } else {
        1 + log2_ceil(((v + 1) / 2) as nat)
    }
}

/// Whether `v` is a power of two.
pub open spec fn is_exp2(v: nat) -> bool {
    exists|k: nat| v == #[trigger] exp2(k)
}

/// Powers of two are positive.
pub proof fn lemma_exp2_pos(n: nat)
    ensures
        exp2(n) >= 1,
    decreases n,
{
    if n > 0 {
        lemma_exp2_pos((n - 1) as nat);
    }
}

/// `2^n` grows strictly with `n`.
pub proof fn lemma_exp2_strict(m: nat, n: nat)
    requires
        m < n,
    ensures
        exp2(m) < exp2(n),
        2 * exp2(m) <= exp2(n),
    decreases n,
{
    lemma_exp2_pos(m);
    if m + 1 < n {
        lemma_exp2_strict(m, (n - 1) as nat);
    }
}

/// `2^n` grows with `n`.
pub proof fn lemma_exp2_mono(m: nat, n: nat)
    requires
        m <= n,
    ensures
        exp2(m) <= exp2(n),
{
    if m < n {
        lemma_exp2_strict(m, n);
    }
}

/// A power of two determines its exponent.
pub proof fn lemma_exp2_injective(m: nat, n: nat)
    requires
        exp2(m) == exp2(n),
    ensures
        m == n,
{
    if m < n {
        lemma_exp2_strict(m, n);
    } else if n < m {
        lemma_exp2_strict(n, m);
    }
}

/// `2^(m + n) == 2^m * 2^n`.
pub proof fn lemma_exp2_add(m: nat, n: nat)
    ensures
        exp2(m + n) == exp2(m) * exp2(n),
    decreases n,
{
    if n == 0 {
        assert(exp2(m) * 1 == exp2(m)) by (nonlinear_arith);
    } else {
        lemma_exp2_add(m, (n - 1) as nat);
        let (a, b) = (exp2(m) as int, exp2((n - 1) as nat) as int);
        assert(2 * (a * b) == a * (2 * b)) by (nonlinear_arith);
    }
}

/// `log2_ceil(v)` is the least exponent that reaches `v`.
pub proof fn lemma_log2_ceil(v: nat)
    ensures
        v <= exp2(log2_ceil(v)),
        log2_ceil(v) > 0 ==> exp2((log2_ceil(v) - 1) as nat) < v,
    decreases v,
{
    if v > 1 {
        let h = ((v + 1) / 2) as nat;
        lemma_log2_ceil(h);
        if log2_ceil(h) > 0 {
            assert(exp2(log2_ceil(h)) == 2 * exp2((log2_ceil(h) - 1) as nat));
        }
    }
}

/// An exponent that reaches `v`, when the one below it does not, is `log2_ceil(v)`.
pub proof fn lemma_log2_ceil_unique(v: nat, k: nat)
    requires
        v <= exp2(k),
        k > 0 ==> exp2((k - 1) as nat) < v,
    ensures
        k == log2_ceil(v),
{
    lemma_log2_ceil(v);
    let l = log2_ceil(v);
    if k < l {
        lemma_exp2_mono(k, (l - 1) as nat);
    } else if l < k {
        lemma_exp2_mono(l, (k - 1) as nat);
    }
}

/// Twice a power of two is at most as large as the next larger bound: exponents below the word
/// size of `usize` stay within `usize`.
pub proof fn lemma_exp2_small()
    ensures
        exp2(0) == 1,
        exp2(1) == 2,
        exp2(2) == 4,
        exp2(3) == 8,
        exp2(5) == 32,
        exp2(6) == 64,
        exp2(7) == 128,
        exp2(8) == 256,
        exp2(9) == 512,
        exp2(11) == 2048,
        exp2(16) == 0x1_0000,
        exp2(31) == 0x8000_0000,
        exp2(32) == 0x1_0000_0000,
{
    reveal_with_fuel(exp2, 12);
    assert(exp2(16) == 0x1_0000) by {
        reveal_with_fuel(exp2, 17);
    }
    lemma_exp2_add(16, 16);
    assert(exp2(31) * 2 == exp2(32));
}

/// `2^64` and the powers next to it.
pub proof fn lemma_exp2_64()
    ensures
        exp2(62) == 0x4000_0000_0000_0000,
        exp2(63) == 0x8000_0000_0000_0000,
        exp2(64) == 0x1_0000_0000_0000_0000,
{
    lemma_exp2_small();
    lemma_exp2_add(32, 32);
    assert(exp2(64) == 2 * exp2(63));
    assert(exp2(63) == 2 * exp2(62));
}

/// Exponents of powers of two that fit in a machine word are below 64.
pub proof fn lemma_exp2_in_usize(k: nat)
    requires
        exp2(k) <= usize::MAX,
    ensures
        k < 64,
{
    lemma_exp2_64();
    if k >= 64 {
        lemma_exp2_mono(64, k);
    }
}

/// `2^n`, if it fits.
pub fn checked_exp2(n: usize) -> (r: Option<usize>)
    ensures
        match r {
            Some(v) => v == exp2(n as nat),
            None => exp2(n as nat) > usize::MAX,
        },
{
    let mut v: usize = 1;
    let mut k: usize = 0;
    while k < n
        invariant
            k <= n,
            v == exp2(k as nat),
        decreases n - k,
    {
        if v > usize::MAX / 2 {
            proof {
                lemma_exp2_mono((k + 1) as nat, n as nat);
            }
            return None;
        }
        v = v * 2;
        k = k + 1;
    }
    Some(v)
}

/// `2^n`, where it is known to fit.
pub fn exp2_usize(n: usize) -> (v: usize)
    requires
        exp2(n as nat) <= usize::MAX,
    ensures
        v == exp2(n as nat),
{
    match checked_exp2(n) {
        Some(v) => v,
        None => 0,
    }
}

/// The least `k` with `2^k >= v`.
pub fn log2_ceil_usize(v: usize) -> (k: usize)
    ensures
        k == log2_ceil(v as nat),
        k <= 64,
{
    let mut p: usize = 1;
    let mut k: usize = 0;
    while p < v
        invariant
            k < 64,
            p >= 1,
            p == exp2(k as nat),
            k > 0 ==> exp2((k - 1) as nat) < v,
        decreases 64 - k,
    {
        if p > usize::MAX / 2 {
            proof {
                assert(exp2((k + 1) as nat) == 2 * p);
                lemma_log2_ceil_unique(v as nat, (k + 1) as nat);
            }
            return k + 1;
        }
        p = p * 2;
        k = k + 1;
        proof {
            lemma_exp2_in_usize(k as nat);
        }
    }
    proof {
        lemma_log2_ceil_unique(v as nat, k as nat);
    }
    k
}

/// The exponent of a power of two; `None` for any other number.
pub fn log2_exact(v: usize) -> (r: Option<usize>)
    ensures
        match r {
            Some(k) => v == exp2(k as nat) && k == log2_ceil(v as nat) && k < 64,
            None => !is_exp2(v as nat),
        },
{
    let k: usize = log2_ceil_usize(v);
    proof {
        lemma_log2_ceil(v as nat);
        if is_exp2(v as nat) {
            let j = choose|j: nat| v == #[trigger] exp2(j);
            if j > 0 {
                lemma_exp2_strict((j - 1) as nat, j);
            }
            lemma_log2_ceil_unique(v as nat, j);
        }
        if k == 64 {
            lemma_exp2_64();
        }
    }
    match checked_exp2(k) {
        Some(p) => if p == v {
            Some(k)
        } else {
            None
        },
        None => None,
    }
}

/// The least power of two that is at least `v`, if it fits.
pub fn checked_next_power_of_two(v: usize) -> (r: Option<usize>)
    ensures
        match r {
            Some(p) => p == exp2(log2_ceil(v as nat)),
            None => exp2(log2_ceil(v as nat)) > usize::MAX,
        },
{
    checked_exp2(log2_ceil_usize(v))
}

/// The powers of two: one is, zero is not, doubling makes no difference, and no other odd number is.
pub proof fn law_powers_of_two(v: nat)
    ensures
        is_exp2(1),
        !is_exp2(0),
        is_exp2(2 * v) <==> is_exp2(v),
        v > 0 ==> !is_exp2(2 * v + 1),
        is_exp2(v) <==> v == exp2(log2_ceil(v)),
{
    assert(exp2(0) == 1);
    assert forall|k: nat| #[trigger] exp2(k) != 0 by {
        lemma_exp2_pos(k);
    }
    if is_exp2(v) {
        let k = choose|k: nat| v == #[trigger] exp2(k);
        assert(exp2(k + 1) == 2 * exp2(k));
        lemma_log2_ceil(v);
        if log2_ceil(v) < k {
            lemma_exp2_strict(log2_ceil(v), k);
        } else if k < log2_ceil(v) {
            lemma_exp2_mono(k, (log2_ceil(v) - 1) as nat);
        }
    }
    if is_exp2(2 * v) {
        let k = choose|k: nat| 2 * v == #[trigger] exp2(k);
        assert(k > 0);
        assert(v == exp2((k - 1) as nat));
    }
    if v > 0 && is_exp2(2 * v + 1) {
        let k = choose|k: nat| 2 * v + 1 == #[trigger] exp2(k);
        assert(k > 0);
        assert(exp2(k) == 2 * exp2((k - 1) as nat));
    }
}

/// The logarithm grows where a power of two is passed: `2^k` is the largest number with logarithm `k`.
pub proof fn law_log2_steps(k: nat)
    ensures
        log2_ceil(exp2(k)) == k,
        log2_ceil(exp2(k) + 1) == k + 1,
{
    lemma_exp2_pos(k);
    assert(exp2(k + 1) == 2 * exp2(k));
    lemma_log2_ceil_unique(exp2(k) + 1, k + 1);
    if k > 0 {
        lemma_exp2_pos((k - 1) as nat);
        lemma_log2_ceil_unique(exp2(k), k);
    }
}

} // verus!
