//! Finite sums and products of field elements.

use crate::field::element::{one, zero, B128};
use crate::field::ring::{
    group_units, law_add_associates, law_distributes, law_mul_associates, lemma_add_exchange,
    lemma_mul_exchange,
};
use vstd::prelude::*;

verus! {

/// `f(0) + f(1) + ... + f(n - 1)`.
pub open spec fn sum(f: spec_fn(int) -> B128, n: nat) -> B128
    decreases n,
{
    if n == 0 {
        zero()
    } else {
        sum(f, (n - 1) as nat) + f(n - 1)
    }
}

/// `f(0) * f(1) * ... * f(n - 1)`.
pub open spec fn product(f: spec_fn(int) -> B128, n: nat) -> B128
    decreases n,
{
    if n == 0 {
        one()
    } else {
        product(f, (n - 1) as nat) * f(n - 1)
    }
}

/// `x` to the power `n`.
pub open spec fn power(x: B128, n: nat) -> B128
    decreases n,
{
    if n == 0 {
        one()
    } else {
        power(x, (n - 1) as nat) * x
    }
}

/// A sum depends only on the summands.
pub proof fn lemma_sum_ext(f: spec_fn(int) -> B128, g: spec_fn(int) -> B128, n: nat)
    requires
        forall|i: int| 0 <= i < n ==> #[trigger] f(i) == g(i),
    ensures
        sum(f, n) == sum(g, n),
    decreases n,
{
    if n > 0 {
        lemma_sum_ext(f, g, (n - 1) as nat);
        assert(f(n - 1) == g(n - 1));
    }
}

/// A product depends only on the factors.
pub proof fn lemma_product_ext(f: spec_fn(int) -> B128, g: spec_fn(int) -> B128, n: nat)
    requires
        forall|i: int| 0 <= i < n ==> #[trigger] f(i) == g(i),
    ensures
        product(f, n) == product(g, n),
    decreases n,
{
    if n > 0 {
        lemma_product_ext(f, g, (n - 1) as nat);
        assert(f(n - 1) == g(n - 1));
    }
}

/// A sum of zeros is zero.
pub proof fn lemma_sum_zeros(f: spec_fn(int) -> B128, n: nat)
    requires
        forall|i: int| 0 <= i < n ==> #[trigger] f(i) == zero(),
    ensures
        sum(f, n) == zero(),
    decreases n,
{
    broadcast use group_units;

    if n > 0 {
        lemma_sum_zeros(f, (n - 1) as nat);
        assert(f(n - 1) == zero());
    }
}

/// Sums are added termwise.
pub proof fn lemma_sum_add(
    f: spec_fn(int) -> B128,
    g: spec_fn(int) -> B128,
    h: spec_fn(int) -> B128,
    n: nat,
)
    requires
        forall|i: int| 0 <= i < n ==> #[trigger] h(i) == f(i) + g(i),
    ensures
        sum(h, n) == sum(f, n) + sum(g, n),
    decreases n,
{
    broadcast use group_units;

    if n > 0 {
        let m = (n - 1) as nat;
        lemma_sum_add(f, g, h, m);
        assert(h(n - 1) == f(n - 1) + g(n - 1));
        lemma_add_exchange(sum(f, m), sum(g, m), f(n - 1), g(n - 1));
    }
}

/// A common factor may be taken out of a sum.
pub proof fn lemma_sum_scale(c: B128, f: spec_fn(int) -> B128, h: spec_fn(int) -> B128, n: nat)
    requires
        forall|i: int| 0 <= i < n ==> #[trigger] h(i) == c * f(i),
    ensures
        sum(h, n) == c * sum(f, n),
    decreases n,
{
    broadcast use group_units;

    if n > 0 {
        let m = (n - 1) as nat;
        lemma_sum_scale(c, f, h, m);
        assert(h(n - 1) == c * f(n - 1));
        law_distributes(c, sum(f, m), f(n - 1));
    }
}

/// A sum is the sum of its first `m` and its last `n` summands.
pub proof fn lemma_sum_split(
    f: spec_fn(int) -> B128,
    g: spec_fn(int) -> B128,
    m: nat,
    n: nat,
)
    requires
        forall|i: int| 0 <= i < n ==> #[trigger] g(i) == f(m + i),
    ensures
        sum(f, m + n) == sum(f, m) + sum(g, n),
    decreases n,
{
    broadcast use group_units;

    if n > 0 {
        lemma_sum_split(f, g, m, (n - 1) as nat);
        assert(g(n - 1) == f(m + n - 1));
        law_add_associates(sum(f, m), sum(g, (n - 1) as nat), g(n - 1));
    }
}

/// A sum with at most one nonzero summand.
pub proof fn lemma_sum_single(f: spec_fn(int) -> B128, n: nat, k: int)
    requires
        0 <= k < n,
        forall|i: int| 0 <= i < n && i != k ==> #[trigger] f(i) == zero(),
    ensures
        sum(f, n) == f(k),
    decreases n,
{
    broadcast use group_units;

    if k == n - 1 {
        lemma_sum_zeros(f, (n - 1) as nat);
    } else {
        lemma_sum_single(f, (n - 1) as nat, k);
        assert(f(n - 1) == zero());
    }
}

/// The order of a double sum may be exchanged.
pub proof fn lemma_sum_swap(
    f: spec_fn(int, int) -> B128,
    m: nat,
    n: nat,
)
    ensures
        sum(|i: int| sum(|j: int| f(i, j), n), m) == sum(|j: int| sum(|i: int| f(i, j), m), n),
    decreases m,
{
    broadcast use group_units;

    let rows = |i: int| sum(|j: int| f(i, j), n);
    let cols = |j: int| sum(|i: int| f(i, j), m);
    if m == 0 {
        assert forall|j: int| 0 <= j < n implies #[trigger] cols(j) == zero() by {}
        lemma_sum_zeros(cols, n);
    } else {
        let m1 = (m - 1) as nat;
        lemma_sum_swap(f, m1, n);
        let cols1 = |j: int| sum(|i: int| f(i, j), m1);
        let last = |j: int| f(m1 as int, j);
        assert forall|j: int| 0 <= j < n implies #[trigger] cols(j) == cols1(j) + last(j) by {
            let col = |i: int| f(i, j);
            assert(sum(col, m) == sum(col, m1) + col(m1 as int));
        }
        lemma_sum_add(cols1, last, cols, n);
        assert(rows(m1 as int) == sum(last, n)) by {
            lemma_sum_ext(|j: int| f(m1 as int, j), last, n);
        }
    }
}

/// The product of termwise products.
pub proof fn lemma_product_mul(
    f: spec_fn(int) -> B128,
    g: spec_fn(int) -> B128,
    h: spec_fn(int) -> B128,
    n: nat,
)
    requires
        forall|i: int| 0 <= i < n ==> #[trigger] h(i) == f(i) * g(i),
    ensures
        product(h, n) == product(f, n) * product(g, n),
    decreases n,
{
    broadcast use group_units;

    if n > 0 {
        let m = (n - 1) as nat;
        lemma_product_mul(f, g, h, m);
        assert(h(n - 1) == f(n - 1) * g(n - 1));
        lemma_mul_exchange(product(f, m), product(g, m), f(n - 1), g(n - 1));
    }
}

/// A summand may be added at either end.
pub proof fn lemma_sum_front(f: spec_fn(int) -> B128, g: spec_fn(int) -> B128, n: nat)
    requires
        forall|i: int| 0 <= i < n ==> #[trigger] g(i) == f(i + 1),
    ensures
        sum(f, n + 1) == f(0) + sum(g, n),
    decreases n,
{
    broadcast use group_units;

    if n > 0 {
        lemma_sum_front(f, g, (n - 1) as nat);
        assert(g(n - 1) == f(n as int));
        law_add_associates(f(0), sum(g, (n - 1) as nat), g(n - 1));
    } else {
        assert(sum(f, 1) == sum(f, 0) + f(0));
    }
}

/// Powers multiply by adding their exponents, and the first power is the element itself.
pub proof fn law_power_add(x: B128, m: nat, n: nat)
    ensures
        power(x, m + n) == power(x, m) * power(x, n),
        power(x, 1) == x,
    decreases n,
{
    broadcast use group_units;

    assert(power(x, 1) == power(x, 0) * x);
    if n > 0 {
        law_power_add(x, m, (n - 1) as nat);
        law_mul_associates(power(x, m), power(x, (n - 1) as nat), x);
    }
}

/// Adding to one summand adds to the sum.
pub proof fn lemma_sum_update(
    f: spec_fn(int) -> B128,
    g: spec_fn(int) -> B128,
    n: nat,
    k: int,
    d: B128,
)
    requires
        0 <= k < n,
        g(k) == f(k) + d,
        forall|i: int| 0 <= i < n && i != k ==> #[trigger] g(i) == f(i),
    ensures
        sum(g, n) == sum(f, n) + d,
{
    broadcast use group_units;

    let h = |i: int|
        if i == k {
            d
        } else {
            zero()
        };
    assert forall|i: int| 0 <= i < n implies #[trigger] g(i) == f(i) + h(i) by {}
    lemma_sum_add(f, h, g, n);
    lemma_sum_single(h, n, k);
}

} // verus!
