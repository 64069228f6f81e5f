//! Fractional addition: a tree that adds up `2^k` fractions, and the prover that walks it from the
//! root to the leaves.
//!
//! A layer holds its numerators and denominators as four halves. Two fractions that differ in the
//! top variable are added:
//!
//! ```text
//! num[j] = num_lo[j] * den_hi[j] + num_hi[j] * den_lo[j]
//! den[j] = den_lo[j] * den_hi[j]
//! ```

use crate::field::element::{one, zero, B128};
use crate::field::inverse::{inv, law_inverse, law_inverse_of_product, law_no_zero_divisors};
use crate::field::ring::{
    group_units, law_distributes_right, law_mul_associates, law_mul_commutes, lemma_mul_exchange,
};
use crate::field::sums::{
    lemma_product_ext, lemma_product_mul, lemma_sum_add, lemma_sum_ext, lemma_sum_split, product,
    sum,
};
use crate::multilinear::exp2::{exp2, lemma_exp2_injective, log2_exact};
use crate::multilinear::mle::{
    extrapolate_line, law_mle_constant, law_mle_line, line, lower, mle, upper,
};
use vstd::prelude::*;

verus! {

/// One layer of the tree, as the four halves that its reduction pairs up.
pub struct FracLayer {
    pub num_lo: Vec<B128>,
    pub num_hi: Vec<B128>,
    pub den_lo: Vec<B128>,
    pub den_hi: Vec<B128>,
}

/// The numerators of the next layer.
pub open spec fn next_num(num: Seq<B128>, den: Seq<B128>) -> Seq<B128> {
    Seq::new(
        (num.len() / 2) as nat,
        |j: int| lower(num)[j] * upper(den)[j] + upper(num)[j] * lower(den)[j],
    )
}

/// The denominators of the next layer.
pub open spec fn next_den(den: Seq<B128>) -> Seq<B128> {
    Seq::new((den.len() / 2) as nat, |j: int| lower(den)[j] * upper(den)[j])
}

/// The layer `k` steps above a leaf layer: numerators and denominators.
pub open spec fn layer_above(num: Seq<B128>, den: Seq<B128>, k: nat) -> (Seq<B128>, Seq<B128>)
    decreases k,
{
    if k == 0 {
        (num, den)
    } else {
        let (n, d) = layer_above(num, den, (k - 1) as nat);
        (next_num(n, d), next_den(d))
    }
}

/// The fraction at the root of the tree over `2^k` leaves.
pub open spec fn tree_root(num: Seq<B128>, den: Seq<B128>, k: nat) -> (B128, B128) {
    let (n, d) = layer_above(num, den, k);
    (n[0], d[0])
}

/// The sum of the first `n` fractions.
pub open spec fn fraction_sum(num: Seq<B128>, den: Seq<B128>, n: nat) -> B128 {
    sum(|i: int| num[i] * inv(den[i]), n)
}

/// The product of the first `n` entries.
pub open spec fn entries_product(den: Seq<B128>, n: nat) -> B128 {
    product(|i: int| den[i], n)
}

/// The entries, with one in place of the entry of index `i`.
pub open spec fn others(den: Seq<B128>, i: int) -> spec_fn(int) -> B128 {
    |j: int|
        if j == i {
            one()
        } else {
            den[j]
        }
}

/// The product of the first `n` entries without the one of index `i`.
pub open spec fn others_product(den: Seq<B128>, i: int, n: nat) -> B128 {
    product(others(den, i), n)
}

/// The numerator of the sum of the first `n` fractions over the product of their denominators: the
/// sum of each numerator times the other denominators.
pub open spec fn cross_sum(num: Seq<B128>, den: Seq<B128>, n: nat) -> B128 {
    sum(|i: int| num[i] * others_product(den, i, n), n)
}

/// No entry is zero.
pub open spec fn all_nonzero(den: Seq<B128>) -> bool {
    forall|i: int| 0 <= i < den.len() ==> #[trigger] den[i] != zero()
}

impl FracLayer {
    /// The four halves have `2^h` entries each.
    pub open spec fn wf(self, h: nat) -> bool {
        &&& self.num_lo@.len() == exp2(h)
        &&& self.num_hi@.len() == exp2(h)
        &&& self.den_lo@.len() == exp2(h)
        &&& self.den_hi@.len() == exp2(h)
    }

    /// All numerators.
    pub open spec fn num(self) -> Seq<B128> {
        self.num_lo@ + self.num_hi@
    }

    /// All denominators.
    pub open spec fn den(self) -> Seq<B128> {
        self.den_lo@ + self.den_hi@
    }

    /// log2 of the number of fractions.
    pub fn log_len(&self) -> (r: usize)
        requires
            exists|h: nat| self.wf(h),
        ensures
            r >= 1,
            r <= 64,
            self.wf((r - 1) as nat),
    {
        let ghost h = choose|h: nat| self.wf(h);
        match log2_exact(self.num_lo.len()) {
            Some(k) => {
                proof {
                    lemma_exp2_injective(k as nat, h);
                }
                k + 1
            },
            None => 1,
        }
    }

    /// The next layer, half as long.
    fn reduce(&self) -> (r: FracLayer)
        requires
            exists|h: nat| h >= 1 && #[trigger] self.wf(h),
        ensures
            forall|h: nat| #[trigger] self.wf(h) ==> h >= 1 && r.wf((h - 1) as nat),
            r.num() == next_num(self.num(), self.den()),
            r.den() == next_den(self.den()),
    {
        let ghost h = choose|h: nat| h >= 1 && #[trigger] self.wf(h);
        let n: usize = self.num_lo.len();
        let q: usize = n / 2;
        proof {
            assert(exp2(h) == 2 * exp2((h - 1) as nat));
            assert(lower(self.num()) =~= self.num_lo@);
            assert(upper(self.num()) =~= self.num_hi@);
            assert(lower(self.den()) =~= self.den_lo@);
            assert(upper(self.den()) =~= self.den_hi@);
        }
        let num_lo = self.add_range(0, q);
        let num_hi = self.add_range(q, n);
        let den_lo = self.mul_range(0, q);
        let den_hi = self.mul_range(q, n);
        let r = FracLayer { num_lo, num_hi, den_lo, den_hi };
        proof {
            assert(r.num() =~= next_num(self.num(), self.den()));
            assert(r.den() =~= next_den(self.den()));
            assert forall|g: nat| #[trigger] self.wf(g) implies g >= 1 && r.wf((g - 1) as nat) by {
                lemma_exp2_injective(g, h);
            }
        }
        r
    }

    /// The numerators of the next layer from index `from` to `to`.
    fn add_range(&self, from: usize, to: usize) -> (v: Vec<B128>)
        requires
            from <= to <= self.num_lo@.len(),
            self.num_hi@.len() == self.num_lo@.len(),
            self.den_lo@.len() == self.num_lo@.len(),
            self.den_hi@.len() == self.num_lo@.len(),
        ensures
            v@ == Seq::new(
                (to - from) as nat,
                |j: int|
                    self.num_lo@[from + j] * self.den_hi@[from + j] + self.num_hi@[from + j]
                        * self.den_lo@[from + j],
            ),
    {
        let mut v: Vec<B128> = Vec::new();
        let mut i: usize = from;
        while i < to
            invariant
                from <= i <= to <= self.num_lo@.len(),
                self.num_hi@.len() == self.num_lo@.len(),
                self.den_lo@.len() == self.num_lo@.len(),
                self.den_hi@.len() == self.num_lo@.len(),
                v@.len() == i - from,
                forall|j: int|
                    0 <= j < i - from ==> #[trigger] v@[j] == self.num_lo@[from + j]
                        * self.den_hi@[from + j] + self.num_hi@[from + j] * self.den_lo@[from + j],
            decreases to - i,
        {
            v.push(self.num_lo[i] * self.den_hi[i] + self.num_hi[i] * self.den_lo[i]);
            i = i + 1;
        }
        v
    }

    /// The denominators of the next layer from index `from` to `to`.
    fn mul_range(&self, from: usize, to: usize) -> (v: Vec<B128>)
        requires
            from <= to <= self.den_lo@.len(),
            self.den_hi@.len() == self.den_lo@.len(),
        ensures
            v@ == Seq::new(
                (to - from) as nat,
                |j: int| self.den_lo@[from + j] * self.den_hi@[from + j],
            ),
    {
        let mut v: Vec<B128> = Vec::new();
        let mut i: usize = from;
        while i < to
            invariant
                from <= i <= to <= self.den_lo@.len(),
                self.den_hi@.len() == self.den_lo@.len(),
                v@.len() == i - from,
                forall|j: int|
                    0 <= j < i - from ==> #[trigger] v@[j] == self.den_lo@[from + j]
                        * self.den_hi@[from + j],
            decreases to - i,
        {
            v.push(self.den_lo[i] * self.den_hi[i]);
            i = i + 1;
        }
        v
    }

    /// The root fraction of a layer of two.
    fn root(&self) -> (r: (B128, B128))
        requires
            self.wf(0),
        ensures
            r.0 == next_num(self.num(), self.den())[0],
            r.1 == next_den(self.den())[0],
    {
        let (a0, b0, a1, b1) = (self.num_lo[0], self.den_lo[0], self.num_hi[0], self.den_hi[0]);
        proof {
            assert(lower(self.num()) =~= self.num_lo@);
            assert(upper(self.num()) =~= self.num_hi@);
            assert(lower(self.den()) =~= self.den_lo@);
            assert(upper(self.den()) =~= self.den_hi@);
        }
        (a0 * b1 + a1 * b0, b0 * b1)
    }
}

/// The tree of a fractional sum: the leaf layer first, each next layer half as long.
pub struct FastFracAddProver {
    pub layers: Vec<FracLayer>,
}

impl FastFracAddProver {
    /// The layers above the given leaves: layer `i` of `k`.
    pub open spec fn wf(self, num: Seq<B128>, den: Seq<B128>, k: nat) -> bool {
        &&& num.len() == exp2(k)
        &&& den.len() == exp2(k)
        &&& self.layers@.len() <= k
        &&& forall|i: int|
            0 <= i < self.layers@.len() ==> {
                let layer = #[trigger] self.layers@[i];
                &&& layer.wf((k - 1 - i) as nat)
                &&& layer.num() == layer_above(num, den, i as nat).0
                &&& layer.den() == layer_above(num, den, i as nat).1
            }
    }

    /// Builds the tree from its leaf layer, and returns the root fraction.
    pub fn new(leaf: FracLayer) -> (r: (Self, (B128, B128)))
        requires
            exists|h: nat| leaf.wf(h),
        ensures
            forall|h: nat| #[trigger]
                leaf.wf(h) ==> {
                    let k = h + 1;
                    &&& r.0.wf(leaf.num(), leaf.den(), k)
                    &&& r.0.layers@.len() == k
                    &&& r.1 == tree_root(leaf.num(), leaf.den(), k)
                },
    {
        let ghost h = choose|h: nat| leaf.wf(h);
        let ghost k = h + 1;
        let ghost (num, den) = (leaf.num(), leaf.den());
        let mut n: usize = leaf.log_len();
        proof {
            lemma_exp2_injective(h, (n - 1) as nat);
            assert(exp2(k) == 2 * exp2(h));
        }
        let mut layers: Vec<FracLayer> = Vec::new();
        layers.push(leaf);
        while n > 1
            invariant
                1 <= n <= k,
                layers@.len() == k - n + 1,
                num.len() == exp2(k),
                den.len() == exp2(k),
                forall|i: int|
                    0 <= i < layers@.len() ==> {
                        let layer = #[trigger] layers@[i];
                        &&& layer.wf((k - 1 - i) as nat)
                        &&& layer.num() == layer_above(num, den, i as nat).0
                        &&& layer.den() == layer_above(num, den, i as nat).1
                    },
            decreases n,
        {
            let ghost last = layers@[layers@.len() - 1];
            assert(last.wf((n - 1) as nat));
            let next = layers[layers.len() - 1].reduce();
            layers.push(next);
            n = n - 1;
        }
        let ghost last = layers@[layers@.len() - 1];
        assert(last.wf(0));
        let root = layers[layers.len() - 1].root();
        proof {
            assert(layers@.len() == k);
            let (a, b) = layer_above(num, den, (k - 1) as nat);
            assert(last.num() == a && last.den() == b);
            assert forall|g: nat| #[trigger] leaf.wf(g) implies g == h by {
                lemma_exp2_injective(g, h);
            }
        }
        (FastFracAddProver { layers }, root)
    }
}

/// The lengths of the layers of a tree.
pub proof fn lemma_layer_lengths(num: Seq<B128>, den: Seq<B128>, k: nat, j: nat)
    requires
        num.len() == exp2(k),
        den.len() == exp2(k),
        j <= k,
    ensures
        layer_above(num, den, j).0.len() == exp2((k - j) as nat),
        layer_above(num, den, j).1.len() == exp2((k - j) as nat),
    decreases j,
{
    if j > 0 {
        lemma_layer_lengths(num, den, k, (j - 1) as nat);
        assert(exp2((k - j + 1) as nat) == 2 * exp2((k - j) as nat));
    }
}

/// One reduction keeps the sum of the fractions and the product of the denominators.
proof fn lemma_reduce_keeps(num: Seq<B128>, den: Seq<B128>, h: nat)
    requires
        num.len() == exp2(h + 1),
        den.len() == exp2(h + 1),
    ensures
        entries_product(next_den(den), exp2(h)) == entries_product(den, exp2(h + 1)),
        all_nonzero(den) ==> all_nonzero(next_den(den)),
        all_nonzero(den) ==> fraction_sum(next_num(num, den), next_den(den), exp2(h))
            == fraction_sum(num, den, exp2(h + 1)),
{
    let n = exp2(h);
    assert(exp2(h + 1) == 2 * n);
    let (nl, nh, dl, dh) = (lower(num), upper(num), lower(den), upper(den));
    let (nn, dd) = (next_num(num, den), next_den(den));
    // Products.
    let f = |i: int| den[i];
    let fl = |i: int| dl[i];
    let fh = |i: int| dh[i];
    let fd = |i: int| dd[i];
    lemma_product_split(f, fh, n, n);
    lemma_product_ext(f, fl, n);
    lemma_product_mul(fl, fh, fd, n);
    if all_nonzero(den) {
        assert forall|i: int| 0 <= i < dd.len() implies #[trigger] dd[i] != zero() by {
            assert(den[i] != zero() && den[n + i] != zero());
            law_no_zero_divisors(dl[i], dh[i]);
        }
        let g = |i: int| num[i] * inv(den[i]);
        let gl = |i: int| nl[i] * inv(dl[i]);
        let gh = |i: int| nh[i] * inv(dh[i]);
        let gd = |i: int| nn[i] * inv(dd[i]);
        lemma_sum_split(g, gh, n, n);
        lemma_sum_ext(g, gl, n);
        assert forall|i: int| 0 <= i < n implies #[trigger] gd(i) == gl(i) + gh(i) by {
            assert(den[i] != zero() && den[n + i] != zero());
            lemma_add_fractions(nl[i], dl[i], nh[i], dh[i]);
        }
        lemma_sum_add(gl, gh, gd, n);
    }
}

/// A product with a factor zero is zero.
proof fn lemma_product_zero(f: spec_fn(int) -> B128, n: nat, i: int)
    requires
        0 <= i < n,
        f(i) == zero(),
    ensures
        product(f, n) == zero(),
    decreases n,
{
    broadcast use group_units;

    if i < n - 1 {
        lemma_product_zero(f, (n - 1) as nat, i);
    }
}

/// A product is one of its factors times the others.
proof fn lemma_product_without(d: Seq<B128>, i: int, n: nat)
    requires
        0 <= i < n,
    ensures
        entries_product(d, n) == d[i] * others_product(d, i, n),
    decreases n,
{
    broadcast use group_units;

    let m = (n - 1) as nat;
    let all = |j: int| d[j];
    let rest = others(d, i);
    if i == m {
        lemma_product_ext(all, rest, m);
        law_mul_commutes(product(all, m), d[i]);
    } else {
        lemma_product_without(d, i, m);
        law_mul_associates(d[i], product(rest, m), d[m as int]);
    }
}

/// The other denominators of the next layer, and those of the two halves.
proof fn lemma_others_split(den: Seq<B128>, i: int, n: nat)
    requires
        den.len() == 2 * n,
        0 <= i < n,
    ensures
        others_product(next_den(den), i, n) == others_product(lower(den), i, n) * others_product(
            upper(den),
            i,
            n,
        ),
        others_product(den, i, 2 * n) == others_product(lower(den), i, n) * entries_product(
            upper(den),
            n,
        ),
        others_product(den, n + i, 2 * n) == entries_product(lower(den), n) * others_product(
            upper(den),
            i,
            n,
        ),
{
    broadcast use group_units;

    let (dl, dh, dd) = (lower(den), upper(den), next_den(den));
    let ol = others(dl, i);
    let oh = others(dh, i);
    let od = others(dd, i);
    lemma_product_mul(ol, oh, od, n);
    let low = others(den, i);
    lemma_product_split(low, |j: int| dh[j], n, n);
    lemma_product_ext(low, ol, n);
    let high = others(den, n + i);
    lemma_product_split(high, oh, n, n);
    lemma_product_ext(high, |j: int| dl[j], n);
}

/// One reduction keeps the sum of each numerator times the other denominators.
proof fn lemma_reduce_keeps_cross(num: Seq<B128>, den: Seq<B128>, h: nat)
    requires
        num.len() == exp2(h + 1),
        den.len() == exp2(h + 1),
    ensures
        cross_sum(next_num(num, den), next_den(den), exp2(h)) == cross_sum(num, den, exp2(h + 1)),
{
    let n = exp2(h);
    assert(exp2(h + 1) == 2 * n);
    let (nl, nh, dl, dh) = (lower(num), upper(num), lower(den), upper(den));
    let (nn, dd) = (next_num(num, den), next_den(den));
    let g = |i: int| num[i] * others_product(den, i, 2 * n);
    let gl = |i: int| num[i] * others_product(den, i, 2 * n);
    let gh = |i: int| num[n + i] * others_product(den, n + i, 2 * n);
    let gd = |i: int| nn[i] * others_product(dd, i, n);
    assert forall|i: int| 0 <= i < n implies #[trigger] gd(i) == gl(i) + gh(i) by {
        lemma_others_split(den, i, n);
        lemma_product_without(dl, i, n);
        lemma_product_without(dh, i, n);
        let (ol, oh) = (others_product(dl, i, n), others_product(dh, i, n));
        law_distributes_right(nl[i] * dh[i], nh[i] * dl[i], ol * oh);
        // (a d)(ol oh) == a (ol (d oh))
        lemma_mul_exchange(nl[i], dh[i], ol, oh);
        law_mul_associates(nl[i], ol, dh[i] * oh);
        // (c b)(ol oh) == (c b)(oh ol) == c ((b ol) oh)
        law_mul_commutes(ol, oh);
        lemma_mul_exchange(nh[i], dl[i], oh, ol);
        law_mul_associates(nh[i], oh, dl[i] * ol);
        law_mul_commutes(oh, dl[i] * ol);
    }
    lemma_sum_add(gl, gh, gd, n);
    lemma_sum_ext(g, gl, n);
    lemma_sum_split(g, gh, n, n);
}

/// A product is the product of its first `m` and its last `n` factors.
pub proof fn lemma_product_split(
    f: spec_fn(int) -> B128,
    g: spec_fn(int) -> B128,
    m: nat,
    n: nat,
)
    requires
        forall|i: int| 0 <= i < n ==> #[trigger] g(i) == f(m + i),
    ensures
        product(f, m + n) == product(f, m) * product(g, n),
    decreases n,
{
    broadcast use group_units;

    if n > 0 {
        lemma_product_split(f, g, m, (n - 1) as nat);
        assert(g(n - 1) == f(m + n - 1));
        law_mul_associates(product(f, m), product(g, (n - 1) as nat), g(n - 1));
    }
}

/// `(a d + c b) / (b d) == a / b + c / d`.
pub proof fn lemma_add_fractions(a: B128, b: B128, c: B128, d: B128)
    requires
        b != zero(),
        d != zero(),
    ensures
        (a * d + c * b) * inv(b * d) == a * inv(b) + c * inv(d),
{
    broadcast use group_units;

    law_inverse_of_product(b, d);
    law_inverse(b);
    law_inverse(d);
    let (ib, id) = (inv(b), inv(d));
    law_distributes_right(a * d, c * b, ib * id);
    // (a d)(ib id) == (a ib)(d id)
    lemma_mul_exchange(a, d, ib, id);
    // (c b)(ib id) == (c b)(id ib) == (c id)(b ib)
    law_mul_commutes(ib, id);
    lemma_mul_exchange(c, b, id, ib);
}

/// The root denominator is the product of all denominators, and the root numerator the sum of each
/// numerator times the other denominators. The root denominator is zero when one of the denominators
/// is, and only then; otherwise the root fraction is the sum of all fractions.
pub proof fn law_tree_root(num: Seq<B128>, den: Seq<B128>, k: nat)
    requires
        num.len() == exp2(k),
        den.len() == exp2(k),
    ensures
        tree_root(num, den, k).1 == entries_product(den, exp2(k)),
        tree_root(num, den, k).0 == cross_sum(num, den, exp2(k)),
        (tree_root(num, den, k).1 == zero()) == !all_nonzero(den),
        all_nonzero(den) ==> tree_root(num, den, k).0 * inv(tree_root(num, den, k).1)
            == fraction_sum(num, den, exp2(k)),
{
    broadcast use group_units;

    lemma_tree_prefix(num, den, k, k);
    let (n, d) = layer_above(num, den, k);
    lemma_layer_lengths(num, den, k, k);
    assert(exp2(0) == 1);
    let f = |i: int| d[i];
    assert(product(f, 1) == product(f, 0) * f(0));
    let c = |i: int| n[i] * others_product(d, i, 1);
    assert(sum(c, 1) == sum(c, 0) + c(0));
    let o = others(d, 0);
    assert(product(o, 1) == product(o, 0) * o(0));
    if !all_nonzero(den) {
        let i = choose|i: int| 0 <= i < den.len() && #[trigger] den[i] == zero();
        lemma_product_zero(|i: int| den[i], exp2(k), i);
    } else {
        assert(d[0] != zero());
        let g = |i: int| n[i] * inv(d[i]);
        assert(sum(g, 1) == sum(g, 0) + g(0));
    }
}

proof fn lemma_tree_prefix(num: Seq<B128>, den: Seq<B128>, k: nat, j: nat)
    requires
        num.len() == exp2(k),
        den.len() == exp2(k),
        j <= k,
    ensures
        ({
            let (n, d) = layer_above(num, den, j);
            let len = exp2((k - j) as nat);
            &&& entries_product(d, len) == entries_product(den, exp2(k))
            &&& cross_sum(n, d, len) == cross_sum(num, den, exp2(k))
            &&& all_nonzero(den) ==> all_nonzero(d)
            &&& all_nonzero(den) ==> fraction_sum(n, d, len) == fraction_sum(num, den, exp2(k))
        }),
    decreases j,
{
    if j > 0 {
        lemma_tree_prefix(num, den, k, (j - 1) as nat);
        lemma_layer_lengths(num, den, k, (j - 1) as nat);
        let (n, d) = layer_above(num, den, (j - 1) as nat);
        lemma_reduce_keeps(n, d, (k - j) as nat);
        lemma_reduce_keeps_cross(n, d, (k - j) as nat);
    }
}

/// A root fraction of value zero has numerator zero.
pub proof fn law_tree_root_zero(num: Seq<B128>, den: Seq<B128>, k: nat)
    requires
        num.len() == exp2(k),
        den.len() == exp2(k),
        all_nonzero(den),
    ensures
        (tree_root(num, den, k).0 == zero()) == (fraction_sum(num, den, exp2(k)) == zero()),
{
    law_tree_root(num, den, k);
    let (n, d) = tree_root(num, den, k);
    law_inverse(d);
    law_no_zero_divisors(n, inv(d));
}

/// A claim on a layer: its numerators and its denominators take these values at the point.
pub struct FracClaim {
    pub num_eval: B128,
    pub den_eval: B128,
    pub point: Vec<B128>,
}

/// What a walk through the tree asks for next.
pub enum FracAction {
    /// Run the check that reduces a claim on the layer above to the four halves of this layer.
    ProveLayer { layer: FracLayer, claim: FracClaim },
    /// Draw a challenge.
    Sample,
    /// Nothing: this is the claim on the leaves.
    Finish { claim: FracClaim },
}

/// A layer that was proved: the point, and the evaluations of its halves there, numerators low and
/// high, denominators low and high.
pub struct ProvedLayer {
    pub challenges: Vec<B128>,
    pub evals: [B128; 4],
}

/// A walk from the root of a tree to its leaves.
pub struct FracWalk {
    /// The layers that are still to be proved, leaves first.
    pub layers: Vec<FracLayer>,
    /// The layer that was proved last, while its challenge is awaited.
    pub proved: Option<ProvedLayer>,
}

/// The claim on a layer that follows from the evaluations of its four halves and a challenge for
/// its top variable.
pub open spec fn is_next_claim(claim: FracClaim, challenges: Seq<B128>, evals: Seq<B128>, r: B128) -> bool {
    &&& claim.num_eval == line(evals[0], evals[1], r)
    &&& claim.den_eval == line(evals[2], evals[3], r)
    &&& claim.point@ == challenges.push(r)
}

/// What a walk asks for when it holds a claim: to prove the last layer that is left, or to finish.
pub open spec fn walk_action(before: Seq<FracLayer>, claim: FracClaim, walk: FracWalk, action: FracAction) -> bool {
    if before.len() == 0 {
        &&& action == (FracAction::Finish { claim })
        &&& walk.layers@.len() == 0
        &&& walk.proved is None
    } else {
        &&& action == (FracAction::ProveLayer { layer: before.last(), claim })
        &&& walk.layers@ == before.drop_last()
        &&& walk.proved is None
    }
}

/// One round of a walk: the layer that it asked for was proved, and a challenge was drawn.
pub open spec fn walk_step(
    before: FracWalk,
    proved: ProvedLayer,
    challenge: B128,
    after: FracWalk,
    action: FracAction,
) -> bool {
    exists|claim: FracClaim|
        {
            &&& is_next_claim(claim, proved.challenges@, proved.evals@, challenge)
            &&& #[trigger] walk_action(before.layers@, claim, after, action)
        }
}

/// Asks for the last layer that is left, or finishes.
fn next_action(mut layers: Vec<FracLayer>, claim: FracClaim) -> (r: (FracWalk, FracAction))
    ensures
        walk_action(layers@, claim, r.0, r.1),
{
    match layers.pop() {
        Some(layer) => (
            FracWalk { layers, proved: None },
            FracAction::ProveLayer { layer, claim },
        ),
        None => (FracWalk { layers, proved: None }, FracAction::Finish { claim }),
    }
}

impl FastFracAddProver {
    /// Begins the walk from a claim on the root.
    pub fn prove(self, claim: FracClaim) -> (r: (FracWalk, FracAction))
        ensures
            walk_action(self.layers@, claim, r.0, r.1),
    {
        next_action(self.layers, claim)
    }
}

impl FracWalk {
    /// The layer was proved.
    pub fn layer_proved(self, proved: ProvedLayer) -> (r: (FracWalk, FracAction))
        ensures
            r.0.layers == self.layers,
            r.0.proved == Some(proved),
            r.1 is Sample,
    {
        (FracWalk { layers: self.layers, proved: Some(proved) }, FracAction::Sample)
    }

    /// A challenge was drawn for the top variable of the layer that was proved last.
    pub fn sampled(self, challenge: B128) -> (r: (FracWalk, FracAction))
        requires
            self.proved is Some,
        ensures
            walk_step(self, self.proved.unwrap(), challenge, r.0, r.1),
    {
        match self.proved {
            Some(ProvedLayer { challenges, evals }) => {
                let mut point = challenges;
                point.push(challenge);
                let claim = FracClaim {
                    num_eval: extrapolate_line(evals[0], evals[1], challenge),
                    den_eval: extrapolate_line(evals[2], evals[3], challenge),
                    point,
                };
                let r = next_action(self.layers, claim);
                assert(walk_action(self.layers@, claim, r.0, r.1));
                r
            },
            None => (
                FracWalk { layers: Vec::new(), proved: None },
                FracAction::Sample,
            ),
        }
    }
}

/// A claim holds of a layer.
pub open spec fn claim_holds(claim: FracClaim, num: Seq<B128>, den: Seq<B128>) -> bool {
    &&& claim.num_eval == mle(num, claim.point@)
    &&& claim.den_eval == mle(den, claim.point@)
}

/// Honest half evaluations lead to a true claim on the layer.
pub proof fn law_walk_keeps_truth(
    layer: FracLayer,
    h: nat,
    challenges: Seq<B128>,
    evals: Seq<B128>,
    r: B128,
    claim: FracClaim,
)
    requires
        layer.wf(h),
        challenges.len() == h,
        evals[0] == mle(layer.num_lo@, challenges),
        evals[1] == mle(layer.num_hi@, challenges),
        evals[2] == mle(layer.den_lo@, challenges),
        evals[3] == mle(layer.den_hi@, challenges),
        is_next_claim(claim, challenges, evals, r),
    ensures
        claim_holds(claim, layer.num(), layer.den()),
        claim.point@.len() == h + 1,
{
    let p = challenges.push(r);
    assert(p.drop_last() =~= challenges);
    assert(exp2(h + 1) == 2 * exp2(h));
    assert(lower(layer.num()) =~= layer.num_lo@);
    assert(upper(layer.num()) =~= layer.num_hi@);
    assert(lower(layer.den()) =~= layer.den_lo@);
    assert(upper(layer.den()) =~= layer.den_hi@);
    law_mle_line(layer.num(), p);
    law_mle_line(layer.den(), p);
}

/// A walk and what it asked for, from the root on: each layer that it asked for was proved, and a
/// challenge drawn.
pub ghost struct WalkTrace {
    pub walks: Seq<FracWalk>,
    pub actions: Seq<FracAction>,
    pub proved: Seq<ProvedLayer>,
    pub challenges: Seq<B128>,
}

/// The claim that an action holds.
pub open spec fn action_claim(action: FracAction) -> Option<FracClaim> {
    match action {
        FracAction::ProveLayer { layer, claim } => Some(claim),
        FracAction::Sample => None,
        FracAction::Finish { claim } => Some(claim),
    }
}

impl WalkTrace {
    /// The trace is one of a walk over the given layers from a claim on the root.
    pub open spec fn of(self, layers: Seq<FracLayer>, root: FracClaim) -> bool {
        let n = self.proved.len();
        &&& self.walks.len() == n + 1
        &&& self.actions.len() == n + 1
        &&& self.challenges.len() == n
        &&& walk_action(layers, root, self.walks[0], self.actions[0])
        &&& forall|i: int|
            0 <= i < n ==> {
                &&& self.actions[i] is ProveLayer
                &&& walk_step(
                    self.walks[i],
                    #[trigger] self.proved[i],
                    self.challenges[i],
                    self.walks[i + 1],
                    self.actions[i + 1],
                )
            }
    }

    /// The point of the proof of layer `i` from the root has one coordinate for each variable of
    /// the layer's halves, and the evaluations are those of the halves there.
    pub open spec fn honest_at(self, layers: Seq<FracLayer>, i: int) -> bool {
        let layer = layers[layers.len() - 1 - i];
        let p = self.proved[i].challenges@;
        let e = self.proved[i].evals@;
        &&& p.len() == i
        &&& e[0] == mle(layer.num_lo@, p)
        &&& e[1] == mle(layer.num_hi@, p)
        &&& e[2] == mle(layer.den_lo@, p)
        &&& e[3] == mle(layer.den_hi@, p)
    }
}

/// What a walk asks for after `i` layers.
proof fn lemma_walk_at(trace: WalkTrace, layers: Seq<FracLayer>, root: FracClaim, i: int)
    requires
        trace.of(layers, root),
        0 <= i <= trace.proved.len(),
    ensures
        i <= layers.len(),
        i < layers.len() ==> {
            &&& trace.actions[i] is ProveLayer
            &&& trace.actions[i]->layer == layers[layers.len() - 1 - i]
            &&& trace.walks[i].layers@ == layers.take(layers.len() - 1 - i)
        },
        i == layers.len() ==> trace.actions[i] is Finish && trace.walks[i].layers@.len() == 0,
        i == 0 ==> action_claim(trace.actions[i]) == Some(root),
        i > 0 ==> action_claim(trace.actions[i]) is Some && is_next_claim(
            action_claim(trace.actions[i]).unwrap(),
            trace.proved[i - 1].challenges@,
            trace.proved[i - 1].evals@,
            trace.challenges[i - 1],
        ),
    decreases i,
{
    if i == 0 {
        assert(layers.len() > 0 ==> layers.drop_last() =~= layers.take(layers.len() - 1));
    } else {
        lemma_walk_at(trace, layers, root, i - 1);
        let before = trace.walks[i - 1];
        let proved = trace.proved[i - 1];
        let claim = choose|claim: FracClaim|
            {
                &&& is_next_claim(
                    claim,
                    proved.challenges@,
                    proved.evals@,
                    trace.challenges[i - 1],
                )
                &&& #[trigger] walk_action(
                    before.layers@,
                    claim,
                    trace.walks[i],
                    trace.actions[i],
                )
            };
        assert(walk_action(before.layers@, claim, trace.walks[i], trace.actions[i]));
        if i < layers.len() {
            assert(before.layers@.drop_last() =~= layers.take(layers.len() - 1 - i));
        }
    }
}

/// A walk over `k` layers asks for every layer once, from the root to the leaves, and finishes when
/// all `k` are proved and not before.
pub proof fn law_walk_visits_all(trace: WalkTrace, layers: Seq<FracLayer>, root: FracClaim)
    requires
        trace.of(layers, root),
    ensures
        trace.proved.len() <= layers.len(),
        forall|i: int|
            0 <= i < trace.proved.len() ==> (#[trigger] trace.actions[i])->layer
                == layers[layers.len() - 1 - i],
        (trace.actions.last() is Finish) == (trace.proved.len() == layers.len()),
        trace.actions.last() is Finish || trace.actions.last() is ProveLayer,
{
    lemma_walk_at(trace, layers, root, trace.proved.len() as int);
    assert forall|i: int| 0 <= i < trace.proved.len() implies (#[trigger] trace.actions[i])->layer
        == layers[layers.len() - 1 - i] by {
        lemma_walk_at(trace, layers, root, i);
    }
}

/// A walk over a tree from its root fraction, in which every layer is proved with its true
/// evaluations, holds a true claim after every layer: after `i` of `k` layers a claim on the layer
/// `k - i` steps above the leaves, at a point with `i` coordinates.
pub proof fn law_walk_claims_hold(
    trace: WalkTrace,
    tree: FastFracAddProver,
    num: Seq<B128>,
    den: Seq<B128>,
    k: nat,
    root: FracClaim,
    i: int,
)
    requires
        tree.wf(num, den, k),
        tree.layers@.len() == k,
        trace.of(tree.layers@, root),
        root.point@.len() == 0,
        (root.num_eval, root.den_eval) == tree_root(num, den, k),
        0 <= i <= trace.proved.len(),
        forall|j: int| 0 <= j < i ==> #[trigger] trace.honest_at(tree.layers@, j),
    ensures
        i <= k,
        ({
            let claim = action_claim(trace.actions[i]);
            let (n, d) = layer_above(num, den, (k - i) as nat);
            &&& claim is Some
            &&& claim.unwrap().point@.len() == i
            &&& claim_holds(claim.unwrap(), n, d)
        }),
{
    lemma_walk_at(trace, tree.layers@, root, i);
    if i == 0 {
        law_root_claim(num, den, k, root);
    } else {
        assert(trace.honest_at(tree.layers@, i - 1));
        let layer = tree.layers@[k - i];
        law_walk_keeps_truth(
            layer,
            (i - 1) as nat,
            trace.proved[i - 1].challenges@,
            trace.proved[i - 1].evals@,
            trace.challenges[i - 1],
            action_claim(trace.actions[i]).unwrap(),
        );
    }
}

/// A whole walk over the tree of `2^k` fractions: it finishes after `k` proved layers with a claim
/// on the leaves, at a point with `k` coordinates. The claim is true if the walk began with the root
/// fraction and every layer was proved with its true evaluations.
pub proof fn law_whole_walk(
    trace: WalkTrace,
    tree: FastFracAddProver,
    num: Seq<B128>,
    den: Seq<B128>,
    k: nat,
    root: FracClaim,
)
    requires
        tree.wf(num, den, k),
        tree.layers@.len() == k,
        trace.of(tree.layers@, root),
        root.point@.len() == 0,
        (root.num_eval, root.den_eval) == tree_root(num, den, k),
        forall|j: int|
            0 <= j < trace.proved.len() ==> #[trigger] trace.honest_at(tree.layers@, j),
    ensures
        (trace.actions.last() is Finish) == (trace.proved.len() == k),
        trace.actions.last() matches FracAction::Finish { claim } ==> {
            &&& claim.point@.len() == k
            &&& claim_holds(claim, num, den)
        },
{
    law_walk_visits_all(trace, tree.layers@, root);
    law_walk_claims_hold(trace, tree, num, den, k, root, trace.proved.len() as int);
}

/// A claim on the root, at the empty point, holds when it is the root fraction.
pub proof fn law_root_claim(num: Seq<B128>, den: Seq<B128>, k: nat, claim: FracClaim)
    requires
        num.len() == exp2(k),
        den.len() == exp2(k),
        claim.point@.len() == 0,
        (claim.num_eval, claim.den_eval) == tree_root(num, den, k),
    ensures
        claim_holds(claim, layer_above(num, den, k).0, layer_above(num, den, k).1),
{
    lemma_layer_lengths(num, den, k, k);
    assert(claim.point@ =~= Seq::<B128>::empty());
    law_mle_constant(layer_above(num, den, k).0);
    law_mle_constant(layer_above(num, den, k).1);
}

/// A layer above, entry by entry: entry `j` is the sum of the fractions at `j` and half the length on.
pub proof fn law_next_layer(num: Seq<B128>, den: Seq<B128>, h: int, j: int)
    requires
        num.len() == 2 * h,
        den.len() == 2 * h,
        0 <= j < h,
    ensures
        next_num(num, den).len() == h,
        next_den(den).len() == h,
        next_num(num, den)[j] == num[j] * den[h + j] + num[h + j] * den[j],
        next_den(den)[j] == den[j] * den[h + j],
{
}

/// A walk down the tree proves the top layer that is left, takes it away, and ends when none is left.
pub proof fn law_walk_order(before: Seq<FracLayer>, claim: FracClaim, walk: FracWalk, action: FracAction)
    requires
        walk_action(before, claim, walk, action),
    ensures
        action is Finish <==> before.len() == 0,
        action is ProveLayer <==> before.len() > 0,
        before.len() > 0 ==> action->layer == before[before.len() - 1] && action->ProveLayer_claim
            == claim && walk.layers@.len() == before.len() - 1 && forall|i: int|
            0 <= i < before.len() - 1 ==> #[trigger] walk.layers@[i] == before[i],
        before.len() == 0 ==> action->Finish_claim == claim && walk.layers@.len() == 0,
{
}

/// The claim on the next layer joins the two halves' evaluations on a line: at zero it has the first, at
/// one the second.
pub proof fn law_next_claim(claim: FracClaim, challenges: Seq<B128>, evals: Seq<B128>, r: B128)
    requires
        is_next_claim(claim, challenges, evals, r),
    ensures
        claim.num_eval == (one() + r) * evals[0] + r * evals[1],
        claim.den_eval == (one() + r) * evals[2] + r * evals[3],
        claim.point@.len() == challenges.len() + 1,
        claim.point@.last() == r,
        claim.point@.drop_last() == challenges,
{
    crate::multilinear::mle::lemma_line(evals[0], evals[1], r);
    crate::multilinear::mle::lemma_line(evals[2], evals[3], r);
    assert(claim.point@.drop_last() =~= challenges);
}

/// One step of a walk: with the four evaluations of the layer that was proved and a challenge, the claim on
/// the layer below is fixed, and it is what is proved next, or what the walk ends with.
pub proof fn law_walk_step(
    before: FracWalk,
    proved: ProvedLayer,
    r: B128,
    after: FracWalk,
    action: FracAction,
)
    requires
        walk_step(before, proved, r, after, action),
    ensures
        action_claim(action) is Some,
        action_claim(action)->Some_0.num_eval == (one() + r) * proved.evals@[0] + r
            * proved.evals@[1],
        action_claim(action)->Some_0.den_eval == (one() + r) * proved.evals@[2] + r
            * proved.evals@[3],
        action_claim(action)->Some_0.point@ == proved.challenges@.push(r),
        action is Finish <==> before.layers@.len() == 0,
        before.layers@.len() > 0 ==> action is ProveLayer && action->layer == before.layers@.last()
            && after.layers@ == before.layers@.drop_last(),
{
    let claim = choose|claim: FracClaim|
        {
            &&& is_next_claim(claim, proved.challenges@, proved.evals@, r)
            &&& #[trigger] walk_action(before.layers@, claim, after, action)
        };
    law_next_claim(claim, proved.challenges@, proved.evals@, r);
    law_walk_order(before.layers@, claim, after, action);
}

} // verus!
