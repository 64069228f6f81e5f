//! The verification key of a shape: the committed row table and its metadata.
//!
//! The row table has four blocks over the histogram domain. In the first three, row `t` holds the
//! histogram index at which the row is counted, embedded in the field as an integer: its address in
//! the low bits and the block in the two bits above. So the three blocks' values lie in disjoint
//! cosets of the span of the address bits.

use crate::encode::{
    embed, embed_bool, embed_u64, embed_usize, law_embed_injective, law_le_value_injective,
    le_element, le_value, lemma_exp2_128, lemma_le_value_bound,
};
use crate::error::DischargeError;
use crate::field::element::{one, zero, B128};
use crate::histogram::{address, lemma_address_in, lemma_cube_fits};
use crate::multilinear::exp2::{
    checked_exp2, checked_next_power_of_two, exp2, exp2_usize, lemma_exp2_mono, lemma_exp2_pos,
    lemma_log2_ceil, log2_ceil, log2_ceil_usize,
};
use crate::multilinear::mle::zeros;
use crate::table::{
    address_width, address_width_usize, cube_y, term_in, ShapeDims, Term, TermTable,
    LOG_WORD_SIZE_BITS,
};
use vstd::prelude::*;

verus! {

/// The version of the layout that the metadata freezes.
pub const LAYOUT_VERSION: u64 = 4;

/// The version of the row order: by constraint, by slot, by operand position; then padding rows.
pub const ROW_ORDER_VERSION: u64 = 1;

/// The Merkle hash suite: SHA-256.
pub const HASH_SUITE_ID: u64 = 1;

/// The security target of the opening, in bits.
pub const SECURITY_BITS: usize = 96;

/// log2 of the inverse rate of both committed oracles.
pub const LOG_INV_RATE: usize = 1;

/// The fold arities of the batched opening.
#[derive(Debug, Clone, PartialEq, Eq)]
pub struct BatchFriShape {
    pub fold_arities: Vec<usize>,
}

/// The metadata of a verification key: everything that a verifier needs to know of the shape.
#[derive(Debug, PartialEq, Eq)]
pub struct DischargeVkm {
    pub layout_version: u64,
    pub row_order_version: u64,
    pub hash_suite_id: u64,
    /// Only AND-only shapes are admitted.
    pub lane_andonly: bool,
    /// The digest of the constraint system's canonical encoding.
    pub cs_digest: [u8; 32],
    /// The Merkle root of the committed row table.
    pub vk_digest: Vec<u8>,
    pub dims: ShapeDims,
    /// The two basis indices of the block tags.
    pub tag_bits: (usize, usize),
    pub log_inv_rate: usize,
    pub n_test_queries: usize,
    pub fri_batch: BatchFriShape,
}


impl Clone for DischargeVkm {
    fn clone(&self) -> (r: Self)
        ensures
            same_vkm(r, *self),
    {
        DischargeVkm {
            layout_version: self.layout_version,
            row_order_version: self.row_order_version,
            hash_suite_id: self.hash_suite_id,
            lane_andonly: self.lane_andonly,
            cs_digest: self.cs_digest,
            vk_digest: copy_bytes(&self.vk_digest),
            dims: self.dims,
            tag_bits: (self.tag_bits.0, self.tag_bits.1),
            log_inv_rate: self.log_inv_rate,
            n_test_queries: self.n_test_queries,
            fri_batch: BatchFriShape { fold_arities: copy_sizes(&self.fri_batch.fold_arities) },
        }
    }
}

/// A copy of a byte string.
fn copy_bytes(v: &Vec<u8>) -> (r: Vec<u8>)
    ensures
        r@ == v@,
{
    let mut r: Vec<u8> = Vec::new();
    let mut i: usize = 0;
    while i < v.len()
        invariant
            i <= v@.len(),
            r@ == v@.take(i as int),
        decreases v@.len() - i,
    {
        r.push(v[i]);
        i = i + 1;
        assert(r@ =~= v@.take(i as int));
    }
    assert(r@ =~= v@);
    r
}

/// A copy of a list of sizes.
fn copy_sizes(v: &Vec<usize>) -> (r: Vec<usize>)
    ensures
        r@ == v@,
{
    let mut r: Vec<usize> = Vec::new();
    let mut i: usize = 0;
    while i < v.len()
        invariant
            i <= v@.len(),
            r@ == v@.take(i as int),
        decreases v@.len() - i,
    {
        r.push(v[i]);
        i = i + 1;
        assert(r@ =~= v@.take(i as int));
    }
    assert(r@ =~= v@);
    r
}

/// The elements that a flag, the dimensions and the parameters contribute.
pub open spec fn dims_elems(d: ShapeDims) -> Seq<B128> {
    seq![
        embed(d.n_x as int),
        embed(d.n_x_mul as int),
        embed(d.n_y as int),
        embed(d.lp as int),
        embed(d.n_pub as int),
        embed(d.combined_len as int),
        embed(d.n_a as int),
        embed(d.n_d as int),
        embed(d.n_terms as int),
        embed(d.n_pad as int),
        embed(d.n_t as int),
        embed(if d.parity { 1 } else { 0 }),
        embed(d.arity as int),
    ]
}

/// Thirty-two bytes as two elements.
pub open spec fn digest_elems(s: Seq<u8>) -> Seq<B128> {
    seq![
        embed(le_value(s.subrange(0, 16)) as int),
        embed(le_value(s.subrange(16, 32)) as int),
    ]
}

/// The elements by which a transcript is bound to the metadata: every field.
pub open spec fn vkm_elems(v: DischargeVkm) -> Seq<B128> {
    seq![
        embed(v.layout_version as int),
        embed(v.row_order_version as int),
        embed(v.hash_suite_id as int),
        embed(if v.lane_andonly { 1 } else { 0 }),
    ] + digest_elems(v.cs_digest@) + digest_elems(v.vk_digest@) + dims_elems(v.dims) + seq![
        embed(v.tag_bits.0 as int),
        embed(v.tag_bits.1 as int),
        embed(v.log_inv_rate as int),
        embed(v.n_test_queries as int),
        embed(v.fri_batch.fold_arities@.len() as int),
    ] + v.fri_batch.fold_arities@.map_values(|a: usize| embed(a as int))
}

/// Two metadata blobs say the same.
pub open spec fn same_vkm(v: DischargeVkm, w: DischargeVkm) -> bool {
    &&& v.layout_version == w.layout_version
    &&& v.row_order_version == w.row_order_version
    &&& v.hash_suite_id == w.hash_suite_id
    &&& v.lane_andonly == w.lane_andonly
    &&& v.cs_digest@ == w.cs_digest@
    &&& v.vk_digest@ == w.vk_digest@
    &&& v.dims == w.dims
    &&& v.tag_bits == w.tag_bits
    &&& v.log_inv_rate == w.log_inv_rate
    &&& v.n_test_queries == w.n_test_queries
    &&& v.fri_batch.fold_arities@ == w.fri_batch.fold_arities@
}

/// Encodings that agree at a slot hold the same word there.
pub(crate) proof fn lemma_same_word(e: Seq<B128>, f: Seq<B128>, k: int, m: int, n: int)
    requires
        0 <= m < 0x1_0000_0000_0000_0000,
        0 <= n < 0x1_0000_0000_0000_0000,
        e == f,
        e[k] == embed(m),
        f[k] == embed(n),
    ensures
        m == n,
{
    lemma_exp2_128();
    law_embed_injective(m, n);
}

pub(crate) proof fn lemma_digest_elems(a: Seq<u8>, b: Seq<u8>)
    requires
        a.len() == 32,
        b.len() == 32,
        digest_elems(a) == digest_elems(b),
    ensures
        a == b,
{
    let (a0, a1) = (a.subrange(0, 16), a.subrange(16, 32));
    let (b0, b1) = (b.subrange(0, 16), b.subrange(16, 32));
    lemma_le_value_bound(a0);
    lemma_le_value_bound(a1);
    lemma_le_value_bound(b0);
    lemma_le_value_bound(b1);
    assert(digest_elems(a)[0] == digest_elems(b)[0]);
    assert(digest_elems(a)[1] == digest_elems(b)[1]);
    law_embed_injective(le_value(a0) as int, le_value(b0) as int);
    law_embed_injective(le_value(a1) as int, le_value(b1) as int);
    law_le_value_injective(a0, b0);
    law_le_value_injective(a1, b1);
    assert(a =~= a0 + a1);
    assert(b =~= b0 + b1);
}

/// The encoding binds every field: metadata with the same elements say the same.
pub proof fn law_vkm_elems_bind(v: DischargeVkm, w: DischargeVkm)
    requires
        v.vk_digest@.len() == 32,
        w.vk_digest@.len() == 32,
        vkm_elems(v) == vkm_elems(w),
    ensures
        same_vkm(v, w),
{
    let (e, f) = (vkm_elems(v), vkm_elems(w));
    lemma_same_word(e, f, 0, v.layout_version as int, w.layout_version as int);
    lemma_same_word(e, f, 1, v.row_order_version as int, w.row_order_version as int);
    lemma_same_word(e, f, 2, v.hash_suite_id as int, w.hash_suite_id as int);
    lemma_same_word(e, f, 3, if v.lane_andonly { 1 } else { 0 }, if w.lane_andonly { 1 } else { 0 });
    assert(digest_elems(v.cs_digest@) =~= e.subrange(4, 6));
    assert(digest_elems(w.cs_digest@) =~= f.subrange(4, 6));
    lemma_digest_elems(v.cs_digest@, w.cs_digest@);
    assert(digest_elems(v.vk_digest@) =~= e.subrange(6, 8));
    assert(digest_elems(w.vk_digest@) =~= f.subrange(6, 8));
    lemma_digest_elems(v.vk_digest@, w.vk_digest@);
    let (d, g) = (v.dims, w.dims);
    lemma_same_word(e, f, 8, d.n_x as int, g.n_x as int);
    lemma_same_word(e, f, 9, d.n_x_mul as int, g.n_x_mul as int);
    lemma_same_word(e, f, 10, d.n_y as int, g.n_y as int);
    lemma_same_word(e, f, 11, d.lp as int, g.lp as int);
    lemma_same_word(e, f, 12, d.n_pub as int, g.n_pub as int);
    lemma_same_word(e, f, 13, d.combined_len as int, g.combined_len as int);
    lemma_same_word(e, f, 14, d.n_a as int, g.n_a as int);
    lemma_same_word(e, f, 15, d.n_d as int, g.n_d as int);
    lemma_same_word(e, f, 16, d.n_terms as int, g.n_terms as int);
    lemma_same_word(e, f, 17, d.n_pad as int, g.n_pad as int);
    lemma_same_word(e, f, 18, d.n_t as int, g.n_t as int);
    lemma_same_word(e, f, 19, if d.parity { 1 } else { 0 }, if g.parity { 1 } else { 0 });
    lemma_same_word(e, f, 20, d.arity as int, g.arity as int);
    lemma_same_word(e, f, 21, v.tag_bits.0 as int, w.tag_bits.0 as int);
    lemma_same_word(e, f, 22, v.tag_bits.1 as int, w.tag_bits.1 as int);
    lemma_same_word(e, f, 23, v.log_inv_rate as int, w.log_inv_rate as int);
    lemma_same_word(e, f, 24, v.n_test_queries as int, w.n_test_queries as int);
    let (va, wa) = (v.fri_batch.fold_arities@, w.fri_batch.fold_arities@);
    assert(e.len() == 26 + va.len());
    assert(f.len() == 26 + wa.len());
    assert forall|k: int| 0 <= k < va.len() implies va[k] == wa[k] by {
        assert(e[26 + k] == embed(va[k] as int));
        assert(f[26 + k] == embed(wa[k] as int));
        lemma_same_word(e, f, 26 + k, va[k] as int, wa[k] as int);
    }
    assert(va =~= wa);
}

impl DischargeVkm {
    /// The elements by which a transcript is bound to the metadata.
    pub fn to_elems(&self) -> (out: Vec<B128>)
        requires
            self.vk_digest@.len() == 32,
        ensures
            out@ == vkm_elems(*self),
    {
        let mut out: Vec<B128> = Vec::new();
        out.push(embed_u64(self.layout_version));
        out.push(embed_u64(self.row_order_version));
        out.push(embed_u64(self.hash_suite_id));
        out.push(embed_bool(self.lane_andonly));
        out.push(le_element(&self.cs_digest, 0));
        out.push(le_element(&self.cs_digest, 16));
        out.push(le_element(&self.vk_digest, 0));
        out.push(le_element(&self.vk_digest, 16));
        let d = &self.dims;
        out.push(embed_usize(d.n_x));
        out.push(embed_usize(d.n_x_mul));
        out.push(embed_usize(d.n_y));
        out.push(embed_usize(d.lp));
        out.push(embed_usize(d.n_pub));
        out.push(embed_usize(d.combined_len));
        out.push(embed_usize(d.n_a));
        out.push(embed_usize(d.n_d));
        out.push(embed_usize(d.n_terms));
        out.push(embed_usize(d.n_pad));
        out.push(embed_usize(d.n_t));
        out.push(embed_bool(d.parity));
        out.push(embed_usize(d.arity));
        out.push(embed_usize(self.tag_bits.0));
        out.push(embed_usize(self.tag_bits.1));
        out.push(embed_usize(self.log_inv_rate));
        out.push(embed_usize(self.n_test_queries));
        let arities = &self.fri_batch.fold_arities;
        out.push(embed_usize(arities.len()));
        let ghost head = out@;
        let ghost tail = arities@.map_values(|a: usize| embed(a as int));
        let mut k: usize = 0;
        while k < arities.len()
            invariant
                k <= arities@.len(),
                tail == arities@.map_values(|a: usize| embed(a as int)),
                out@ == head + tail.take(k as int),
            decreases arities@.len() - k,
        {
            out.push(embed_usize(arities[k]));
            k = k + 1;
            assert(out@ =~= head + tail.take(k as int));
        }
        assert(tail.take(k as int) =~= tail);
        assert(out@ =~= vkm_elems(*self));
        out
    }

    /// The committed root as a digest.
    pub fn vk_digest_typed(&self) -> (r: Result<[u8; 32], DischargeError>)
        ensures
            match r {
                Ok(d) => self.vk_digest@.len() >= 32 && d@ == self.vk_digest@.subrange(0, 32),
                Err(e) => self.vk_digest@.len() < 32 && e == DischargeError::DigestLength,
            },
    {
        if self.vk_digest.len() < 32 {
            return Err(DischargeError::DigestLength);
        }
        let mut d: [u8; 32] = [0;32];
        let mut i: usize = 0;
        while i < 32
            invariant
                i <= 32,
                self.vk_digest@.len() >= 32,
                forall|j: int| 0 <= j < i ==> d@[j] == self.vk_digest@[j],
            decreases 32 - i,
        {
            d[i] = self.vk_digest[i];
            i = i + 1;
        }
        assert(d@ =~= self.vk_digest@.subrange(0, 32));
        Ok(d)
    }
}

/// The bytes of a digest.
pub fn serialize_digest(digest: &[u8; 32]) -> (r: Vec<u8>)
    ensures
        r@ == digest@,
{
    let mut r: Vec<u8> = Vec::new();
    let mut i: usize = 0;
    while i < 32
        invariant
            i <= 32,
            r@ == digest@.take(i as int),
        decreases 32 - i,
    {
        r.push(digest[i]);
        i = i + 1;
        assert(r@ =~= digest@.take(i as int));
    }
    assert(r@ =~= digest@);
    r
}

/// The basis element of address bit `k`.
pub fn beta(k: usize) -> (r: B128)
    requires
        k < 128,
    ensures
        r == embed(exp2(k as nat) as int),
{
    proof {
        lemma_exp2_shift(k as nat);
    }
    B128::new(1u128 << (k as u128))
}

/// The tag of a block: the block number, above the address bits.
pub open spec fn tag(n_a: nat, blk: int) -> B128 {
    embed(blk * exp2(n_a))
}

/// Sums of embedded integers whose binary digits do not overlap.
pub proof fn lemma_embed_add(a: int, b: int, k: nat)
    requires
        0 <= a < exp2(k),
        0 <= b < 4,
        k < 128,
        (b + 1) * exp2(k) <= exp2(128),
    ensures
        embed(a) + embed(b * exp2(k)) == embed(a + b * exp2(k)),
{
    reveal(B128::spec_add);
    lemma_exp2_mono(k, 127);
    lemma_exp2_128();
    lemma_exp2_shift(k);
    let p: u128 = exp2(k) as u128;
    let kk: u128 = k as u128;
    let x: u128 = a as u128;
    let c: u128 = b as u128;
    assert((b + 1) * exp2(k) == b * exp2(k) + exp2(k)) by (nonlinear_arith);
    assert(0 <= b * exp2(k)) by (nonlinear_arith)
        requires
            0 <= b,
    ;
    let y: u128 = (b * exp2(k)) as u128;
    assert(y == c * p);
    assert(x ^ y == x + y) by (bit_vector)
        requires
            p == 1u128 << kk,
            kk < 128,
            x < p,
            c < 4,
            y == c * p,
    ;
}

/// A power of two is a shifted one.
pub proof fn lemma_exp2_shift(k: nat)
    requires
        k < 128,
    ensures
        exp2(k) == 1u128 << (k as u128),
    decreases k,
{
    if k == 0 {
        assert(1u128 << 0u128 == 1u128) by (bit_vector);
    } else {
        lemma_exp2_shift((k - 1) as nat);
        let j: u128 = (k - 1) as u128;
        let i: u128 = k as u128;
        assert(1u128 << i == 2 * (1u128 << j)) by (bit_vector)
            requires
                i == j + 1,
                i < 128,
        ;
    }
}

/// The four block tags.
pub fn tags(n_a: usize) -> (r: [B128; 4])
    requires
        n_a <= 126,
    ensures
        forall|blk: int| 0 <= blk < 4 ==> #[trigger] r@[blk] == tag(n_a as nat, blk),
{
    let b0 = beta(n_a);
    let b1 = beta(n_a + 1);
    proof {
        let p = exp2(n_a as nat) as int;
        assert(exp2((n_a + 1) as nat) == 2 * p);
        lemma_exp2_pos(n_a as nat);
        lemma_exp2_mono((n_a + 2) as nat, 128);
        assert((1 + 1) * exp2((n_a + 1) as nat) == exp2((n_a + 2) as nat));
        lemma_embed_add(p, 1, (n_a + 1) as nat);
        assert(0 * p == 0 && 1 * p == p);
        assert(3 * p == p + 1 * exp2((n_a + 1) as nat));
    }
    [zero(), b0, b1, b0 + b1]
}

/// The entry of the row table for address `addr` in block `blk`: the histogram index of the row.
pub fn vk_entry(blk: usize, addr: u64, n_a: usize) -> (r: B128)
    requires
        blk < 3,
        addr < exp2(n_a as nat),
        n_a <= 126,
    ensures
        r == embed(addr + blk * exp2(n_a as nat)),
        r == embed(addr as int) + tag(n_a as nat, blk as int),
{
    let p: u128 = 1u128 << (n_a as u128);
    proof {
        let q = exp2(n_a as nat) as int;
        lemma_exp2_shift(n_a as nat);
        lemma_exp2_mono((n_a + 2) as nat, 128);
        lemma_exp2_128();
        assert(exp2((n_a + 2) as nat) == 2 * exp2((n_a + 1) as nat));
        assert(exp2((n_a + 1) as nat) == 2 * q);
        assert(0 * q == 0 && 1 * q == q);
        lemma_embed_add(addr as int, blk as int, n_a as nat);
    }
    match blk {
        0 => B128::new(addr as u128),
        1 => B128::new(addr as u128 + p),
        _ => B128::new(addr as u128 + 2 * p),
    }
}

/// The values of different blocks lie in different cosets: no address of one block, with its tag,
/// is an address of another with its own.
pub proof fn law_tags_disjoint(n_a: nat, i: int, j: int, a: int, b: int)
    requires
        n_a <= 126,
        0 <= i < 4,
        0 <= j < 4,
        0 <= a < exp2(n_a),
        0 <= b < exp2(n_a),
    ensures
        embed(a) + tag(n_a, i) == embed(b) + tag(n_a, j) ==> i == j && a == b,
{
    let q = exp2(n_a) as int;
    lemma_exp2_mono(n_a + 2, 128);
    lemma_exp2_128();
    assert(exp2(n_a + 2) == 2 * exp2(n_a + 1));
    assert(exp2(n_a + 1) == 2 * q);
    assert((i + 1) * q <= 4 * q) by (nonlinear_arith)
        requires
            i + 1 <= 4,
            q >= 0,
    ;
    assert((j + 1) * q <= 4 * q) by (nonlinear_arith)
        requires
            j + 1 <= 4,
            q >= 0,
    ;
    assert((i + 1) * q == i * q + q) by (nonlinear_arith);
    assert((j + 1) * q == j * q + q) by (nonlinear_arith);
    lemma_embed_add(a, i, n_a);
    lemma_embed_add(b, j, n_a);
    assert(0 <= i * q && 0 <= j * q) by (nonlinear_arith)
        requires
            i >= 0,
            j >= 0,
            q >= 0,
    ;
    if embed(a) + tag(n_a, i) == embed(b) + tag(n_a, j) {
        law_embed_injective(a + i * q, b + j * q);
        if i < j {
            assert((j - i) * q >= q) by (nonlinear_arith)
                requires
                    j - i >= 1,
                    q >= 0,
            ;
            assert((j - i) * q == j * q - i * q) by (nonlinear_arith);
        } else if j < i {
            assert((i - j) * q >= q) by (nonlinear_arith)
                requires
                    i - j >= 1,
                    q >= 0,
            ;
            assert((i - j) * q == i * q - j * q) by (nonlinear_arith);
        }
    }
}

/// The first dimension that does not follow from the others, if any.
pub open spec fn dims_error(d: ShapeDims) -> Option<DischargeError> {
    if d.n_y < 1 {
        Some(DischargeError::WordAddressEmpty)
    } else if d.lp >= 64 {
        Some(DischargeError::PublicLogOutOfRange)
    } else if d.n_a + 2 > 64 {
        Some(DischargeError::AddressWidthExceeded)
    } else if d.n_pad != exp2(log2_ceil(d.n_terms as nat)) {
        Some(DischargeError::PaddedCountIncoherent)
    } else if d.n_t != log2_ceil(d.n_terms as nat) {
        Some(DischargeError::RowVariablesIncoherent)
    } else if d.parity != ((d.n_pad - d.n_terms) % 2 == 1) {
        Some(DischargeError::ParityIncoherent)
    } else if d.n_a != address_width(d.n_x as nat, d.n_y as nat, d.n_t as nat) {
        Some(DischargeError::AddressWidthIncoherent)
    } else if d.n_d != d.n_a + 2 {
        Some(DischargeError::TableVariablesIncoherent)
    } else if d.arity != 3 + d.n_x + d.n_x_mul + 2 * LOG_WORD_SIZE_BITS + d.n_y {
        Some(DischargeError::ArityIncoherent)
    } else if d.n_pub != exp2(d.lp as nat) {
        Some(DischargeError::PublicLengthIncoherent)
    } else if d.combined_len < d.n_pub {
        Some(DischargeError::CombinedLengthIncoherent)
    } else if d.combined_len - d.n_pub > exp2((d.n_y - 1) as nat) {
        Some(DischargeError::HiddenSegmentTooLong)
    } else {
        None
    }
}

/// Coherent dimensions are those that are derived and whose addresses fit in 64 bits.
pub proof fn law_coherent_is_derived(d: ShapeDims)
    ensures
        dims_error(d) is None <==> d.derived() && d.n_a + 2 <= 64,
{
    if d.derived() {
        crate::multilinear::exp2::lemma_exp2_in_usize(d.lp as nat);
    }
}

/// Checks that every derived dimension follows from the others.
pub fn check_dims_coherence(d: &ShapeDims) -> (r: Result<(), DischargeError>)
    ensures
        match r {
            Ok(_) => dims_error(*d) is None,
            Err(e) => dims_error(*d) == Some(e),
        },
{
    if d.n_y < 1 {
        return Err(DischargeError::WordAddressEmpty);
    }
    if d.lp >= 64 {
        return Err(DischargeError::PublicLogOutOfRange);
    }
    if d.n_a > 62 {
        return Err(DischargeError::AddressWidthExceeded);
    }
    match checked_next_power_of_two(d.n_terms) {
        Some(p) => {
            if d.n_pad != p {
                return Err(DischargeError::PaddedCountIncoherent);
            }
        },
        None => {
            return Err(DischargeError::PaddedCountIncoherent);
        },
    }
    proof {
        lemma_log2_ceil(d.n_terms as nat);
    }
    if d.n_t != log2_ceil_usize(d.n_terms) {
        return Err(DischargeError::RowVariablesIncoherent);
    }
    if d.parity != ((d.n_pad - d.n_terms) % 2 == 1) {
        return Err(DischargeError::ParityIncoherent);
    }
    if d.n_a != address_width_usize(d.n_x, d.n_y, d.n_t) {
        return Err(DischargeError::AddressWidthIncoherent);
    }
    if d.n_d != d.n_a + 2 {
        return Err(DischargeError::TableVariablesIncoherent);
    }
    if !arity_is_sum(d) {
        return Err(DischargeError::ArityIncoherent);
    }
    match checked_exp2(d.lp) {
        Some(p) => {
            if d.n_pub != p {
                return Err(DischargeError::PublicLengthIncoherent);
            }
        },
        None => {
            return Err(DischargeError::PublicLengthIncoherent);
        },
    }
    if d.combined_len < d.n_pub {
        return Err(DischargeError::CombinedLengthIncoherent);
    }
    match checked_exp2(d.n_y - 1) {
        Some(p) => {
            if d.combined_len - d.n_pub > p {
                return Err(DischargeError::HiddenSegmentTooLong);
            }
        },
        None => {},
    }
    Ok(())
}

/// Whether the arity is the sum of its parts, without overflow.
fn arity_is_sum(d: &ShapeDims) -> (r: bool)
    ensures
        r == (d.arity == 3 + d.n_x + d.n_x_mul + 2 * LOG_WORD_SIZE_BITS + d.n_y),
{
    match d.arity.checked_sub(3 + 2 * LOG_WORD_SIZE_BITS) {
        Some(a) => match a.checked_sub(d.n_x) {
            Some(b) => match b.checked_sub(d.n_x_mul) {
                Some(c) => c == d.n_y,
                None => false,
            },
            None => false,
        },
        None => false,
    }
}

/// The number of message variables of the two oracles of the opening: the row table, then the
/// histogram table.
pub fn oracle_specs(dims: &ShapeDims) -> (r: [usize; 2])
    requires
        dims.n_d + 2 <= usize::MAX,
    ensures
        r@ == seq![(dims.n_d + 2) as usize, dims.n_d],
{
    let r = [dims.n_d + 2, dims.n_d];
    assert(r@ =~= seq![(dims.n_d + 2) as usize, dims.n_d]);
    r
}

/// log2 of the length of the longest codeword.
pub fn log_domain_for(dims: &ShapeDims) -> (r: usize)
    requires
        dims.n_d + 2 + LOG_INV_RATE <= usize::MAX,
    ensures
        r == dims.n_d + 2 + LOG_INV_RATE,
{
    dims.n_d + 2 + LOG_INV_RATE
}

/// How one oracle takes part in the batched opening.
#[derive(Debug, Clone, Copy, PartialEq, Eq, Structural)]
pub struct FriOracle {
    /// log2 of the number of interleaved symbols in a leaf.
    pub log_batch_size: usize,
    /// log2 of the factor by which the oracle is lifted to the common length.
    pub log_lift: usize,
}

/// The parameters of the batched opening.
#[derive(Debug, Clone, PartialEq, Eq)]
pub struct FriParams {
    pub fold_arities: Vec<usize>,
    /// log2 of the dimension of the common code.
    pub log_dim: usize,
    /// log2 of the inverse rate of the common code.
    pub log_inv_rate: usize,
    pub input_oracles: Vec<FriOracle>,
}

/// The shape of the batched opening: the number of queries, and the fold arities.
pub fn fri_shapes(n_test_queries: usize, params: &FriParams) -> (r: (usize, BatchFriShape))
    ensures
        r.0 == n_test_queries,
        r.1.fold_arities@ == params.fold_arities@,
{
    (n_test_queries, BatchFriShape { fold_arities: copy_sizes(&params.fold_arities) })
}

/// The parameters shared by prover and verifier.
pub struct Pcs {
    pub params: FriParams,
    /// log2 of the length of the longest codeword.
    pub log_domain: usize,
}

impl Pcs {
    /// The number of symbols in a leaf of an oracle's commitment.
    pub fn leaf_size(&self, oracle: usize) -> (r: usize)
        requires
            oracle < self.params.input_oracles@.len(),
            exp2(self.params.input_oracles@[oracle as int].log_batch_size as nat) <= usize::MAX,
        ensures
            r == exp2(self.params.input_oracles@[oracle as int].log_batch_size as nat),
    {
        exp2_usize(self.params.input_oracles[oracle].log_batch_size)
    }

    /// The depth of the Merkle tree of an oracle's commitment.
    pub fn depth(&self, oracle: usize) -> (r: usize)
        requires
            oracle < self.params.input_oracles@.len(),
            self.params.input_oracles@[oracle as int].log_lift <= self.params.log_dim,
            self.params.log_dim + self.params.log_inv_rate <= usize::MAX,
        ensures
            r == self.params.log_dim - self.params.input_oracles@[oracle as int].log_lift
                + self.params.log_inv_rate,
    {
        (self.params.log_dim - self.params.input_oracles[oracle].log_lift)
            + self.params.log_inv_rate
    }
}

/// The first check on the metadata that fails, if any, when the security target asks for
/// `min_test_queries` queries.
pub open spec fn vkm_error(v: DischargeVkm, min_test_queries: usize) -> Option<DischargeError> {
    if v.layout_version != LAYOUT_VERSION {
        Some(DischargeError::LayoutVersion)
    } else if v.row_order_version != ROW_ORDER_VERSION {
        Some(DischargeError::RowOrderVersion)
    } else if v.hash_suite_id != HASH_SUITE_ID {
        Some(DischargeError::HashSuite)
    } else if v.log_inv_rate != LOG_INV_RATE {
        Some(DischargeError::LogInvRate)
    } else if !v.lane_andonly {
        Some(DischargeError::NotAndOnlyLane)
    } else if v.tag_bits.0 != v.dims.n_a || v.tag_bits.1 != v.dims.n_a + 1 {
        Some(DischargeError::TagBits)
    } else if v.n_test_queries < min_test_queries {
        Some(DischargeError::TestQueries)
    } else {
        dims_error(v.dims)
    }
}

/// Checks the metadata, up to the parameters that only the code can derive.
pub fn check_vkm(vkm: &DischargeVkm, min_test_queries: usize) -> (r: Result<(), DischargeError>)
    ensures
        match r {
            Ok(_) => vkm_error(*vkm, min_test_queries) is None,
            Err(e) => vkm_error(*vkm, min_test_queries) == Some(e),
        },
{
    if vkm.layout_version != LAYOUT_VERSION {
        return Err(DischargeError::LayoutVersion);
    }
    if vkm.row_order_version != ROW_ORDER_VERSION {
        return Err(DischargeError::RowOrderVersion);
    }
    if vkm.hash_suite_id != HASH_SUITE_ID {
        return Err(DischargeError::HashSuite);
    }
    if vkm.log_inv_rate != LOG_INV_RATE {
        return Err(DischargeError::LogInvRate);
    }
    if !vkm.lane_andonly {
        return Err(DischargeError::NotAndOnlyLane);
    }
    if vkm.tag_bits.0 != vkm.dims.n_a || vkm.tag_bits.1 == 0 || vkm.tag_bits.1 - 1
        != vkm.dims.n_a {
        return Err(DischargeError::TagBits);
    }
    if vkm.n_test_queries < min_test_queries {
        return Err(DischargeError::TestQueries);
    }
    check_dims_coherence(&vkm.dims)
}

/// Whether two lists of sizes are equal.
fn sizes_eq(a: &Vec<usize>, b: &Vec<usize>) -> (r: bool)
    ensures
        r == (a@ == b@),
{
    if a.len() != b.len() {
        return false;
    }
    let mut i: usize = 0;
    while i < a.len()
        invariant
            i <= a@.len(),
            a@.len() == b@.len(),
            forall|j: int| 0 <= j < i ==> a@[j] == b@[j],
        decreases a@.len() - i,
    {
        if a[i] != b[i] {
            return false;
        }
        i = i + 1;
    }
    assert(a@ =~= b@);
    true
}

/// The derived fold arities are not the pinned ones, and the error says both.
pub open spec fn fold_mismatch(derived: Seq<usize>, pinned: Seq<usize>, e: DischargeError) -> bool {
    &&& derived != pinned
    &&& e is FoldArities
    &&& e->derived@ == derived
    &&& e->pinned@ == pinned
}

/// The opening parameters for a metadata blob. `min_test_queries` is what the security target
/// asks for, and `params` is derived from the blob's dimensions and its number of queries.
pub fn build_pcs(vkm: &DischargeVkm, min_test_queries: usize, params: FriParams) -> (r: Result<
    Pcs,
    DischargeError,
>)
    ensures
        match r {
            Ok(pcs) => {
                &&& vkm_error(*vkm, min_test_queries) is None
                &&& params.fold_arities@ == vkm.fri_batch.fold_arities@
                &&& pcs.params == params
                &&& pcs.log_domain == vkm.dims.n_d + 2 + LOG_INV_RATE
            },
            Err(e) => {
                ||| vkm_error(*vkm, min_test_queries) == Some(e)
                ||| vkm_error(*vkm, min_test_queries) is None && fold_mismatch(
                    params.fold_arities@,
                    vkm.fri_batch.fold_arities@,
                    e,
                )
            },
        },
        r is Ok <==> vkm_error(*vkm, min_test_queries) is None && params.fold_arities@
            == vkm.fri_batch.fold_arities@,
        r is Err && vkm_error(*vkm, min_test_queries) is None ==> r->Err_0 is FoldArities
            && r->Err_0->derived@ == params.fold_arities@ && r->Err_0->pinned@
            == vkm.fri_batch.fold_arities@,
{
    match check_vkm(vkm, min_test_queries) {
        Ok(_) => {},
        Err(e) => {
            return Err(e);
        },
    }
    if !sizes_eq(&params.fold_arities, &vkm.fri_batch.fold_arities) {
        let pinned = copy_sizes(&vkm.fri_batch.fold_arities);
        return Err(DischargeError::FoldArities { derived: params.fold_arities, pinned });
    }
    let log_domain: usize = log_domain_for(&vkm.dims);
    Ok(Pcs { params, log_domain })
}

/// A block of the row table: row `t` holds the histogram index at which it is counted.
pub open spec fn vk_column(dims: ShapeDims, terms: Seq<Term>, blk: int) -> Seq<B128> {
    Seq::new(
        exp2(dims.n_d as nat),
        |t: int| embed(address(dims, terms, blk, t) + blk * exp2(dims.n_a as nat)),
    )
}

/// The row table: three blocks of rows and a block of zeros.
pub open spec fn row_table(dims: ShapeDims, terms: Seq<Term>) -> Seq<B128> {
    vk_column(dims, terms, 0) + vk_column(dims, terms, 1) + vk_column(dims, terms, 2) + zeros(
        exp2(dims.n_d as nat),
    )
}

/// The address of a row in a block.
pub fn row_address(table: &TermTable, blk: usize, t: usize) -> (a: u64)
    requires
        table.wf(),
        table.dims.fits(),
        blk < 3,
    ensures
        a == address(table.dims, table.terms@, blk as int, t as int),
        a < exp2(table.dims.n_a as nat),
{
    proof {
        lemma_address_in(table.dims, table.terms@, blk as int, t as int);
        crate::histogram::lemma_block_in(table.dims, blk as int);
        lemma_exp2_pos(table.dims.lp as nat);
    }
    if t >= table.terms.len() {
        return 0;
    }
    let term = table.terms[t];
    proof {
        assert(term_in(table.dims, term));
        lemma_cube_fits(table.dims, term.y as int);
    }
    match blk {
        0 => term.x as u64,
        1 => cube_y(&table.dims, term.y) as u64,
        _ => term.u as u64,
    }
}

/// The row table of a term table, block by block.
pub fn build_m_vk(table: &TermTable) -> (m: Vec<B128>)
    requires
        table.wf(),
        table.dims.fits(),
        table.dims.n_a <= 126,
        exp2((table.dims.n_d + 2) as nat) <= usize::MAX,
    ensures
        m@ == row_table(table.dims, table.terms@),
        m@.len() == exp2((table.dims.n_d + 2) as nat),
{
    let dims = &table.dims;
    let ghost terms = table.terms@;
    let block: usize = exp2_usize(dims.n_d);
    proof {
        assert(exp2((dims.n_d + 2) as nat) == 2 * exp2((dims.n_d + 1) as nat));
        assert(exp2((dims.n_d + 1) as nat) == 2 * exp2(dims.n_d as nat));
    }
    let mut m: Vec<B128> = Vec::new();
    push_column(&mut m, table, 0, block);
    push_column(&mut m, table, 1, block);
    push_column(&mut m, table, 2, block);
    let ghost head = m@;
    let mut t: usize = 0;
    while t < block
        invariant
            t <= block,
            m@ == head + zeros(t as nat),
        decreases block - t,
    {
        m.push(zero());
        t = t + 1;
        assert(m@ =~= head + zeros(t as nat));
    }
    assert(m@ =~= row_table(*dims, terms));
    m
}

/// Appends one block of the row table.
fn push_column(m: &mut Vec<B128>, table: &TermTable, blk: usize, block: usize)
    requires
        table.wf(),
        table.dims.fits(),
        table.dims.n_a <= 126,
        blk < 3,
        block == exp2(table.dims.n_d as nat),
    ensures
        final(m)@ == old(m)@ + vk_column(table.dims, table.terms@, blk as int),
{
    let ghost col = vk_column(table.dims, table.terms@, blk as int);
    let mut t: usize = 0;
    while t < block
        invariant
            t <= block,
            table.wf(),
            table.dims.fits(),
            table.dims.n_a <= 126,
            blk < 3,
            block == exp2(table.dims.n_d as nat),
            col == vk_column(table.dims, table.terms@, blk as int),
            m@ == old(m)@ + col.take(t as int),
        decreases block - t,
    {
        let addr: u64 = row_address(table, blk, t);
        m.push(vk_entry(blk, addr, table.dims.n_a));
        t = t + 1;
        assert(m@ =~= old(m)@ + col.take(t as int));
    }
    assert(col.take(block as int) =~= col);
}

/// A verification key whose commitment is still to be made.
pub struct PendingVkm {
    /// The metadata, with an empty digest.
    pub vkm: DischargeVkm,
    pub pcs: Pcs,
    /// The row table to be committed.
    pub m_vk: Vec<B128>,
}

/// The metadata of a shape, up to the digest of its row table.
pub open spec fn vkm_of(
    v: DischargeVkm,
    table: TermTable,
    n_test_queries: usize,
    fold_arities: Seq<usize>,
) -> bool {
    &&& v.layout_version == LAYOUT_VERSION
    &&& v.row_order_version == ROW_ORDER_VERSION
    &&& v.hash_suite_id == HASH_SUITE_ID
    &&& v.lane_andonly
    &&& v.cs_digest@ == table.cs_digest@
    &&& v.dims == table.dims
    &&& v.tag_bits.0 == table.dims.n_a
    &&& v.tag_bits.1 == table.dims.n_a + 1
    &&& v.log_inv_rate == LOG_INV_RATE
    &&& v.n_test_queries == n_test_queries
    &&& v.fri_batch.fold_arities@ == fold_arities
}

/// Begins a verification key: the metadata and the row table that is to be committed.
/// `n_test_queries` is what the security target asks for, and `params` is derived from the
/// dimensions and that number.
pub fn prepare_vkgen(table: &TermTable, n_test_queries: usize, params: FriParams) -> (r: Result<
    PendingVkm,
    DischargeError,
>)
    requires
        table.wf(),
        table.dims.fits(),
        exp2((table.dims.n_d + 2) as nat) <= usize::MAX,
    ensures
        match r {
            Ok(p) => {
                &&& table.dims.n_a + 2 <= 64
                &&& vkm_of(p.vkm, *table, n_test_queries, params.fold_arities@)
                &&& p.vkm.layout_version == 4
                &&& p.vkm.row_order_version == 1
                &&& p.vkm.hash_suite_id == 1
                &&& p.vkm.log_inv_rate == 1
                &&& p.vkm.lane_andonly
                &&& p.vkm.tag_bits.0 == table.dims.n_a
                &&& p.vkm.tag_bits.1 == table.dims.n_a + 1
                &&& p.vkm.cs_digest@ == table.cs_digest@
                &&& p.vkm.dims == table.dims
                &&& p.vkm.n_test_queries == n_test_queries
                &&& p.vkm.fri_batch.fold_arities@ == params.fold_arities@
                &&& p.vkm.vk_digest@.len() == 0
                &&& p.pcs.params == params
                &&& p.pcs.log_domain == table.dims.n_d + 2 + LOG_INV_RATE
                &&& p.m_vk@ == row_table(table.dims, table.terms@)
            },
            Err(e) => table.dims.n_a + 2 > 64 && e == DischargeError::AddressWidthExceeded,
        },
{
    let dims = table.dims;
    proof {
        crate::multilinear::exp2::lemma_exp2_in_usize((dims.n_d + 2) as nat);
        law_coherent_is_derived(dims);
    }
    if dims.n_a > 62 {
        return Err(DischargeError::AddressWidthExceeded);
    }
    let (n_test_queries, fri_batch) = fri_shapes(n_test_queries, &params);
    let vkm = DischargeVkm {
        layout_version: LAYOUT_VERSION,
        row_order_version: ROW_ORDER_VERSION,
        hash_suite_id: HASH_SUITE_ID,
        lane_andonly: true,
        cs_digest: table.cs_digest,
        vk_digest: Vec::new(),
        dims,
        tag_bits: (dims.n_a, dims.n_a + 1),
        log_inv_rate: LOG_INV_RATE,
        n_test_queries,
        fri_batch,
    };
    let pcs = match build_pcs(&vkm, n_test_queries, params) {
        Ok(pcs) => pcs,
        Err(e) => {
            return Err(e);
        },
    };
    let m_vk = crate::packed::build_m_vk_packed(table);
    Ok(PendingVkm { vkm, pcs, m_vk })
}

/// The verification key of a shape, with the digest of its committed row table.
pub fn vkgen(pending: PendingVkm, digest: &[u8; 32]) -> (vkm: DischargeVkm)
    ensures
        vkm.vk_digest@ == digest@,
        same_vkm(vkm, (DischargeVkm { vk_digest: vkm.vk_digest, ..pending.vkm })),
{
    let mut vkm = pending.vkm;
    vkm.vk_digest = serialize_digest(digest);
    vkm
}

/// Generating a key twice gives the same metadata: it is a function of the term table, the
/// parameters and the digest.
pub proof fn law_vkgen_deterministic(
    v: DischargeVkm,
    w: DischargeVkm,
    table: TermTable,
    n_test_queries: usize,
    fold_arities: Seq<usize>,
)
    requires
        vkm_of(v, table, n_test_queries, fold_arities),
        vkm_of(w, table, n_test_queries, fold_arities),
        v.vk_digest@ == w.vk_digest@,
    ensures
        same_vkm(v, w),
{
}

/// Where every field of the metadata stands in the elements that a transcript absorbs.
pub proof fn law_vkm_elems_order(v: DischargeVkm)
    requires
        v.vk_digest@.len() == 32,
    ensures
        ({
            let e = vkm_elems(v);
            let d = v.dims;
            let a = v.fri_batch.fold_arities@;
            &&& e.len() == 26 + a.len()
            &&& e[0].bits == v.layout_version
            &&& e[1].bits == v.row_order_version
            &&& e[2].bits == v.hash_suite_id
            &&& e[3] == (if v.lane_andonly { one() } else { zero() })
            &&& e[4].bits == le_value(v.cs_digest@.take(16))
            &&& e[5].bits == le_value(v.cs_digest@.skip(16))
            &&& e[6].bits == le_value(v.vk_digest@.take(16))
            &&& e[7].bits == le_value(v.vk_digest@.skip(16))
            &&& e[8].bits == d.n_x && e[9].bits == d.n_x_mul && e[10].bits == d.n_y
            &&& e[11].bits == d.lp && e[12].bits == d.n_pub && e[13].bits == d.combined_len
            &&& e[14].bits == d.n_a && e[15].bits == d.n_d && e[16].bits == d.n_terms
            &&& e[17].bits == d.n_pad && e[18].bits == d.n_t
            &&& e[19] == (if d.parity { one() } else { zero() })
            &&& e[20].bits == d.arity
            &&& e[21].bits == v.tag_bits.0 && e[22].bits == v.tag_bits.1
            &&& e[23].bits == v.log_inv_rate && e[24].bits == v.n_test_queries
            &&& a.len() <= usize::MAX ==> e[25].bits == a.len()
            &&& forall|k: int| 0 <= k < a.len() ==> (#[trigger] e[26 + k]).bits == a[k]
        }),
{
    lemma_exp2_128();
    let (c, k) = (v.cs_digest@, v.vk_digest@);
    assert(c.take(16) =~= c.subrange(0, 16) && c.skip(16) =~= c.subrange(16, 32));
    assert(k.take(16) =~= k.subrange(0, 16) && k.skip(16) =~= k.subrange(16, 32));
    lemma_le_value_bound(c.take(16));
    lemma_le_value_bound(c.skip(16));
    lemma_le_value_bound(k.take(16));
    lemma_le_value_bound(k.skip(16));
}

/// What the metadata checks find wrong with dimensions: nothing exactly when every derived dimension is
/// what it is for, and the address, its selectors and the public segment fit in 64 bits; otherwise the
/// first of the conditions below that fails.
pub proof fn law_dims_checks(d: ShapeDims)
    ensures
        ({
            let word = d.n_y >= 1;
            let public = word && d.lp < 64;
            let width = public && d.n_a <= 62;
            let padded = width && d.n_terms <= d.n_pad && (exists|k: nat|
                #[trigger] exp2(k) == d.n_pad) && (d.n_pad == 1 || d.n_pad < 2 * d.n_terms);
            let rows = padded && d.n_pad == exp2(d.n_t as nat);
            let parity = rows && d.parity == (d.n_pad % 2 != d.n_terms % 2);
            let address = parity && d.n_a >= d.n_x && d.n_a >= d.n_y && d.n_a >= 11 && d.n_a + 2
                >= d.n_t && (d.n_a == d.n_x || d.n_a == d.n_y || d.n_a == 11 || d.n_a + 2
                == d.n_t);
            let table = address && d.n_d == d.n_a + 2;
            let arity = table && d.arity == 15 + d.n_x + d.n_x_mul + d.n_y;
            let segment = arity && d.n_pub == exp2(d.lp as nat);
            let combined = segment && d.n_pub <= d.combined_len;
            let hidden = combined && d.combined_len <= d.n_pub + exp2((d.n_y - 1) as nat);
            let e = dims_error(d);
            &&& hidden <==> e is None
            &&& !word <==> e == Some(DischargeError::WordAddressEmpty)
            &&& word && !public <==> e == Some(DischargeError::PublicLogOutOfRange)
            &&& public && !width <==> e == Some(DischargeError::AddressWidthExceeded)
            &&& width && !padded <==> e == Some(DischargeError::PaddedCountIncoherent)
            &&& padded && !rows <==> e == Some(DischargeError::RowVariablesIncoherent)
            &&& rows && !parity <==> e == Some(DischargeError::ParityIncoherent)
            &&& parity && !address <==> e == Some(DischargeError::AddressWidthIncoherent)
            &&& address && !table <==> e == Some(DischargeError::TableVariablesIncoherent)
            &&& table && !arity <==> e == Some(DischargeError::ArityIncoherent)
            &&& arity && !segment <==> e == Some(DischargeError::PublicLengthIncoherent)
            &&& segment && !combined <==> e == Some(DischargeError::CombinedLengthIncoherent)
            &&& combined && !hidden <==> e == Some(DischargeError::HiddenSegmentTooLong)
        }),
{
    let v = d.n_terms as nat;
    lemma_log2_ceil(v);
    let k0 = log2_ceil(v);
    assert(exp2(0) == 1);
    if k0 > 0 {
        assert(exp2(k0) == 2 * exp2((k0 - 1) as nat));
    }
    assert forall|k: nat| d.n_terms <= #[trigger] exp2(k) && (exp2(k) == 1 || exp2(k) < 2
        * d.n_terms) implies k == k0 by {
        if k > 0 {
            assert(exp2(k) == 2 * exp2((k - 1) as nat));
            lemma_exp2_pos((k - 1) as nat);
        }
        crate::multilinear::exp2::lemma_log2_ceil_unique(v, k);
    }
    if d.n_pad == exp2(k0) && exp2(d.n_t as nat) == exp2(k0) {
        crate::multilinear::exp2::lemma_exp2_injective(d.n_t as nat, k0);
    }
    if k0 == 0 {
        assert(exp2(k0) == 1);
    }
}

/// A key is refused exactly when one of its fixed fields has another value, its tags are not the two
/// bits above the address, it asks for fewer queries than needed, or its dimensions do not cohere.
pub proof fn law_key_checks(v: DischargeVkm, min_test_queries: usize)
    ensures
        vkm_error(v, min_test_queries) is None <==> {
            &&& v.layout_version == 4
            &&& v.row_order_version == 1
            &&& v.hash_suite_id == 1
            &&& v.log_inv_rate == 1
            &&& v.lane_andonly
            &&& v.tag_bits.0 == v.dims.n_a
            &&& v.tag_bits.1 == v.dims.n_a + 1
            &&& v.n_test_queries >= min_test_queries
            &&& dims_error(v.dims) is None
        },
        v.layout_version != 4 <==> vkm_error(v, min_test_queries) == Some(
            DischargeError::LayoutVersion,
        ),
        match vkm_error(v, min_test_queries) {
            None => true,
            Some(DischargeError::LayoutVersion) => true,
            Some(DischargeError::RowOrderVersion) => v.row_order_version != 1,
            Some(DischargeError::HashSuite) => v.hash_suite_id != 1,
            Some(DischargeError::LogInvRate) => v.log_inv_rate != 1,
            Some(DischargeError::NotAndOnlyLane) => !v.lane_andonly,
            Some(DischargeError::TagBits) => v.tag_bits.0 != v.dims.n_a || v.tag_bits.1
                != v.dims.n_a + 1,
            Some(DischargeError::TestQueries) => v.n_test_queries < min_test_queries,
            Some(e) => dims_error(v.dims) == Some(e),
        },
{
}

/// Every key that is made for a term table is accepted, if it has the queries that are needed and the
/// address with its selectors fits in 64 bits.
pub proof fn law_honest_key_accepted(
    v: DischargeVkm,
    table: TermTable,
    n_test_queries: usize,
    fold_arities: Seq<usize>,
    min_test_queries: usize,
)
    requires
        table.dims.derived(),
        table.dims.n_a <= 62,
        vkm_of(v, table, n_test_queries, fold_arities),
        n_test_queries >= min_test_queries,
    ensures
        vkm_error(v, min_test_queries) is None,
{
    law_coherent_is_derived(table.dims);
}

/// The entries of the row table. In block `b` the entry of row `t` is the integer whose low bits are
/// the row's constraint, segmented word or meta index, with `b` in the two bits above; padding rows
/// have index zero; and the last block is zero.
pub proof fn law_row_entries(dims: ShapeDims, terms: Seq<Term>, blk: int, t: int)
    requires
        dims.segmented(),
        dims.n_a <= 126,
        forall|i: int| 0 <= i < terms.len() ==> term_in(dims, #[trigger] terms[i]),
        0 <= t < exp2(dims.n_d as nat),
        0 <= blk < 4,
    ensures
        row_table(dims, terms).len() == 4 * exp2(dims.n_d as nat),
        row_table(dims, terms)[t + blk * exp2(dims.n_d as nat)].bits == (if blk == 3 {
            0
        } else if t >= terms.len() {
            blk * exp2(dims.n_a as nat)
        } else if blk == 0 {
            terms[t].x as int
        } else if blk == 1 {
            crate::table::cube_index(dims, terms[t].y as int) + exp2(dims.n_a as nat)
        } else {
            terms[t].u + 2 * exp2(dims.n_a as nat)
        }),
{
    let n = exp2(dims.n_d as nat) as int;
    let q = exp2(dims.n_a as nat) as int;
    assert(0 * n == 0 && 1 * n == n && 2 * n == n + n && 3 * n == n + n + n) by (nonlinear_arith);
    assert(0 * q == 0 && 1 * q == q && 2 * q == q + q) by (nonlinear_arith);
    let table = row_table(dims, terms);
    lemma_exp2_128();
    lemma_exp2_mono((dims.n_a + 2) as nat, 128);
    assert(exp2((dims.n_a + 2) as nat) == 2 * exp2((dims.n_a + 1) as nat));
    assert(exp2((dims.n_a + 1) as nat) == 2 * q);
    if blk < 3 {
        lemma_address_in(dims, terms, blk, t);
        crate::histogram::lemma_block_in(dims, blk);
        assert(table[t + blk * n] == vk_column(dims, terms, blk)[t]);
        if t >= terms.len() {
            lemma_exp2_pos(dims.lp as nat);
        }
    } else {
        assert(table[t + blk * n] == zero());
    }
}

/// The tag of a block is the block number in the two bits above the address.
pub proof fn law_tag_bits(n_a: nat, blk: int)
    requires
        n_a <= 126,
        0 <= blk < 4,
    ensures
        tag(n_a, blk).bits == blk * exp2(n_a),
{
    let q = exp2(n_a) as int;
    lemma_exp2_128();
    lemma_exp2_mono(n_a + 2, 128);
    assert(exp2(n_a + 2) == 2 * exp2(n_a + 1));
    assert(exp2(n_a + 1) == 2 * q);
    assert(0 <= blk * q <= 3 * q) by (nonlinear_arith)
        requires
            0 <= blk <= 3,
            q >= 0,
    ;
}

/// Two lists of fold arities agree exactly when no error names them: a mismatch is an error that holds
/// both, and lists of different lengths, or that differ at some place, are a mismatch.
pub proof fn law_fold_mismatch(derived: Seq<usize>, pinned: Seq<usize>, e: DischargeError)
    requires
        e is FoldArities,
        e->derived@ == derived,
        e->pinned@ == pinned,
    ensures
        fold_mismatch(derived, pinned, e) <==> derived.len() != pinned.len() || exists|i: int|
            0 <= i < derived.len() && #[trigger] derived[i] != pinned[i],
{
    if derived.len() == pinned.len() && !exists|i: int|
        0 <= i < derived.len() && #[trigger] derived[i] != pinned[i] {
        assert(derived =~= pinned);
    }
}

} // verus!
