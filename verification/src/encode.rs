//! Integers and byte strings as field elements.

use crate::field::element::B128;
use crate::multilinear::exp2::{exp2, lemma_exp2_64, lemma_exp2_add, lemma_exp2_mono, lemma_exp2_small};
use vstd::prelude::*;

verus! {

/// The field element whose coefficient bits are the binary digits of an integer.
pub open spec fn embed(n: int) -> B128 {
    B128 { bits: n as u128 }
}

/// The integer with the given bytes, lowest byte first.
pub open spec fn le_value(s: Seq<u8>) -> nat
    decreases s.len(),
{
    if s.len() == 0 {
        0
    } else {
        s[0] as nat + 256 * le_value(s.skip(1))
    }
}

/// `2^128`.
pub proof fn lemma_exp2_128()
    ensures
        exp2(127) == 0x8000_0000_0000_0000_0000_0000_0000_0000,
        exp2(128) == 0x1_0000_0000_0000_0000_0000_0000_0000_0000,
{
    lemma_exp2_64();
    lemma_exp2_add(64, 64);
    assert(exp2(128) == 2 * exp2(127));
}

/// The value of `n` bytes is below `2^(8 n)`.
pub proof fn lemma_le_value_bound(s: Seq<u8>)
    ensures
        le_value(s) < exp2(8 * s.len()),
    decreases s.len(),
{
    if s.len() > 0 {
        lemma_le_value_bound(s.skip(1));
        lemma_exp2_small();
        lemma_exp2_add(8, 8 * s.skip(1).len());
    }
}

/// Byte strings of one length with the same value are equal.
pub proof fn law_le_value_injective(a: Seq<u8>, b: Seq<u8>)
    requires
        a.len() == b.len(),
        le_value(a) == le_value(b),
    ensures
        a == b,
    decreases a.len(),
{
    if a.len() > 0 {
        law_le_value_injective(a.skip(1), b.skip(1));
        assert(a =~= seq![a[0]] + a.skip(1));
        assert(b =~= seq![b[0]] + b.skip(1));
    } else {
        assert(a =~= b);
    }
}

/// Integers below `2^128` are embedded injectively.
pub proof fn law_embed_injective(m: int, n: int)
    requires
        0 <= m < exp2(128),
        0 <= n < exp2(128),
        embed(m) == embed(n),
    ensures
        m == n,
{
    lemma_exp2_128();
}

/// Sixteen bytes from `off` on, lowest byte first, as a field element.
pub fn le_element(s: &[u8], off: usize) -> (r: B128)
    requires
        off + 16 <= s@.len(),
    ensures
        r == embed(le_value(s@.subrange(off as int, off + 16)) as int),
{
    let ghost part = s@.subrange(off as int, off + 16);
    let mut acc: u128 = 0;
    let mut i: usize = 16;
    assert(part.skip(16) =~= Seq::empty());
    while i > 0
        invariant
            i <= 16,
            off + 16 <= s.len(),
            part == s@.subrange(off as int, off + 16),
            acc == le_value(part.skip(i as int)),
        decreases i,
    {
        proof {
            let rest = part.skip(i as int);
            let next = part.skip(i - 1);
            assert(next.skip(1) =~= rest);
            lemma_le_value_bound(next);
            lemma_exp2_mono(8 * next.len(), 128);
            lemma_exp2_128();
        }
        acc = s[off + i - 1] as u128 + 256 * acc;
        i = i - 1;
    }
    assert(part.skip(0) =~= part);
    B128::new(acc)
}

/// A machine word as a field element.
pub fn embed_usize(n: usize) -> (r: B128)
    ensures
        r == embed(n as int),
{
    B128::new(n as u128)
}

/// A 64-bit word as a field element.
pub fn embed_u64(n: u64) -> (r: B128)
    ensures
        r == embed(n as int),
{
    B128::new(n as u128)
}

/// A flag as a field element.
pub fn embed_bool(b: bool) -> (r: B128)
    ensures
        r == embed(if b {
            1
        } else {
            0
        }),
{
    B128::new(if b {
        1
    } else {
        0
    })
}

/// The coefficient bits of an embedded integer are its binary digits.
pub proof fn law_embed_bits(n: int)
    requires
        0 <= n < exp2(128),
    ensures
        embed(n).bits == n,
{
    lemma_exp2_128();
}

/// Bytes count from the lowest on: a further byte at the end counts `2^8` more often for each byte
/// before it.
pub proof fn law_le_value_grows(s: Seq<u8>, b: u8)
    ensures
        le_value(Seq::empty()) == 0,
        le_value(s.push(b)) == le_value(s) + b * exp2(8 * s.len()),
    decreases s.len(),
{
    if s.len() == 0 {
        assert(s.push(b).skip(1) =~= Seq::empty());
        let e = exp2(8 * s.len()) as int;
        assert(exp2(0) == 1);
        assert(s.push(b)[0] == b);
        assert(b as int * e == b as int) by (nonlinear_arith)
            requires
                e == 1,
        ;
    } else {
        let t = s.skip(1);
        law_le_value_grows(t, b);
        assert(s.push(b).skip(1) =~= t.push(b));
        lemma_exp2_small();
        lemma_exp2_add(8, 8 * t.len());
        let e = exp2(8 * t.len()) as int;
        assert(256 * (b as int * e) == b as int * (256 * e)) by (nonlinear_arith);
    }
}

} // verus!
