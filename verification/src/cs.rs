//! Constraint systems over 64-bit words: the shape data that a discharge is made for.
//!
//! An operand is a XOR of shifted words of the value vector. The value vector has two segments:
//! the public words, whose number is a power of two, and the hidden words.

use crate::multilinear::exp2::{checked_next_power_of_two, exp2, log2_ceil, log2_ceil_usize};
use vstd::prelude::*;

verus! {

/// The kinds of shift that an operand may apply to a word.
#[derive(Debug, Clone, Copy, PartialEq, Eq, Structural)]
pub enum ShiftVariant {
    Sll,
    Slr,
    Sar,
    Rotr,
    Sll32,
    Srl32,
    Sra32,
    Rotr32,
}

/// The number of shift kinds.
pub const SHIFT_VARIANT_COUNT: usize = 8;

impl ShiftVariant {
    /// The position of a shift kind in the canonical order.
    pub open spec fn id(self) -> nat {
        match self {
            ShiftVariant::Sll => 0,
            ShiftVariant::Slr => 1,
            ShiftVariant::Sar => 2,
            ShiftVariant::Rotr => 3,
            ShiftVariant::Sll32 => 4,
            ShiftVariant::Srl32 => 5,
            ShiftVariant::Sra32 => 6,
            ShiftVariant::Rotr32 => 7,
        }
    }
}

/// A word of the value vector.
#[derive(Debug, Clone, Copy, PartialEq, Eq, Structural)]
pub struct ValueIndex(pub u32);

/// A shifted word of the value vector.
#[derive(Debug, Clone, Copy, PartialEq, Eq, Structural)]
pub struct ShiftedValueIndex {
    pub value_index: ValueIndex,
    pub shift_variant: ShiftVariant,
    pub amount: u8,
}

impl ShiftedValueIndex {
    /// The word itself: a left shift by zero.
    pub fn plain(value_index: ValueIndex) -> (r: ShiftedValueIndex)
        ensures
            r == (ShiftedValueIndex { value_index, shift_variant: ShiftVariant::Sll, amount: 0 }),
    {
        ShiftedValueIndex { value_index, shift_variant: ShiftVariant::Sll, amount: 0 }
    }
}

/// `a & b == c`, bit by bit.
#[derive(Debug, Clone, PartialEq, Eq)]
pub struct AndConstraint {
    pub a: Vec<ShiftedValueIndex>,
    pub b: Vec<ShiftedValueIndex>,
    pub c: Vec<ShiftedValueIndex>,
}

/// `a * b == hi * 2^64 + lo`, as integers.
#[derive(Debug, Clone, PartialEq, Eq)]
pub struct ImulConstraint {
    pub a: Vec<ShiftedValueIndex>,
    pub b: Vec<ShiftedValueIndex>,
    pub hi: Vec<ShiftedValueIndex>,
    pub lo: Vec<ShiftedValueIndex>,
}

/// `a * b == c` in GF(2^128), each factor given as two words.
#[derive(Debug, Clone, PartialEq, Eq)]
pub struct BmulConstraint {
    pub a_lo: Vec<ShiftedValueIndex>,
    pub a_hi: Vec<ShiftedValueIndex>,
    pub b_lo: Vec<ShiftedValueIndex>,
    pub b_hi: Vec<ShiftedValueIndex>,
    pub c_lo: Vec<ShiftedValueIndex>,
    pub c_hi: Vec<ShiftedValueIndex>,
}

/// Where the constants, the inputs and outputs, and the witness lie in the value vector.
#[derive(Debug, Clone, PartialEq, Eq)]
pub struct ValueVecLayout {
    pub n_const: usize,
    pub n_inout: usize,
    pub n_witness: usize,
    pub n_internal: usize,
    pub offset_inout: usize,
    /// The length of the public segment; the hidden segment starts here.
    pub offset_witness: usize,
    /// The length of the hidden segment.
    pub n_hidden_words: usize,
    pub n_scratch: usize,
}

impl ValueVecLayout {
    /// The length of the public segment.
    pub fn n_public_words(&self) -> (n: usize)
        ensures
            n == self.offset_witness,
    {
        self.offset_witness
    }

    /// The number of word-index variables of the public segment.
    pub fn log_public_words(&self) -> (n: usize)
        ensures
            n == log2_ceil(self.offset_witness as nat),
            n <= 64,
    {
        log2_ceil_usize(self.offset_witness)
    }

    /// The number of word-index variables of the hidden segment.
    pub fn log_witness_words(&self) -> (n: usize)
        ensures
            n == log2_ceil(self.n_hidden_words as nat),
            n <= 64,
    {
        log2_ceil_usize(self.n_hidden_words)
    }

    /// The number of words that operands can refer to.
    pub fn combined_len(&self) -> (n: usize)
        requires
            self.offset_witness + self.n_hidden_words <= usize::MAX,
        ensures
            n == self.offset_witness + self.n_hidden_words,
    {
        self.offset_witness + self.n_hidden_words
    }
}

/// A constraint system.
#[derive(Debug, Clone, PartialEq, Eq)]
pub struct ConstraintSystem {
    pub constants: Vec<u64>,
    pub value_vec_layout: ValueVecLayout,
    pub and_constraints: Vec<AndConstraint>,
    pub imul_constraints: Vec<ImulConstraint>,
    pub bmul_constraints: Vec<BmulConstraint>,
}

/// Whether an AND constraint has no operand terms at all: the filler that preparation appends.
pub open spec fn is_empty_and(c: AndConstraint) -> bool {
    c.a@.len() == 0 && c.b@.len() == 0 && c.c@.len() == 0
}

impl ConstraintSystem {
    /// A constraint system from its parts.
    pub fn new(
        constants: Vec<u64>,
        value_vec_layout: ValueVecLayout,
        and_constraints: Vec<AndConstraint>,
        imul_constraints: Vec<ImulConstraint>,
        bmul_constraints: Vec<BmulConstraint>,
    ) -> (r: ConstraintSystem)
        ensures
            r.constants == constants,
            r.value_vec_layout == value_vec_layout,
            r.and_constraints == and_constraints,
            r.imul_constraints == imul_constraints,
            r.bmul_constraints == bmul_constraints,
    {
        ConstraintSystem {
            constants,
            value_vec_layout,
            and_constraints,
            imul_constraints,
            bmul_constraints,
        }
    }

    /// Appends empty AND constraints until their number is a power of two.
    pub fn pad_and_constraints(&mut self)
        requires
            exp2(log2_ceil(old(self).and_constraints@.len())) <= usize::MAX,
        ensures
            final(self).constants == old(self).constants,
            final(self).value_vec_layout == old(self).value_vec_layout,
            final(self).imul_constraints == old(self).imul_constraints,
            final(self).bmul_constraints == old(self).bmul_constraints,
            final(self).and_constraints@.len() == exp2(
                log2_ceil(old(self).and_constraints@.len()),
            ),
            old(self).and_constraints@.len() <= final(self).and_constraints@.len(),
            forall|i: int|
                0 <= i < old(self).and_constraints@.len() ==> final(self).and_constraints@[i]
                    == old(self).and_constraints@[i],
            forall|i: int|
                old(self).and_constraints@.len() <= i < final(self).and_constraints@.len()
                    ==> is_empty_and(#[trigger] final(self).and_constraints@[i]),
            forall|i: int|
                old(self).and_constraints@.len() <= i < final(self).and_constraints@.len() ==> {
                    let c = #[trigger] final(self).and_constraints@[i];
                    c.a@.len() == 0 && c.b@.len() == 0 && c.c@.len() == 0
                },
    {
        let n: usize = self.and_constraints.len();
        let target: usize = match checked_next_power_of_two(n) {
            Some(p) => p,
            None => n,
        };
        proof {
            crate::multilinear::exp2::lemma_log2_ceil(n as nat);
        }
        while self.and_constraints.len() < target
            invariant
                n <= self.and_constraints@.len() <= target,
                n == old(self).and_constraints@.len(),
                self.constants == old(self).constants,
                self.value_vec_layout == old(self).value_vec_layout,
                self.imul_constraints == old(self).imul_constraints,
                self.bmul_constraints == old(self).bmul_constraints,
                forall|i: int|
                    0 <= i < n ==> self.and_constraints@[i] == old(self).and_constraints@[i],
                forall|i: int|
                    n <= i < self.and_constraints@.len() ==> is_empty_and(
                        #[trigger] self.and_constraints@[i],
                    ),
            decreases target - self.and_constraints@.len(),
        {
            self.and_constraints.push(
                AndConstraint { a: Vec::new(), b: Vec::new(), c: Vec::new() },
            );
        }
    }
}

} // verus!
