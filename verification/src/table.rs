//! The term table of a constraint-system shape: its dimensions, and one row per operand term.
//!
//! A term is one occurrence of a shifted word in slot `m` (0 = a, 1 = b, 2 = c) of AND constraint
//! `x`. Its meta index `u` has 11 bits: the shift amount (bits 0 to 5), the shift kind (bits 6 to
//! 8) and the slot (bits 9 and 10).

use crate::cs::{
    AndConstraint, BmulConstraint, ConstraintSystem, ImulConstraint, ShiftVariant,
    ShiftedValueIndex,
};
use crate::digest::{sha256, sha256_of};
use crate::error::DischargeError;
use crate::multilinear::exp2::{
    exp2, exp2_usize, is_exp2, lemma_exp2_injective, lemma_exp2_mono, lemma_log2_ceil,
    lemma_log2_ceil_unique, log2_ceil, log2_ceil_usize, log2_exact,
};
use vstd::prelude::*;

verus! {

/// The number of meta-index variables: 6 for the shift amount, 3 for its kind, 2 for the slot.
pub const N_U: usize = 11;

/// The number of bit-index variables of a 64-bit word.
pub const LOG_WORD_SIZE_BITS: usize = 6;

/// One operand term.
#[derive(Debug, Clone, Copy, PartialEq, Eq, Structural)]
pub struct Term {
    /// The AND constraint.
    pub x: u32,
    /// The word of the value vector.
    pub y: u32,
    /// The meta index: amount, kind and slot.
    pub u: u16,
}

/// The dimensions of a prepared AND-only constraint system.
#[derive(Debug, Clone, Copy, PartialEq, Eq, Structural)]
pub struct ShapeDims {
    /// log2 of the number of AND constraints.
    pub n_x: usize,
    /// log2 of the number of IMUL constraints; zero when there are none.
    pub n_x_mul: usize,
    /// The width of a segmented word address: the word-index variables of the hidden segment and
    /// one more that selects the segment.
    pub n_y: usize,
    /// The word-index variables of the public segment.
    pub lp: usize,
    /// The length of the public segment, `2^lp`.
    pub n_pub: usize,
    /// The number of words that operands can refer to.
    pub combined_len: usize,
    /// The address width of a block of the histogram table.
    pub n_a: usize,
    /// The number of variables of the histogram table: two selectors above the address.
    pub n_d: usize,
    /// The number of terms.
    pub n_terms: usize,
    /// The number of terms, rounded up to a power of two.
    pub n_pad: usize,
    /// log2 of `n_pad`.
    pub n_t: usize,
    /// Whether the number of padding rows is odd.
    pub parity: bool,
    /// The number of coordinates of a claim point.
    pub arity: usize,
}

/// The term table of one shape.
#[derive(Debug, Clone, PartialEq, Eq)]
pub struct TermTable {
    pub dims: ShapeDims,
    pub terms: Vec<Term>,
    pub cs_digest: [u8; 32],
}

/// The larger of two numbers.
pub open spec fn max2(a: nat, b: nat) -> nat {
    if a >= b {
        a
    } else {
        b
    }
}

/// The address width that holds AND-constraint indices, segmented word addresses, meta indices,
/// and, with two selectors on top, the term indices.
pub open spec fn address_width(n_x: nat, n_y: nat, n_t: nat) -> nat {
    max2(
        max2(max2(n_x, n_y), N_U as nat),
        if n_t >= 2 {
            (n_t - 2) as nat
        } else {
            0
        },
    )
}

impl ShapeDims {
    /// The derived fields follow from the others.
    pub open spec fn derived(self) -> bool {
        &&& self.n_y >= 1
        &&& self.n_pad == exp2(log2_ceil(self.n_terms as nat))
        &&& self.n_t == log2_ceil(self.n_terms as nat)
        &&& self.parity == ((self.n_pad - self.n_terms) % 2 == 1)
        &&& self.n_a == address_width(self.n_x as nat, self.n_y as nat, self.n_t as nat)
        &&& self.n_d == self.n_a + 2
        &&& self.arity == 3 + self.n_x + self.n_x_mul + 2 * LOG_WORD_SIZE_BITS + self.n_y
        &&& self.n_pub == exp2(self.lp as nat)
        &&& self.n_pub <= self.combined_len
        &&& self.combined_len - self.n_pub <= exp2((self.n_y - 1) as nat)
    }

    /// The public segment fits beside the hidden one: what a shape taken from a constraint system
    /// satisfies beyond the derived fields.
    pub open spec fn segmented(self) -> bool {
        &&& self.derived()
        &&& self.lp <= self.n_y - 1
        &&& self.n_terms > 0
    }

    /// Machine limits: the tables over the histogram domain can be indexed, and segmented word
    /// addresses fit in 32 bits.
    pub open spec fn fits(self) -> bool {
        &&& exp2(self.n_d as nat) <= usize::MAX
        &&& self.n_y <= 32
    }
}

/// The position of a word in the segmented cube: public words keep their index, hidden words
/// follow from `2^(n_y - 1)` on.
pub open spec fn cube_index(dims: ShapeDims, y: int) -> int {
    if y < dims.n_pub {
        y
    } else {
        y - dims.n_pub + exp2((dims.n_y - 1) as nat)
    }
}

/// A term belongs to a shape.
pub open spec fn term_in(dims: ShapeDims, term: Term) -> bool {
    &&& term.x < exp2(dims.n_x as nat)
    &&& term.y < dims.combined_len
    &&& term.u < exp2(N_U as nat)
}

impl TermTable {
    /// The rows belong to the shape, and there are as many as it says.
    pub open spec fn wf(self) -> bool {
        &&& self.dims.segmented()
        &&& self.terms@.len() == self.dims.n_terms
        &&& forall|t: int| 0 <= t < self.terms@.len() ==> term_in(self.dims, #[trigger] self.terms@[t])
    }
}

/// No operand of an IMUL constraint has a term.
pub open spec fn imul_is_empty(c: ImulConstraint) -> bool {
    c.a@.len() == 0 && c.b@.len() == 0 && c.hi@.len() == 0 && c.lo@.len() == 0
}

/// No operand of a BMUL constraint has a term.
pub open spec fn bmul_is_empty(c: BmulConstraint) -> bool {
    &&& c.a_lo@.len() == 0
    &&& c.a_hi@.len() == 0
    &&& c.b_lo@.len() == 0
    &&& c.b_hi@.len() == 0
    &&& c.c_lo@.len() == 0
    &&& c.c_hi@.len() == 0
}

/// Every IMUL and BMUL constraint is the empty filler.
pub open spec fn is_andonly(cs: ConstraintSystem) -> bool {
    &&& forall|i: int|
        0 <= i < cs.imul_constraints@.len() ==> imul_is_empty(#[trigger] cs.imul_constraints@[i])
    &&& forall|i: int|
        0 <= i < cs.bmul_constraints@.len() ==> bmul_is_empty(#[trigger] cs.bmul_constraints@[i])
}

/// An occurrence of a shifted word: its constraint, its slot and the word.
pub struct Occurrence {
    pub x: int,
    pub m: int,
    pub svi: ShiftedValueIndex,
}

/// The occurrences in one operand, in order.
pub open spec fn operand_occurrences(x: int, m: int, operand: Seq<ShiftedValueIndex>) -> Seq<
    Occurrence,
> {
    Seq::new(operand.len(), |j: int| Occurrence { x, m, svi: operand[j] })
}

/// The occurrences in one constraint: slot a, slot b, slot c.
pub open spec fn constraint_occurrences(x: int, c: AndConstraint) -> Seq<Occurrence> {
    operand_occurrences(x, 0, c.a@) + operand_occurrences(x, 1, c.b@) + operand_occurrences(
        x,
        2,
        c.c@,
    )
}

/// The occurrences in the first `k` constraints, constraint by constraint.
pub open spec fn occurrences(cs: Seq<AndConstraint>, k: nat) -> Seq<Occurrence>
    decreases k,
{
    if k == 0 {
        Seq::empty()
    } else {
        occurrences(cs, (k - 1) as nat) + constraint_occurrences(k - 1, cs[k - 1])
    }
}

/// All occurrences of a constraint system in canonical order.
pub open spec fn all_occurrences(cs: ConstraintSystem) -> Seq<Occurrence> {
    occurrences(cs.and_constraints@, cs.and_constraints@.len())
}

/// The row of an occurrence.
pub open spec fn term_of(o: Occurrence) -> Term {
    Term {
        x: o.x as u32,
        y: o.svi.value_index.0,
        u: (o.svi.amount + 64 * o.svi.shift_variant.id() + 512 * o.m) as u16,
    }
}

/// What is wrong with a shifted word, if anything.
pub open spec fn operand_error(svi: ShiftedValueIndex, combined_len: nat) -> Option<
    DischargeError,
> {
    if svi.amount >= 64 {
        Some(DischargeError::ShiftAmountOutOfRange)
    } else if svi.value_index.0 >= combined_len {
        Some(
            DischargeError::ValueIndexOutOfRange {
                index: svi.value_index.0,
                combined_len: combined_len as usize,
            },
        )
    } else {
        None
    }
}

/// `e` is the error of the first faulty occurrence.
pub open spec fn first_operand_error(occ: Seq<Occurrence>, combined_len: nat, e: DischargeError) -> bool {
    exists|i: int|
        {
            &&& 0 <= i < occ.len()
            &&& #[trigger] operand_error(occ[i].svi, combined_len) == Some(e)
            &&& forall|j: int|
                0 <= j < i ==> #[trigger] operand_error(occ[j].svi, combined_len) is None
        }
}

/// No occurrence is faulty.
pub open spec fn operands_ok(occ: Seq<Occurrence>, combined_len: nat) -> bool {
    forall|i: int| 0 <= i < occ.len() ==> #[trigger] operand_error(occ[i].svi, combined_len) is None
}

/// The first admission rule that a constraint system violates, if any.
pub open spec fn shape_error(cs: ConstraintSystem) -> Option<DischargeError> {
    let layout = cs.value_vec_layout;
    let n_and = cs.and_constraints@.len();
    let n_imul = cs.imul_constraints@.len();
    if !is_andonly(cs) {
        Some(DischargeError::NotAndOnly)
    } else if !is_exp2(n_and) {
        Some(DischargeError::AndCountNotPowerOfTwo { count: n_and as usize })
    } else if n_imul > 0 && !is_exp2(n_imul) {
        Some(DischargeError::ImulCountNotPowerOfTwo { count: n_imul as usize })
    } else if !is_exp2(layout.offset_witness as nat) {
        Some(DischargeError::PublicNotPowerOfTwo)
    } else if log2_ceil(layout.n_hidden_words as nat) < log2_ceil(layout.offset_witness as nat) {
        Some(DischargeError::HiddenShorterThanPublic)
    } else if all_occurrences(cs).len() == 0 {
        Some(DischargeError::EmptyTermTable)
    } else {
        None
    }
}

/// The dimensions that belong to an admissible constraint system.
pub open spec fn is_shape_of(dims: ShapeDims, cs: ConstraintSystem) -> bool {
    let layout = cs.value_vec_layout;
    &&& dims.derived()
    &&& exp2(dims.n_x as nat) == cs.and_constraints@.len()
    &&& if cs.imul_constraints@.len() == 0 {
        dims.n_x_mul == 0
    } else {
        exp2(dims.n_x_mul as nat) == cs.imul_constraints@.len()
    }
    &&& dims.n_y == log2_ceil(layout.n_hidden_words as nat) + 1
    &&& dims.n_pub == layout.offset_witness
    &&& dims.combined_len == layout.offset_witness + layout.n_hidden_words
    &&& dims.n_terms == all_occurrences(cs).len()
}

/// A constraint system has a term table: its shape is admitted, and no operand is faulty.
pub open spec fn has_table(cs: ConstraintSystem) -> bool {
    &&& shape_error(cs) is None
    &&& operands_ok(
        all_occurrences(cs),
        (cs.value_vec_layout.offset_witness + cs.value_vec_layout.n_hidden_words) as nat,
    )
}

/// Machine limits on a constraint system: constraint indices fit in 32 bits, and the sizes of its
/// value vector and of its padded term table fit in a word.
pub open spec fn cs_fits(cs: ConstraintSystem) -> bool {
    &&& cs.and_constraints@.len() <= 0x1_0000_0000
    &&& cs.value_vec_layout.offset_witness + cs.value_vec_layout.n_hidden_words <= usize::MAX
    &&& exp2(log2_ceil(all_occurrences(cs).len())) <= usize::MAX
}

/// A constraint system has one shape only.
pub proof fn law_shape_unique(d: ShapeDims, e: ShapeDims, cs: ConstraintSystem)
    requires
        is_shape_of(d, cs),
        is_shape_of(e, cs),
    ensures
        d == e,
{
    lemma_exp2_injective(d.n_x as nat, e.n_x as nat);
    lemma_exp2_injective(d.lp as nat, e.lp as nat);
    if cs.imul_constraints@.len() > 0 {
        lemma_exp2_injective(d.n_x_mul as nat, e.n_x_mul as nat);
    }
}

/// Segmented addresses lie in the cube, and distinct words have distinct addresses.
pub proof fn law_cube_index(dims: ShapeDims, y: int, z: int)
    requires
        dims.segmented(),
        0 <= y < dims.combined_len,
        0 <= z < dims.combined_len,
    ensures
        0 <= cube_index(dims, y) < exp2(dims.n_y as nat),
        (y < dims.n_pub) == (cube_index(dims, y) < exp2((dims.n_y - 1) as nat)),
        cube_index(dims, y) == cube_index(dims, z) ==> y == z,
{
    lemma_exp2_mono(dims.lp as nat, (dims.n_y - 1) as nat);
}

/// The number of occurrences grows with the constraints.
proof fn lemma_occurrences_grow(cs: Seq<AndConstraint>, j: nat, k: nat)
    requires
        j <= k,
    ensures
        occurrences(cs, j).len() <= occurrences(cs, k).len(),
        forall|i: int| 0 <= i < occurrences(cs, j).len() ==> occurrences(cs, j)[i] == #[trigger] occurrences(cs, k)[i],
    decreases k,
{
    if j < k {
        lemma_occurrences_grow(cs, j, (k - 1) as nat);
    }
}

/// Whether every IMUL and BMUL constraint is the empty filler.
pub fn andonly(cs: &ConstraintSystem) -> (r: bool)
    ensures
        r == is_andonly(*cs),
        r ==> forall|i: int|
            0 <= i < cs.imul_constraints@.len() ==> {
                let c = #[trigger] cs.imul_constraints@[i];
                c.a@.len() == 0 && c.b@.len() == 0 && c.hi@.len() == 0 && c.lo@.len() == 0
            },
        r ==> forall|i: int|
            0 <= i < cs.bmul_constraints@.len() ==> {
                let c = #[trigger] cs.bmul_constraints@[i];
                &&& c.a_lo@.len() == 0 && c.a_hi@.len() == 0
                &&& c.b_lo@.len() == 0 && c.b_hi@.len() == 0
                &&& c.c_lo@.len() == 0 && c.c_hi@.len() == 0
            },
{
    let mut i: usize = 0;
    while i < cs.imul_constraints.len()
        invariant
            i <= cs.imul_constraints@.len(),
            forall|j: int| 0 <= j < i ==> imul_is_empty(#[trigger] cs.imul_constraints@[j]),
        decreases cs.imul_constraints@.len() - i,
    {
        let c = &cs.imul_constraints[i];
        if !(c.a.len() == 0 && c.b.len() == 0 && c.hi.len() == 0 && c.lo.len() == 0) {
            assert(!imul_is_empty(cs.imul_constraints@[i as int]));
            return false;
        }
        i = i + 1;
    }
    let mut k: usize = 0;
    while k < cs.bmul_constraints.len()
        invariant
            k <= cs.bmul_constraints@.len(),
            forall|j: int| 0 <= j < k ==> bmul_is_empty(#[trigger] cs.bmul_constraints@[j]),
        decreases cs.bmul_constraints@.len() - k,
    {
        let c = &cs.bmul_constraints[k];
        if !(c.a_lo.len() == 0 && c.a_hi.len() == 0 && c.b_lo.len() == 0 && c.b_hi.len() == 0
            && c.c_lo.len() == 0 && c.c_hi.len() == 0) {
            assert(!bmul_is_empty(cs.bmul_constraints@[k as int]));
            return false;
        }
        k = k + 1;
    }
    true
}

/// The SHA-256 digest of the canonical encoding of a constraint system.
pub fn cs_digest_bytes(encoding: &[u8]) -> (digest: [u8; 32])
    ensures
        digest@ == sha256_of(encoding@),
{
    sha256(encoding)
}

/// The exponent of a power of two; for any other count, the error made for it.
pub fn strict_log2(v: usize, error: DischargeError) -> (r: Result<usize, DischargeError>)
    ensures
        match r {
            Ok(k) => v == exp2(k as nat) && k < 64,
            Err(e) => !is_exp2(v as nat) && e == error,
        },
{
    match log2_exact(v) {
        Some(k) => Ok(k),
        None => Err(error),
    }
}

/// The larger of two sizes.
fn max_usize(a: usize, b: usize) -> (r: usize)
    ensures
        r == max2(a as nat, b as nat),
{
    if a >= b {
        a
    } else {
        b
    }
}

/// The address width for the given widths.
pub fn address_width_usize(n_x: usize, n_y: usize, n_t: usize) -> (r: usize)
    ensures
        r == address_width(n_x as nat, n_y as nat, n_t as nat),
{
    let t: usize = if n_t >= 2 {
        n_t - 2
    } else {
        0
    };
    max_usize(max_usize(max_usize(n_x, n_y), N_U), t)
}

/// The number of operand terms.
fn count_terms(cs: &ConstraintSystem) -> (n: usize)
    requires
        cs_fits(*cs),
    ensures
        n == all_occurrences(*cs).len(),
{
    let mut n: usize = 0;
    let mut i: usize = 0;
    proof {
        lemma_log2_ceil(all_occurrences(*cs).len());
    }
    while i < cs.and_constraints.len()
        invariant
            i <= cs.and_constraints@.len(),
            n == occurrences(cs.and_constraints@, i as nat).len(),
            all_occurrences(*cs).len() <= usize::MAX,
        decreases cs.and_constraints@.len() - i,
    {
        proof {
            lemma_occurrences_grow(
                cs.and_constraints@,
                (i + 1) as nat,
                cs.and_constraints@.len(),
            );
        }
        let c = &cs.and_constraints[i];
        n = n + c.a.len() + c.b.len() + c.c.len();
        i = i + 1;
    }
    n
}

/// The dimensions of a prepared constraint system, or the first admission rule that it violates.
pub fn shape_dims(cs: &ConstraintSystem) -> (r: Result<ShapeDims, DischargeError>)
    requires
        cs_fits(*cs),
    ensures
        match r {
            Ok(dims) => shape_error(*cs) is None && is_shape_of(dims, *cs) && dims.segmented(),
            Err(e) => shape_error(*cs) == Some(e),
        },
{
    if !andonly(cs) {
        return Err(DischargeError::NotAndOnly);
    }
    let n_and: usize = cs.and_constraints.len();
    let n_x: usize = match strict_log2(
        n_and,
        DischargeError::AndCountNotPowerOfTwo { count: n_and },
    ) {
        Ok(k) => k,
        Err(e) => {
            return Err(e);
        },
    };
    let n_imul: usize = cs.imul_constraints.len();
    let n_x_mul: usize = if n_imul == 0 {
        0
    } else {
        match strict_log2(n_imul, DischargeError::ImulCountNotPowerOfTwo { count: n_imul }) {
            Ok(k) => k,
            Err(e) => {
                return Err(e);
            },
        }
    };
    let layout = &cs.value_vec_layout;
    let n_pub: usize = layout.n_public_words();
    let lw: usize = layout.log_witness_words();
    let combined_len: usize = layout.combined_len();
    let lp: usize = match strict_log2(n_pub, DischargeError::PublicNotPowerOfTwo) {
        Ok(k) => k,
        Err(e) => {
            return Err(e);
        },
    };
    proof {
        if lp > 0 {
            crate::multilinear::exp2::lemma_exp2_strict((lp - 1) as nat, lp as nat);
        }
        lemma_log2_ceil_unique(n_pub as nat, lp as nat);
        lemma_log2_ceil(layout.n_hidden_words as nat);
    }
    if lw < lp {
        return Err(DischargeError::HiddenShorterThanPublic);
    }
    let n_y: usize = lw + 1;
    let n_terms: usize = count_terms(cs);
    if n_terms == 0 {
        return Err(DischargeError::EmptyTermTable);
    }
    let n_t: usize = log2_ceil_usize(n_terms);
    let n_pad: usize = exp2_usize(n_t);
    proof {
        lemma_log2_ceil(n_terms as nat);
    }
    let n_a: usize = address_width_usize(n_x, n_y, n_t);
    Ok(
        ShapeDims {
            n_x,
            n_x_mul,
            n_y,
            lp,
            n_pub,
            combined_len,
            n_a,
            n_d: n_a + 2,
            n_terms,
            n_pad,
            n_t,
            parity: (n_pad - n_terms) % 2 == 1,
            arity: 3 + n_x + n_x_mul + 2 * LOG_WORD_SIZE_BITS + n_y,
        },
    )
}

/// The position of a shift kind in the canonical order.
fn shift_id(variant: ShiftVariant) -> (id: u16)
    ensures
        id == variant.id(),
        id < 8,
{
    match variant {
        ShiftVariant::Sll => 0,
        ShiftVariant::Slr => 1,
        ShiftVariant::Sar => 2,
        ShiftVariant::Rotr => 3,
        ShiftVariant::Sll32 => 4,
        ShiftVariant::Srl32 => 5,
        ShiftVariant::Sra32 => 6,
        ShiftVariant::Rotr32 => 7,
    }
}

/// Appends the rows of one operand, or reports its first faulty word.
fn push_operand(
    terms: &mut Vec<Term>,
    x: u32,
    m: u16,
    operand: &Vec<ShiftedValueIndex>,
    combined_len: usize,
) -> (r: Result<(), DischargeError>)
    requires
        m < 3,
    ensures
        match r {
            Ok(_) => {
                let occ = operand_occurrences(x as int, m as int, operand@);
                &&& operands_ok(occ, combined_len as nat)
                &&& final(terms)@ == old(terms)@ + occ.map_values(|o: Occurrence| term_of(o))
            },
            Err(e) => first_operand_error(
                operand_occurrences(x as int, m as int, operand@),
                combined_len as nat,
                e,
            ),
        },
{
    let ghost occ = operand_occurrences(x as int, m as int, operand@);
    let ghost rows = occ.map_values(|o: Occurrence| term_of(o));
    let mut j: usize = 0;
    while j < operand.len()
        invariant
            j <= operand@.len(),
            m < 3,
            occ == operand_occurrences(x as int, m as int, operand@),
            rows == occ.map_values(|o: Occurrence| term_of(o)),
            terms@ == old(terms)@ + rows.take(j as int),
            forall|i: int|
                0 <= i < j ==> #[trigger] operand_error(occ[i].svi, combined_len as nat) is None,
        decreases operand@.len() - j,
    {
        let svi = operand[j];
        assert(occ[j as int].svi == svi);
        if svi.amount >= 64 {
            assert(operand_error(occ[j as int].svi, combined_len as nat) == Some(
                DischargeError::ShiftAmountOutOfRange,
            ));
            return Err(DischargeError::ShiftAmountOutOfRange);
        }
        let index: u32 = svi.value_index.0;
        if index as usize >= combined_len {
            let e = DischargeError::ValueIndexOutOfRange { index, combined_len };
            assert(operand_error(occ[j as int].svi, combined_len as nat) == Some(e));
            return Err(e);
        }
        let amount: u16 = svi.amount as u16;
        let id: u16 = shift_id(svi.shift_variant);
        let u: u16 = amount | (id << 6u16) | (m << 9u16);
        assert(u == amount + 64 * id + 512 * m) by (bit_vector)
            requires
                amount < 64,
                id < 8,
                m < 3,
                u == amount | (id << 6u16) | (m << 9u16),
        ;
        let term = Term { x, y: index, u };
        assert(rows[j as int] == term);
        terms.push(term);
        j = j + 1;
        assert(terms@ =~= old(terms)@ + rows.take(j as int));
    }
    assert(rows.take(j as int) =~= rows);
    Ok(())
}

/// An error in a part of a sequence of occurrences is the first error of the whole, when what
/// comes before is sound.
proof fn lemma_first_error(
    before: Seq<Occurrence>,
    part: Seq<Occurrence>,
    whole: Seq<Occurrence>,
    combined_len: nat,
    e: DischargeError,
)
    requires
        operands_ok(before, combined_len),
        first_operand_error(part, combined_len, e),
        before.len() + part.len() <= whole.len(),
        forall|i: int| 0 <= i < before.len() ==> #[trigger] whole[i] == before[i],
        forall|i: int| 0 <= i < part.len() ==> whole[before.len() + i] == #[trigger] part[i],
    ensures
        first_operand_error(whole, combined_len, e),
{
    let i = choose|i: int|
        {
            &&& 0 <= i < part.len()
            &&& #[trigger] operand_error(part[i].svi, combined_len) == Some(e)
            &&& forall|j: int|
                0 <= j < i ==> #[trigger] operand_error(part[j].svi, combined_len) is None
        };
    let k = before.len() + i;
    assert(whole[k] == part[i]);
    assert forall|j: int| 0 <= j < k implies #[trigger] operand_error(
        whole[j].svi,
        combined_len,
    ) is None by {
        if j < before.len() {
            assert(whole[j] == before[j]);
            assert(operand_error(before[j].svi, combined_len) is None);
        } else {
            assert(whole[before.len() + (j - before.len())] == part[j - before.len()]);
            assert(operand_error(part[j - before.len()].svi, combined_len) is None);
        }
    }
    assert(operand_error(whole[k].svi, combined_len) == Some(e));
}

/// The term table of a prepared constraint system whose canonical encoding is `encoding`.
///
/// Terms come constraint by constraint, slot by slot, in operand order; empty constraints have
/// none.
pub fn extract_table(cs: &ConstraintSystem, encoding: &[u8]) -> (r: Result<
    TermTable,
    DischargeError,
>)
    requires
        cs_fits(*cs),
    ensures
        match r {
            Ok(table) => {
                &&& shape_error(*cs) is None
                &&& operands_ok(all_occurrences(*cs), table.dims.combined_len as nat)
                &&& is_shape_of(table.dims, *cs)
                &&& table.terms@ == all_occurrences(*cs).map_values(|o: Occurrence| term_of(o))
                &&& table.cs_digest@ == sha256_of(encoding@)
                &&& table.wf()
            },
            Err(e) => {
                ||| shape_error(*cs) == Some(e)
                ||| shape_error(*cs) is None && first_operand_error(
                    all_occurrences(*cs),
                    (cs.value_vec_layout.offset_witness + cs.value_vec_layout.n_hidden_words) as nat,
                    e,
                )
            },
        },
{
    let dims = match shape_dims(cs) {
        Ok(dims) => dims,
        Err(e) => {
            return Err(e);
        },
    };
    let ghost ands = cs.and_constraints@;
    let ghost all = all_occurrences(*cs);
    let len: usize = dims.combined_len;
    let mut terms: Vec<Term> = Vec::new();
    let mut x: usize = 0;
    assert(terms@ =~= occurrences(ands, 0).map_values(|o: Occurrence| term_of(o)));
    while x < cs.and_constraints.len()
        invariant
            x <= ands.len(),
            ands == cs.and_constraints@,
            ands.len() <= 0x1_0000_0000,
            all == occurrences(ands, ands.len()),
            terms@ == occurrences(ands, x as nat).map_values(|o: Occurrence| term_of(o)),
            operands_ok(occurrences(ands, x as nat), len as nat),
            shape_error(*cs) is None,
            all == all_occurrences(*cs),
            len == cs.value_vec_layout.offset_witness + cs.value_vec_layout.n_hidden_words,
        decreases ands.len() - x,
    {
        let con = &cs.and_constraints[x];
        let ghost before = occurrences(ands, x as nat);
        let ghost next = occurrences(ands, (x + 1) as nat);
        let ghost oa = operand_occurrences(x as int, 0, con.a@);
        let ghost ob = operand_occurrences(x as int, 1, con.b@);
        let ghost oc = operand_occurrences(x as int, 2, con.c@);
        let ghost row = |o: Occurrence| term_of(o);
        proof {
            lemma_occurrences_grow(ands, (x + 1) as nat, ands.len());
            assert(next =~= before + oa + ob + oc);
        }
        match push_operand(&mut terms, x as u32, 0, &con.a, len) {
            Ok(_) => {},
            Err(e) => {
                proof {
                    assert forall|i: int| 0 <= i < before.len() implies #[trigger] all[i] == before[i] by {
                        assert(next[i] == all[i]);
                    }
                    assert forall|i: int| 0 <= i < oa.len() implies all[before.len() + i] == #[trigger] oa[i] by {
                        assert(next[before.len() + i] == all[before.len() + i]);
                    }
                    lemma_first_error(before, oa, all, len as nat, e);
                }
                return Err(e);
            },
        }
        match push_operand(&mut terms, x as u32, 1, &con.b, len) {
            Ok(_) => {},
            Err(e) => {
                proof {
                    let b2 = before + oa;
                    lemma_operands_ok_concat(before, oa, len as nat);
                    assert forall|i: int| 0 <= i < b2.len() implies #[trigger] all[i] == b2[i] by {
                        assert(next[i] == all[i]);
                    }
                    assert forall|i: int| 0 <= i < ob.len() implies all[b2.len() + i] == #[trigger] ob[i] by {
                        assert(next[b2.len() + i] == all[b2.len() + i]);
                    }
                    lemma_first_error(b2, ob, all, len as nat, e);
                }
                return Err(e);
            },
        }
        match push_operand(&mut terms, x as u32, 2, &con.c, len) {
            Ok(_) => {},
            Err(e) => {
                proof {
                    let b2 = before + oa + ob;
                    lemma_operands_ok_concat(before, oa, len as nat);
                    lemma_operands_ok_concat(before + oa, ob, len as nat);
                    assert forall|i: int| 0 <= i < b2.len() implies #[trigger] all[i] == b2[i] by {
                        assert(next[i] == all[i]);
                    }
                    assert forall|i: int| 0 <= i < oc.len() implies all[b2.len() + i] == #[trigger] oc[i] by {
                        assert(next[b2.len() + i] == all[b2.len() + i]);
                    }
                    lemma_first_error(b2, oc, all, len as nat, e);
                }
                return Err(e);
            },
        }
        proof {
            lemma_operands_ok_concat(before, oa, len as nat);
            lemma_operands_ok_concat(before + oa, ob, len as nat);
            lemma_operands_ok_concat(before + oa + ob, oc, len as nat);
            assert(terms@ =~= next.map_values(row));
        }
        x = x + 1;
    }
    proof {
        assert forall|t: int| 0 <= t < terms@.len() implies term_in(dims, #[trigger] terms@[t]) by {
            lemma_occurrence_in(*cs, t);
            assert(operand_error(all[t].svi, len as nat) is None);
            crate::multilinear::exp2::lemma_exp2_small();
            assert(terms@[t] == term_of(all[t]));
        }
    }
    Ok(TermTable { dims, terms, cs_digest: cs_digest_bytes(encoding) })
}

/// Soundness of operands is soundness of the parts.
proof fn lemma_operands_ok_concat(a: Seq<Occurrence>, b: Seq<Occurrence>, len: nat)
    requires
        operands_ok(a, len),
        operands_ok(b, len),
    ensures
        operands_ok(a + b, len),
{
    assert forall|i: int| 0 <= i < (a + b).len() implies #[trigger] operand_error(
        (a + b)[i].svi,
        len,
    ) is None by {
        if i < a.len() {
            assert(operand_error(a[i].svi, len) is None);
        } else {
            assert(operand_error(b[i - a.len()].svi, len) is None);
        }
    }
}

/// The constraint index and slot of an occurrence are in range.
proof fn lemma_occurrence_range(cs: Seq<AndConstraint>, k: nat, t: int)
    requires
        0 <= t < occurrences(cs, k).len(),
    ensures
        0 <= occurrences(cs, k)[t].x < k,
        0 <= occurrences(cs, k)[t].m < 3,
    decreases k,
{
    let before = occurrences(cs, (k - 1) as nat);
    if t < before.len() {
        lemma_occurrence_range(cs, (k - 1) as nat, t);
    }
}

/// The same for a whole constraint system.
proof fn lemma_occurrence_in(cs: ConstraintSystem, t: int)
    requires
        0 <= t < all_occurrences(cs).len(),
    ensures
        0 <= all_occurrences(cs)[t].x < cs.and_constraints@.len(),
        0 <= all_occurrences(cs)[t].m < 3,
{
    lemma_occurrence_range(cs.and_constraints@, cs.and_constraints@.len(), t);
}

/// The position of a word in the segmented cube.
pub fn cube_y(dims: &ShapeDims, y: u32) -> (r: u32)
    requires
        dims.n_pub <= u32::MAX,
        y >= dims.n_pub ==> dims.n_y >= 1 && cube_index(*dims, y as int) <= u32::MAX,
    ensures
        r == cube_index(*dims, y as int),
{
    let n_pub: u32 = dims.n_pub as u32;
    if y < n_pub {
        y
    } else {
        let half: u32 = exp2_usize_u32(dims.n_y - 1);
        (y - n_pub) + half
    }
}

/// `2^n`, where it fits in 32 bits.
fn exp2_usize_u32(n: usize) -> (v: u32)
    requires
        exp2(n as nat) <= u32::MAX,
    ensures
        v == exp2(n as nat),
{
    exp2_usize(n) as u32
}

/// An admitted constraint system has no term in any operand of a multiplication, and a system is
/// refused as such exactly when one has.
pub proof fn law_admitted_has_no_products(cs: ConstraintSystem)
    ensures
        shape_error(cs) != Some(DischargeError::NotAndOnly) <==> {
            &&& forall|i: int|
                0 <= i < cs.imul_constraints@.len() ==> {
                    let c = #[trigger] cs.imul_constraints@[i];
                    c.a@.len() == 0 && c.b@.len() == 0 && c.hi@.len() == 0 && c.lo@.len() == 0
                }
            &&& forall|i: int|
                0 <= i < cs.bmul_constraints@.len() ==> {
                    let c = #[trigger] cs.bmul_constraints@[i];
                    &&& c.a_lo@.len() == 0 && c.a_hi@.len() == 0
                    &&& c.b_lo@.len() == 0 && c.b_hi@.len() == 0
                    &&& c.c_lo@.len() == 0 && c.c_hi@.len() == 0
                }
        },
{
    if shape_error(cs) == Some(DischargeError::NotAndOnly) {
        if forall|i: int|
            0 <= i < cs.imul_constraints@.len() ==> {
                let c = #[trigger] cs.imul_constraints@[i];
                c.a@.len() == 0 && c.b@.len() == 0 && c.hi@.len() == 0 && c.lo@.len() == 0
            } {
            let i = choose|i: int|
                0 <= i < cs.bmul_constraints@.len() && !bmul_is_empty(
                    #[trigger] cs.bmul_constraints@[i],
                );
            assert(!bmul_is_empty(cs.bmul_constraints@[i]));
        }
    } else {
        assert(is_andonly(cs));
        assert forall|i: int| 0 <= i < cs.imul_constraints@.len() implies {
            let c = #[trigger] cs.imul_constraints@[i];
            c.a@.len() == 0 && c.b@.len() == 0 && c.hi@.len() == 0 && c.lo@.len() == 0
        } by {
            assert(imul_is_empty(cs.imul_constraints@[i]));
        }
        assert forall|i: int| 0 <= i < cs.bmul_constraints@.len() implies {
            let c = #[trigger] cs.bmul_constraints@[i];
            &&& c.a_lo@.len() == 0 && c.a_hi@.len() == 0
            &&& c.b_lo@.len() == 0 && c.b_hi@.len() == 0
            &&& c.c_lo@.len() == 0 && c.c_hi@.len() == 0
        } by {
            assert(bmul_is_empty(cs.bmul_constraints@[i]));
        }
    }
}

/// Without products, a constraint system is admitted exactly when the numbers of its AND constraints,
/// of its public words and, if it has any, of its IMUL constraints are powers of two, every power of
/// two that holds the hidden words holds the public ones, and some AND constraint has a term.
pub proof fn law_admitted_sizes(cs: ConstraintSystem)
    requires
        shape_error(cs) != Some(DischargeError::NotAndOnly),
    ensures
        shape_error(cs) is None <==> {
            &&& exists|k: nat| #[trigger] exp2(k) == cs.and_constraints@.len()
            &&& cs.imul_constraints@.len() == 0 || exists|k: nat|
                #[trigger] exp2(k) == cs.imul_constraints@.len()
            &&& exists|k: nat| #[trigger] exp2(k) == cs.value_vec_layout.offset_witness
            &&& forall|k: nat|
                #[trigger] exp2(k) >= cs.value_vec_layout.n_hidden_words ==> exp2(k)
                    >= cs.value_vec_layout.offset_witness
            &&& exists|i: int|
                0 <= i < cs.and_constraints@.len() && {
                    let c = #[trigger] cs.and_constraints@[i];
                    c.a@.len() + c.b@.len() + c.c@.len() > 0
                }
        },
        match shape_error(cs) {
            None => true,
            Some(DischargeError::AndCountNotPowerOfTwo { count }) => {
                &&& count == cs.and_constraints@.len() as usize
                &&& forall|k: nat| #[trigger] exp2(k) != cs.and_constraints@.len()
            },
            Some(DischargeError::ImulCountNotPowerOfTwo { count }) => {
                &&& count == cs.imul_constraints@.len() as usize
                &&& count > 0 || cs.imul_constraints@.len() > usize::MAX
                &&& forall|k: nat| #[trigger] exp2(k) != cs.imul_constraints@.len()
            },
            Some(DischargeError::PublicNotPowerOfTwo) => forall|k: nat|
                #[trigger] exp2(k) != cs.value_vec_layout.offset_witness,
            Some(DischargeError::HiddenShorterThanPublic) => exists|k: nat|
                cs.value_vec_layout.n_hidden_words <= #[trigger] exp2(k)
                    < cs.value_vec_layout.offset_witness,
            Some(DischargeError::EmptyTermTable) => forall|i: int|
                0 <= i < cs.and_constraints@.len() ==> {
                    let c = #[trigger] cs.and_constraints@[i];
                    c.a@.len() == 0 && c.b@.len() == 0 && c.c@.len() == 0
                },
            Some(_) => false,
        },
{
    let (hidden, public) = (
        cs.value_vec_layout.n_hidden_words as nat,
        cs.value_vec_layout.offset_witness as nat,
    );
    lemma_log2_ceil(hidden);
    lemma_log2_ceil(public);
    let (h, p) = (log2_ceil(hidden), log2_ceil(public));
    if h < p {
        lemma_exp2_mono(h, (p - 1) as nat);
        assert(hidden <= exp2(h) < public);
    } else {
        lemma_exp2_mono(p, h);
        assert forall|k: nat| #[trigger] exp2(k) >= hidden implies exp2(k) >= public by {
            if exp2(k) < public {
                if k < h {
                    lemma_exp2_mono(k, (h - 1) as nat);
                }
                lemma_exp2_mono(h, k);
            }
        }
    }
    lemma_some_occurrence(cs.and_constraints@, cs.and_constraints@.len());
}

/// There is an occurrence exactly when some operand has a term.
proof fn lemma_some_occurrence(cs: Seq<AndConstraint>, k: nat)
    requires
        k <= cs.len(),
    ensures
        occurrences(cs, k).len() > 0 <==> exists|i: int|
            0 <= i < k && {
                let c = #[trigger] cs[i];
                c.a@.len() + c.b@.len() + c.c@.len() > 0
            },
    decreases k,
{
    if k > 0 {
        lemma_some_occurrence(cs, (k - 1) as nat);
        let c = cs[k - 1];
        assert(occurrences(cs, k).len() == occurrences(cs, (k - 1) as nat).len() + c.a@.len()
            + c.b@.len() + c.c@.len());
    }
}

/// The derived dimensions, each by what it is for: the padded row count is the least power of two
/// that holds the rows, the address is wide enough for everything that it holds and no wider, and
/// the two segments of words fit.
pub proof fn law_derived_dims(d: ShapeDims)
    ensures
        d.derived() <==> {
            &&& d.n_y >= 1
            &&& d.n_pad == exp2(d.n_t as nat)
            &&& d.n_terms <= d.n_pad
            &&& d.n_t == 0 || d.n_pad < 2 * d.n_terms
            &&& d.parity == (d.n_pad % 2 != d.n_terms % 2)
            &&& d.n_a >= d.n_x && d.n_a >= d.n_y && d.n_a >= 11 && d.n_a + 2 >= d.n_t
            &&& d.n_a == d.n_x || d.n_a == d.n_y || d.n_a == 11 || d.n_a + 2 == d.n_t
            &&& d.n_d == d.n_a + 2
            &&& d.arity == 15 + d.n_x + d.n_x_mul + d.n_y
            &&& d.n_pub == exp2(d.lp as nat)
            &&& d.n_pub <= d.combined_len
            &&& d.combined_len <= d.n_pub + exp2((d.n_y - 1) as nat)
        },
{
    let v = d.n_terms as nat;
    lemma_log2_ceil(v);
    if d.n_pad == exp2(d.n_t as nat) && d.n_terms <= d.n_pad && (d.n_t == 0 || d.n_pad < 2
        * d.n_terms) {
        if d.n_t > 0 {
            assert(exp2(d.n_t as nat) == 2 * exp2((d.n_t - 1) as nat));
        }
        lemma_log2_ceil_unique(v, d.n_t as nat);
    }
    if log2_ceil(v) > 0 {
        assert(exp2(log2_ceil(v)) == 2 * exp2((log2_ceil(v) - 1) as nat));
    }
}

/// The dimensions of a constraint system, each by what it counts.
pub proof fn law_shape_counts(d: ShapeDims, cs: ConstraintSystem)
    requires
        is_shape_of(d, cs),
    ensures
        d.derived(),
        cs.and_constraints@.len() == exp2(d.n_x as nat),
        cs.imul_constraints@.len() == 0 ==> d.n_x_mul == 0,
        cs.imul_constraints@.len() > 0 ==> cs.imul_constraints@.len() == exp2(d.n_x_mul as nat),
        d.n_pub == cs.value_vec_layout.offset_witness,
        d.combined_len == cs.value_vec_layout.offset_witness + cs.value_vec_layout.n_hidden_words,
        cs.value_vec_layout.n_hidden_words <= exp2((d.n_y - 1) as nat),
        d.n_y >= 2 ==> exp2((d.n_y - 2) as nat) < cs.value_vec_layout.n_hidden_words,
        d.n_terms == all_occurrences(cs).len(),
{
    lemma_log2_ceil(cs.value_vec_layout.n_hidden_words as nat);
}

/// The kinds of shift in their canonical order.
pub proof fn law_shift_order(a: ShiftVariant, b: ShiftVariant)
    ensures
        a.id() < 8,
        a.id() == b.id() ==> a == b,
        ShiftVariant::Sll.id() < ShiftVariant::Slr.id() < ShiftVariant::Sar.id(),
        ShiftVariant::Sar.id() < ShiftVariant::Rotr.id() < ShiftVariant::Sll32.id(),
        ShiftVariant::Sll32.id() < ShiftVariant::Srl32.id() < ShiftVariant::Sra32.id(),
        ShiftVariant::Sra32.id() < ShiftVariant::Rotr32.id(),
{
}

/// The rows of a list of constraints.
pub open spec fn rows_of(cs: Seq<AndConstraint>) -> Seq<Term> {
    occurrences(cs, cs.len()).map_values(|o: Occurrence| term_of(o))
}

/// Appending a constraint appends one row for each of its terms, slot by slot, and changes no other
/// row; and no constraint has no rows. The rows of a constraint system are those of its constraints.
pub proof fn law_rows_grow(cs: Seq<AndConstraint>, con: AndConstraint)
    requires
        cs.len() <= u32::MAX,
        forall|j: int| 0 <= j < con.a@.len() ==> (#[trigger] con.a@[j]).amount < 64,
        forall|j: int| 0 <= j < con.b@.len() ==> (#[trigger] con.b@[j]).amount < 64,
        forall|j: int| 0 <= j < con.c@.len() ==> (#[trigger] con.c@[j]).amount < 64,
    ensures
        rows_of(Seq::empty()).len() == 0,
        ({
            let (before, after) = (rows_of(cs), rows_of(cs.push(con)));
            let (n, na, nb, nc) = (before.len() as int, con.a@.len() as int, con.b@.len() as int,
                con.c@.len() as int);
            &&& after.len() == n + na + nb + nc
            &&& forall|t: int| 0 <= t < n ==> #[trigger] after[t] == before[t]
            &&& forall|t: int| n <= t < n + na ==> is_row(#[trigger] after[t], cs.len() as int, 0, con.a@[t - n])
            &&& forall|t: int|
                n + na <= t < n + na + nb ==> is_row(#[trigger] after[t], cs.len() as int, 1, con.b@[t - n - na])
            &&& forall|t: int|
                n + na + nb <= t < n + na + nb + nc ==> is_row(
                    #[trigger] after[t],
                    cs.len() as int,
                    2,
                    con.c@[t - n - na - nb],
                )
        }),
{
    let more = cs.push(con);
    lemma_occurrences_same(cs, more, cs.len());
    assert(more[cs.len() as int] == con);
    assert(occurrences(more, (cs.len() + 1) as nat) == occurrences(more, cs.len())
        + constraint_occurrences(cs.len() as int, con));
}

/// A row says which word it is for, and its meta index holds the amount in its low six bits, the kind
/// in the next three and the slot above.
pub open spec fn is_row(t: Term, x: int, m: int, svi: ShiftedValueIndex) -> bool {
    &&& t.x == x
    &&& t.y == svi.value_index.0
    &&& t.u % 64 == svi.amount
    &&& t.u / 64 % 8 == svi.shift_variant.id()
    &&& t.u / 512 == m
}

/// The occurrences in the first constraints depend on them alone.
proof fn lemma_occurrences_same(a: Seq<AndConstraint>, b: Seq<AndConstraint>, k: nat)
    requires
        k <= a.len(),
        k <= b.len(),
        forall|i: int| 0 <= i < k ==> #[trigger] a[i] == b[i],
    ensures
        occurrences(a, k) == occurrences(b, k),
    decreases k,
{
    if k > 0 {
        lemma_occurrences_same(a, b, (k - 1) as nat);
        assert(a[k - 1] == b[k - 1]);
    }
}

/// An operand's word is sound exactly when its amount is below 64 and its index is one of the words.
pub proof fn law_operand_sound(svi: ShiftedValueIndex, len: nat)
    requires
        len <= usize::MAX,
    ensures
        operand_error(svi, len) is None <==> svi.amount < 64 && svi.value_index.0 < len,
        operand_error(svi, len) == Some(DischargeError::ShiftAmountOutOfRange) <==> svi.amount >= 64,
        operand_error(svi, len) matches Some(DischargeError::ValueIndexOutOfRange {
            index,
            combined_len,
        }) ==> index == svi.value_index.0 && combined_len == len,
{
}

/// Public words keep their place, and the hidden words follow one another from the upper half on.
pub proof fn law_cube_order(dims: ShapeDims, y: int)
    requires
        dims.n_y >= 1,
        0 <= y,
    ensures
        y < dims.n_pub ==> cube_index(dims, y) == y,
        y == dims.n_pub ==> 2 * cube_index(dims, y) == exp2(dims.n_y as nat),
        y >= dims.n_pub ==> cube_index(dims, y + 1) == cube_index(dims, y) + 1,
{
}

/// The error of a list of operands is that of its first faulty one; there is one exactly when not all are in
/// range.
pub proof fn law_first_operand_error(occ: Seq<Occurrence>, len: nat, e: DischargeError)
    ensures
        first_operand_error(occ, len, e) <==> exists|i: int|
            {
                &&& 0 <= i < occ.len()
                &&& #[trigger] operand_error(occ[i].svi, len) == Some(e)
                &&& forall|j: int|
                    0 <= j < i ==> #[trigger] operand_error(occ[j].svi, len) is None
            },
        first_operand_error(occ, len, e) ==> !operands_ok(occ, len),
        operands_ok(occ, len) <==> forall|i: int|
            0 <= i < occ.len() ==> (#[trigger] occ[i]).svi.amount < 64 && occ[i].svi.value_index.0 < len,
{
    if operands_ok(occ, len) {
        assert forall|i: int| 0 <= i < occ.len() implies (#[trigger] occ[i]).svi.amount < 64
            && occ[i].svi.value_index.0 < len by {
            assert(operand_error(occ[i].svi, len) is None);
        }
    }
}

} // verus!
