//! Shifts of 64-bit words, and the operands built from them.

use crate::cs::{AndConstraint, ConstraintSystem, ShiftVariant, ShiftedValueIndex};
use vstd::prelude::*;

verus! {

/// An arithmetic right shift: it fills with copies of the top bit.
pub open spec fn sar64(w: u64, s: u64) -> u64 {
    if w >= 0x8000_0000_0000_0000 {
        (w >> s) | !(0xFFFF_FFFF_FFFF_FFFFu64 >> s)
    } else {
        w >> s
    }
}

/// A rotation to the right.
pub open spec fn rotr64(w: u64, s: u64) -> u64 {
    if s == 0 {
        w
    } else {
        (w >> s) | (w << ((64 - s) as u64))
    }
}

/// A shift of a 32-bit lane, held in the low half of a word.
pub open spec fn shift_lane(variant: ShiftVariant, s: u64, w: u64) -> u64 {
    match variant {
        ShiftVariant::Sll32 => (w << s) & 0xFFFF_FFFF,
        ShiftVariant::Srl32 => w >> s,
        ShiftVariant::Sra32 => if w >= 0x8000_0000 {
            (w >> s) | (!(0xFFFF_FFFFu64 >> s) & 0xFFFF_FFFF)
        } else {
            w >> s
        },
        _ => if s == 0 {
            w
        } else {
            (w >> s) | ((w << ((32 - s) as u64)) & 0xFFFF_FFFF)
        },
    }
}

/// A shifted word. The 32-bit kinds shift both halves of the word on their own.
pub open spec fn shift_word(variant: ShiftVariant, s: u64, w: u64) -> u64 {
    match variant {
        ShiftVariant::Sll => w << s,
        ShiftVariant::Slr => w >> s,
        ShiftVariant::Sar => sar64(w, s),
        ShiftVariant::Rotr => rotr64(w, s),
        _ => shift_lane(variant, s, w & 0xFFFF_FFFF) | (shift_lane(variant, s, w >> 32) << 32),
    }
}

/// The largest shift amount of a kind, plus one.
pub open spec fn shift_bound(variant: ShiftVariant) -> nat {
    match variant {
        ShiftVariant::Sll => 64,
        ShiftVariant::Slr => 64,
        ShiftVariant::Sar => 64,
        ShiftVariant::Rotr => 64,
        _ => 32,
    }
}

/// A shifted word's index and amount are in range for a value vector of `n` words.
pub open spec fn svi_fits(svi: ShiftedValueIndex, n: nat) -> bool {
    svi.value_index.0 < n && svi.amount < shift_bound(svi.shift_variant)
}

/// Every word of an operand is in range.
pub open spec fn operand_fits(operand: Seq<ShiftedValueIndex>, n: nat) -> bool {
    forall|j: int| 0 <= j < operand.len() ==> svi_fits(#[trigger] operand[j], n)
}

/// The XOR of the first `k` shifted words of an operand.
pub open spec fn operand_word(operand: Seq<ShiftedValueIndex>, words: Seq<u64>, k: nat) -> u64
    decreases k,
{
    if k == 0 {
        0
    } else {
        let svi = operand[k - 1];
        operand_word(operand, words, (k - 1) as nat) ^ shift_word(
            svi.shift_variant,
            svi.amount as u64,
            words[svi.value_index.0 as int],
        )
    }
}

/// The value of an operand.
pub open spec fn operand_value(operand: Seq<ShiftedValueIndex>, words: Seq<u64>) -> u64 {
    operand_word(operand, words, operand.len())
}

/// An AND constraint holds.
pub open spec fn and_holds(c: AndConstraint, words: Seq<u64>) -> bool {
    operand_value(c.a@, words) & operand_value(c.b@, words) == operand_value(c.c@, words)
}

/// All AND constraints of a constraint system hold.
pub open spec fn and_satisfied(cs: ConstraintSystem, words: Seq<u64>) -> bool {
    forall|i: int|
        0 <= i < cs.and_constraints@.len() ==> and_holds(#[trigger] cs.and_constraints@[i], words)
}

/// The first AND constraint that does not hold is the one of index `k`.
pub open spec fn first_unsatisfied(cs: ConstraintSystem, words: Seq<u64>, k: int) -> bool {
    &&& 0 <= k < cs.and_constraints@.len()
    &&& !and_holds(cs.and_constraints@[k], words)
    &&& forall|i: int| 0 <= i < k ==> and_holds(#[trigger] cs.and_constraints@[i], words)
}

/// Every operand of an AND constraint is in range.
pub open spec fn and_fits(c: AndConstraint, n: nat) -> bool {
    operand_fits(c.a@, n) && operand_fits(c.b@, n) && operand_fits(c.c@, n)
}

/// A shift of a 32-bit lane.
fn lane_shifted(variant: ShiftVariant, s: u64, w: u64) -> (r: u64)
    requires
        s < 32,
    ensures
        r == shift_lane(variant, s, w),
{
    match variant {
        ShiftVariant::Sll32 => (w << s) & 0xFFFF_FFFF,
        ShiftVariant::Srl32 => w >> s,
        ShiftVariant::Sra32 => if w >= 0x8000_0000 {
            (w >> s) | (!(0xFFFF_FFFFu64 >> s) & 0xFFFF_FFFF)
        } else {
            w >> s
        },
        _ => if s == 0 {
            w
        } else {
            (w >> s) | ((w << (32 - s)) & 0xFFFF_FFFF)
        },
    }
}

/// A shifted word.
pub fn shifted(variant: ShiftVariant, s: u64, w: u64) -> (r: u64)
    requires
        s < shift_bound(variant),
    ensures
        r == shift_word(variant, s, w),
{
    match variant {
        ShiftVariant::Sll => w << s,
        ShiftVariant::Slr => w >> s,
        ShiftVariant::Sar => if w >= 0x8000_0000_0000_0000 {
            (w >> s) | !(0xFFFF_FFFF_FFFF_FFFFu64 >> s)
        } else {
            w >> s
        },
        ShiftVariant::Rotr => if s == 0 {
            w
        } else {
            (w >> s) | (w << (64 - s))
        },
        _ => lane_shifted(variant, s, w & 0xFFFF_FFFF) | (lane_shifted(variant, s, w >> 32) << 32),
    }
}

/// The value of an operand.
pub fn eval_operand(operand: &Vec<ShiftedValueIndex>, words: &Vec<u64>) -> (r: u64)
    requires
        operand_fits(operand@, words@.len()),
    ensures
        r == operand_value(operand@, words@),
{
    let mut acc: u64 = 0;
    let mut k: usize = 0;
    while k < operand.len()
        invariant
            k <= operand@.len(),
            operand_fits(operand@, words@.len()),
            acc == operand_word(operand@, words@, k as nat),
        decreases operand@.len() - k,
    {
        let svi = operand[k];
        assert(svi_fits(operand@[k as int], words@.len()));
        acc = acc ^ shifted(
            svi.shift_variant,
            svi.amount as u64,
            words[svi.value_index.0 as usize],
        );
        k = k + 1;
    }
    acc
}

/// Checks that all AND constraints hold, and names the first that does not.
pub fn verify_constraints(cs: &ConstraintSystem, words: &Vec<u64>) -> (r: Result<(), usize>)
    requires
        forall|i: int|
            0 <= i < cs.and_constraints@.len() ==> and_fits(
                #[trigger] cs.and_constraints@[i],
                words@.len(),
            ),
    ensures
        match r {
            Ok(()) => and_satisfied(*cs, words@),
            Err(k) => first_unsatisfied(*cs, words@, k as int),
        },
{
    let mut i: usize = 0;
    while i < cs.and_constraints.len()
        invariant
            i <= cs.and_constraints@.len(),
            forall|i: int|
                0 <= i < cs.and_constraints@.len() ==> and_fits(
                    #[trigger] cs.and_constraints@[i],
                    words@.len(),
                ),
            forall|j: int| 0 <= j < i ==> and_holds(#[trigger] cs.and_constraints@[j], words@),
        decreases cs.and_constraints@.len() - i,
    {
        let c = &cs.and_constraints[i];
        assert(and_fits(cs.and_constraints@[i as int], words@.len()));
        let a: u64 = eval_operand(&c.a, words);
        let b: u64 = eval_operand(&c.b, words);
        let v: u64 = eval_operand(&c.c, words);
        if a & b != v {
            assert(!and_holds(cs.and_constraints@[i as int], words@));
            return Err(i);
        }
        assert(and_holds(cs.and_constraints@[i as int], words@));
        i = i + 1;
    }
    Ok(())
}

/// A logical shift to the left moves every bit up by the amount, and brings in zeros.
pub proof fn law_sll_bits(w: u64, s: u64, i: u64)
    requires
        s < 64,
        i < 64,
    ensures
        (shift_word(ShiftVariant::Sll, s, w) >> i) & 1 == if s <= i {
            (w >> ((i - s) as u64)) & 1
        } else {
            0
        },
{
    assert(((w << s) >> i) & 1 == if s <= i {
        (w >> ((i - s) as u64)) & 1
    } else {
        0
    }) by (bit_vector)
        requires
            s < 64,
            i < 64,
    ;
}

/// A logical shift to the right moves every bit down by the amount, and brings in zeros.
pub proof fn law_slr_bits(w: u64, s: u64, i: u64)
    requires
        s < 64,
        i < 64,
    ensures
        (shift_word(ShiftVariant::Slr, s, w) >> i) & 1 == if i + s < 64 {
            (w >> ((i + s) as u64)) & 1
        } else {
            0
        },
{
    assert(((w >> s) >> i) & 1 == if i + s < 64 {
        (w >> ((i + s) as u64)) & 1
    } else {
        0
    }) by (bit_vector)
        requires
            s < 64,
            i < 64,
    ;
}

/// An arithmetic shift to the right moves every bit down by the amount, and brings in copies of the
/// top bit.
pub proof fn law_sar_bits(w: u64, s: u64, i: u64)
    requires
        s < 64,
        i < 64,
    ensures
        (shift_word(ShiftVariant::Sar, s, w) >> i) & 1 == if i + s < 64 {
            (w >> ((i + s) as u64)) & 1
        } else {
            (w >> 63) & 1
        },
{
    assert((if w >= 0x8000_0000_0000_0000 {
        (w >> s) | !(0xFFFF_FFFF_FFFF_FFFFu64 >> s)
    } else {
        w >> s
    } >> i) & 1 == if i + s < 64 {
        (w >> ((i + s) as u64)) & 1
    } else {
        (w >> 63) & 1
    }) by (bit_vector)
        requires
            s < 64,
            i < 64,
    ;
}

/// A rotation to the right moves every bit down by the amount, round the word.
pub proof fn law_rotr_bits(w: u64, s: u64, i: u64)
    requires
        s < 64,
        i < 64,
    ensures
        (shift_word(ShiftVariant::Rotr, s, w) >> i) & 1 == (w >> (((i + s) % 64) as u64)) & 1,
{
    let t: u64 = (64 - s) as u64;
    assert((if s == 0 {
        w
    } else {
        (w >> s) | (w << t)
    } >> i) & 1 == (w >> (((i + s) % 64) as u64)) & 1) by (bit_vector)
        requires
            s < 64,
            i < 64,
            t == 64 - s,
    ;
}

/// The halves of a word shifted by a 32-bit kind are the shifted halves.
proof fn lemma_lanes(variant: ShiftVariant, s: u64, w: u64, i: u64)
    requires
        s < 32,
        i < 64,
        shift_bound(variant) == 32,
    ensures
        (shift_word(variant, s, w) >> i) & 1 == if i < 32 {
            (shift_lane(variant, s, w & 0xFFFF_FFFF) >> i) & 1
        } else {
            (shift_lane(variant, s, w >> 32) >> ((i - 32) as u64)) & 1
        },
        shift_lane(variant, s, w & 0xFFFF_FFFF) <= 0xFFFF_FFFF,
        shift_lane(variant, s, w >> 32) <= 0xFFFF_FFFF,
{
    let (l, h) = (w & 0xFFFF_FFFF, w >> 32);
    assert(w & 0xFFFF_FFFF <= 0xFFFF_FFFF && w >> 32 <= 0xFFFF_FFFF) by (bit_vector);
    lemma_lane_fits(variant, s, l);
    lemma_lane_fits(variant, s, h);
    let (a, b) = (shift_lane(variant, s, l), shift_lane(variant, s, h));
    assert(((a | (b << 32)) >> i) & 1 == if i < 32 {
        (a >> i) & 1
    } else {
        (b >> ((i - 32) as u64)) & 1
    }) by (bit_vector)
        requires
            i < 64,
            a <= 0xFFFF_FFFF,
            b <= 0xFFFF_FFFF,
    ;
}

/// A shifted lane is a lane.
proof fn lemma_lane_fits(variant: ShiftVariant, s: u64, w: u64)
    requires
        s < 32,
        w <= 0xFFFF_FFFF,
    ensures
        shift_lane(variant, s, w) <= 0xFFFF_FFFF,
{
    let t: u64 = (32 - s) as u64;
    assert({
        &&& (w << s) & 0xFFFF_FFFF <= 0xFFFF_FFFF
        &&& w >> s <= 0xFFFF_FFFF
        &&& (w >> s) | (!(0xFFFF_FFFFu64 >> s) & 0xFFFF_FFFF) <= 0xFFFF_FFFF
        &&& (w >> s) | ((w << t) & 0xFFFF_FFFF) <= 0xFFFF_FFFF
    }) by (bit_vector)
        requires
            s < 32,
            w <= 0xFFFF_FFFF,
    ;
}

/// The shifts of a 32-bit lane, bit by bit: up with zeros, down with zeros, down with copies of the
/// lane's top bit, and down round the lane.
proof fn lemma_lane_bits(s: u64, w: u64, i: u64)
    requires
        s < 32,
        i < 32,
        w <= 0xFFFF_FFFF,
    ensures
        (shift_lane(ShiftVariant::Sll32, s, w) >> i) & 1 == if s <= i {
            (w >> ((i - s) as u64)) & 1
        } else {
            0
        },
        (shift_lane(ShiftVariant::Srl32, s, w) >> i) & 1 == if i + s < 32 {
            (w >> ((i + s) as u64)) & 1
        } else {
            0
        },
        (shift_lane(ShiftVariant::Sra32, s, w) >> i) & 1 == if i + s < 32 {
            (w >> ((i + s) as u64)) & 1
        } else {
            (w >> 31) & 1
        },
        (shift_lane(ShiftVariant::Rotr32, s, w) >> i) & 1 == (w >> (((i + s) % 32) as u64)) & 1,
{
    let t: u64 = (32 - s) as u64;
    assert({
        &&& (((w << s) & 0xFFFF_FFFF) >> i) & 1 == if s <= i {
            (w >> ((i - s) as u64)) & 1
        } else {
            0
        }
        &&& ((w >> s) >> i) & 1 == if i + s < 32 {
            (w >> ((i + s) as u64)) & 1
        } else {
            0
        }
    }) by (bit_vector)
        requires
            s < 32,
            i < 32,
            w <= 0xFFFF_FFFF,
    ;
    assert((if w >= 0x8000_0000 {
        (w >> s) | (!(0xFFFF_FFFFu64 >> s) & 0xFFFF_FFFF)
    } else {
        w >> s
    } >> i) & 1 == if i + s < 32 {
        (w >> ((i + s) as u64)) & 1
    } else {
        (w >> 31) & 1
    }) by (bit_vector)
        requires
            s < 32,
            i < 32,
            w <= 0xFFFF_FFFF,
    ;
    assert((if s == 0 {
        w
    } else {
        (w >> s) | ((w << t) & 0xFFFF_FFFF)
    } >> i) & 1 == (w >> (((i + s) % 32) as u64)) & 1) by (bit_vector)
        requires
            s < 32,
            i < 32,
            w <= 0xFFFF_FFFF,
            t == 32 - s,
    ;
}

/// The 32-bit kinds treat each half of the word as the 64-bit kinds treat the word: bit `i` of the
/// low half and of the high half, at `base` 0 and 32.
pub proof fn law_lane_bits(w: u64, s: u64, base: u64, i: u64)
    requires
        s < 32,
        i < 32,
        base == 0 || base == 32,
    ensures
        (shift_word(ShiftVariant::Sll32, s, w) >> ((base + i) as u64)) & 1 == if s <= i {
            (w >> ((base + i - s) as u64)) & 1
        } else {
            0
        },
        (shift_word(ShiftVariant::Srl32, s, w) >> ((base + i) as u64)) & 1 == if i + s < 32 {
            (w >> ((base + i + s) as u64)) & 1
        } else {
            0
        },
        (shift_word(ShiftVariant::Sra32, s, w) >> ((base + i) as u64)) & 1 == if i + s < 32 {
            (w >> ((base + i + s) as u64)) & 1
        } else {
            (w >> ((base + 31) as u64)) & 1
        },
        (shift_word(ShiftVariant::Rotr32, s, w) >> ((base + i) as u64)) & 1 == (w >> ((base + (i + s)
            % 32) as u64)) & 1,
{
    let at: u64 = (base + i) as u64;
    lemma_lanes(ShiftVariant::Sll32, s, w, at);
    lemma_lanes(ShiftVariant::Srl32, s, w, at);
    lemma_lanes(ShiftVariant::Sra32, s, w, at);
    lemma_lanes(ShiftVariant::Rotr32, s, w, at);
    assert(w & 0xFFFF_FFFF <= 0xFFFF_FFFF && w >> 32 <= 0xFFFF_FFFF) by (bit_vector);
    lemma_lane_bits(s, w & 0xFFFF_FFFF, i);
    lemma_lane_bits(s, w >> 32, i);
    assert forall|j: u64| j < 32 implies (#[trigger] (w >> ((base + j) as u64))) & 1 == if base == 0 {
        ((w & 0xFFFF_FFFF) >> j) & 1
    } else {
        ((w >> 32) >> j) & 1
    } by {
        let k: u64 = (base + j) as u64;
        assert((w >> k) & 1 == if base == 0 {
            ((w & 0xFFFF_FFFF) >> j) & 1
        } else {
            ((w >> 32) >> j) & 1
        }) by (bit_vector)
            requires
                j < 32,
                base == 0 || base == 32,
                k == base + j,
        ;
    }
    assert((w >> ((base + 31) as u64)) & 1 == if base == 0 {
        ((w & 0xFFFF_FFFF) >> 31u64) & 1
    } else {
        ((w >> 32) >> 31u64) & 1
    });
    if s <= i {
        let j: u64 = (i - s) as u64;
        assert(base + i - s == base + j);
        assert((w >> ((base + j) as u64)) & 1 == if base == 0 {
            ((w & 0xFFFF_FFFF) >> j) & 1
        } else {
            ((w >> 32) >> j) & 1
        });
    }
    let j: u64 = ((i + s) % 32) as u64;
    assert((w >> ((base + j) as u64)) & 1 == if base == 0 {
        ((w & 0xFFFF_FFFF) >> j) & 1
    } else {
        ((w >> 32) >> j) & 1
    });
}

/// Two operands with the same first words agree on them.
proof fn lemma_operand_word_ext(
    p: Seq<ShiftedValueIndex>,
    q: Seq<ShiftedValueIndex>,
    words: Seq<u64>,
    k: nat,
)
    requires
        k <= p.len(),
        k <= q.len(),
        forall|i: int| 0 <= i < k ==> p[i] == q[i],
    ensures
        operand_word(p, words, k) == operand_word(q, words, k),
    decreases k,
{
    if k > 0 {
        lemma_operand_word_ext(p, q, words, (k - 1) as nat);
    }
}

/// An empty operand is zero, and one more shifted word is added to an operand by exclusive or.
pub proof fn law_operand_grows(operand: Seq<ShiftedValueIndex>, svi: ShiftedValueIndex, words: Seq<u64>)
    ensures
        operand_value(Seq::<ShiftedValueIndex>::empty(), words) == 0,
        operand_value(operand.push(svi), words) == operand_value(operand, words) ^ shift_word(
            svi.shift_variant,
            svi.amount as u64,
            words[svi.value_index.0 as int],
        ),
{
    lemma_operand_word_ext(operand, operand.push(svi), words, operand.len());
}

/// A value vector satisfies a constraint system when, of every AND constraint, the value of the third
/// operand has exactly the bits that the values of the first two share.
pub proof fn law_satisfied_bits(cs: ConstraintSystem, words: Seq<u64>)
    ensures
        and_satisfied(cs, words) <==> forall|i: int|
            0 <= i < cs.and_constraints@.len() ==> {
                let c = #[trigger] cs.and_constraints@[i];
                operand_value(c.c@, words) == operand_value(c.a@, words) & operand_value(c.b@, words)
            },
{
    if and_satisfied(cs, words) {
        assert forall|i: int| 0 <= i < cs.and_constraints@.len() implies {
            let c = #[trigger] cs.and_constraints@[i];
            operand_value(c.c@, words) == operand_value(c.a@, words) & operand_value(c.b@, words)
        } by {
            assert(and_holds(cs.and_constraints@[i], words));
        }
    }
}

/// The amounts of the kinds that shift the whole word are below 64, those of the kinds that shift its
/// halves below 32, and the indices are those of the value vector.
pub proof fn law_operand_range(operand: Seq<ShiftedValueIndex>, n: nat)
    ensures
        operand_fits(operand, n) <==> forall|j: int|
            0 <= j < operand.len() ==> {
                let svi = #[trigger] operand[j];
                &&& svi.value_index.0 < n
                &&& svi.amount < 64
                &&& matches!(
                    svi.shift_variant,
                    ShiftVariant::Sll32 | ShiftVariant::Srl32 | ShiftVariant::Sra32 | ShiftVariant::Rotr32
                ) ==> svi.amount < 32
            },
{
    if operand_fits(operand, n) {
        assert forall|j: int| 0 <= j < operand.len() implies {
            let svi = #[trigger] operand[j];
            &&& svi.value_index.0 < n
            &&& svi.amount < 64
            &&& matches!(
                svi.shift_variant,
                ShiftVariant::Sll32 | ShiftVariant::Srl32 | ShiftVariant::Sra32 | ShiftVariant::Rotr32
            ) ==> svi.amount < 32
        } by {
            assert(svi_fits(operand[j], n));
        }
    }
}

/// The constraint that is named does not hold, and every one before it does; so there is one exactly when
/// the value vector does not satisfy the system.
pub proof fn law_first_unsatisfied(cs: ConstraintSystem, words: Seq<u64>, k: int)
    requires
        first_unsatisfied(cs, words, k),
    ensures
        !and_satisfied(cs, words),
        0 <= k < cs.and_constraints@.len(),
        operand_value(cs.and_constraints@[k].a@, words) & operand_value(
            cs.and_constraints@[k].b@,
            words,
        ) != operand_value(cs.and_constraints@[k].c@, words),
        forall|i: int|
            0 <= i < k ==> {
                let c = #[trigger] cs.and_constraints@[i];
                operand_value(c.a@, words) & operand_value(c.b@, words) == operand_value(c.c@, words)
            },
{
    assert forall|i: int| 0 <= i < k implies {
        let c = #[trigger] cs.and_constraints@[i];
        operand_value(c.a@, words) & operand_value(c.b@, words) == operand_value(c.c@, words)
    } by {
        assert(and_holds(cs.and_constraints@[i], words));
    }
}

} // verus!
