//! Synthetic AND-only constraint systems, their witnesses, and claims made directly from a term
//! table.

use crate::claim::{native_term_sum, rows_sum, Claim, ClaimTransparents};
use crate::cs::{
    AndConstraint, ConstraintSystem, ShiftVariant, ShiftedValueIndex, ValueIndex, ValueVecLayout,
};
use crate::digest::sha256_of;
use crate::discharge::lemma_rows_in;
use crate::error::DischargeError;
use crate::field::element::{one, zero, B128};
use crate::multilinear::exp2::{
    exp2, exp2_usize, is_exp2, lemma_exp2_mono, lemma_exp2_small, lemma_log2_ceil,
    lemma_log2_ceil_unique, log2_ceil,
};
use crate::table::{
    all_occurrences, cs_fits, extract_table, first_operand_error, is_andonly, is_shape_of,
    occurrences, operand_error, operands_ok, shape_error, term_of, Occurrence, ShapeDims, TermTable,
};
use crate::word::{
    and_fits, and_satisfied, eval_operand, first_unsatisfied, operand_value, verify_constraints,
};
use vstd::prelude::*;

verus! {

/// The fixed input words of a synthetic witness.
pub open spec fn input_word(i: int) -> u64 {
    if i == 0 {
        0xdeadbeef_cafe1234
    } else if i == 1 {
        0x0f0f0f0f_33cc55aa
    } else if i == 2 {
        0xffff0000_ffff0000
    } else if i == 3 {
        0x12345678_9abcdef0
    } else {
        0xa5a5a5a5_5a5a5a5a
    }
}

/// The shifts of constraint `i` of a synthetic system: kind and amount of its first operand, then
/// of its second.
pub open spec fn shifts_of(variant: u8, i: int) -> (ShiftVariant, int, ShiftVariant, int) {
    if variant == 0 {
        (ShiftVariant::Sll, (3 * i + 1) % 64, ShiftVariant::Slr, (5 * i + 2) % 64)
    } else {
        (ShiftVariant::Rotr, (7 * i + 3) % 64, ShiftVariant::Sar, (11 * i + 5) % 64)
    }
}

/// The shifts of constraint `i` of a synthetic system.
pub fn shift_meta(variant: u8, i: u32) -> (r: (ShiftVariant, u8, ShiftVariant, u8))
    requires
        i <= 0x1000_0000,
    ensures
        r.0 == shifts_of(variant, i as int).0,
        r.1 == shifts_of(variant, i as int).1,
        r.2 == shifts_of(variant, i as int).2,
        r.3 == shifts_of(variant, i as int).3,
{
    if variant == 0 {
        (
            ShiftVariant::Sll,
            ((3 * i + 1) % 64) as u8,
            ShiftVariant::Slr,
            ((5 * i + 2) % 64) as u8,
        )
    } else {
        (
            ShiftVariant::Rotr,
            ((7 * i + 3) % 64) as u8,
            ShiftVariant::Sar,
            ((11 * i + 5) % 64) as u8,
        )
    }
}

/// A constraint with one term per operand.
pub open spec fn single_terms(
    c: AndConstraint,
    a: ShiftedValueIndex,
    b: ShiftedValueIndex,
    o: ShiftedValueIndex,
) -> bool {
    c.a@ == seq![a] && c.b@ == seq![b] && c.c@ == seq![o]
}

/// A plain word.
pub open spec fn plain(i: int) -> ShiftedValueIndex {
    ShiftedValueIndex {
        value_index: ValueIndex(i as u32),
        shift_variant: ShiftVariant::Sll,
        amount: 0,
    }
}

/// A constraint with one term per operand.
fn one_term_each(a: ShiftedValueIndex, b: ShiftedValueIndex, o: ShiftedValueIndex) -> (c: AndConstraint)
    ensures
        single_terms(c, a, b, o),
{
    let mut va: Vec<ShiftedValueIndex> = Vec::new();
    va.push(a);
    let mut vb: Vec<ShiftedValueIndex> = Vec::new();
    vb.push(b);
    let mut vc: Vec<ShiftedValueIndex> = Vec::new();
    vc.push(o);
    assert(va@ =~= seq![a]);
    assert(vb@ =~= seq![b]);
    assert(vc@ =~= seq![o]);
    AndConstraint { a: va, b: vb, c: vc }
}

/// Constraint `i` of the tiny synthetic system.
pub open spec fn tiny_constraint(variant: u8, i: int, c: AndConstraint) -> bool {
    let (va, sa, vb, sb) = shifts_of(variant, i);
    single_terms(
        c,
        ShiftedValueIndex {
            value_index: ValueIndex((8 + i) as u32),
            shift_variant: va,
            amount: sa as u8,
        },
        ShiftedValueIndex {
            value_index: ValueIndex((8 + (i + 1) % 5) as u32),
            shift_variant: vb,
            amount: sb as u8,
        },
        plain(16 + i),
    )
}

/// The constants of the synthetic systems.
fn synth_constants() -> (v: Vec<u64>)
    ensures
        v@ == seq![1u64, 42, 0xDEADBEEF],
{
    let mut v: Vec<u64> = Vec::new();
    v.push(1);
    v.push(42);
    v.push(0xDEADBEEF);
    assert(v@ =~= seq![1u64, 42, 0xDEADBEEF]);
    v
}

/// The layout of a synthetic system with `n_hidden` hidden words.
pub open spec fn synth_layout(l: ValueVecLayout, n_hidden: int) -> bool {
    &&& l.n_const == 3
    &&& l.n_inout == 2
    &&& l.n_witness == n_hidden
    &&& l.n_internal == 0
    &&& l.offset_inout == 4
    &&& l.offset_witness == 8
    &&& l.n_hidden_words == n_hidden
    &&& l.n_scratch == 0
}

/// The layout of a synthetic system.
fn make_layout(n_hidden: usize) -> (l: ValueVecLayout)
    ensures
        synth_layout(l, n_hidden as int),
{
    ValueVecLayout {
        n_const: 3,
        n_inout: 2,
        n_witness: n_hidden,
        n_internal: 0,
        offset_inout: 4,
        offset_witness: 8,
        n_hidden_words: n_hidden,
        n_scratch: 0,
    }
}

/// The tiny synthetic system: five constraints of three terms each, so that one padding row is
/// needed. Its two variants have the same dimensions and different term tables.
pub fn synth_cs(variant: u8) -> (cs: ConstraintSystem)
    ensures
        cs.constants@ == seq![1u64, 42, 0xDEADBEEF],
        synth_layout(cs.value_vec_layout, 24),
        cs.value_vec_layout.offset_witness + cs.value_vec_layout.n_hidden_words == 32,
        cs.and_constraints@.len() == 5,
        forall|i: int|
            0 <= i < 5 ==> tiny_constraint(variant, i, #[trigger] cs.and_constraints@[i]),
        cs.imul_constraints@.len() == 0,
        cs.bmul_constraints@.len() == 0,
{
    let mut ands: Vec<AndConstraint> = Vec::new();
    let mut i: u32 = 0;
    while i < 5
        invariant
            i <= 5,
            ands@.len() == i,
            forall|j: int| 0 <= j < i ==> tiny_constraint(variant, j, #[trigger] ands@[j]),
        decreases 5 - i,
    {
        let (va, sa, vb, sb) = shift_meta(variant, i);
        let a = ShiftedValueIndex {
            value_index: ValueIndex(8 + i),
            shift_variant: va,
            amount: sa,
        };
        let b = ShiftedValueIndex {
            value_index: ValueIndex(8 + (i + 1) % 5),
            shift_variant: vb,
            amount: sb,
        };
        let c = one_term_each(a, b, ShiftedValueIndex::plain(ValueIndex(16 + i)));
        ands.push(c);
        i = i + 1;
    }
    ConstraintSystem::new(synth_constants(), make_layout(24), ands, Vec::new(), Vec::new())
}

/// The words that a synthetic witness starts from: the constants, the instance and its multiple,
/// and the fixed inputs.
pub open spec fn start_word(cs: ConstraintSystem, instance: u64, i: int) -> u64 {
    if 8 <= i < 13 {
        input_word(i - 8)
    } else if i == 5 {
        instance_multiple(instance)
    } else if i == 4 {
        instance
    } else if i < cs.constants@.len() {
        cs.constants@[i]
    } else {
        0
    }
}

/// The multiple of the instance word, modulo `2^64`.
pub open spec fn instance_multiple(instance: u64) -> u64 {
    ((instance as int * 0x9e3779b97f4a7c15int) % 0x1_0000_0000_0000_0000) as u64
}

/// The words after solving the first `k` constraints for their outputs.
pub open spec fn solved(cs: ConstraintSystem, start: Seq<u64>, k: nat) -> Seq<u64>
    decreases k,
{
    if k == 0 {
        start
    } else {
        let before = solved(cs, start, (k - 1) as nat);
        let con = cs.and_constraints@[k - 1];
        if con.a@.len() == 0 {
            before
        } else {
            before.update(
                con.c@[0].value_index.0 as int,
                operand_value(con.a@, before) & operand_value(con.b@, before),
            )
        }
    }
}

/// The output of a constraint is a single plain word.
pub open spec fn plain_output(con: AndConstraint) -> bool {
    con.a@.len() == 0 || (con.c@.len() == 1 && con.c@[0].amount == 0)
}

/// The number of words of a value vector.
pub open spec fn n_words(cs: ConstraintSystem) -> int {
    cs.value_vec_layout.offset_witness + cs.value_vec_layout.n_hidden_words
}

/// A satisfying value vector for a synthetic system with the given public instance word, with every
/// output solved for.
pub fn synth_witness(cs: &ConstraintSystem, instance: u64) -> (r: Result<Vec<u64>, DischargeError>)
    requires
        13 <= n_words(*cs) <= usize::MAX,
        cs.constants@.len() <= n_words(*cs),
        is_andonly(*cs),
        forall|i: int|
            0 <= i < cs.and_constraints@.len() ==> {
                let con = #[trigger] cs.and_constraints@[i];
                &&& and_fits(con, n_words(*cs) as nat)
                &&& con.a@.len() > 0 ==> con.c@.len() > 0
            },
    ensures
        ({
            let start = Seq::new(n_words(*cs) as nat, |i: int| start_word(*cs, instance, i));
            let n = cs.and_constraints@.len();
            match r {
                Ok(words) => {
                    &&& forall|i: int|
                        0 <= i < n ==> plain_output(#[trigger] cs.and_constraints@[i])
                    &&& words@ == solved(*cs, start, n)
                    &&& and_satisfied(*cs, words@)
                },
                Err(DischargeError::WitnessShape { constraint }) => {
                    &&& constraint < n
                    &&& !plain_output(cs.and_constraints@[constraint as int])
                    &&& forall|i: int|
                        0 <= i < constraint ==> plain_output(#[trigger] cs.and_constraints@[i])
                },
                Err(DischargeError::Unsatisfied { constraint }) => {
                    &&& forall|i: int|
                        0 <= i < n ==> plain_output(#[trigger] cs.and_constraints@[i])
                    &&& first_unsatisfied(*cs, solved(*cs, start, n), constraint as int)
                },
                Err(_) => false,
            }
        }),
{
    let len: usize = cs.value_vec_layout.combined_len();
    let ghost start = Seq::new(n_words(*cs) as nat, |i: int| start_word(*cs, instance, i));
    let mut words: Vec<u64> = Vec::new();
    let multiple: u64 = instance.wrapping_mul(0x9e3779b97f4a7c15);
    let mut i: usize = 0;
    while i < len
        invariant
            i <= len,
            len == n_words(*cs),
            start == Seq::new(n_words(*cs) as nat, |i: int| start_word(*cs, instance, i)),
            multiple == instance_multiple(instance),
            words@ == start.take(i as int),
        decreases len - i,
    {
        let w: u64 = if i == 8 {
            0xdeadbeef_cafe1234
        } else if i == 9 {
            0x0f0f0f0f_33cc55aa
        } else if i == 10 {
            0xffff0000_ffff0000
        } else if i == 11 {
            0x12345678_9abcdef0
        } else if i == 12 {
            0xa5a5a5a5_5a5a5a5a
        } else if i == 5 {
            multiple
        } else if i == 4 {
            instance
        } else if i < cs.constants.len() {
            cs.constants[i]
        } else {
            0
        };
        words.push(w);
        i = i + 1;
        assert(words@ =~= start.take(i as int));
    }
    assert(words@ =~= start);
    let mut k: usize = 0;
    while k < cs.and_constraints.len()
        invariant
            k <= cs.and_constraints@.len(),
            words@ == solved(*cs, start, k as nat),
            words@.len() == n_words(*cs),
            forall|i: int|
                0 <= i < cs.and_constraints@.len() ==> {
                    let con = #[trigger] cs.and_constraints@[i];
                    &&& and_fits(con, n_words(*cs) as nat)
                    &&& con.a@.len() > 0 ==> con.c@.len() > 0
                },
            forall|i: int| 0 <= i < k ==> plain_output(#[trigger] cs.and_constraints@[i]),
        decreases cs.and_constraints@.len() - k,
    {
        let con = &cs.and_constraints[k];
        assert(and_fits(cs.and_constraints@[k as int], n_words(*cs) as nat));
        if con.a.len() > 0 {
            let a: u64 = eval_operand(&con.a, &words);
            let b: u64 = eval_operand(&con.b, &words);
            if !(con.c.len() == 1 && con.c[0].amount == 0) {
                return Err(DischargeError::WitnessShape { constraint: k });
            }
            assert(crate::word::svi_fits(con.c@[0], n_words(*cs) as nat));
            let at: usize = con.c[0].value_index.0 as usize;
            words.set(at, a & b);
        }
        assert(plain_output(cs.and_constraints@[k as int]));
        k = k + 1;
    }
    proof {
        assert forall|i: int| 0 <= i < cs.and_constraints@.len() implies and_fits(
            #[trigger] cs.and_constraints@[i],
            words@.len(),
        ) by {}
    }
    match verify_constraints(cs, &words) {
        Ok(()) => Ok(words),
        Err(constraint) => Err(DischargeError::Unsatisfied { constraint }),
    }
}

/// The canonical order of the shift kinds.
pub open spec fn kind(i: int) -> ShiftVariant {
    if i == 0 {
        ShiftVariant::Sll
    } else if i == 1 {
        ShiftVariant::Slr
    } else if i == 2 {
        ShiftVariant::Sar
    } else if i == 3 {
        ShiftVariant::Rotr
    } else if i == 4 {
        ShiftVariant::Sll32
    } else if i == 5 {
        ShiftVariant::Srl32
    } else if i == 6 {
        ShiftVariant::Sra32
    } else {
        ShiftVariant::Rotr32
    }
}

/// The shift kind at a position of the canonical order.
fn kind_at(i: u64) -> (v: ShiftVariant)
    requires
        i < 8,
    ensures
        v == kind(i as int),
{
    match i {
        0 => ShiftVariant::Sll,
        1 => ShiftVariant::Slr,
        2 => ShiftVariant::Sar,
        3 => ShiftVariant::Rotr,
        4 => ShiftVariant::Sll32,
        5 => ShiftVariant::Srl32,
        6 => ShiftVariant::Sra32,
        _ => ShiftVariant::Rotr32,
    }
}

/// The multipliers by which a variant spreads its operands.
pub open spec fn spread_of(variant: u8) -> (int, int, int) {
    if variant == 0 {
        (1, 2, 3)
    } else {
        (5, 7, 11)
    }
}

/// Constraint `i` of the sized synthetic system with `span` hidden words.
pub open spec fn sized_constraint(variant: u8, span: int, i: int, c: AndConstraint) -> bool {
    let (ka, kb, kc) = spread_of(variant);
    single_terms(
        c,
        ShiftedValueIndex {
            value_index: ValueIndex((8 + (ka * i + 1) % span) as u32),
            shift_variant: kind((ka * i) % 8),
            amount: (1 + (3 * i + 1) % 31) as u8,
        },
        ShiftedValueIndex {
            value_index: ValueIndex((8 + (kb * i + 2) % span) as u32),
            shift_variant: kind((kb * i) % 8),
            amount: (1 + (5 * i + 2) % 31) as u8,
        },
        plain(8 + (kc * i + 3) % span),
    )
}

/// The sized synthetic system: `2^log2_constraints` constraints of three terms each, over
/// `2^n_y_log` words. Every operand is a hidden word, and shift amounts stay below 32.
pub fn synth_cs_sized(log2_constraints: usize, n_y_log: usize, variant: u8) -> (cs: ConstraintSystem)
    requires
        n_y_log >= 4,
        n_y_log < 32,
        log2_constraints < 32,
    ensures
        cs.constants@ == seq![1u64, 42, 0xDEADBEEF],
        synth_layout(cs.value_vec_layout, exp2(n_y_log as nat) - 8),
        cs.value_vec_layout.offset_witness + cs.value_vec_layout.n_hidden_words == exp2(
            n_y_log as nat,
        ),
        cs.and_constraints@.len() == exp2(log2_constraints as nat),
        forall|i: int|
            0 <= i < cs.and_constraints@.len() ==> sized_constraint(
                variant,
                exp2(n_y_log as nat) - 8,
                i,
                #[trigger] cs.and_constraints@[i],
            ),
        cs.imul_constraints@.len() == 0,
        cs.bmul_constraints@.len() == 0,
{
    proof {
        lemma_exp2_small();
        lemma_exp2_mono(4, n_y_log as nat);
        assert(exp2(4) == 2 * exp2(3));
        lemma_exp2_mono(n_y_log as nat, 31);
        lemma_exp2_mono(log2_constraints as nat, 31);
    }
    let total: usize = exp2_usize(n_y_log);
    let span: usize = total - 8;
    let c: usize = exp2_usize(log2_constraints);
    let (ka, kb, kc): (u64, u64, u64) = if variant == 0 {
        (1, 2, 3)
    } else {
        (5, 7, 11)
    };
    let m: u64 = span as u64;
    let mut ands: Vec<AndConstraint> = Vec::new();
    let mut i: u64 = 0;
    while i < c as u64
        invariant
            i <= c,
            c <= 0x8000_0000,
            8 <= span <= 0x8000_0000,
            m == span,
            (ka as int, kb as int, kc as int) == spread_of(variant),
            ands@.len() == i,
            forall|j: int|
                0 <= j < i ==> sized_constraint(variant, span as int, j, #[trigger] ands@[j]),
        decreases c - i,
    {
        proof {
            assert(ka <= 11 && kb <= 11 && kc <= 11);
            assert(ka * i <= 11 * 0x8000_0000) by (nonlinear_arith)
                requires
                    ka <= 11,
                    i <= 0x8000_0000,
            ;
            assert(kb * i <= 11 * 0x8000_0000) by (nonlinear_arith)
                requires
                    kb <= 11,
                    i <= 0x8000_0000,
            ;
            assert(kc * i <= 11 * 0x8000_0000) by (nonlinear_arith)
                requires
                    kc <= 11,
                    i <= 0x8000_0000,
            ;
        }
        let a = ShiftedValueIndex {
            value_index: ValueIndex((8 + (ka * i + 1) % m) as u32),
            shift_variant: kind_at((ka * i) % 8),
            amount: (1 + (3 * i + 1) % 31) as u8,
        };
        let b = ShiftedValueIndex {
            value_index: ValueIndex((8 + (kb * i + 2) % m) as u32),
            shift_variant: kind_at((kb * i) % 8),
            amount: (1 + (5 * i + 2) % 31) as u8,
        };
        let o = ShiftedValueIndex::plain(ValueIndex((8 + (kc * i + 3) % m) as u32));
        ands.push(one_term_each(a, b, o));
        i = i + 1;
    }
    ConstraintSystem::new(synth_constants(), make_layout(span), ands, Vec::new(), Vec::new())
}

/// The term table of a sized synthetic system whose canonical encoding is `encoding`. The number
/// of constraints is a power of two already, so nothing is padded.
pub fn prepared_synth_table(log2_constraints: usize, n_y_log: usize, variant: u8, encoding: &[u8]) -> (r:
    Result<(ConstraintSystem, TermTable), DischargeError>)
    requires
        n_y_log >= 4,
        n_y_log < 32,
        log2_constraints < 30,
    ensures
        r is Ok,
        ({
            let (cs, table) = r->Ok_0;
            &&& cs.and_constraints@.len() == exp2(log2_constraints as nat)
            &&& forall|i: int|
                0 <= i < cs.and_constraints@.len() ==> sized_constraint(
                    variant,
                    exp2(n_y_log as nat) - 8,
                    i,
                    #[trigger] cs.and_constraints@[i],
                )
            &&& is_shape_of(table.dims, cs)
            &&& table.terms@ == all_occurrences(cs).map_values(|o: Occurrence| term_of(o))
            &&& table.cs_digest@ == sha256_of(encoding@)
            &&& table.wf()
            &&& table.dims.n_terms == 3 * exp2(log2_constraints as nat)
        }),
{
    let cs = synth_cs_sized(log2_constraints, n_y_log, variant);
    proof {
        lemma_sized(cs, log2_constraints as nat, n_y_log as nat, variant);
    }
    match extract_table(&cs, encoding) {
        Ok(table) => Ok((cs, table)),
        Err(e) => Err(e),
    }
}

/// Every constraint has three terms, in range.
proof fn lemma_three_terms(cs: Seq<AndConstraint>, k: nat, len: nat, span: int, variant: u8)
    requires
        k <= cs.len(),
        8 <= span,
        len == 8 + span,
        span <= 0x8000_0000,
        forall|i: int| 0 <= i < cs.len() ==> sized_constraint(variant, span, i, #[trigger] cs[i]),
    ensures
        occurrences(cs, k).len() == 3 * k,
        operands_ok(occurrences(cs, k), len),
    decreases k,
{
    if k > 0 {
        lemma_three_terms(cs, (k - 1) as nat, len, span, variant);
        let i = k - 1;
        let before = occurrences(cs, i as nat);
        let all = occurrences(cs, k);
        let c = cs[i];
        assert(sized_constraint(variant, span, i, c));
        let (ka, kb, kc) = spread_of(variant);
        assert(0 <= ka * i && 0 <= kb * i && 0 <= kc * i) by (nonlinear_arith)
            requires
                ka >= 0,
                kb >= 0,
                kc >= 0,
                i >= 0,
        ;
        vstd::arithmetic::div_mod::lemma_mod_bound(ka * i + 1, span);
        vstd::arithmetic::div_mod::lemma_mod_bound(kb * i + 2, span);
        vstd::arithmetic::div_mod::lemma_mod_bound(kc * i + 3, span);
        assert forall|t: int| 0 <= t < all.len() implies #[trigger] operand_error(
            all[t].svi,
            len,
        ) is None by {
            if t < before.len() {
                assert(all[t] == before[t]);
                assert(operand_error(before[t].svi, len) is None);
            } else if t == before.len() {
                assert(all[t].svi == c.a@[0]);
            } else if t == before.len() + 1 {
                assert(all[t].svi == c.b@[0]);
            } else {
                assert(all[t].svi == c.c@[0]);
            }
        }
    }
}

/// A sized synthetic system is admissible.
proof fn lemma_sized(cs: ConstraintSystem, l: nat, n: nat, variant: u8)
    requires
        4 <= n < 32,
        l < 30,
        synth_layout(cs.value_vec_layout, exp2(n) - 8),
        cs.and_constraints@.len() == exp2(l),
        forall|i: int|
            0 <= i < cs.and_constraints@.len() ==> sized_constraint(
                variant,
                exp2(n) - 8,
                i,
                #[trigger] cs.and_constraints@[i],
            ),
        cs.imul_constraints@.len() == 0,
        cs.bmul_constraints@.len() == 0,
    ensures
        cs_fits(cs),
        shape_error(cs) is None,
        operands_ok(all_occurrences(cs), exp2(n)),
        all_occurrences(cs).len() == 3 * exp2(l),
        first_error_absent(cs, exp2(n)),
{
    lemma_exp2_small();
    lemma_exp2_mono(4, n);
    assert(exp2(4) == 2 * exp2(3));
    lemma_exp2_mono(n, 31);
    lemma_exp2_mono(l, 29);
    assert(exp2(31) == 2 * exp2(30));
    assert(exp2(30) == 2 * exp2(29));
    crate::multilinear::exp2::lemma_exp2_pos(l);
    lemma_three_terms(cs.and_constraints@, exp2(l), exp2(n), exp2(n) - 8, variant);
    let t = all_occurrences(cs).len();
    // 2^(l+1) < 3 * 2^l <= 2^(l+2)
    assert(exp2(l + 2) == 2 * exp2(l + 1));
    assert(exp2(l + 1) == 2 * exp2(l));
    lemma_log2_ceil_unique(t, l + 2);
    lemma_exp2_mono(l + 2, 31);
    assert(is_exp2(cs.and_constraints@.len()));
    assert(is_exp2(8)) by {
        assert(exp2(3) == 8);
    }
    lemma_log2_ceil_unique(8, 3);
    // The hidden segment has at least eight words.
    let h = (exp2(n) - 8) as nat;
    lemma_log2_ceil(h);
    if log2_ceil(h) < 3 {
        lemma_exp2_mono(log2_ceil(h), 2);
    }
    let len = exp2(n);
    assert forall|e: DischargeError| !first_operand_error(all_occurrences(cs), len, e) by {
        if first_operand_error(all_occurrences(cs), len, e) {
            let occ = all_occurrences(cs);
            let i = choose|i: int|
                {
                    &&& 0 <= i < occ.len()
                    &&& #[trigger] operand_error(occ[i].svi, len) == Some(e)
                    &&& forall|j: int|
                        0 <= j < i ==> #[trigger] operand_error(occ[j].svi, len) is None
                };
            assert(operand_error(occ[i].svi, len) is None);
        }
    }
}

/// No operand is the first faulty one.
spec fn first_error_absent(cs: ConstraintSystem, len: nat) -> bool {
    forall|e: DischargeError| !(#[trigger] first_operand_error(all_occurrences(cs), len, e))
}

/// The first usable batching challenge among some draws.
pub open spec fn first_usable(draws: Seq<B128>, k: nat) -> Option<B128>
    decreases draws.len() - k,
{
    if k >= draws.len() {
        None
    } else if draws[k as int] != zero() && draws[k as int] != one() {
        Some(draws[k as int])
    } else {
        first_usable(draws, k + 1)
    }
}

/// A claim made directly from a term table: a drawn point, with its batching challenge replaced by
/// the first draw other than zero and one, and its true value. `h_ops` are the evaluations of the
/// eight shift kinds at the point.
pub fn synth_claim(
    dims: &ShapeDims,
    table: &TermTable,
    point: Vec<B128>,
    lambda_draws: &Vec<B128>,
    h_ops: [B128; 8],
) -> (r: Result<Claim, DischargeError>)
    requires
        table.wf(),
        table.dims == *dims,
        dims.fits(),
        point@.len() == dims.arity,
    ensures
        match first_usable(lambda_draws@, 0) {
            None => r == Err::<Claim, DischargeError>(DischargeError::DrawsExhausted),
            Some(lambda) => {
                &&& r is Ok
                &&& r->Ok_0.point@ == point@.update(1, lambda)
                &&& exists|tr: ClaimTransparents|
                    {
                        &&& #[trigger] tr.light(*dims, r->Ok_0.point@, h_ops@)
                        &&& tr.has_tables(*dims)
                        &&& r->Ok_0.value == rows_sum(
                            table.terms@,
                            tr.x_tensor@,
                            tr.y_tensor@,
                            tr.g_tab@,
                            table.terms@.len(),
                        )
                    }
            },
        },
{
    let mut k: usize = 0;
    while k < lambda_draws.len() && (lambda_draws[k] == zero() || lambda_draws[k] == one())
        invariant
            k <= lambda_draws@.len(),
            first_usable(lambda_draws@, 0) == first_usable(lambda_draws@, k as nat),
        decreases lambda_draws@.len() - k,
    {
        k = k + 1;
    }
    if k == lambda_draws.len() {
        return Err(DischargeError::DrawsExhausted);
    }
    let lambda = lambda_draws[k];
    let mut point = point;
    point.set(1, lambda);
    let claim0 = Claim { point, value: zero() };
    let tr = match ClaimTransparents::new(dims, &claim0, h_ops) {
        Ok(tr) => tr,
        Err(e) => {
            return Err(e);
        },
    };
    proof {
        lemma_rows_in(*table, tr);
        assert(tr.light(*dims, claim0.point@, h_ops@));
    }
    let value = native_term_sum(table, &tr);
    Ok(Claim { point: claim0.point, value })
}

/// The draws for one synthetic claim.
pub struct ClaimDraws {
    pub point: Vec<B128>,
    pub lambda_draws: Vec<B128>,
    pub h_ops: [B128; 8],
}

/// A claim made from draws.
pub open spec fn claim_from_draws(dims: ShapeDims, table: TermTable, d: ClaimDraws, claim: Claim) -> bool {
    let lambda = first_usable(d.lambda_draws@, 0);
    &&& lambda is Some
    &&& claim.point@ == d.point@.update(1, lambda->Some_0)
    &&& exists|tr: ClaimTransparents|
        {
            &&& #[trigger] tr.light(dims, claim.point@, d.h_ops@)
            &&& tr.has_tables(dims)
            &&& claim.value == rows_sum(
                table.terms@,
                tr.x_tensor@,
                tr.y_tensor@,
                tr.g_tab@,
                table.terms@.len(),
            )
        }
}

/// One claim per element of the draws.
pub fn synth_claims(dims: &ShapeDims, table: &TermTable, draws: Vec<ClaimDraws>) -> (r: Result<
    Vec<Claim>,
    DischargeError,
>)
    requires
        table.wf(),
        table.dims == *dims,
        dims.fits(),
        forall|i: int| 0 <= i < draws@.len() ==> (#[trigger] draws@[i]).point@.len() == dims.arity,
    ensures
        match r {
            Ok(claims) => {
                &&& claims@.len() == draws@.len()
                &&& forall|i: int|
                    0 <= i < claims@.len() ==> claim_from_draws(
                        *dims,
                        *table,
                        draws@[i],
                        #[trigger] claims@[i],
                    )
            },
            Err(e) => {
                &&& e == DischargeError::DrawsExhausted
                &&& exists|i: int|
                    0 <= i < draws@.len() && first_usable(
                        (#[trigger] draws@[i]).lambda_draws@,
                        0,
                    ) is None
            },
        },
{
    let ghost all = draws@;
    let mut rest = draws;
    let mut back: Vec<Claim> = Vec::new();
    let n: usize = rest.len();
    while rest.len() > 0
        invariant
            table.wf(),
            table.dims == *dims,
            dims.fits(),
            all == draws@,
            n == all.len(),
            rest@.len() + back@.len() == n,
            rest@ == all.take(rest@.len() as int),
            forall|i: int| 0 <= i < all.len() ==> (#[trigger] all[i]).point@.len() == dims.arity,
            forall|j: int|
                0 <= j < back@.len() ==> claim_from_draws(
                    *dims,
                    *table,
                    all[n - 1 - j],
                    #[trigger] back@[j],
                ),
        decreases rest@.len(),
    {
        let ghost last = rest@.len() - 1;
        match rest.pop() {
            Some(d) => {
                assert(d == all[last]);
                assert(all[last].point@.len() == dims.arity);
                let ClaimDraws { point, lambda_draws, h_ops } = d;
                match synth_claim(dims, table, point, &lambda_draws, h_ops) {
                    Ok(claim) => {
                        assert(claim_from_draws(*dims, *table, all[last], claim));
                        back.push(claim);
                        assert(rest@ =~= all.take(rest@.len() as int));
                    },
                    Err(e) => {
                        assert(first_usable(all[last].lambda_draws@, 0) is None);
                        return Err(e);
                    },
                }
            },
            None => {
                return Err(DischargeError::DrawsExhausted);
            },
        }
    }
    let mut claims: Vec<Claim> = Vec::new();
    while back.len() > 0
        invariant
            n == all.len(),
            claims@.len() + back@.len() == n,
            forall|j: int|
                0 <= j < back@.len() ==> claim_from_draws(
                    *dims,
                    *table,
                    all[n - 1 - j],
                    #[trigger] back@[j],
                ),
            forall|i: int|
                0 <= i < claims@.len() ==> claim_from_draws(
                    *dims,
                    *table,
                    all[i],
                    #[trigger] claims@[i],
                ),
        decreases back@.len(),
    {
        let ghost last = back@.len() - 1;
        match back.pop() {
            Some(claim) => {
                assert(claim_from_draws(*dims, *table, all[n - 1 - last], claim));
                claims.push(claim);
            },
            None => {},
        }
    }
    Ok(claims)
}

/// In the tiny system, constraint `i` reads the inputs `i` and, round the five of them, `i + 1`, and
/// its output is plain word `16 + i`. The variants share these and differ in the kinds of their shifts.
pub proof fn law_tiny_constraint(variant: u8, i: int, c: AndConstraint)
    requires
        0 <= i < 5,
        tiny_constraint(variant, i, c),
    ensures
        c.a@.len() == 1,
        c.b@.len() == 1,
        c.c@.len() == 1,
        c.a@[0].value_index.0 == 8 + i,
        c.b@[0].value_index.0 == if i == 4 {
            8
        } else {
            9 + i
        },
        c.c@[0].value_index.0 == 16 + i,
        c.c@[0].shift_variant == ShiftVariant::Sll,
        c.c@[0].amount == 0,
        variant == 0 ==> {
            &&& c.a@[0].shift_variant == ShiftVariant::Sll
            &&& c.b@[0].shift_variant == ShiftVariant::Slr
            &&& c.a@[0].amount == 3 * i + 1
            &&& c.b@[0].amount == 5 * i + 2
        },
        variant != 0 ==> {
            &&& c.a@[0].shift_variant == ShiftVariant::Rotr
            &&& c.b@[0].shift_variant == ShiftVariant::Sar
            &&& c.a@[0].amount == 7 * i + 3
            &&& c.b@[0].amount == 11 * i + 5
        },
{
}

/// From one constraint of a synthetic system to the next, the amounts of the two shifts grow by 3 and
/// 5, or by 7 and 11, round the 64 amounts, and the kinds stay.
pub proof fn law_shift_steps(variant: u8, i: int)
    requires
        0 <= i,
    ensures
        shifts_of(variant, i + 1).0 == shifts_of(variant, i).0,
        shifts_of(variant, i + 1).2 == shifts_of(variant, i).2,
        variant == 0 ==> {
            &&& shifts_of(variant, 0) == (ShiftVariant::Sll, 1int, ShiftVariant::Slr, 2int)
            &&& shifts_of(variant, i + 1).1 == (shifts_of(variant, i).1 + 3) % 64
            &&& shifts_of(variant, i + 1).3 == (shifts_of(variant, i).3 + 5) % 64
        },
        variant != 0 ==> {
            &&& shifts_of(variant, 0) == (ShiftVariant::Rotr, 3int, ShiftVariant::Sar, 5int)
            &&& shifts_of(variant, i + 1).1 == (shifts_of(variant, i).1 + 7) % 64
            &&& shifts_of(variant, i + 1).3 == (shifts_of(variant, i).3 + 11) % 64
        },
{
    vstd::arithmetic::div_mod::lemma_add_mod_noop(3 * i + 1, 3, 64);
    vstd::arithmetic::div_mod::lemma_add_mod_noop(5 * i + 2, 5, 64);
    vstd::arithmetic::div_mod::lemma_add_mod_noop(7 * i + 3, 7, 64);
    vstd::arithmetic::div_mod::lemma_add_mod_noop(11 * i + 5, 11, 64);
}

/// In a sized system, every constraint has one term per operand, every operand is a hidden word, and
/// the shift amounts of the first two operands lie from 1 to 31.
pub proof fn law_sized_constraint(variant: u8, span: int, i: int, c: AndConstraint)
    requires
        0 <= i,
        8 <= span <= 0x8000_0000,
        sized_constraint(variant, span, i, c),
    ensures
        c.a@.len() == 1,
        c.b@.len() == 1,
        c.c@.len() == 1,
        8 <= c.a@[0].value_index.0 < 8 + span,
        8 <= c.b@[0].value_index.0 < 8 + span,
        8 <= c.c@[0].value_index.0 < 8 + span,
        1 <= c.a@[0].amount <= 31,
        1 <= c.b@[0].amount <= 31,
        c.a@[0].amount == 1 + (3 * i + 1) % 31,
        c.b@[0].amount == 1 + (5 * i + 2) % 31,
        c.c@[0].shift_variant == ShiftVariant::Sll,
        c.c@[0].amount == 0,
        variant == 0 ==> {
            &&& c.a@[0].value_index.0 == 8 + (i + 1) % span
            &&& c.b@[0].value_index.0 == 8 + (2 * i + 2) % span
            &&& c.c@[0].value_index.0 == 8 + (3 * i + 3) % span
            &&& c.a@[0].shift_variant == kind(i % 8)
            &&& c.b@[0].shift_variant == kind((2 * i) % 8)
        },
        variant != 0 ==> {
            &&& c.a@[0].value_index.0 == 8 + (5 * i + 1) % span
            &&& c.b@[0].value_index.0 == 8 + (7 * i + 2) % span
            &&& c.c@[0].value_index.0 == 8 + (11 * i + 3) % span
            &&& c.a@[0].shift_variant == kind((5 * i) % 8)
            &&& c.b@[0].shift_variant == kind((7 * i) % 8)
        },
{
    let (ka, kb, kc) = spread_of(variant);
    assert(0 <= ka * i && 0 <= kb * i && 0 <= kc * i) by (nonlinear_arith)
        requires
            ka >= 0,
            kb >= 0,
            kc >= 0,
            i >= 0,
    ;
    vstd::arithmetic::div_mod::lemma_mod_bound(ka * i + 1, span);
    vstd::arithmetic::div_mod::lemma_mod_bound(kb * i + 2, span);
    vstd::arithmetic::div_mod::lemma_mod_bound(kc * i + 3, span);
    assert(c.a@[0].value_index.0 == 8 + (ka * i + 1) % span);
    assert(c.b@[0].value_index.0 == 8 + (kb * i + 2) % span);
    assert(c.c@[0].value_index.0 == 8 + (kc * i + 3) % span);
}

/// The eight kinds in their order: each of the first four shifts the whole word, and the one four
/// places on does the same to its halves.
pub proof fn law_kind_order()
    ensures
        kind(0) == ShiftVariant::Sll,
        kind(4) == ShiftVariant::Sll32,
        kind(1) == ShiftVariant::Slr,
        kind(5) == ShiftVariant::Srl32,
        kind(2) == ShiftVariant::Sar,
        kind(6) == ShiftVariant::Sra32,
        kind(3) == ShiftVariant::Rotr,
        kind(7) == ShiftVariant::Rotr32,
{
}

/// Before anything is solved, a witness holds the constants from its beginning, the instance word and
/// its multiple, the five inputs at the head of the hidden words, and zeros elsewhere.
pub proof fn law_start_words(cs: ConstraintSystem, instance: u64, i: int)
    requires
        cs.constants@.len() <= 4,
        0 <= i,
    ensures
        i < cs.constants@.len() ==> start_word(cs, instance, i) == cs.constants@[i],
        cs.constants@.len() <= i < 4 ==> start_word(cs, instance, i) == 0,
        start_word(cs, instance, 4) == instance,
        start_word(cs, instance, 5) as int == (instance * 0x9e3779b97f4a7c15)
            % 0x1_0000_0000_0000_0000,
        start_word(cs, instance, 6) == 0,
        start_word(cs, instance, 7) == 0,
        start_word(cs, instance, 8) == 0xdeadbeef_cafe1234,
        start_word(cs, instance, 9) == 0x0f0f0f0f_33cc55aa,
        start_word(cs, instance, 10) == 0xffff0000_ffff0000,
        start_word(cs, instance, 11) == 0x12345678_9abcdef0,
        start_word(cs, instance, 12) == 0xa5a5a5a5_5a5a5a5a,
        13 <= i ==> start_word(cs, instance, i) == 0,
{
    vstd::arithmetic::div_mod::lemma_mod_bound(
        instance * 0x9e3779b97f4a7c15,
        0x1_0000_0000_0000_0000,
    );
}

/// Solving changes no word but the outputs.
pub proof fn law_solving_keeps_inputs(cs: ConstraintSystem, start: Seq<u64>, k: nat, at: int)
    requires
        k <= cs.and_constraints@.len(),
        forall|i: int|
            0 <= i < k ==> {
                let con = #[trigger] cs.and_constraints@[i];
                con.a@.len() == 0 || con.c@[0].value_index.0 != at
            },
        forall|i: int|
            0 <= i < k ==> (#[trigger] cs.and_constraints@[i]).a@.len() == 0
                || cs.and_constraints@[i].c@[0].value_index.0 < start.len(),
        0 <= at < start.len(),
    ensures
        solved(cs, start, k).len() == start.len(),
        solved(cs, start, k)[at] == start[at],
    decreases k,
{
    if k > 0 {
        law_solving_keeps_inputs(cs, start, (k - 1) as nat, at);
        let con = cs.and_constraints@[k - 1];
        assert(con.a@.len() == 0 || con.c@[0].value_index.0 != at);
    }
}

/// Solving a constraint puts into its output word the bits that the values of its first two operands
/// share just before.
pub proof fn law_solving_sets_output(cs: ConstraintSystem, start: Seq<u64>, k: nat)
    requires
        k < cs.and_constraints@.len(),
        cs.and_constraints@[k as int].a@.len() > 0,
        cs.and_constraints@[k as int].c@[0].value_index.0 < solved(cs, start, k).len(),
    ensures
        ({
            let con = cs.and_constraints@[k as int];
            let before = solved(cs, start, k);
            solved(cs, start, k + 1)[con.c@[0].value_index.0 as int] == operand_value(
                con.a@,
                before,
            ) & operand_value(con.b@, before)
        }),
{
}

/// The batching challenge is the first draw that is neither zero nor one, and there is none exactly
/// when every draw is zero or one.
pub proof fn law_first_usable(draws: Seq<B128>, k: nat)
    requires
        k <= draws.len(),
    ensures
        first_usable(draws, k) is None <==> forall|i: int|
            k <= i < draws.len() ==> #[trigger] draws[i] == zero() || draws[i] == one(),
        first_usable(draws, k) is Some ==> exists|i: int|
            {
                &&& k <= i < draws.len()
                &&& #[trigger] draws[i] == first_usable(draws, k)->Some_0
                &&& draws[i] != zero()
                &&& draws[i] != one()
                &&& forall|j: int| k <= j < i ==> #[trigger] draws[j] == zero() || draws[j] == one()
            },
    decreases draws.len() - k,
{
    if k < draws.len() {
        let first = draws[k as int];
        if first == zero() || first == one() {
            law_first_usable(draws, k + 1);
            if first_usable(draws, k + 1) is Some {
                let i = choose|i: int|
                    {
                        &&& k + 1 <= i < draws.len()
                        &&& #[trigger] draws[i] == first_usable(draws, k + 1)->Some_0
                        &&& draws[i] != zero()
                        &&& draws[i] != one()
                        &&& forall|j: int|
                            k + 1 <= j < i ==> #[trigger] draws[j] == zero() || draws[j] == one()
                    };
                assert(draws[i] == first_usable(draws, k)->Some_0);
            }
        } else {
            assert(draws[k as int] == first_usable(draws, k)->Some_0);
        }
    }
}

/// A claim made from draws keeps the drawn point but for its second coordinate, which is neither zero
/// nor one.
pub proof fn law_claim_from_draws(dims: ShapeDims, table: TermTable, d: ClaimDraws, claim: Claim)
    requires
        claim_from_draws(dims, table, d, claim),
        d.point@.len() >= 2,
    ensures
        claim.point@.len() == d.point@.len(),
        forall|i: int|
            0 <= i < d.point@.len() && i != 1 ==> #[trigger] claim.point@[i] == d.point@[i],
        claim.point@[1] != zero(),
        claim.point@[1] != one(),
        d.lambda_draws@.contains(claim.point@[1]),
{
    law_first_usable(d.lambda_draws@, 0);
}

/// The layout of a synthetic system: three constants and two instance words in a public segment of
/// eight, the instance words from its middle on, and every hidden word a witness word.
pub proof fn law_synth_layout(l: ValueVecLayout, n_hidden: int)
    ensures
        synth_layout(l, n_hidden) <==> l.n_const == 3 && l.n_inout == 2 && l.offset_inout == 4
            && l.offset_witness == 8 && l.n_witness == n_hidden && l.n_hidden_words == n_hidden
            && l.n_internal == 0 && l.n_scratch == 0,
{
}

/// A constraint can be solved for its output when it has nothing to solve, or when its third operand is one
/// word, unshifted.
pub proof fn law_plain_output(con: AndConstraint)
    ensures
        con.a@.len() == 0 ==> plain_output(con),
        con.a@.len() > 0 ==> (plain_output(con) <==> con.c@.len() == 1 && con.c@[0].amount == 0),
{
}

/// The number of words of a value vector: those of the public and of the hidden segment.
pub proof fn law_word_count(cs: ConstraintSystem)
    ensures
        n_words(cs) == cs.value_vec_layout.offset_witness + cs.value_vec_layout.n_hidden_words,
{
}

} // verus!
