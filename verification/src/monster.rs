//! The deferred evaluation itself, computed from the constraint system: the batched multilinear
//! evaluation of the constraint matrices at a claim point. It costs one multiplication per operand
//! term, which is what a discharge saves.

use crate::claim::{
    law_segment_weight, meta_weights, parsed_fits, row_weight, rows_sum, segment_tensor,
    segment_weight, shift_weight, word_weights, ParsedClaim,
};
use crate::cs::{AndConstraint, ConstraintSystem, ImulConstraint, ShiftVariant, ShiftedValueIndex};
use crate::field::element::{zero, B128};
use crate::field::ring::{
    group_add_ac, group_units, law_add_associates, law_add_commutes, law_distributes,
    law_mul_associates, law_mul_commutes,
};
use crate::field::sums::{
    lemma_sum_ext, lemma_sum_scale, lemma_sum_split, lemma_sum_update, lemma_sum_zeros, power, sum,
};
use crate::multilinear::eq::{eq_at, eq_ind_partial_eval_scalars, eq_tensor};
use crate::multilinear::exp2::{
    exp2, lemma_exp2_small, lemma_exp2_strict, lemma_log2_ceil_unique, log2_ceil,
};
use crate::table::{
    all_occurrences, cs_fits, imul_is_empty, is_andonly, is_shape_of, occurrences, operand_error,
    operands_ok, term_of, Occurrence, ShapeDims, LOG_WORD_SIZE_BITS,
};
use vstd::prelude::*;

verus! {

/// The weight of a shifted word.
pub open spec fn svi_weight(
    svi: ShiftedValueIndex,
    h_ops: Seq<B128>,
    r_s: Seq<B128>,
    words: Seq<B128>,
) -> B128 {
    shift_weight(h_ops, r_s, svi.shift_variant.id() as int, svi.amount as int)
        * words[svi.value_index.0 as int]
}

/// The weight of an operand: the sum of the weights of its words.
pub open spec fn operand_weight(
    operand: Seq<ShiftedValueIndex>,
    h_ops: Seq<B128>,
    r_s: Seq<B128>,
    words: Seq<B128>,
) -> B128 {
    sum(|j: int| svi_weight(operand[j], h_ops, r_s, words), operand.len())
}

/// The weight of an AND constraint: its three operands, batched by powers of `lambda`.
pub open spec fn and_weight(
    c: AndConstraint,
    lambda: B128,
    h_ops: Seq<B128>,
    r_s: Seq<B128>,
    words: Seq<B128>,
) -> B128 {
    power(lambda, 1) * operand_weight(c.a@, h_ops, r_s, words) + power(lambda, 2) * operand_weight(
        c.b@,
        h_ops,
        r_s,
        words,
    ) + power(lambda, 3) * operand_weight(c.c@, h_ops, r_s, words)
}

/// The weight of an IMUL constraint: its four operands, batched by powers of `lambda`.
pub open spec fn imul_weight(
    c: ImulConstraint,
    lambda: B128,
    h_ops: Seq<B128>,
    r_s: Seq<B128>,
    words: Seq<B128>,
) -> B128 {
    power(lambda, 1) * operand_weight(c.a@, h_ops, r_s, words) + power(lambda, 2) * operand_weight(
        c.b@,
        h_ops,
        r_s,
        words,
    ) + power(lambda, 3) * operand_weight(c.lo@, h_ops, r_s, words) + power(lambda, 4)
        * operand_weight(c.hi@, h_ops, r_s, words)
}

/// The weights of the words of a constraint system's value vector.
pub open spec fn cs_words(cs: ConstraintSystem, parsed: ParsedClaim) -> Seq<B128> {
    let layout = cs.value_vec_layout;
    Seq::new(
        (layout.offset_witness + layout.n_hidden_words) as nat,
        |y: int|
            segment_weight(
                log2_ceil(layout.offset_witness as nat) as int,
                layout.offset_witness as int,
                parsed.r_y@,
                parsed.r_segment,
                y,
            ),
    )
}

/// The evaluation of the AND matrices at a claim point.
pub open spec fn and_part(cs: ConstraintSystem, parsed: ParsedClaim, h_ops: Seq<B128>) -> B128 {
    sum(
        |x: int|
            eq_at(x, parsed.r_x@) * and_weight(
                cs.and_constraints@[x],
                parsed.lambda_and,
                h_ops,
                parsed.r_s@,
                cs_words(cs, parsed),
            ),
        cs.and_constraints@.len(),
    )
}

/// The evaluation of the IMUL matrices at a claim point.
pub open spec fn imul_part(cs: ConstraintSystem, parsed: ParsedClaim, h_ops: Seq<B128>) -> B128 {
    sum(
        |x: int|
            eq_at(x, parsed.r_x_mul@) * imul_weight(
                cs.imul_constraints@[x],
                parsed.lambda_int,
                h_ops,
                parsed.r_s@,
                cs_words(cs, parsed),
            ),
        cs.imul_constraints@.len(),
    )
}

/// The deferred evaluation: the batched evaluation of all constraint matrices.
pub open spec fn monster_value(cs: ConstraintSystem, parsed: ParsedClaim, h_ops: Seq<B128>) -> B128 {
    and_part(cs, parsed, h_ops) + imul_part(cs, parsed, h_ops)
}

/// An operand's words lie in the value vector, and its shift amounts are below the word size.
pub open spec fn operand_in(operand: Seq<ShiftedValueIndex>, len: nat) -> bool {
    forall|j: int| 0 <= j < operand.len() ==> operand_error(#[trigger] operand[j], len) is None
}

/// Every operand of a constraint system is in range.
pub open spec fn cs_operands_in(cs: ConstraintSystem) -> bool {
    let len = (cs.value_vec_layout.offset_witness + cs.value_vec_layout.n_hidden_words) as nat;
    &&& forall|x: int|
        0 <= x < cs.and_constraints@.len() ==> {
            let c = #[trigger] cs.and_constraints@[x];
            operand_in(c.a@, len) && operand_in(c.b@, len) && operand_in(c.c@, len)
        }
    &&& forall|x: int|
        0 <= x < cs.imul_constraints@.len() ==> {
            let c = #[trigger] cs.imul_constraints@[x];
            operand_in(c.a@, len) && operand_in(c.b@, len) && operand_in(c.lo@, len) && operand_in(
                c.hi@,
                len,
            )
        }
}

/// Kind and amount of a shift as one index.
fn shift_slot(svi: &ShiftedValueIndex) -> (i: usize)
    requires
        svi.amount < 64,
    ensures
        i == 64 * svi.shift_variant.id() + svi.amount,
        i < 512,
{
    let id: usize = match svi.shift_variant {
        ShiftVariant::Sll => 0,
        ShiftVariant::Slr => 1,
        ShiftVariant::Sar => 2,
        ShiftVariant::Rotr => 3,
        ShiftVariant::Sll32 => 4,
        ShiftVariant::Srl32 => 5,
        ShiftVariant::Sra32 => 6,
        ShiftVariant::Rotr32 => 7,
    };
    64 * id + svi.amount as usize
}

/// The weights of all shifts, by kind and amount.
fn shift_scalars(h_ops: &[B128; 8], r_s: &[B128]) -> (out: Vec<B128>)
    requires
        r_s@.len() == LOG_WORD_SIZE_BITS,
    ensures
        out@.len() == 512,
        forall|i: int|
            0 <= i < 512 ==> #[trigger] out@[i] == shift_weight(h_ops@, r_s@, i / 64, i % 64),
{
    proof {
        lemma_exp2_small();
    }
    let eq_r_s = eq_ind_partial_eval_scalars(r_s);
    let mut out: Vec<B128> = Vec::new();
    let mut i: usize = 0;
    while i < 512
        invariant
            i <= 512,
            eq_r_s@ == eq_tensor(r_s@),
            eq_r_s@.len() == 64,
            out@.len() == i,
            forall|j: int|
                0 <= j < i ==> #[trigger] out@[j] == shift_weight(h_ops@, r_s@, j / 64, j % 64),
        decreases 512 - i,
    {
        out.push(h_ops[i / 64] * eq_r_s[i % 64]);
        i = i + 1;
    }
    out
}

/// The weight of an operand.
fn operand_sum(
    operand: &Vec<ShiftedValueIndex>,
    scalars: &Vec<B128>,
    words: &Vec<B128>,
    h_ops: &[B128; 8],
    r_s: &[B128],
) -> (r: B128)
    requires
        operand_in(operand@, words@.len()),
        scalars@.len() == 512,
        forall|i: int|
            0 <= i < 512 ==> #[trigger] scalars@[i] == shift_weight(h_ops@, r_s@, i / 64, i % 64),
    ensures
        r == operand_weight(operand@, h_ops@, r_s@, words@),
{
    let mut acc = zero();
    let mut j: usize = 0;
    while j < operand.len()
        invariant
            j <= operand@.len(),
            operand_in(operand@, words@.len()),
            scalars@.len() == 512,
            forall|i: int|
                0 <= i < 512 ==> #[trigger] scalars@[i] == shift_weight(
                    h_ops@,
                    r_s@,
                    i / 64,
                    i % 64,
                ),
            acc == sum(|j: int| svi_weight(operand@[j], h_ops@, r_s@, words@), j as nat),
        decreases operand@.len() - j,
    {
        let svi = operand[j];
        assert(operand_error(operand@[j as int], words@.len()) is None);
        let slot: usize = shift_slot(&svi);
        acc = acc + scalars[slot] * words[svi.value_index.0 as usize];
        j = j + 1;
    }
    acc
}

/// The deferred evaluation at a parsed claim point, from the constraint system. `h_ops` are the
/// evaluations of the eight shift kinds at the claim.
pub fn native_monster_eval(cs: &ConstraintSystem, parsed: &ParsedClaim, h_ops: &[B128; 8]) -> (r:
    B128)
    requires
        cs_operands_in(*cs),
        cs.value_vec_layout.offset_witness + cs.value_vec_layout.n_hidden_words <= usize::MAX,
        cs.value_vec_layout.offset_witness == exp2(
            log2_ceil(cs.value_vec_layout.offset_witness as nat),
        ),
        log2_ceil(cs.value_vec_layout.offset_witness as nat) <= parsed.r_y@.len(),
        cs.value_vec_layout.n_hidden_words <= exp2(parsed.r_y@.len()),
        exp2(parsed.r_y@.len()) <= usize::MAX,
        parsed.r_s@.len() == LOG_WORD_SIZE_BITS,
        cs.and_constraints@.len() == exp2(parsed.r_x@.len()),
        cs.imul_constraints@.len() > 0 ==> cs.imul_constraints@.len() == exp2(
            parsed.r_x_mul@.len(),
        ),
    ensures
        r == monster_value(*cs, *parsed, h_ops@),
{
    let layout = &cs.value_vec_layout;
    let words = segment_tensor(
        layout.log_public_words(),
        layout.n_public_words(),
        layout.combined_len(),
        &parsed.r_y,
        parsed.r_segment,
    );
    assert(words@ =~= cs_words(*cs, *parsed));
    let scalars = shift_scalars(h_ops, &parsed.r_s);
    let n_and: usize = cs.and_constraints.len();
    assert(n_and == exp2(parsed.r_x@.len()));
    let x_tensor = eq_ind_partial_eval_scalars(&parsed.r_x);
    let l1 = parsed.lambda_and;
    let l2 = l1 * l1;
    let l3 = l2 * l1;
    let ghost and_f = |x: int|
        eq_at(x, parsed.r_x@) * and_weight(
            cs.and_constraints@[x],
            parsed.lambda_and,
            h_ops@,
            parsed.r_s@,
            cs_words(*cs, *parsed),
        );
    proof {
        lemma_powers(l1);
    }
    let mut bitand_part = zero();
    let mut x: usize = 0;
    while x < cs.and_constraints.len()
        invariant
            x <= cs.and_constraints@.len(),
            cs_operands_in(*cs),
            words@ == cs_words(*cs, *parsed),
            x_tensor@ == eq_tensor(parsed.r_x@),
            cs.and_constraints@.len() == exp2(parsed.r_x@.len()),
            scalars@.len() == 512,
            forall|i: int|
                0 <= i < 512 ==> #[trigger] scalars@[i] == shift_weight(
                    h_ops@,
                    parsed.r_s@,
                    i / 64,
                    i % 64,
                ),
            l1 == power(parsed.lambda_and, 1),
            l2 == power(parsed.lambda_and, 2),
            l3 == power(parsed.lambda_and, 3),
            and_f == (|x: int|
                eq_at(x, parsed.r_x@) * and_weight(
                    cs.and_constraints@[x],
                    parsed.lambda_and,
                    h_ops@,
                    parsed.r_s@,
                    cs_words(*cs, *parsed),
                )),
            bitand_part == sum(and_f, x as nat),
        decreases cs.and_constraints@.len() - x,
    {
        let con = &cs.and_constraints[x];
        assert(*con == cs.and_constraints@[x as int]);
        let a = operand_sum(&con.a, &scalars, &words, h_ops, &parsed.r_s);
        let b = operand_sum(&con.b, &scalars, &words, h_ops, &parsed.r_s);
        let c = operand_sum(&con.c, &scalars, &words, h_ops, &parsed.r_s);
        bitand_part = bitand_part + x_tensor[x] * (l1 * a + l2 * b + l3 * c);
        x = x + 1;
    }
    let mut intmul_part = zero();
    if cs.imul_constraints.len() > 0 {
        let t_mul = imul_tensor(&parsed.r_x_mul, cs);
        let k1 = parsed.lambda_int;
        let k2 = k1 * k1;
        let k3 = k2 * k1;
        let k4 = k3 * k1;
        let ghost imul_f = |x: int|
            eq_at(x, parsed.r_x_mul@) * imul_weight(
                cs.imul_constraints@[x],
                parsed.lambda_int,
                h_ops@,
                parsed.r_s@,
                cs_words(*cs, *parsed),
            );
        proof {
            lemma_powers(k1);
        }
        let mut y: usize = 0;
        while y < cs.imul_constraints.len()
            invariant
                y <= cs.imul_constraints@.len(),
                cs_operands_in(*cs),
                words@ == cs_words(*cs, *parsed),
                t_mul@ == eq_tensor(parsed.r_x_mul@),
                t_mul@.len() == cs.imul_constraints@.len(),
                scalars@.len() == 512,
                forall|i: int|
                    0 <= i < 512 ==> #[trigger] scalars@[i] == shift_weight(
                        h_ops@,
                        parsed.r_s@,
                        i / 64,
                        i % 64,
                    ),
                k1 == power(parsed.lambda_int, 1),
                k2 == power(parsed.lambda_int, 2),
                k3 == power(parsed.lambda_int, 3),
                k4 == power(parsed.lambda_int, 4),
                imul_f == (|x: int|
                    eq_at(x, parsed.r_x_mul@) * imul_weight(
                        cs.imul_constraints@[x],
                        parsed.lambda_int,
                        h_ops@,
                        parsed.r_s@,
                        cs_words(*cs, *parsed),
                    )),
                intmul_part == sum(imul_f, y as nat),
            decreases cs.imul_constraints@.len() - y,
        {
            let con = &cs.imul_constraints[y];
            assert(*con == cs.imul_constraints@[y as int]);
            let a = operand_sum(&con.a, &scalars, &words, h_ops, &parsed.r_s);
            let b = operand_sum(&con.b, &scalars, &words, h_ops, &parsed.r_s);
            let lo = operand_sum(&con.lo, &scalars, &words, h_ops, &parsed.r_s);
            let hi = operand_sum(&con.hi, &scalars, &words, h_ops, &parsed.r_s);
            intmul_part = intmul_part + t_mul[y] * (k1 * a + k2 * b + k3 * lo + k4 * hi);
            y = y + 1;
        }
    }
    bitand_part + intmul_part
}

/// The indicator table over the IMUL constraints.
fn imul_tensor(r_x_mul: &Vec<B128>, cs: &ConstraintSystem) -> (t: Vec<B128>)
    requires
        cs.imul_constraints@.len() == exp2(r_x_mul@.len()),
    ensures
        t@ == eq_tensor(r_x_mul@),
        t@.len() == cs.imul_constraints@.len(),
{
    let n: usize = cs.imul_constraints.len();
    assert(n == exp2(r_x_mul@.len()));
    eq_ind_partial_eval_scalars(r_x_mul)
}

proof fn lemma_powers(l: B128)
    ensures
        power(l, 1) == l,
        power(l, 2) == l * l,
        power(l, 3) == (l * l) * l,
        power(l, 4) == ((l * l) * l) * l,
{
    broadcast use group_units;

    reveal_with_fuel(power, 5);
}

/// The rows of one operand sum to the operand's weight, times the weights of its constraint and
/// of its slot.
proof fn lemma_operand_rows(
    x: int,
    m: int,
    operand: Seq<ShiftedValueIndex>,
    r_x: Seq<B128>,
    lambda: B128,
    h_ops: Seq<B128>,
    r_s: Seq<B128>,
    words: Seq<B128>,
    row: spec_fn(int) -> B128,
)
    requires
        0 <= x < exp2(r_x.len()),
        x < 0x1_0000_0000,
        0 <= m < 3,
        operand_in(operand, words.len()),
        forall|j: int|
            0 <= j < operand.len() ==> #[trigger] row(j) == row_weight(
                eq_tensor(r_x),
                words,
                meta_weights(lambda, h_ops, r_s),
                term_of(Occurrence { x, m, svi: operand[j] }),
            ),
    ensures
        sum(row, operand.len()) == eq_at(x, r_x) * (power(lambda, (m + 1) as nat) * operand_weight(
            operand,
            h_ops,
            r_s,
            words,
        )),
{
    let f = |j: int| svi_weight(operand[j], h_ops, r_s, words);
    let ex = eq_at(x, r_x);
    let lp = power(lambda, (m + 1) as nat);
    assert forall|j: int| 0 <= j < operand.len() implies #[trigger] row(j) == (ex * lp) * f(j) by {
        let svi = operand[j];
        assert(operand_error(operand[j], words.len()) is None);
        lemma_exp2_small();
        let u = svi.amount + 64 * svi.shift_variant.id() + 512 * m;
        assert(u / 512 == m);
        assert((u / 64) % 8 == svi.shift_variant.id());
        assert(u % 64 == svi.amount);
        let s = shift_weight(h_ops, r_s, svi.shift_variant.id() as int, svi.amount as int);
        let w = words[svi.value_index.0 as int];
        // (ex * w) * (lp * s) == (ex * lp) * (s * w)
        law_mul_commutes(lp, s);
        law_mul_associates(ex, w, s * lp);
        law_mul_associates(w, s, lp);
        law_mul_commutes(w, s);
        law_mul_commutes(s * w, lp);
        law_mul_associates(ex, lp, s * w);
    }
    lemma_sum_scale(ex * lp, f, row, operand.len());
    law_mul_associates(ex, lp, sum(f, operand.len()));
}

/// The rows of the first `k` constraints sum to the weights of those constraints.
proof fn lemma_constraint_rows(
    cs: ConstraintSystem,
    parsed: ParsedClaim,
    h_ops: Seq<B128>,
    k: nat,
    row: spec_fn(int) -> B128,
)
    requires
        k <= cs.and_constraints@.len(),
        cs.and_constraints@.len() == exp2(parsed.r_x@.len()),
        cs.and_constraints@.len() <= 0x1_0000_0000,
        cs_operands_in(cs),
        forall|t: int|
            0 <= t < occurrences(cs.and_constraints@, k).len() ==> #[trigger] row(t) == row_weight(
                eq_tensor(parsed.r_x@),
                cs_words(cs, parsed),
                meta_weights(parsed.lambda_and, h_ops, parsed.r_s@),
                term_of(occurrences(cs.and_constraints@, k)[t]),
            ),
    ensures
        sum(row, occurrences(cs.and_constraints@, k).len()) == sum(
            |x: int|
                eq_at(x, parsed.r_x@) * and_weight(
                    cs.and_constraints@[x],
                    parsed.lambda_and,
                    h_ops,
                    parsed.r_s@,
                    cs_words(cs, parsed),
                ),
            k,
        ),
    decreases k,
{
    if k > 0 {
        let x = k - 1;
        let ands = cs.and_constraints@;
        let c = ands[x];
        let words = cs_words(cs, parsed);
        let before = occurrences(ands, x as nat);
        let n0 = before.len();
        let (na, nb, nc) = (c.a@.len(), c.b@.len(), c.c@.len());
        let full = occurrences(ands, k);
        lemma_constraint_rows(cs, parsed, h_ops, x as nat, row);
        let ra = |j: int| row(n0 + j);
        let rb = |j: int| row(n0 + na + j);
        let rc = |j: int| row(n0 + na + nb + j);
        lemma_sum_split(row, ra, n0, na);
        lemma_sum_split(row, rb, n0 + na, nb);
        lemma_sum_split(row, rc, n0 + na + nb, nc);
        assert(full.len() == n0 + na + nb + nc);
        let l = parsed.lambda_and;
        assert forall|j: int| 0 <= j < na implies #[trigger] ra(j) == row_weight(
            eq_tensor(parsed.r_x@),
            words,
            meta_weights(l, h_ops, parsed.r_s@),
            term_of(Occurrence { x, m: 0, svi: c.a@[j] }),
        ) by {
            assert(full[n0 + j] == (Occurrence { x, m: 0, svi: c.a@[j] }));
        }
        lemma_operand_rows(x, 0, c.a@, parsed.r_x@, l, h_ops, parsed.r_s@, words, ra);
        assert forall|j: int| 0 <= j < nb implies #[trigger] rb(j) == row_weight(
            eq_tensor(parsed.r_x@),
            words,
            meta_weights(l, h_ops, parsed.r_s@),
            term_of(Occurrence { x, m: 1, svi: c.b@[j] }),
        ) by {
            assert(full[n0 + na + j] == (Occurrence { x, m: 1, svi: c.b@[j] }));
        }
        lemma_operand_rows(x, 1, c.b@, parsed.r_x@, l, h_ops, parsed.r_s@, words, rb);
        assert forall|j: int| 0 <= j < nc implies #[trigger] rc(j) == row_weight(
            eq_tensor(parsed.r_x@),
            words,
            meta_weights(l, h_ops, parsed.r_s@),
            term_of(Occurrence { x, m: 2, svi: c.c@[j] }),
        ) by {
            assert(full[n0 + na + nb + j] == (Occurrence { x, m: 2, svi: c.c@[j] }));
        }
        lemma_operand_rows(x, 2, c.c@, parsed.r_x@, l, h_ops, parsed.r_s@, words, rc);
        let ex = eq_at(x, parsed.r_x@);
        let pa = power(l, 1) * operand_weight(c.a@, h_ops, parsed.r_s@, words);
        let pb = power(l, 2) * operand_weight(c.b@, h_ops, parsed.r_s@, words);
        let pc = power(l, 3) * operand_weight(c.c@, h_ops, parsed.r_s@, words);
        law_distributes(ex, pa + pb, pc);
        law_distributes(ex, pa, pb);
        let s0 = sum(row, n0);
        law_add_associates(s0, ex * pa, ex * pb);
        law_add_associates(s0, ex * pa + ex * pb, ex * pc);
    }
}

/// For an AND-only shape, the deferred evaluation is the sum of the weights of the rows of the
/// term table.
pub proof fn law_monster_is_term_sum(
    cs: ConstraintSystem,
    dims: ShapeDims,
    parsed: ParsedClaim,
    h_ops: Seq<B128>,
)
    requires
        is_shape_of(dims, cs),
        dims.segmented(),
        cs_fits(cs),
        is_andonly(cs),
        operands_ok(all_occurrences(cs), dims.combined_len as nat),
        parsed_fits(dims, parsed),
    ensures
        monster_value(cs, parsed, h_ops) == rows_sum(
            all_occurrences(cs).map_values(|o: Occurrence| term_of(o)),
            eq_tensor(parsed.r_x@),
            word_weights(dims, parsed.r_y@, parsed.r_segment),
            meta_weights(parsed.lambda_and, h_ops, parsed.r_s@),
            all_occurrences(cs).len(),
        ),
{
    broadcast use group_units;

    let words = cs_words(cs, parsed);
    let layout = cs.value_vec_layout;
    if dims.lp > 0 {
        lemma_exp2_strict((dims.lp - 1) as nat, dims.lp as nat);
    }
    lemma_log2_ceil_unique(layout.offset_witness as nat, dims.lp as nat);
    assert(words =~= word_weights(dims, parsed.r_y@, parsed.r_segment));
    assert(cs_operands_in(cs)) by {
        lemma_operands_in(cs, dims.combined_len as nat);
    }
    let terms = all_occurrences(cs).map_values(|o: Occurrence| term_of(o));
    let row = |t: int|
        row_weight(
            eq_tensor(parsed.r_x@),
            words,
            meta_weights(parsed.lambda_and, h_ops, parsed.r_s@),
            terms[t],
        );
    assert forall|t: int| 0 <= t < all_occurrences(cs).len() implies #[trigger] row(t) == row_weight(
        eq_tensor(parsed.r_x@),
        words,
        meta_weights(parsed.lambda_and, h_ops, parsed.r_s@),
        term_of(all_occurrences(cs)[t]),
    ) by {}
    lemma_constraint_rows(cs, parsed, h_ops, cs.and_constraints@.len(), row);
    // The IMUL operands are empty, so their part vanishes.
    let imul_f = |x: int|
        eq_at(x, parsed.r_x_mul@) * imul_weight(
            cs.imul_constraints@[x],
            parsed.lambda_int,
            h_ops,
            parsed.r_s@,
            words,
        );
    assert forall|x: int| 0 <= x < cs.imul_constraints@.len() implies #[trigger] imul_f(x)
        == zero() by {
        assert(imul_is_empty(cs.imul_constraints@[x]));
    }
    lemma_sum_zeros(imul_f, cs.imul_constraints@.len());
}

/// Soundness of all occurrences is soundness of every operand.
proof fn lemma_operands_in(cs: ConstraintSystem, len: nat)
    requires
        operands_ok(all_occurrences(cs), len),
        is_andonly(cs),
        len == cs.value_vec_layout.offset_witness + cs.value_vec_layout.n_hidden_words,
    ensures
        cs_operands_in(cs),
{
    let ands = cs.and_constraints@;
    assert forall|x: int| 0 <= x < ands.len() implies {
        let c = #[trigger] ands[x];
        operand_in(c.a@, len) && operand_in(c.b@, len) && operand_in(c.c@, len)
    } by {
        lemma_operands_in_prefix(ands, ands.len(), len, x);
    }
    assert forall|x: int| 0 <= x < cs.imul_constraints@.len() implies {
        let c = #[trigger] cs.imul_constraints@[x];
        operand_in(c.a@, len) && operand_in(c.b@, len) && operand_in(c.lo@, len) && operand_in(
            c.hi@,
            len,
        )
    } by {
        assert(imul_is_empty(cs.imul_constraints@[x]));
    }
}

proof fn lemma_operands_in_prefix(ands: Seq<AndConstraint>, k: nat, len: nat, x: int)
    requires
        operands_ok(occurrences(ands, k), len),
        0 <= x < k <= ands.len(),
    ensures
        operand_in(ands[x].a@, len),
        operand_in(ands[x].b@, len),
        operand_in(ands[x].c@, len),
    decreases k,
{
    let full = occurrences(ands, k);
    let before = occurrences(ands, (k - 1) as nat);
    let n0 = before.len();
    if x < k - 1 {
        assert forall|i: int| 0 <= i < before.len() implies #[trigger] operand_error(
            before[i].svi,
            len,
        ) is None by {
            assert(full[i] == before[i]);
            assert(operand_error(full[i].svi, len) is None);
        }
        lemma_operands_in_prefix(ands, (k - 1) as nat, len, x);
    } else {
        let c = ands[x];
        let (na, nb) = (c.a@.len(), c.b@.len());
        assert forall|j: int| 0 <= j < c.a@.len() implies operand_error(
            #[trigger] c.a@[j],
            len,
        ) is None by {
            assert(full[n0 + j].svi == c.a@[j]);
            assert(operand_error(full[n0 + j].svi, len) is None);
        }
        assert forall|j: int| 0 <= j < c.b@.len() implies operand_error(
            #[trigger] c.b@[j],
            len,
        ) is None by {
            assert(full[n0 + na + j].svi == c.b@[j]);
            assert(operand_error(full[n0 + na + j].svi, len) is None);
        }
        assert forall|j: int| 0 <= j < c.c@.len() implies operand_error(
            #[trigger] c.c@[j],
            len,
        ) is None by {
            assert(full[n0 + na + nb + j].svi == c.c@[j]);
            assert(operand_error(full[n0 + na + nb + j].svi, len) is None);
        }
    }
}

/// The operand of an AND constraint in a slot.
pub open spec fn and_operand(c: AndConstraint, m: int) -> Seq<ShiftedValueIndex> {
    if m == 0 {
        c.a@
    } else if m == 1 {
        c.b@
    } else {
        c.c@
    }
}

/// The operand of an IMUL constraint in a slot.
pub open spec fn imul_operand(c: ImulConstraint, m: int) -> Seq<ShiftedValueIndex> {
    if m == 0 {
        c.a@
    } else if m == 1 {
        c.b@
    } else if m == 2 {
        c.lo@
    } else {
        c.hi@
    }
}

/// One more term in an operand adds its weight.
proof fn lemma_operand_grows(
    before: Seq<ShiftedValueIndex>,
    svi: ShiftedValueIndex,
    h_ops: Seq<B128>,
    r_s: Seq<B128>,
    words: Seq<B128>,
)
    ensures
        operand_weight(before.push(svi), h_ops, r_s, words) == operand_weight(
            before,
            h_ops,
            r_s,
            words,
        ) + h_ops[svi.shift_variant.id() as int] * eq_at(svi.amount as int, r_s)
            * words[svi.value_index.0 as int],
{
    let after = before.push(svi);
    let f = |j: int| svi_weight(before[j], h_ops, r_s, words);
    let g = |j: int| svi_weight(after[j], h_ops, r_s, words);
    lemma_sum_ext(f, g, before.len());
    assert(sum(g, (before.len() + 1) as nat) == sum(g, before.len()) + g(before.len() as int));
}

/// A constraint system without terms has the evaluation zero.
pub proof fn law_monster_empty(cs: ConstraintSystem, parsed: ParsedClaim, h_ops: Seq<B128>)
    requires
        forall|x: int|
            0 <= x < cs.and_constraints@.len() ==> {
                let c = #[trigger] cs.and_constraints@[x];
                c.a@.len() == 0 && c.b@.len() == 0 && c.c@.len() == 0
            },
        forall|x: int|
            0 <= x < cs.imul_constraints@.len() ==> {
                let c = #[trigger] cs.imul_constraints@[x];
                c.a@.len() == 0 && c.b@.len() == 0 && c.lo@.len() == 0 && c.hi@.len() == 0
            },
    ensures
        monster_value(cs, parsed, h_ops) == zero(),
{
    broadcast use group_units;

    let words = cs_words(cs, parsed);
    let f = |x: int|
        eq_at(x, parsed.r_x@) * and_weight(
            cs.and_constraints@[x],
            parsed.lambda_and,
            h_ops,
            parsed.r_s@,
            words,
        );
    let g = |x: int|
        eq_at(x, parsed.r_x_mul@) * imul_weight(
            cs.imul_constraints@[x],
            parsed.lambda_int,
            h_ops,
            parsed.r_s@,
            words,
        );
    assert forall|x: int| 0 <= x < cs.and_constraints@.len() implies #[trigger] f(x) == zero() by {
        let c = cs.and_constraints@[x];
    }
    assert forall|x: int| 0 <= x < cs.imul_constraints@.len() implies #[trigger] g(x) == zero() by {
        let c = cs.imul_constraints@[x];
    }
    lemma_sum_zeros(f, cs.and_constraints@.len());
    lemma_sum_zeros(g, cs.imul_constraints@.len());
}

/// Every term of an AND constraint counts, and each by its own weight: one more term in an operand
/// adds the product of its constraint's indicator, its slot's power of the batching challenge, its
/// kind's evaluation, its amount's indicator and its word's weight. No other term matters to it.
pub proof fn law_monster_and_term(
    cs: ConstraintSystem,
    more: ConstraintSystem,
    x: int,
    m: int,
    svi: ShiftedValueIndex,
    parsed: ParsedClaim,
    h_ops: Seq<B128>,
)
    requires
        0 <= x < cs.and_constraints@.len(),
        0 <= m < 3,
        more.value_vec_layout == cs.value_vec_layout,
        more.imul_constraints == cs.imul_constraints,
        more.and_constraints@.len() == cs.and_constraints@.len(),
        forall|i: int|
            0 <= i < cs.and_constraints@.len() && i != x ==> #[trigger] more.and_constraints@[i]
                == cs.and_constraints@[i],
        forall|k: int|
            0 <= k < 3 ==> #[trigger] and_operand(more.and_constraints@[x], k) == (if k == m {
                and_operand(cs.and_constraints@[x], k).push(svi)
            } else {
                and_operand(cs.and_constraints@[x], k)
            }),
    ensures
        monster_value(more, parsed, h_ops) == monster_value(cs, parsed, h_ops) + eq_at(
            x,
            parsed.r_x@,
        ) * (power(parsed.lambda_and, (m + 1) as nat) * (h_ops[svi.shift_variant.id() as int]
            * eq_at(svi.amount as int, parsed.r_s@) * cs_words(
            cs,
            parsed,
        )[svi.value_index.0 as int])),
{
    broadcast use group_units;

    let words = cs_words(cs, parsed);
    let (l, r_s) = (parsed.lambda_and, parsed.r_s@);
    let f = |i: int|
        eq_at(i, parsed.r_x@) * and_weight(cs.and_constraints@[i], l, h_ops, r_s, words);
    let g = |i: int|
        eq_at(i, parsed.r_x@) * and_weight(more.and_constraints@[i], l, h_ops, r_s, words);
    let w = h_ops[svi.shift_variant.id() as int] * eq_at(svi.amount as int, r_s)
        * words[svi.value_index.0 as int];
    let p = power(l, (m + 1) as nat);
    let (c, d) = (cs.and_constraints@[x], more.and_constraints@[x]);
    assert(and_operand(d, 0) == d.a@ && and_operand(d, 1) == d.b@ && and_operand(d, 2) == d.c@);
    lemma_operand_grows(and_operand(c, m), svi, h_ops, r_s, words);
    law_distributes(p, operand_weight(and_operand(c, m), h_ops, r_s, words), w);
    let pa = power(l, 1) * operand_weight(c.a@, h_ops, r_s, words);
    let pb = power(l, 2) * operand_weight(c.b@, h_ops, r_s, words);
    let pc = power(l, 3) * operand_weight(c.c@, h_ops, r_s, words);
    assert(and_weight(d, l, h_ops, r_s, words) == and_weight(c, l, h_ops, r_s, words) + p * w) by {
        lemma_add_to_part(pa, pb, pc, p * w);
    }
    law_distributes(eq_at(x, parsed.r_x@), and_weight(c, l, h_ops, r_s, words), p * w);
    let n = cs.and_constraints@.len();
    lemma_sum_update(f, g, n, x, eq_at(x, parsed.r_x@) * (p * w));
    assert(cs_words(more, parsed) =~= words);
    let delta = eq_at(x, parsed.r_x@) * (p * w);
    let (a, b) = (and_part(cs, parsed, h_ops), imul_part(cs, parsed, h_ops));
    assert(and_part(more, parsed, h_ops) == a + delta);
    assert(imul_part(more, parsed, h_ops) == b);
    law_add_associates(a, delta, b);
    law_add_commutes(delta, b);
    law_add_associates(a, b, delta);
}

/// Adding to any part of a sum of three adds to the sum.
proof fn lemma_add_to_part(a: B128, b: B128, c: B128, d: B128)
    ensures
        (a + d) + b + c == a + b + c + d,
        a + (b + d) + c == a + b + c + d,
        a + b + (c + d) == a + b + c + d,
{
    broadcast use group_add_ac;

}

/// The same of IMUL constraints and their four operands, with their own challenges.
pub proof fn law_monster_imul_term(
    cs: ConstraintSystem,
    more: ConstraintSystem,
    x: int,
    m: int,
    svi: ShiftedValueIndex,
    parsed: ParsedClaim,
    h_ops: Seq<B128>,
)
    requires
        0 <= x < cs.imul_constraints@.len(),
        0 <= m < 4,
        more.value_vec_layout == cs.value_vec_layout,
        more.and_constraints == cs.and_constraints,
        more.imul_constraints@.len() == cs.imul_constraints@.len(),
        forall|i: int|
            0 <= i < cs.imul_constraints@.len() && i != x ==> #[trigger] more.imul_constraints@[i]
                == cs.imul_constraints@[i],
        forall|k: int|
            0 <= k < 4 ==> #[trigger] imul_operand(more.imul_constraints@[x], k) == (if k == m {
                imul_operand(cs.imul_constraints@[x], k).push(svi)
            } else {
                imul_operand(cs.imul_constraints@[x], k)
            }),
    ensures
        monster_value(more, parsed, h_ops) == monster_value(cs, parsed, h_ops) + eq_at(
            x,
            parsed.r_x_mul@,
        ) * (power(parsed.lambda_int, (m + 1) as nat) * (h_ops[svi.shift_variant.id() as int]
            * eq_at(svi.amount as int, parsed.r_s@) * cs_words(
            cs,
            parsed,
        )[svi.value_index.0 as int])),
{
    broadcast use group_units;

    let words = cs_words(cs, parsed);
    let (l, r_s) = (parsed.lambda_int, parsed.r_s@);
    let f = |i: int|
        eq_at(i, parsed.r_x_mul@) * imul_weight(cs.imul_constraints@[i], l, h_ops, r_s, words);
    let g = |i: int|
        eq_at(i, parsed.r_x_mul@) * imul_weight(more.imul_constraints@[i], l, h_ops, r_s, words);
    let w = h_ops[svi.shift_variant.id() as int] * eq_at(svi.amount as int, r_s)
        * words[svi.value_index.0 as int];
    let p = power(l, (m + 1) as nat);
    let (c, d) = (cs.imul_constraints@[x], more.imul_constraints@[x]);
    assert(imul_operand(d, 0) == d.a@ && imul_operand(d, 1) == d.b@);
    assert(imul_operand(d, 2) == d.lo@ && imul_operand(d, 3) == d.hi@);
    lemma_operand_grows(imul_operand(c, m), svi, h_ops, r_s, words);
    law_distributes(p, operand_weight(imul_operand(c, m), h_ops, r_s, words), w);
    let pa = power(l, 1) * operand_weight(c.a@, h_ops, r_s, words);
    let pb = power(l, 2) * operand_weight(c.b@, h_ops, r_s, words);
    let pc = power(l, 3) * operand_weight(c.lo@, h_ops, r_s, words);
    let pd = power(l, 4) * operand_weight(c.hi@, h_ops, r_s, words);
    assert(imul_weight(d, l, h_ops, r_s, words) == imul_weight(c, l, h_ops, r_s, words) + p * w) by {
        lemma_add_to_part(pa, pb, pc, p * w);
        lemma_add_to_part(pa + pb + pc, pd, zero(), p * w);
    }
    law_distributes(eq_at(x, parsed.r_x_mul@), imul_weight(c, l, h_ops, r_s, words), p * w);
    let n = cs.imul_constraints@.len();
    lemma_sum_update(f, g, n, x, eq_at(x, parsed.r_x_mul@) * (p * w));
    assert(cs_words(more, parsed) =~= words);
    let delta = eq_at(x, parsed.r_x_mul@) * (p * w);
    let (a, b) = (and_part(cs, parsed, h_ops), imul_part(cs, parsed, h_ops));
    assert(imul_part(more, parsed, h_ops) == b + delta);
    assert(and_part(more, parsed, h_ops) == a);
    law_add_associates(a, b, delta);
}

/// The weights of the words of a constraint system: the indicators of their places in the segmented
/// cube, public words in the lower half and hidden words in the upper one.
pub proof fn law_cs_words(cs: ConstraintSystem, parsed: ParsedClaim, lp: nat, y: int)
    requires
        cs.value_vec_layout.offset_witness == exp2(lp),
        lp <= parsed.r_y@.len(),
        cs.value_vec_layout.n_hidden_words <= exp2(parsed.r_y@.len()),
        0 <= y < cs.value_vec_layout.offset_witness + cs.value_vec_layout.n_hidden_words,
    ensures
        cs_words(cs, parsed)[y] == eq_at(
            if y < exp2(lp) {
                y
            } else {
                y - exp2(lp) + exp2(parsed.r_y@.len())
            },
            parsed.r_y@.push(parsed.r_segment),
        ),
{
    if lp > 0 {
        lemma_exp2_strict((lp - 1) as nat, lp);
    }
    lemma_log2_ceil_unique(exp2(lp), lp);
    law_segment_weight(lp, parsed.r_y@, parsed.r_segment, y);
}

} // verus!
