//! The field, multilinears and encodings, on known values.

use recursion_discharge::cs::{ShiftVariant, ShiftedValueIndex, ValueIndex};
use recursion_discharge::discharge::axpy_point_tensor;
use recursion_discharge::encode::{embed_bool, embed_u64, embed_usize, le_element};
use recursion_discharge::error::{DischargeError, VerifyError};
use recursion_discharge::field::element::{one, zero, B128};
use recursion_discharge::histogram::{eq_point, evaluate_d_g, zero_table};
use recursion_discharge::multilinear::eq::{
    eq_ind, eq_ind_partial_eval_scalars, eq_ind_zero, eq_one_var,
    scaled_eq_ind_partial_eval_scalars,
};
use recursion_discharge::multilinear::exp2::{
    checked_exp2, checked_next_power_of_two, exp2_usize, log2_ceil_usize, log2_exact,
};
use recursion_discharge::multilinear::mle::{
    evaluate, extrapolate_line, fold_highest_var_inplace,
};
use recursion_discharge::multilinear::univariate::{evaluate_univariate, RoundCoeffs};
use recursion_discharge::packed::{axpy_dense_par, build_buffer_par, par_copy};
use recursion_discharge::step2::common::{copy_elems, reversed, vk_claim};
use recursion_discharge::table::{address_width_usize, strict_log2};
use recursion_discharge::vk::{beta, tags, vk_entry};
use recursion_discharge::word::{eval_operand, shifted};

fn e(bits: u128) -> B128 {
    B128::new(bits)
}

#[test]
fn products_reduce_by_the_field_polynomial() {
    // X^127 * X = X^128 = X^7 + X^2 + X + 1.
    assert_eq!(e(1 << 127) * e(2), e(0x87));
    assert_eq!(e(3) * e(3), e(5));
    assert_eq!(e(0xff) * zero(), zero());
    assert_eq!(e(0xff) * one(), e(0xff));
    assert_eq!(e(0b1100) + e(0b1010), e(0b0110));
}

#[test]
fn inverses_multiply_to_one() {
    for bits in [1u128, 2, 3, 0x87, 1 << 127, u128::MAX, 0x0123456789abcdef] {
        let a = e(bits);
        assert_eq!(a * a.invert_or_zero(), one());
    }
    assert_eq!(zero().invert_or_zero(), zero());
}

#[test]
fn squaring_128_times_is_the_identity() {
    let a = e(0xdead_beef_0123_4567_89ab_cdef_0fed_cba9);
    let mut b = a;
    for _ in 0..128 {
        b = b * b;
    }
    assert_eq!(a, b);
}

#[test]
fn indicator_tables() {
    let (p, q) = (e(17), e(1000));
    let t = eq_ind_partial_eval_scalars(&[p, q]);
    assert_eq!(t, vec![
        (one() + p) * (one() + q),
        p * (one() + q),
        (one() + p) * q,
        p * q,
    ]);
    let s = scaled_eq_ind_partial_eval_scalars(&[p, q], e(9));
    assert_eq!(s[1], e(9) * t[1]);
    assert_eq!(eq_ind_zero(&[p, q]), t[0]);
    assert_eq!(eq_one_var(p, zero()), one() + p);
    assert_eq!(eq_ind(&[one(), zero()], &[p, q]), t[1]);
    assert_eq!(eq_point(&[p, q], &[zero(), one()]), t[2]);
    assert_eq!(t.iter().fold(zero(), |a, b| a + *b), one());
}

#[test]
fn extensions_and_folds() {
    let v = vec![e(3), e(5), e(7), e(11)];
    assert_eq!(evaluate(&v, &[one(), zero()]), e(5));
    assert_eq!(evaluate(&v, &[zero(), one()]), e(7));
    let (r0, r1) = (e(1234), e(99));
    let mut w = v.clone();
    fold_highest_var_inplace(&mut w, r1);
    assert_eq!(w, vec![extrapolate_line(v[0], v[2], r1), extrapolate_line(v[1], v[3], r1)]);
    assert_eq!(extrapolate_line(w[0], w[1], r0), evaluate(&v, &[r0, r1]));
}

#[test]
fn univariate_values() {
    let c = [e(1), e(2), e(3)];
    assert_eq!(evaluate_univariate(&c, e(2)), e(1) + e(4) + e(3) * e(4));
    assert_eq!(evaluate_univariate(&[], e(2)), zero());
    let round = RoundCoeffs(c.to_vec());
    assert_eq!(round.sum_over_endpoints(), e(1) + (e(1) + e(2) + e(3)));
    assert_eq!(round.evaluate(zero()), e(1));
}

#[test]
fn distinct_batches_agree_at_few_challenges() {
    let (a, b) = ([e(1), e(2), e(3)], [e(1), e(2), e(4)]);
    let agree = (0..200u128)
        .filter(|x| evaluate_univariate(&a, e(*x)) == evaluate_univariate(&b, e(*x)))
        .count();
    assert_eq!(agree, 1); // at zero
}

#[test]
fn powers_of_two() {
    assert_eq!(exp2_usize(10), 1024);
    assert_eq!(checked_exp2(3), Some(8));
    assert_eq!(checked_exp2(usize::BITS as usize), None);
    assert_eq!(log2_ceil_usize(1), 0);
    assert_eq!(log2_ceil_usize(1025), 11);
    assert_eq!(log2_exact(64), Some(6));
    assert_eq!(log2_exact(65), None);
    assert_eq!(log2_exact(0), None);
    assert_eq!(checked_next_power_of_two(5), Some(8));
    assert_eq!(checked_next_power_of_two(usize::MAX), None);
    assert_eq!(strict_log2(8, DischargeError::EmptyTermTable), Ok(3));
    assert_eq!(
        strict_log2(9, DischargeError::EmptyTermTable),
        Err(DischargeError::EmptyTermTable)
    );
    assert_eq!(address_width_usize(3, 4, 20), 18);
    assert_eq!(address_width_usize(3, 4, 5), 11);
}

#[test]
fn encodings() {
    assert_eq!(embed_usize(7), e(7));
    assert_eq!(embed_u64(u64::MAX), e(u64::MAX as u128));
    assert_eq!(embed_bool(true), one());
    let bytes: Vec<u8> = (0..32).collect();
    assert_eq!(le_element(&bytes, 16).val(), u128::from_le_bytes(bytes[16..].try_into().unwrap()));
}

#[test]
fn tags_lie_above_the_addresses() {
    assert_eq!(beta(5), e(32));
    assert_eq!(tags(11), [zero(), e(1 << 11), e(1 << 12), e(3 << 11)]);
    assert_eq!(vk_entry(0, 9, 11), e(9));
    assert_eq!(vk_entry(1, 9, 11), e(9 | 1 << 11));
    assert_eq!(vk_entry(2, 9, 11), e(9 | 1 << 12));
}

#[test]
fn small_builders() {
    assert_eq!(zero_table(3), vec![zero(); 8]);
    assert_eq!(build_buffer_par(2, |i| B128::new(i as u128 + 1)), vec![e(1), e(2), e(3), e(4)]);
    let mut dst = vec![e(9); 2];
    par_copy(&mut dst, &[e(1), e(2)]);
    assert_eq!(dst, vec![e(1), e(2)]);
    let mut w = vec![e(1), e(2)];
    axpy_dense_par(&mut w, &[e(4), e(8)], e(2));
    assert_eq!(w, vec![e(1) + e(8), e(2) + e(16)]);
    assert_eq!(copy_elems(&[e(1), e(2)]), vec![e(1), e(2)]);
    assert_eq!(reversed(&[e(1), e(2), e(3)]), vec![e(3), e(2), e(1)]);
}

#[test]
fn point_tensors_are_added_up() {
    // Address one of two variables, selector (1, 0).
    let p = [e(5), zero(), one(), zero()];
    let mut w = vec![zero(); 16];
    axpy_point_tensor(&mut w, 2, &p, e(3));
    let full = eq_ind_partial_eval_scalars(&p);
    for i in 0..16 {
        assert_eq!(w[i], e(3) * full[i]);
    }
}

#[test]
fn meta_histograms_and_corner_claims() {
    let d_g: Vec<B128> = (0..2048u128).map(e).collect();
    let point: Vec<B128> = (0..11).map(|i| if i == 3 { one() } else { zero() }).collect();
    assert_eq!(evaluate_d_g(&d_g, &point), e(8));
    let v = [e(3), e(5), e(7)];
    assert_eq!(vk_claim(&v, &[one(), zero()]), e(5));
    assert_eq!(vk_claim(&v, &[zero(), one()]), e(7));
    assert_eq!(vk_claim(&v, &[one(), one()]), zero());
}

#[test]
fn word_shifts() {
    let w = 0x8000_0001_F000_0003u64;
    assert_eq!(shifted(ShiftVariant::Sll, 4, w), w << 4);
    assert_eq!(shifted(ShiftVariant::Slr, 4, w), w >> 4);
    assert_eq!(shifted(ShiftVariant::Sar, 4, w), ((w as i64) >> 4) as u64);
    assert_eq!(shifted(ShiftVariant::Rotr, 4, w), w.rotate_right(4));
    let lanes = |f: fn(u32) -> u32| ((f((w >> 32) as u32) as u64) << 32) | f(w as u32) as u64;
    assert_eq!(shifted(ShiftVariant::Sll32, 4, w), lanes(|x| x << 4));
    assert_eq!(shifted(ShiftVariant::Srl32, 4, w), lanes(|x| x >> 4));
    assert_eq!(shifted(ShiftVariant::Sra32, 4, w), lanes(|x| ((x as i32) >> 4) as u32));
    assert_eq!(shifted(ShiftVariant::Rotr32, 4, w), lanes(|x| x.rotate_right(4)));
    let operand = vec![
        ShiftedValueIndex::plain(ValueIndex(0)),
        ShiftedValueIndex {
            value_index: ValueIndex(1),
            shift_variant: ShiftVariant::Sll,
            amount: 1,
        },
    ];
    assert_eq!(eval_operand(&operand, &vec![0b1010, 0b0110]), 0b1010 ^ 0b1100);
}

#[test]
fn errors_in_words() {
    assert_eq!(
        VerifyError::PhaseGRecombination { claim: 12 }.message(),
        "phase A (G) recombination failed for claim 12"
    );
    assert_eq!(
        VerifyError::Precondition(DischargeError::ValueIndexOutOfRange {
            index: 70,
            combined_len: 64,
        })
        .message(),
        "operand value_index 70 out of range (combined_len 64)"
    );
    let err = DischargeError::CsDigestMismatch { statement_digest: [0xab; 32], key_digest: [1; 32] };
    assert_eq!(
        err.message(),
        format!("P0.2 cs_digest mismatch: statement {} vs VKM {}", "ab".repeat(32), "01".repeat(32))
    );
    let err = DischargeError::TableMetadataMismatch {
        statement: (15, 16, true),
        key: (15, 32, false),
    };
    assert_eq!(
        err.message(),
        "P0.1 table metadata mismatch: statement (N=15, N_pad=16, parity=true) vs VKM \
         (N=15, N_pad=32, parity=false)"
    );
    assert_eq!(
        VerifyError::Channel { phase: "phase B m", reason: "why".to_string() }.message(),
        "phase B m: why"
    );
    assert_eq!(
        VerifyError::Sumcheck { phase: "phase B verify", reason: "why".to_string() }.message(),
        "phase B verify: why"
    );
    assert_eq!(
        VerifyError::FracAdd { reason: "why".to_string() }.message(),
        "phase C fracaddcheck: why"
    );
    assert_eq!(
        VerifyError::MerkleChannel { reason: "why".to_string() }.message(),
        "merged [M_VK, M_D] opening: why"
    );
    assert_eq!(
        VerifyError::Basefold { reason: "why".to_string() }.message(),
        "merged [M_VK, M_D] opening: FRI query/Merkle verification: why"
    );
    assert_eq!(
        DischargeError::TestQueries.message(),
        "VKM n_test_queries below the 96-bit target"
    );
    assert_eq!(
        DischargeError::ShapeNotRegenerated.message(),
        "prover CS does not regenerate the VKM's shape (T1 hygiene)"
    );
}
