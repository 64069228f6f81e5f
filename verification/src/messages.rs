//! The errors in words.

use crate::error::{DischargeError, VerifyError};
use crate::text::{decimal, hex, hex_text, list_words, push_decimal, push_list};
use vstd::prelude::*;
use vstd::string::*;

verus! {

/// Row count, padded row count and parity in words.
pub open spec fn table_words(t: (usize, usize, bool)) -> Seq<char> {
    "(N="@ + decimal(t.0 as nat) + ", N_pad="@ + decimal(t.1 as nat) + ", parity="@ + (if t.2 {
        "true"@
    } else {
        "false"@
    }) + ")"@
}

/// Appends row count, padded row count and parity.
fn push_table(s: &mut String, t: &(usize, usize, bool))
    ensures
        final(s)@ == old(s)@ + table_words(*t),
{
    s.append("(N=");
    push_decimal(s, t.0 as u64);
    s.append(", N_pad=");
    push_decimal(s, t.1 as u64);
    s.append(", parity=");
    if t.2 {
        s.append("true");
    } else {
        s.append("false");
    }
    s.append(")");
    assert(s@ =~= old(s)@ + table_words(*t));
}

impl DischargeError {
    /// The error in words.
    pub open spec fn words(self) -> Seq<char>
        decreases self,
    {
        match self {
            DischargeError::NotAndOnly => "P0.3 ANDONLY violated: CS has non-empty MUL constraints"@,
            DischargeError::PublicNotPowerOfTwo => "public segment length must be a power of two"@,
            DischargeError::HiddenShorterThanPublic => "hidden segment must be at least as long as the public segment"@,
            DischargeError::EmptyTermTable => "empty term table"@,
            DischargeError::ShiftAmountOutOfRange => "shift amount out of range"@,
            DischargeError::LambdaAndDegenerate => "lambda_and in {0,1}: abort (G)"@,
            DischargeError::WordAddressEmpty => "n_y must be at least 1"@,
            DischargeError::PublicLogOutOfRange => "lp out of range"@,
            DischargeError::AddressWidthExceeded => "address width exceeds the supported bound"@,
            DischargeError::PaddedCountIncoherent => "n_pad != next_power_of_two(n_terms)"@,
            DischargeError::RowVariablesIncoherent => "n_t != log2(n_pad)"@,
            DischargeError::ParityIncoherent => "parity flag incoherent"@,
            DischargeError::AddressWidthIncoherent => "n_a != max(n_x, n_y, N_U, n_t - 2)"@,
            DischargeError::TableVariablesIncoherent => "n_d != n_a + 2"@,
            DischargeError::ArityIncoherent => "arity != 3 + n_x + n_x_mul + 12 + n_y"@,
            DischargeError::PublicLengthIncoherent => "n_pub != 2^lp"@,
            DischargeError::CombinedLengthIncoherent => "combined_len < n_pub"@,
            DischargeError::HiddenSegmentTooLong => "hidden segment exceeds 2^lw"@,
            DischargeError::LayoutVersion => "layout version mismatch"@,
            DischargeError::RowOrderVersion => "row order version mismatch"@,
            DischargeError::HashSuite => "hash suite mismatch"@,
            DischargeError::LogInvRate => "log_inv_rate mismatch"@,
            DischargeError::NotAndOnlyLane => "P0.3: only AND-only shapes are admissible"@,
            DischargeError::TagBits => "tag basis indices must be (n_a, n_a+1)"@,
            DischargeError::TestQueries => "VKM n_test_queries below the 96-bit target"@,
            DischargeError::FoldArities { derived, pinned } => "VKM fold_arities mismatch: derived "@
                + list_words(derived@) + " vs pinned "@ + list_words(pinned@),
            DischargeError::DigestLength => "vk_digest deserialize"@,
            DischargeError::TauInPoleRange => "tau hit the committed-value range (a pole): honest abort, resample the batch"@,
            DischargeError::CrossValidation => "claim value is not the sum over the term table"@,
            DischargeError::EmptyBatch => "empty claim batch"@,
            DischargeError::ShapeNotRegenerated => "prover CS does not regenerate the VKM's shape (T1 hygiene)"@,
            DischargeError::RowRounds => "phase A round count"@,
            DischargeError::LeafArity => "phase C leaf point arity"@,
            DischargeError::BatchRounds => "phase B round count"@,
            DischargeError::LeafVerify { reason } => "leaf verify failed: "@ + reason@,
            DischargeError::LeafFinish { reason } => "basefold channel finish: "@ + reason@,
            DischargeError::LeafFinalize { reason } => "transcript finalize: "@ + reason@,
            DischargeError::Unsatisfied { constraint } => "synth witness unsatisfied: AND constraint "@
                + decimal(constraint as nat) + " does not hold"@,
            DischargeError::ClaimIntake { cause } => "claim intake: "@ + cause.words(),
            DischargeError::DrawsExhausted => "all draws for lambda_and were in {0,1}"@,
            DischargeError::OracleCount => "expected exactly two input oracles"@,
            DischargeError::CodewordCount => "expected exactly two committed codewords"@,
            DischargeError::OracleOrder => "claims[0] must be the larger oracle"@,
            DischargeError::ReductionRounds => "reduction round count"@,
            DischargeError::AndCountNotPowerOfTwo { count } => "and_constraints.len() = "@
                + decimal(count as nat)
                + " is not a power of two (CS not prepared?)"@,
            DischargeError::ImulCountNotPowerOfTwo { count } => "imul_constraints.len() = "@
                + decimal(count as nat)
                + " is not a power of two (CS not prepared?)"@,
            DischargeError::ValueIndexOutOfRange { index, combined_len } => "operand value_index "@
                + decimal(index as nat)
                + " out of range (combined_len "@
                + decimal(combined_len as nat)
                + ")"@,
            DischargeError::ClaimArity { got, expected } => "claim arity mismatch: got "@
                + decimal(got as nat)
                + ", shape expects "@
                + decimal(expected as nat),
            DischargeError::StatementArity { claim, got, expected } => "P0.4 claim "@
                + decimal(claim as nat)
                + " arity mismatch: got "@
                + decimal(got as nat)
                + ", shape expects "@
                + decimal(expected as nat),
            DischargeError::Coverage { captured, expected } => "P0.4 coverage: captured "@
                + decimal(captured as nat)
                + " claims, expected "@
                + decimal(expected as nat),
            DischargeError::CsDigestMismatch { statement_digest, key_digest } => "P0.2 cs_digest mismatch: statement "@
                + hex_text(statement_digest@)
                + " vs VKM "@
                + hex_text(key_digest@),
            DischargeError::TableMetadataMismatch { statement, key } => "P0.1 table metadata mismatch: statement "@
                + table_words(statement)
                + " vs VKM "@
                + table_words(key),
            DischargeError::RecordCount { arities } =>
                "expected exactly two compute_public_value records per leaf verification (monster + public-words), got "@
                + decimal(arities@.len()) + " (arities "@ + list_words(arities@) + ")"@,
            DischargeError::MonsterRecords { expected_arity, arities } =>
                "expected exactly one record with the monster arity "@ + decimal(
                expected_arity as nat,
            ) + " among the two sites (arities "@ + list_words(arities@) + ")"@,
            DischargeError::WitnessShape { constraint } => "constraint "@
                + decimal(constraint as nat)
                + ": expected plain single-term c"@,
            DischargeError::OpeningArity { claim } => "claim "@
                + decimal(claim as nat)
                + ": point arity mismatch"@,
        }
    }

    /// The error in words.
    pub fn message(&self) -> (s: String)
        ensures
            s@ == self.words(),
        decreases self,
    {
        match self {
            DischargeError::NotAndOnly => String::from_str(
                "P0.3 ANDONLY violated: CS has non-empty MUL constraints",
            ),
            DischargeError::PublicNotPowerOfTwo => String::from_str(
                "public segment length must be a power of two",
            ),
            DischargeError::HiddenShorterThanPublic => String::from_str(
                "hidden segment must be at least as long as the public segment",
            ),
            DischargeError::EmptyTermTable => String::from_str(
                "empty term table",
            ),
            DischargeError::ShiftAmountOutOfRange => String::from_str(
                "shift amount out of range",
            ),
            DischargeError::LambdaAndDegenerate => String::from_str(
                "lambda_and in {0,1}: abort (G)",
            ),
            DischargeError::WordAddressEmpty => String::from_str(
                "n_y must be at least 1",
            ),
            DischargeError::PublicLogOutOfRange => String::from_str(
                "lp out of range",
            ),
            DischargeError::AddressWidthExceeded => String::from_str(
                "address width exceeds the supported bound",
            ),
            DischargeError::PaddedCountIncoherent => String::from_str(
                "n_pad != next_power_of_two(n_terms)",
            ),
            DischargeError::RowVariablesIncoherent => String::from_str(
                "n_t != log2(n_pad)",
            ),
            DischargeError::ParityIncoherent => String::from_str(
                "parity flag incoherent",
            ),
            DischargeError::AddressWidthIncoherent => String::from_str(
                "n_a != max(n_x, n_y, N_U, n_t - 2)",
            ),
            DischargeError::TableVariablesIncoherent => String::from_str(
                "n_d != n_a + 2",
            ),
            DischargeError::ArityIncoherent => String::from_str(
                "arity != 3 + n_x + n_x_mul + 12 + n_y",
            ),
            DischargeError::PublicLengthIncoherent => String::from_str(
                "n_pub != 2^lp",
            ),
            DischargeError::CombinedLengthIncoherent => String::from_str(
                "combined_len < n_pub",
            ),
            DischargeError::HiddenSegmentTooLong => String::from_str(
                "hidden segment exceeds 2^lw",
            ),
            DischargeError::LayoutVersion => String::from_str(
                "layout version mismatch",
            ),
            DischargeError::RowOrderVersion => String::from_str(
                "row order version mismatch",
            ),
            DischargeError::HashSuite => String::from_str(
                "hash suite mismatch",
            ),
            DischargeError::LogInvRate => String::from_str(
                "log_inv_rate mismatch",
            ),
            DischargeError::NotAndOnlyLane => String::from_str(
                "P0.3: only AND-only shapes are admissible",
            ),
            DischargeError::TagBits => String::from_str(
                "tag basis indices must be (n_a, n_a+1)",
            ),
            DischargeError::TestQueries => String::from_str(
                "VKM n_test_queries below the 96-bit target",
            ),
            DischargeError::FoldArities { derived, pinned } => {
                let mut s = String::from_str("VKM fold_arities mismatch: derived ");
                push_list(&mut s, derived);
                s.append(" vs pinned ");
                push_list(&mut s, pinned);
                s
            },
            DischargeError::DigestLength => String::from_str(
                "vk_digest deserialize",
            ),
            DischargeError::TauInPoleRange => String::from_str(
                "tau hit the committed-value range (a pole): honest abort, resample the batch",
            ),
            DischargeError::CrossValidation => String::from_str(
                "claim value is not the sum over the term table",
            ),
            DischargeError::EmptyBatch => String::from_str(
                "empty claim batch",
            ),
            DischargeError::ShapeNotRegenerated => String::from_str(
                "prover CS does not regenerate the VKM's shape (T1 hygiene)",
            ),
            DischargeError::RowRounds => String::from_str(
                "phase A round count",
            ),
            DischargeError::LeafArity => String::from_str(
                "phase C leaf point arity",
            ),
            DischargeError::BatchRounds => String::from_str(
                "phase B round count",
            ),
            DischargeError::LeafVerify { reason } => {
                let mut s = String::from_str("leaf verify failed: ");
                s.append(reason.as_str());
                s
            },
            DischargeError::LeafFinish { reason } => {
                let mut s = String::from_str("basefold channel finish: ");
                s.append(reason.as_str());
                s
            },
            DischargeError::LeafFinalize { reason } => {
                let mut s = String::from_str("transcript finalize: ");
                s.append(reason.as_str());
                s
            },
            DischargeError::Unsatisfied { constraint } => {
                let mut s = String::from_str("synth witness unsatisfied: AND constraint ");
                push_decimal(&mut s, *constraint as u64);
                s.append(" does not hold");
                s
            },
            DischargeError::ClaimIntake { cause } => {
                let mut s = String::from_str("claim intake: ");
                let inner = cause.message();
                s.append(inner.as_str());
                s
            },
            DischargeError::DrawsExhausted => String::from_str(
                "all draws for lambda_and were in {0,1}",
            ),
            DischargeError::OracleCount => String::from_str(
                "expected exactly two input oracles",
            ),
            DischargeError::CodewordCount => String::from_str(
                "expected exactly two committed codewords",
            ),
            DischargeError::OracleOrder => String::from_str(
                "claims[0] must be the larger oracle",
            ),
            DischargeError::ReductionRounds => String::from_str(
                "reduction round count",
            ),
            DischargeError::AndCountNotPowerOfTwo { count } => {
                let mut s = String::from_str("and_constraints.len() = ");
                push_decimal(&mut s, *count as u64);
                s.append(" is not a power of two (CS not prepared?)");
                s
            },
            DischargeError::ImulCountNotPowerOfTwo { count } => {
                let mut s = String::from_str("imul_constraints.len() = ");
                push_decimal(&mut s, *count as u64);
                s.append(" is not a power of two (CS not prepared?)");
                s
            },
            DischargeError::ValueIndexOutOfRange { index, combined_len } => {
                let mut s = String::from_str("operand value_index ");
                push_decimal(&mut s, *index as u64);
                s.append(" out of range (combined_len ");
                push_decimal(&mut s, *combined_len as u64);
                s.append(")");
                s
            },
            DischargeError::ClaimArity { got, expected } => {
                let mut s = String::from_str("claim arity mismatch: got ");
                push_decimal(&mut s, *got as u64);
                s.append(", shape expects ");
                push_decimal(&mut s, *expected as u64);
                s
            },
            DischargeError::StatementArity { claim, got, expected } => {
                let mut s = String::from_str("P0.4 claim ");
                push_decimal(&mut s, *claim as u64);
                s.append(" arity mismatch: got ");
                push_decimal(&mut s, *got as u64);
                s.append(", shape expects ");
                push_decimal(&mut s, *expected as u64);
                s
            },
            DischargeError::Coverage { captured, expected } => {
                let mut s = String::from_str("P0.4 coverage: captured ");
                push_decimal(&mut s, *captured as u64);
                s.append(" claims, expected ");
                push_decimal(&mut s, *expected as u64);
                s
            },
            DischargeError::CsDigestMismatch { statement_digest, key_digest } => {
                let mut s = String::from_str("P0.2 cs_digest mismatch: statement ");
                s.append(hex(statement_digest.as_slice()).as_str());
                s.append(" vs VKM ");
                s.append(hex(key_digest.as_slice()).as_str());
                s
            },
            DischargeError::TableMetadataMismatch { statement, key } => {
                let mut s = String::from_str("P0.1 table metadata mismatch: statement ");
                push_table(&mut s, statement);
                s.append(" vs VKM ");
                push_table(&mut s, key);
                s
            },
            DischargeError::RecordCount { arities } => {
                let mut s = String::from_str(
                    "expected exactly two compute_public_value records per leaf verification (monster + public-words), got ",
                );
                push_decimal(&mut s, arities.len() as u64);
                s.append(" (arities ");
                push_list(&mut s, arities);
                s.append(")");
                s
            },
            DischargeError::MonsterRecords { expected_arity, arities } => {
                let mut s = String::from_str("expected exactly one record with the monster arity ");
                push_decimal(&mut s, *expected_arity as u64);
                s.append(" among the two sites (arities ");
                push_list(&mut s, arities);
                s.append(")");
                s
            },
            DischargeError::WitnessShape { constraint } => {
                let mut s = String::from_str("constraint ");
                push_decimal(&mut s, *constraint as u64);
                s.append(": expected plain single-term c");
                s
            },
            DischargeError::OpeningArity { claim } => {
                let mut s = String::from_str("claim ");
                push_decimal(&mut s, *claim as u64);
                s.append(": point arity mismatch");
                s
            },
        }
    }
}

impl VerifyError {
    /// The error in words.
    pub open spec fn words(self) -> Seq<char> {
        match self {
            VerifyError::Precondition(e) => e.words(),
            VerifyError::PhaseGRecombination { claim } =>
                "phase A (G) recombination failed for claim "@ + decimal(claim as nat),
            VerifyError::Sumcheck { phase, reason } => phase@ + ": "@ + reason@,
            VerifyError::Channel { phase, reason } => phase@ + ": "@ + reason@,
            VerifyError::Transcript { phase, reason } => phase@ + ": "@ + reason@,
            VerifyError::PhaseARecombination => "phase A recombination failed (Horner check): claimed sums are inconsistent"@,
            VerifyError::PhaseBFinalCheck => "phase B eq_ind final check failed"@,
            VerifyError::TauInPoleRange => "tau hit the committed-value range (honest abort)"@,
            VerifyError::PhaseCRootDenominatorZero => "phase C root denominator is zero"@,
            VerifyError::PhaseCLeafArity => "phase C leaf point arity mismatch"@,
            VerifyError::PhaseCNumeratorTransparent => "phase C numerator transparent mismatch at pi"@,
            VerifyError::PhaseCDenominatorTransparent => "phase C denominator transparent mismatch at pi"@,
            VerifyError::NativeFinalCheck => "final native M_D check failed: prover's m does not match the CS-derived table"@,
            VerifyError::VkDigestPin => "P0.1: opened M_VK digest != audited vk_digest (table-swap)"@,
            VerifyError::ReductionRecombination => "merged [M_VK, M_D] opening: reduction recombination failed (the point-evaluation claims are inconsistent)"@,
            VerifyError::FriMleInconsistency => "merged [M_VK, M_D] opening: FRI/MLE-check inconsistency"@,
            VerifyError::FracAdd { reason } => "phase C fracaddcheck: "@ + reason@,
            VerifyError::MerkleChannel { reason } => "merged [M_VK, M_D] opening: "@ + reason@,
            VerifyError::Basefold { reason } => "merged [M_VK, M_D] opening: FRI query/Merkle verification: "@ + reason@,
        }
    }

    /// The error in words.
    pub fn message(&self) -> (s: String)
        ensures
            s@ == self.words(),
    {
        match self {
            VerifyError::Precondition(e) => e.message(),
            VerifyError::PhaseGRecombination { claim } => {
                let mut s = String::from_str("phase A (G) recombination failed for claim ");
                push_decimal(&mut s, *claim as u64);
                s
            },
            VerifyError::Sumcheck { phase, reason } => {
                let mut s = String::from_str(phase);
                s.append(": ");
                s.append(reason.as_str());
                s
            },
            VerifyError::Channel { phase, reason } => {
                let mut s = String::from_str(phase);
                s.append(": ");
                s.append(reason.as_str());
                s
            },
            VerifyError::Transcript { phase, reason } => {
                let mut s = String::from_str(phase);
                s.append(": ");
                s.append(reason.as_str());
                s
            },
            VerifyError::PhaseARecombination => String::from_str(
                "phase A recombination failed (Horner check): claimed sums are inconsistent",
            ),
            VerifyError::PhaseBFinalCheck => String::from_str(
                "phase B eq_ind final check failed",
            ),
            VerifyError::TauInPoleRange => String::from_str(
                "tau hit the committed-value range (honest abort)",
            ),
            VerifyError::PhaseCRootDenominatorZero => String::from_str(
                "phase C root denominator is zero",
            ),
            VerifyError::PhaseCLeafArity => String::from_str(
                "phase C leaf point arity mismatch",
            ),
            VerifyError::PhaseCNumeratorTransparent => String::from_str(
                "phase C numerator transparent mismatch at pi",
            ),
            VerifyError::PhaseCDenominatorTransparent => String::from_str(
                "phase C denominator transparent mismatch at pi",
            ),
            VerifyError::NativeFinalCheck => String::from_str(
                "final native M_D check failed: prover's m does not match the CS-derived table",
            ),
            VerifyError::VkDigestPin => String::from_str(
                "P0.1: opened M_VK digest != audited vk_digest (table-swap)",
            ),
            VerifyError::ReductionRecombination => String::from_str(
                "merged [M_VK, M_D] opening: reduction recombination failed (the point-evaluation claims are inconsistent)",
            ),
            VerifyError::FriMleInconsistency => String::from_str(
                "merged [M_VK, M_D] opening: FRI/MLE-check inconsistency",
            ),
            VerifyError::FracAdd { reason } => {
                let mut s = String::from_str("phase C fracaddcheck: ");
                s.append(reason.as_str());
                s
            },
            VerifyError::MerkleChannel { reason } => {
                let mut s = String::from_str("merged [M_VK, M_D] opening: ");
                s.append(reason.as_str());
                s
            },
            VerifyError::Basefold { reason } => {
                let mut s = String::from_str("merged [M_VK, M_D] opening: FRI query/Merkle verification: ");
                s.append(reason.as_str());
                s
            },
        }
    }
}

} // verus!
