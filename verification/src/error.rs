//! The errors of the discharge: one variant per check.

use vstd::prelude::*;

verus! {

/// A structural or admission check that failed.
#[derive(Debug, PartialEq, Eq)]
pub enum DischargeError {
    /// An IMUL or BMUL constraint has a nonempty operand.
    NotAndOnly,
    /// The number of AND constraints is not a power of two.
    AndCountNotPowerOfTwo { count: usize },
    /// The number of IMUL constraints is not a power of two.
    ImulCountNotPowerOfTwo { count: usize },
    /// The public segment's length is not a power of two.
    PublicNotPowerOfTwo,
    /// The hidden segment has fewer word-index variables than the public one.
    HiddenShorterThanPublic,
    /// There is no operand term at all.
    EmptyTermTable,
    /// A shift amount is 64 or more.
    ShiftAmountOutOfRange,
    /// An operand refers to a word beyond the value vector.
    ValueIndexOutOfRange { index: u32, combined_len: usize },
    /// A claim point has the wrong number of coordinates.
    ClaimArity { got: usize, expected: usize },
    /// The batching challenge of a claim is zero or one.
    LambdaAndDegenerate,
    /// A claim could not be taken in.
    ClaimIntake { cause: Box<DischargeError> },
    /// The segmented word address has no variables.
    WordAddressEmpty,
    /// The public segment's logarithm is 64 or more.
    PublicLogOutOfRange,
    /// The address width with its two selectors exceeds 64 bits.
    AddressWidthExceeded,
    /// `n_pad` is not the next power of two.
    PaddedCountIncoherent,
    /// `n_t` is not the logarithm of `n_pad`.
    RowVariablesIncoherent,
    /// The parity flag does not match the number of padding rows.
    ParityIncoherent,
    /// `n_a` is not the maximum of the widths that it holds.
    AddressWidthIncoherent,
    /// `n_d` is not `n_a + 2`.
    TableVariablesIncoherent,
    /// The arity is not the sum of its parts.
    ArityIncoherent,
    /// `n_pub` is not `2^lp`.
    PublicLengthIncoherent,
    /// The value vector is shorter than its public segment.
    CombinedLengthIncoherent,
    /// The hidden segment does not fit its word-index variables.
    HiddenSegmentTooLong,
    /// The metadata has another layout version.
    LayoutVersion,
    /// The metadata has another row-order version.
    RowOrderVersion,
    /// The metadata names another hash suite.
    HashSuite,
    /// The metadata has another code rate.
    LogInvRate,
    /// The metadata is not for an AND-only shape.
    NotAndOnlyLane,
    /// The tag basis indices are not the two above the address.
    TagBits,
    /// The metadata asks for fewer queries than the security target.
    TestQueries,
    /// The fold arities are not those derived from the dimensions.
    FoldArities { derived: Vec<usize>, pinned: Vec<usize> },
    /// A digest has the wrong length.
    DigestLength,
    /// The pole challenge lies among the committed values; the batch must be proved anew.
    TauInPoleRange,
    /// A claim of a statement has the wrong number of coordinates.
    StatementArity { claim: usize, got: usize, expected: usize },
    /// The number of captured claims is not the expected one.
    Coverage { captured: usize, expected: usize },
    /// A claim's value is not the sum over the term table.
    CrossValidation,
    /// The statement is for another constraint system than the key.
    CsDigestMismatch { statement_digest: [u8; 32], key_digest: [u8; 32] },
    /// The statement's row counts and parity are not those of the key.
    TableMetadataMismatch { statement: (usize, usize, bool), key: (usize, usize, bool) },
    /// The statement has no claims.
    EmptyBatch,
    /// The prover's constraint system is not the one of the key.
    ShapeNotRegenerated,
    /// The row sumcheck has the wrong number of rounds.
    RowRounds,
    /// The leaf point has the wrong number of coordinates.
    LeafArity,
    /// The batched sumcheck has the wrong number of rounds.
    BatchRounds,
    /// The leaf verifier rejected.
    LeafVerify { reason: String },
    /// The leaf's opening was rejected.
    LeafFinish { reason: String },
    /// The leaf's transcript was not used up.
    LeafFinalize { reason: String },
    /// A leaf verification did not record exactly two evaluations.
    RecordCount { arities: Vec<usize> },
    /// Not exactly one of a leaf's two records has the expected number of inputs.
    MonsterRecords { expected_arity: usize, arities: Vec<usize> },
    /// A constraint of a synthetic system has another shape than the solver expects.
    WitnessShape { constraint: usize },
    /// A synthetic witness does not satisfy its constraints; this is the first that does not hold.
    Unsatisfied { constraint: usize },
    /// All draws for the batching challenge were zero or one.
    DrawsExhausted,
    /// The opening is not for exactly two oracles.
    OracleCount,
    /// The opening is not over exactly two committed codewords.
    CodewordCount,
    /// The first oracle of the opening is not the larger one.
    OracleOrder,
    /// The point of an opening claim has the wrong number of coordinates.
    OpeningArity { claim: usize },
    /// The reduction of the opening has the wrong number of rounds.
    ReductionRounds,
}

/// Why a verifier rejects: one variant per check, and one per kind of outside step that can fail,
/// with the reason that the step gave.
#[derive(Debug, PartialEq, Eq)]
pub enum VerifyError {
    /// A structural check on the statement, the metadata or the constraint system.
    Precondition(DischargeError),
    /// The finish evaluations do not recombine to the row sumcheck's reduced evaluation.
    PhaseARecombination,
    /// A claim's meta evaluation is not the combination of its eight histogram values.
    PhaseGRecombination { claim: usize },
    /// The histogram evaluation times the batched indicators is not the reduced evaluation.
    PhaseBFinalCheck,
    /// The pole challenge lies among the committed values.
    TauInPoleRange,
    /// The root denominator is zero.
    PhaseCRootDenominatorZero,
    /// The leaf point has the wrong number of coordinates.
    PhaseCLeafArity,
    /// The numerator claim on the leaves does not match what is known of them.
    PhaseCNumeratorTransparent,
    /// The denominator claim on the leaves does not match what is known of them.
    PhaseCDenominatorTransparent,
    /// The histogram table rebuilt from the constraint system has another value.
    NativeFinalCheck,
    /// The opened row table is not the one of the key.
    VkDigestPin,
    /// The two evaluations do not recombine to the reduced evaluation of the opening.
    ReductionRecombination,
    /// The last codeword value and the last claim of the opening differ.
    FriMleInconsistency,
    /// A sumcheck was rejected.
    Sumcheck { phase: &'static str, reason: String },
    /// The fraction check was rejected.
    FracAdd { reason: String },
    /// A message could not be received.
    Channel { phase: &'static str, reason: String },
    /// The transcript could not be read.
    Transcript { phase: &'static str, reason: String },
    /// The commitment of the opening could not be received.
    MerkleChannel { reason: String },
    /// The queries of the opening were rejected.
    Basefold { reason: String },
}

} // verus!
