//! Captures the deferred evaluation of a leaf verification.
//!
//! A leaf verification makes two public evaluations: the deferred one, and one of the verifier's own
//! public words. Both are recorded; their numbers of inputs tell them apart.

use crate::claim::Claim;
use crate::error::DischargeError;
use crate::field::element::B128;
use vstd::prelude::*;

verus! {

/// One recorded evaluation.
#[derive(Debug, Clone, PartialEq, Eq)]
pub struct ClaimRecord<F> {
    pub inputs: Vec<F>,
    pub output: F,
}

/// The evaluations recorded so far.
pub struct RecorderChannel<F> {
    pub records: Vec<ClaimRecord<F>>,
}

impl<F> RecorderChannel<F> {
    /// A recorder with no records.
    pub fn new() -> (r: Self)
        ensures
            r.records@.len() == 0,
    {
        RecorderChannel { records: Vec::new() }
    }

    /// Records an evaluation.
    pub fn record(&mut self, inputs: Vec<F>, output: F)
        ensures
            final(self).records@ == old(self).records@.push(ClaimRecord { inputs, output }),
    {
        self.records.push(ClaimRecord { inputs, output });
    }
}

/// How a leaf verification ended: where it was rejected, and why; or with which records.
pub enum LeafOutcome {
    /// The verifier rejected.
    VerifyFailed { reason: String },
    /// The opening was rejected.
    FinishFailed { reason: String },
    /// The transcript was not used up.
    FinalizeFailed { reason: String },
    /// It accepted, with these records.
    Verified(RecorderChannel<B128>),
}

/// The number of the first `k` records with the given number of inputs.
pub open spec fn matching(records: Seq<ClaimRecord<B128>>, arity: nat, k: nat) -> nat
    decreases k,
{
    if k == 0 {
        0
    } else {
        matching(records, arity, (k - 1) as nat) + (if records[k - 1].inputs@.len() == arity {
            1nat
        } else {
            0
        })
    }
}

/// The numbers of inputs of some records.
pub open spec fn are_arities(arities: Seq<usize>, records: Seq<ClaimRecord<B128>>) -> bool {
    &&& arities.len() == records.len()
    &&& forall|i: int| 0 <= i < records.len() ==> #[trigger] arities[i] == records[i].inputs@.len()
}

/// Exactly two evaluations were recorded, and exactly one has the expected number of inputs.
pub open spec fn records_ok(records: Seq<ClaimRecord<B128>>, arity: nat) -> bool {
    records.len() == 2 && matching(records, arity, 2) == 1
}

/// What is wrong with the records of a leaf verification.
pub open spec fn records_error(records: Seq<ClaimRecord<B128>>, arity: usize, e: DischargeError) -> bool {
    match e {
        DischargeError::RecordCount { arities } => records.len() != 2 && are_arities(
            arities@,
            records,
        ),
        DischargeError::MonsterRecords { expected_arity, arities } => {
            &&& records.len() == 2
            &&& matching(records, arity as nat, 2) != 1
            &&& expected_arity == arity
            &&& are_arities(arities@, records)
        },
        _ => false,
    }
}

/// The numbers of inputs of some records.
fn arities_of(records: &Vec<ClaimRecord<B128>>) -> (arities: Vec<usize>)
    ensures
        are_arities(arities@, records@),
{
    let mut arities: Vec<usize> = Vec::new();
    let mut i: usize = 0;
    while i < records.len()
        invariant
            i <= records@.len(),
            arities@.len() == i,
            forall|k: int| 0 <= k < i ==> #[trigger] arities@[k] == records@[k].inputs@.len(),
        decreases records@.len() - i,
    {
        arities.push(records[i].inputs.len());
        i = i + 1;
    }
    arities
}

/// The deferred claim of a leaf verification: of its two records, the one with the expected number
/// of inputs.
pub fn verify_and_capture(outcome: LeafOutcome, expected_arity: usize) -> (r: Result<
    Claim,
    DischargeError,
>)
    ensures
        match outcome {
            LeafOutcome::VerifyFailed { reason } => r == Err::<Claim, DischargeError>(
                DischargeError::LeafVerify { reason },
            ),
            LeafOutcome::FinishFailed { reason } => r == Err::<Claim, DischargeError>(
                DischargeError::LeafFinish { reason },
            ),
            LeafOutcome::FinalizeFailed { reason } => r == Err::<Claim, DischargeError>(
                DischargeError::LeafFinalize { reason },
            ),
            LeafOutcome::Verified(recorder) => match r {
                Ok(claim) => {
                    &&& records_ok(recorder.records@, expected_arity as nat)
                    &&& claim.point@.len() == expected_arity
                    &&& exists|i: int|
                        0 <= i < 2 && claim.point == (#[trigger] recorder.records@[i]).inputs
                            && claim.value == recorder.records@[i].output
                },
                Err(e) => records_error(recorder.records@, expected_arity, e),
            },
        },
        outcome is Verified ==> {
            let records = outcome->Verified_0.records@;
            let first = records[0].inputs@.len() == expected_arity;
            let second = records[1].inputs@.len() == expected_arity;
            let at: int = if first {
                0
            } else {
                1
            };
            &&& r is Ok <==> records.len() == 2 && first != second
            &&& r is Ok ==> r->Ok_0.point == records[at].inputs && r->Ok_0.value
                == records[at].output
            &&& r is Err && records.len() == 2 ==> r->Err_0 is MonsterRecords
            &&& r is Err && records.len() != 2 ==> r->Err_0 is RecordCount
        },
{
    match outcome {
        LeafOutcome::VerifyFailed { reason } => Err(DischargeError::LeafVerify { reason }),
        LeafOutcome::FinishFailed { reason } => Err(DischargeError::LeafFinish { reason }),
        LeafOutcome::FinalizeFailed { reason } => Err(DischargeError::LeafFinalize { reason }),
        LeafOutcome::Verified(recorder) => {
            let mut records = recorder.records;
            let ghost all = records@;
            let n: usize = records.len();
            if n != 2 {
                return Err(DischargeError::RecordCount { arities: arities_of(&records) });
            }
            let first: bool = records[0].inputs.len() == expected_arity;
            let second: bool = records[1].inputs.len() == expected_arity;
            proof {
                reveal_with_fuel(matching, 3);
            }
            if first == second {
                let arities = arities_of(&records);
                return Err(DischargeError::MonsterRecords { expected_arity, arities });
            }
            if first {
                records.pop();
            }
            match records.pop() {
                Some(rec) => {
                    assert(rec == all[if first {
                        0
                    } else {
                        1
                    }]);
                    Ok(Claim { point: rec.inputs, value: rec.output })
                },
                None => Err(DischargeError::RecordCount { arities: Vec::new() }),
            }
        },
    }
}

/// The deferred evaluation's number of inputs differs from that of the public words' evaluation:
/// the public segment is no longer than the hidden one.
pub proof fn law_arities_differ(dims: crate::table::ShapeDims)
    requires
        dims.segmented(),
    ensures
        6 + dims.lp != dims.arity,
{
}

/// One more record adds one to the count when its number of inputs is the expected one, and nothing
/// otherwise.
pub proof fn law_matching_grows(
    records: Seq<ClaimRecord<B128>>,
    record: ClaimRecord<B128>,
    arity: nat,
)
    ensures
        matching(Seq::<ClaimRecord<B128>>::empty(), arity, 0) == 0,
        record.inputs@.len() == arity ==> matching(
            records.push(record),
            arity,
            (records.len() + 1) as nat,
        ) == matching(records, arity, records.len()) + 1,
        record.inputs@.len() != arity ==> matching(
            records.push(record),
            arity,
            (records.len() + 1) as nat,
        ) == matching(records, arity, records.len()),
{
    lemma_matching_ext(records, records.push(record), arity, records.len());
}

/// Records that begin alike have as many matches among their first ones.
proof fn lemma_matching_ext(
    p: Seq<ClaimRecord<B128>>,
    q: Seq<ClaimRecord<B128>>,
    arity: nat,
    k: nat,
)
    requires
        k <= p.len(),
        k <= q.len(),
        forall|i: int| 0 <= i < k ==> p[i] == q[i],
    ensures
        matching(p, arity, k) == matching(q, arity, k),
    decreases k,
{
    if k > 0 {
        lemma_matching_ext(p, q, arity, (k - 1) as nat);
    }
}

} // verus!
