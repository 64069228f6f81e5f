//! The two ways in which a discharge can end, and the verifier's choice between them.

use crate::cs::ConstraintSystem;
use crate::discharge::DischargeStatement;
use crate::error::VerifyError;
use crate::field::element::B128;
use crate::merged::BatchSumcheck;
use crate::step1::{discharge_verify, intake_fails, native_started, NativeRows};
use crate::step2::prove::shape_fits;
use crate::step2::verify::{
    committed_fails, committed_started, discharge_verify_step2, fri_fits, AwaitPhaseA,
};
use crate::vk::{DischargeVkm, FriParams};
use vstd::prelude::*;

verus! {

/// How a discharge ends.
#[derive(Debug, Clone, Copy, PartialEq, Eq, Structural)]
pub enum DischargeMode {
    /// The verifier rebuilds the histogram table from the constraint system.
    Step1Native,
    /// The verifier opens committed tables and never sees the constraint system.
    Step2Committed,
}

/// What a verifier checks against: a constraint system with its canonical encoding, or a key's
/// metadata with the number of queries that the security target asks for and the parameters derived
/// from the metadata.
pub enum VerifierKey<'a> {
    Native(&'a ConstraintSystem, &'a [u8]),
    Committed(&'a DischargeVkm, usize, FriParams),
}

impl<'a> VerifierKey<'a> {
    /// The mode that a key is for.
    pub fn mode(&self) -> (m: DischargeMode)
        ensures
            m == (match self {
                VerifierKey::Native(_, _) => DischargeMode::Step1Native,
                VerifierKey::Committed(_, _, _) => DischargeMode::Step2Committed,
            }),
    {
        match self {
            VerifierKey::Native(_, _) => DischargeMode::Step1Native,
            VerifierKey::Committed(_, _, _) => DischargeMode::Step2Committed,
        }
    }
}

/// A verifier after its intake: what is to be absorbed and the first sub-protocol.
#[allow(inconsistent_fields)]
pub enum VerifierStart {
    Native { state: NativeRows, absorb: Vec<B128>, request: BatchSumcheck },
    Committed { state: AwaitPhaseA, absorb: (Vec<B128>, Vec<B128>), request: BatchSumcheck },
}

/// The intake of either mode.
pub fn discharge_verify_any(key: VerifierKey, stmt: &DischargeStatement, h_ops: &Vec<[B128; 8]>) -> (r:
    Result<VerifierStart, VerifyError>)
    requires
        h_ops@.len() == stmt.claims@.len(),
        8 * stmt.claims@.len() <= usize::MAX,
        match key {
            VerifierKey::Native(cs, _) => shape_fits(*cs),
            VerifierKey::Committed(vkm, _, params) => vkm.vk_digest@.len() == 32 && fri_fits(
                params,
            ),
        },
    ensures
        match key {
            VerifierKey::Native(cs, encoding) => match r {
                Ok(VerifierStart::Native { state, absorb, request }) => native_started(
                    state,
                    absorb@,
                    request,
                    *cs,
                    encoding@,
                    *stmt,
                    h_ops@,
                ),
                Err(VerifyError::Precondition(e)) => intake_fails(*cs, encoding@, *stmt, e),
                _ => false,
            },
            VerifierKey::Committed(vkm, queries, params) => match r {
                Ok(VerifierStart::Committed { state, absorb, request }) => committed_started(
                    state,
                    (absorb.0@, absorb.1@),
                    request,
                    *vkm,
                    *stmt,
                    h_ops@,
                    queries,
                    params,
                ),
                Err(VerifyError::Precondition(e)) => committed_fails(
                    *vkm,
                    *stmt,
                    queries,
                    params,
                    e,
                ),
                _ => false,
            },
        },
{
    match key {
        VerifierKey::Native(cs, encoding) => match discharge_verify(cs, encoding, stmt, h_ops) {
            Ok((state, absorb, request)) => Ok(VerifierStart::Native { state, absorb, request }),
            Err(e) => Err(e),
        },
        VerifierKey::Committed(vkm, queries, params) => match discharge_verify_step2(
            vkm,
            stmt,
            h_ops,
            queries,
            params,
        ) {
            Ok((state, absorb, request)) => Ok(VerifierStart::Committed { state, absorb, request }),
            Err(e) => Err(e),
        },
    }
}

} // verus!
