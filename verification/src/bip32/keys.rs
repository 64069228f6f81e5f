//! Public keys and their derivation from a seed, from the `bitcoin` crate.

use crate::bip32::path::{children, children_of, ChildNumber};
use crate::digest::{sha256, sha256_of};
use bitcoin::bip32;
use bitcoin::secp256k1::{PublicKey, Secp256k1};
use vstd::prelude::*;
use vstd::string::*;

verus! {

/// Whether a byte string is the serialization of a compressed public key.
pub uninterp spec fn is_public_key(bytes: Seq<u8>) -> bool;

/// The compressed public key that derivation from a seed along some steps gives; or whether it
/// failed behind the master key, and the reason.
pub uninterp spec fn derived_key_of(seed: Seq<u8>, steps: Seq<ChildNumber>) -> Result<
    Seq<u8>,
    (bool, Seq<char>),
>;

/// `bitcoin::CompressedPublicKey::from_slice` on some bytes. Claimed of it: whether it accepts them
/// depends on the bytes alone, and is here called `is_public_key`.
#[verifier::external_body]
fn accepts_public_key(bytes: &[u8; 33]) -> (r: bool)
    ensures
        r == is_public_key(bytes@),
{
    bitcoin::CompressedPublicKey::from_slice(bytes).is_ok()
}

/// `bitcoin::bip32::Xpriv::new_master` on the seed, `derive_priv` along the steps and
/// `PublicKey::from_secret_key` on the result. Claimed of them: what comes out depends on the seed
/// and the steps alone and is here called `derived_key_of`; it is a public key; and behind the
/// master key derivation fails exactly on more than 255 steps. Where a child key falls outside the
/// curve's order, which takes a preimage of a rare HMAC-SHA512 value, the crate panics.
#[verifier::external_body]
fn derive_key(seed: &[u8; 64], steps: &Vec<ChildNumber>) -> (r: Result<[u8; 33], DeriveError>)
    ensures
        match r {
            Ok(key) => {
                &&& derived_key_of(seed@, steps@) == Ok::<Seq<u8>, (bool, Seq<char>)>(key@)
                &&& is_public_key(key@)
                &&& steps@.len() <= 255
            },
            Err(DeriveError::Master { detail }) => derived_key_of(seed@, steps@) == Err::<
                Seq<u8>,
                (bool, Seq<char>),
            >((false, detail@)),
            Err(DeriveError::Derivation { detail }) => {
                &&& derived_key_of(seed@, steps@) == Err::<Seq<u8>, (bool, Seq<char>)>(
                    (true, detail@),
                )
                &&& steps@.len() > 255
            },
        },
{
    let secp = Secp256k1::new();
    let steps = steps.iter().map(|step| match *step {
        ChildNumber::Normal { index } => bip32::ChildNumber::Normal { index },
        ChildNumber::Hardened { index } => bip32::ChildNumber::Hardened { index },
    }).collect::<Vec<bip32::ChildNumber>>();
    let master = bip32::Xpriv::new_master(bitcoin::NetworkKind::Main, seed)
        .map_err(|e| DeriveError::Master { detail: e.to_string() })?;
    let child = master.derive_priv(&secp, &steps)
        .map_err(|e| DeriveError::Derivation { detail: e.to_string() })?;
    Ok(PublicKey::from_secret_key(&secp, &child.private_key).serialize())
}

/// Why there is no key at the end of a path.
#[derive(Debug, PartialEq, Eq)]
pub enum DeriveError {
    /// The seed gives no master key.
    Master { detail: String },
    /// The path is too long.
    Derivation { detail: String },
}

impl DeriveError {
    /// The error as a mathematical value.
    pub open spec fn fault(self) -> (bool, Seq<char>) {
        match self {
            DeriveError::Master { detail } => (false, detail@),
            DeriveError::Derivation { detail } => (true, detail@),
        }
    }

    /// The error in words.
    pub open spec fn words(self) -> Seq<char> {
        match self {
            DeriveError::Master { detail } => "master key: "@ + detail@,
            DeriveError::Derivation { detail } => "derivation failed: "@ + detail@,
        }
    }

    /// The error in words.
    pub fn message(&self) -> (s: String)
        ensures
            s@ == self.words(),
    {
        match self {
            DeriveError::Master { detail } => {
                let mut s = String::from_str("master key: ");
                s.append(detail.as_str());
                s
            },
            DeriveError::Derivation { detail } => {
                let mut s = String::from_str("derivation failed: ");
                s.append(detail.as_str());
                s
            },
        }
    }
}

/// A compressed public key of the curve, as its 33 bytes.
#[derive(Debug)]
pub struct CompressedPublicKey {
    bytes: [u8; 33],
}

impl View for CompressedPublicKey {
    type V = Seq<u8>;

    closed spec fn view(&self) -> Seq<u8> {
        self.bytes@
    }
}

impl CompressedPublicKey {
    /// The bytes are those of a public key.
    #[verifier::type_invariant]
    spec fn valid(self) -> bool {
        is_public_key(self.bytes@)
    }

    /// The key with the given serialization, if it is one.
    pub fn from_bytes(bytes: [u8; 33]) -> (r: Option<Self>)
        ensures
            match r {
                Some(key) => is_public_key(bytes@) && key@ == bytes@,
                None => !is_public_key(bytes@),
            },
    {
        if accepts_public_key(&bytes) {
            Some(CompressedPublicKey { bytes })
        } else {
            None
        }
    }

    /// The 33 bytes of the key.
    pub fn to_bytes(&self) -> (bytes: [u8; 33])
        ensures
            bytes@ == self@,
            is_public_key(bytes@),
    {
        proof {
            use_type_invariant(self);
        }
        self.bytes
    }
}

/// The compressed public key at the end of a path from a seed. That this does not panic holds up to
/// one event of the derivation below it: a child key outside the curve's order, which no input is
/// known to reach.
pub fn derive_compressed_pubkey(seed: &[u8; 64], path: &[u32]) -> (r: Result<
    CompressedPublicKey,
    DeriveError,
>)
    ensures
        match r {
            Ok(key) => {
                &&& derived_key_of(seed@, children_of(path@)) == Ok::<Seq<u8>, (bool, Seq<char>)>(
                    key@,
                )
                &&& path@.len() <= 255
            },
            Err(e) => {
                &&& derived_key_of(seed@, children_of(path@)) == Err::<Seq<u8>, (bool, Seq<char>)>(
                    e.fault(),
                )
                &&& e is Derivation ==> path@.len() > 255
            },
        },
{
    let steps = children(path);
    assert(steps@.len() == path@.len());
    match derive_key(seed, &steps) {
        Ok(bytes) => Ok(CompressedPublicKey { bytes }),
        Err(e) => Err(e),
    }
}

/// The SHA-256 hash of a public key: what a proof commits to.
pub fn pubkey_sha256(pubkey: &CompressedPublicKey) -> (hash: [u8; 32])
    ensures
        hash@ == sha256_of(pubkey@),
{
    let bytes = pubkey.to_bytes();
    sha256(bytes.as_slice())
}

} // verus!
