//! The proof container: the SHA-256 hash of a compressed public key, and then the proof.
//!
//! The hash is what binds a proof to a Bitcoin address. It has a fixed width and the proof is the
//! remainder, so there is no length prefix.

use crate::text::push_decimal;
use vstd::prelude::*;
use vstd::string::*;

verus! {

/// The length of the public-key hash at the front of a proof file.
pub const PUBKEY_HASH_LEN: usize = 32;

/// The contents of a proof file.
#[derive(Debug)]
pub struct ProofFile {
    /// The SHA-256 hash of the compressed public key.
    pub pubkey_sha256: [u8; 32],
    /// The serialized proof.
    pub proof: Vec<u8>,
}

/// Why a byte string is no proof file.
#[derive(Debug, Clone, Copy, PartialEq, Eq)]
pub enum ProofFileError {
    /// It is shorter than the public-key hash.
    TooShort { len: usize },
}

impl ProofFileError {
    /// The error in words.
    pub fn message(&self) -> (s: String)
        ensures
            s@ == "proof file too short: "@ + crate::text::decimal(self->len as nat)
                + " bytes (need at least 32)"@,
    {
        match self {
            ProofFileError::TooShort { len } => {
                let mut s = String::from_str("proof file too short: ");
                push_decimal(&mut s, *len as u64);
                s.append(" bytes (need at least 32)");
                s
            },
        }
    }
}

impl ProofFile {
    /// The byte layout: the hash, and then the proof.
    pub open spec fn layout(self) -> Seq<u8> {
        self.pubkey_sha256@ + self.proof@
    }

    /// The bytes of the file.
    pub fn to_bytes(&self) -> (bytes: Vec<u8>)
        ensures
            bytes@ == self.layout(),
    {
        let mut bytes: Vec<u8> = Vec::new();
        let mut i: usize = 0;
        while i < PUBKEY_HASH_LEN
            invariant
                i <= PUBKEY_HASH_LEN,
                bytes@ == self.pubkey_sha256@.take(i as int),
            decreases PUBKEY_HASH_LEN - i,
        {
            bytes.push(self.pubkey_sha256[i]);
            i = i + 1;
            assert(bytes@ =~= self.pubkey_sha256@.take(i as int));
        }
        let mut j: usize = 0;
        assert(bytes@ =~= self.pubkey_sha256@ + self.proof@.take(0));
        while j < self.proof.len()
            invariant
                j <= self.proof@.len(),
                bytes@ == self.pubkey_sha256@ + self.proof@.take(j as int),
            decreases self.proof@.len() - j,
        {
            bytes.push(self.proof[j]);
            j = j + 1;
            assert(bytes@ =~= self.pubkey_sha256@ + self.proof@.take(j as int));
        }
        assert(self.proof@.take(j as int) =~= self.proof@);
        bytes
    }

    /// Reads the byte layout. It fails exactly on what is shorter than the hash.
    pub fn from_bytes(bytes: &[u8]) -> (r: Result<Self, ProofFileError>)
        ensures
            match r {
                Ok(file) => {
                    &&& bytes@.len() >= PUBKEY_HASH_LEN
                    &&& file.pubkey_sha256@ == bytes@.take(PUBKEY_HASH_LEN as int)
                    &&& file.proof@ == bytes@.skip(PUBKEY_HASH_LEN as int)
                },
                Err(ProofFileError::TooShort { len }) => {
                    &&& bytes@.len() < PUBKEY_HASH_LEN
                    &&& len == bytes@.len()
                },
            },
    {
        if bytes.len() < PUBKEY_HASH_LEN {
            return Err(ProofFileError::TooShort { len: bytes.len() });
        }
        let mut hash: [u8; 32] = [0; 32];
        let mut i: usize = 0;
        while i < PUBKEY_HASH_LEN
            invariant
                i <= PUBKEY_HASH_LEN <= bytes@.len(),
                forall|k: int| 0 <= k < i ==> hash@[k] == bytes@[k],
            decreases PUBKEY_HASH_LEN - i,
        {
            hash[i] = bytes[i];
            i = i + 1;
        }
        assert(hash@ =~= bytes@.take(32));
        let mut proof: Vec<u8> = Vec::new();
        let mut j: usize = PUBKEY_HASH_LEN;
        while j < bytes.len()
            invariant
                PUBKEY_HASH_LEN <= j <= bytes@.len(),
                proof@ == bytes@.subrange(PUBKEY_HASH_LEN as int, j as int),
            decreases bytes@.len() - j,
        {
            proof.push(bytes[j]);
            j = j + 1;
            assert(proof@ =~= bytes@.subrange(PUBKEY_HASH_LEN as int, j as int));
        }
        assert(proof@ =~= bytes@.skip(32));
        Ok(ProofFile { pubkey_sha256: hash, proof })
    }
}

/// Reading the bytes of a file gives back its hash and its proof.
pub proof fn law_round_trip(file: ProofFile)
    ensures
        file.layout().len() >= PUBKEY_HASH_LEN,
        file.layout().take(PUBKEY_HASH_LEN as int) == file.pubkey_sha256@,
        file.layout().skip(PUBKEY_HASH_LEN as int) == file.proof@,
{
    assert(file.layout().take(32) =~= file.pubkey_sha256@);
    assert(file.layout().skip(32) =~= file.proof@);
}

/// Writing what was read gives back the bytes.
pub proof fn law_read_back(bytes: Seq<u8>, file: ProofFile)
    requires
        bytes.len() >= PUBKEY_HASH_LEN,
        file.pubkey_sha256@ == bytes.take(PUBKEY_HASH_LEN as int),
        file.proof@ == bytes.skip(PUBKEY_HASH_LEN as int),
    ensures
        file.layout() == bytes,
{
    assert(file.layout() =~= bytes);
}

/// The file, byte by byte: the hash takes the first 32 bytes, and byte `i` of the proof is byte
/// `32 + i` of the file.
pub proof fn law_layout_bytes(file: ProofFile)
    ensures
        file.layout().len() == 32 + file.proof@.len(),
        forall|i: int| 0 <= i < 32 ==> #[trigger] file.layout()[i] == file.pubkey_sha256@[i],
        forall|i: int| 0 <= i < file.proof@.len() ==> file.layout()[32 + i] == #[trigger] file.proof@[i],
{
}

} // verus!
