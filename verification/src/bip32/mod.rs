//! Bitcoin derivation paths, keys, addresses and proof files.
//!
//! A proof commits to the SHA-256 hash of a compressed public key. Every supported address type is
//! derived from the RIPEMD-160 hash of that hash, so a proof is bound to an address by recomputing
//! the address's output script.

pub mod address;
pub mod keys;
pub mod path;
pub mod proof_file;
pub mod scripts;
pub mod wallet;
