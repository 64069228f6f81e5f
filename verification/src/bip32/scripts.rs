//! Output scripts, their kinds and their mainnet addresses, from the `bitcoin` crate.

use crate::bip32::keys::is_public_key;
use crate::digest::sha256_of;
use bitcoin::hashes;
use ripemd::Digest;
use vstd::prelude::*;
use vstd::string::*;

verus! {

/// What an output script pays to.
#[derive(Debug, Clone, Copy, PartialEq, Eq, Structural)]
pub enum ScriptKind {
    /// A public-key hash.
    P2pkh,
    /// A script hash.
    P2sh,
    /// A witness public-key hash.
    P2wpkh,
    /// A witness script hash.
    P2wsh,
    /// A taproot output key.
    P2tr,
    /// The anchor program.
    P2a,
    /// Some other witness program.
    Other,
}

/// A mainnet address: its output script, the kind of that script, and its text.
#[derive(Debug, PartialEq, Eq)]
pub struct Address {
    pub script_pubkey: Vec<u8>,
    pub kind: ScriptKind,
    pub text: String,
}

/// The RIPEMD-160 digest of a byte string.
pub uninterp spec fn ripemd160_of(data: Seq<u8>) -> Seq<u8>;

/// `HASH160`: RIPEMD-160 of SHA-256.
pub open spec fn hash160_of(data: Seq<u8>) -> Seq<u8> {
    ripemd160_of(sha256_of(data))
}

/// `OP_DUP OP_HASH160 <hash> OP_EQUALVERIFY OP_CHECKSIG`.
pub open spec fn p2pkh_script(hash: Seq<u8>) -> Seq<u8> {
    seq![0x76u8, 0xa9, 0x14] + hash + seq![0x88u8, 0xac]
}

/// `OP_0 <hash>`.
pub open spec fn p2wpkh_script(hash: Seq<u8>) -> Seq<u8> {
    seq![0x00u8, 0x14] + hash
}

/// `OP_HASH160 <hash> OP_EQUAL`.
pub open spec fn p2sh_script(hash: Seq<u8>) -> Seq<u8> {
    seq![0xa9u8, 0x14] + hash + seq![0x87u8]
}

/// The kind of an output script of an address.
pub open spec fn kind_of(script: Seq<u8>) -> ScriptKind {
    if script.len() == 25 && script[0] == 0x76 {
        ScriptKind::P2pkh
    } else if script.len() == 23 && script[0] == 0xa9 {
        ScriptKind::P2sh
    } else if script.len() == 22 && script[0] == 0x00 {
        ScriptKind::P2wpkh
    } else if script.len() == 34 && script[0] == 0x00 {
        ScriptKind::P2wsh
    } else if script.len() == 34 && script[0] == 0x51 {
        ScriptKind::P2tr
    } else if script == seq![0x51u8, 0x02, 0x4e, 0x73] {
        ScriptKind::P2a
    } else {
        ScriptKind::Other
    }
}

/// The text of the mainnet address with an output script.
pub uninterp spec fn mainnet_text_of(script: Seq<u8>) -> Seq<char>;

impl Address {
    /// The kind and the text are those of the output script.
    pub open spec fn wf(self) -> bool {
        &&& self.kind == kind_of(self.script_pubkey@)
        &&& self.text@ == mainnet_text_of(self.script_pubkey@)
    }
}

/// Why a text is no mainnet address.
#[derive(Debug, PartialEq, Eq)]
pub enum AddressError {
    /// It is no address.
    Invalid { detail: String },
    /// It is an address of another network.
    WrongNetwork { detail: String },
}

/// What reading a text as a mainnet address gives: an output script; or whether the text is an
/// address at all, and the reader's reason.
pub uninterp spec fn mainnet_address_of(text: Seq<char>) -> Result<Seq<u8>, (bool, Seq<char>)>;

/// `ripemd::Ripemd160::digest` on `data`. Claimed of it: the result is the RIPEMD-160 digest of the
/// bytes, here called `ripemd160_of`, and it depends on nothing else.
#[verifier::external_body]
pub(crate) fn ripemd160(data: &[u8]) -> (digest: [u8; 20])
    ensures
        digest@ == ripemd160_of(data@),
{
    ripemd::Ripemd160::digest(data).into()
}

/// `bitcoin::ScriptBuf::new_p2pkh` on a hash. Claimed of it: the bytes of the script.
#[verifier::external_body]
pub(crate) fn new_p2pkh(hash: &[u8; 20]) -> (script: Vec<u8>)
    ensures
        script@ == p2pkh_script(hash@),
{
    bitcoin::ScriptBuf::new_p2pkh(&hashes::Hash::from_byte_array(*hash)).into_bytes()
}

/// `bitcoin::ScriptBuf::new_p2wpkh` on a hash. Claimed of it: the bytes of the script.
#[verifier::external_body]
pub(crate) fn new_p2wpkh(hash: &[u8; 20]) -> (script: Vec<u8>)
    ensures
        script@ == p2wpkh_script(hash@),
{
    bitcoin::ScriptBuf::new_p2wpkh(&hashes::Hash::from_byte_array(*hash)).into_bytes()
}

/// `bitcoin::ScriptBuf::new_p2sh` on a hash. Claimed of it: the bytes of the script.
#[verifier::external_body]
pub(crate) fn new_p2sh(hash: &[u8; 20]) -> (script: Vec<u8>)
    ensures
        script@ == p2sh_script(hash@),
{
    bitcoin::ScriptBuf::new_p2sh(&hashes::Hash::from_byte_array(*hash)).into_bytes()
}

/// `bitcoin::Script::script_hash` on the bytes of a script. Claimed of it: the result is the
/// `HASH160` of the bytes, RIPEMD-160 of SHA-256.
#[verifier::external_body]
pub(crate) fn script_hash(script: &[u8]) -> (hash: [u8; 20])
    ensures
        hash@ == hash160_of(script@),
{
    hashes::Hash::to_byte_array(bitcoin::Script::from_bytes(script).script_hash())
}

/// `bitcoin::Address::p2pkh` on a public key, for the main network. Claimed of it: the address pays
/// to the 20-byte `HASH160` of the serialized key, and its text is a function of its output script, here
/// called `mainnet_text_of`.
#[verifier::external_body]
pub(crate) fn p2pkh_address(key: &[u8; 33]) -> (r: (Vec<u8>, String))
    requires
        is_public_key(key@),
    ensures
        r.0@ == p2pkh_script(hash160_of(key@)),
        r.0@.len() == 25,
        r.1@ == mainnet_text_of(r.0@),
{
    let key = bitcoin::CompressedPublicKey::from_slice(key).unwrap();
    let address = bitcoin::Address::p2pkh(key, bitcoin::Network::Bitcoin);
    (address.script_pubkey().into_bytes(), address.to_string())
}

/// `bitcoin::Address::p2wpkh` on a public key, for the main network. Claimed of it: the address
/// pays to the witness program that holds the 20-byte `HASH160` of the serialized key, and its text is a
/// function of its output script, here called `mainnet_text_of`.
#[verifier::external_body]
pub(crate) fn p2wpkh_address(key: &[u8; 33]) -> (r: (Vec<u8>, String))
    requires
        is_public_key(key@),
    ensures
        r.0@ == p2wpkh_script(hash160_of(key@)),
        r.0@.len() == 22,
        r.1@ == mainnet_text_of(r.0@),
{
    let key = bitcoin::CompressedPublicKey::from_slice(key).unwrap();
    let address = bitcoin::Address::p2wpkh(&key, bitcoin::Network::Bitcoin);
    (address.script_pubkey().into_bytes(), address.to_string())
}

/// `bitcoin::Address::p2shwpkh` on a public key, for the main network. Claimed of it: the address
/// pays to the 20-byte `HASH160` of the key's witness program, and its text is a function of its output
/// script, here called `mainnet_text_of`.
#[verifier::external_body]
pub(crate) fn p2shwpkh_address(key: &[u8; 33]) -> (r: (Vec<u8>, String))
    requires
        is_public_key(key@),
    ensures
        r.0@ == p2sh_script(hash160_of(p2wpkh_script(hash160_of(key@)))),
        r.0@.len() == 23,
        r.1@ == mainnet_text_of(r.0@),
{
    let key = bitcoin::CompressedPublicKey::from_slice(key).unwrap();
    let address = bitcoin::Address::p2shwpkh(&key, bitcoin::Network::Bitcoin);
    (address.script_pubkey().into_bytes(), address.to_string())
}

/// `bitcoin::Address::from_str` on a text, and then `require_network` for the main network. Claimed
/// of them: what comes out depends on the text alone and is here called `mainnet_address_of`; the
/// text of the address that was read is a function of its output script, here called
/// `mainnet_text_of`; and that script has two bytes at least.
#[verifier::external_body]
pub(crate) fn read_address(text: &str) -> (r: Result<(Vec<u8>, String), AddressError>)
    ensures
        match r {
            Ok(a) => {
                &&& mainnet_address_of(text@) == Ok::<Seq<u8>, (bool, Seq<char>)>(a.0@)
                &&& a.1@ == mainnet_text_of(a.0@)
                &&& a.0@.len() >= 2
            },
            Err(AddressError::Invalid { detail }) => mainnet_address_of(text@) == Err::<
                Seq<u8>,
                (bool, Seq<char>),
            >((false, detail@)),
            Err(AddressError::WrongNetwork { detail }) => mainnet_address_of(text@) == Err::<
                Seq<u8>,
                (bool, Seq<char>),
            >((true, detail@)),
        },
{
    let unchecked = match text.parse::<bitcoin::Address<bitcoin::address::NetworkUnchecked>>() {
        Ok(unchecked) => unchecked,
        Err(e) => return Err(AddressError::Invalid { detail: e.to_string() }),
    };
    match unchecked.require_network(bitcoin::Network::Bitcoin) {
        Ok(address) => Ok((address.script_pubkey().into_bytes(), address.to_string())),
        Err(e) => Err(AddressError::WrongNetwork { detail: e.to_string() }),
    }
}

/// The kind of an output script of an address.
pub fn script_kind(script: &Vec<u8>) -> (kind: ScriptKind)
    requires
        script@.len() >= 2,
    ensures
        kind == kind_of(script@),
        kind == ScriptKind::P2pkh <==> script@.len() == 25 && script@[0] == 0x76,
        kind == ScriptKind::P2sh <==> script@.len() == 23 && script@[0] == 0xa9,
        kind == ScriptKind::P2wpkh <==> script@.len() == 22 && script@[0] == 0x00,
        kind == ScriptKind::P2wsh <==> script@.len() == 34 && script@[0] == 0x00,
        kind == ScriptKind::P2tr <==> script@.len() == 34 && script@[0] == 0x51,
        kind == ScriptKind::P2a <==> script@.len() == 4 && script@[0] == 0x51 && script@[1] == 0x02
            && script@[2] == 0x4e && script@[3] == 0x73,
{
    let n: usize = script.len();
    let op: u8 = script[0];
    proof {
        let anchor = seq![0x51u8, 0x02, 0x4e, 0x73];
        if script@ =~= anchor {
            assert(script@[1] == 0x02 && script@[2] == 0x4e && script@[3] == 0x73);
        }
    }
    if n == 25 && op == 0x76 {
        ScriptKind::P2pkh
    } else if n == 23 && op == 0xa9 {
        ScriptKind::P2sh
    } else if n == 22 && op == 0x00 {
        ScriptKind::P2wpkh
    } else if n == 34 && op == 0x00 {
        ScriptKind::P2wsh
    } else if n == 34 && op == 0x51 {
        ScriptKind::P2tr
    } else if n == 4 && op == 0x51 && script[1] == 0x02 && script[2] == 0x4e && script[3] == 0x73 {
        proof {
            assert(script@ =~= seq![0x51u8, 0x02, 0x4e, 0x73]);
        }
        ScriptKind::P2a
    } else {
        ScriptKind::Other
    }
}

impl AddressError {
    /// The error as a mathematical value.
    pub open spec fn fault(self) -> (bool, Seq<char>) {
        match self {
            AddressError::Invalid { detail } => (false, detail@),
            AddressError::WrongNetwork { detail } => (true, detail@),
        }
    }

    /// The error in words.
    pub open spec fn words(self) -> Seq<char> {
        match self {
            AddressError::Invalid { detail } => "invalid Bitcoin address: "@ + detail@,
            AddressError::WrongNetwork { detail } =>
                "address is not a Bitcoin mainnet address: "@ + detail@,
        }
    }

    /// The error in words.
    pub fn message(&self) -> (s: String)
        ensures
            s@ == self.words(),
    {
        match self {
            AddressError::Invalid { detail } => {
                let mut s = String::from_str("invalid Bitcoin address: ");
                s.append(detail.as_str());
                s
            },
            AddressError::WrongNetwork { detail } => {
                let mut s = String::from_str("address is not a Bitcoin mainnet address: ");
                s.append(detail.as_str());
                s
            },
        }
    }
}

/// The three scripts of a 20-byte hash hold the hash behind two, three and two bytes of instructions,
/// in 22, 25 and 23 bytes, and each has its own kind.
pub proof fn law_script_kinds(hash: Seq<u8>)
    requires
        hash.len() == 20,
    ensures
        p2wpkh_script(hash).len() == 22,
        p2pkh_script(hash).len() == 25,
        p2sh_script(hash).len() == 23,
        p2wpkh_script(hash).skip(2) == hash,
        p2pkh_script(hash).subrange(3, 23) == hash,
        p2sh_script(hash).subrange(2, 22) == hash,
        kind_of(p2wpkh_script(hash)) == ScriptKind::P2wpkh,
        kind_of(p2pkh_script(hash)) == ScriptKind::P2pkh,
        kind_of(p2sh_script(hash)) == ScriptKind::P2sh,
{
    assert(p2wpkh_script(hash).skip(2) =~= hash);
    assert(p2pkh_script(hash).subrange(3, 23) =~= hash);
    assert(p2sh_script(hash).subrange(2, 22) =~= hash);
}

/// An address belongs to its script: two addresses that pay to one script have one kind and one text.
pub proof fn law_address_of_script(a: Address, b: Address)
    requires
        a.wf(),
        b.wf(),
        a.script_pubkey@ == b.script_pubkey@,
    ensures
        a.kind == b.kind,
        a.text@ == b.text@,
{
}

/// The kind of a script by its length and first byte: the witness programs of 32 bytes are told apart by
/// their version, zero or one, and a script of any other length has no kind of its own but the anchor's.
pub proof fn law_kind_by_length(script: Seq<u8>)
    requires
        script.len() >= 2,
    ensures
        script.len() == 34 && script[0] == 0x00 <==> kind_of(script) == ScriptKind::P2wsh,
        script.len() == 34 && script[0] == 0x51 <==> kind_of(script) == ScriptKind::P2tr,
        script.len() == 25 && script[0] == 0x76 <==> kind_of(script) == ScriptKind::P2pkh,
        script.len() == 23 && script[0] == 0xa9 <==> kind_of(script) == ScriptKind::P2sh,
        script.len() == 22 && script[0] == 0x00 <==> kind_of(script) == ScriptKind::P2wpkh,
        kind_of(script) == ScriptKind::P2a <==> script.len() == 4 && script[0] == 0x51 && script[1]
            == 0x02 && script[2] == 0x4e && script[3] == 0x73,
{
    let anchor = seq![0x51u8, 0x02, 0x4e, 0x73];
    if script.len() == 4 && script[0] == 0x51 && script[1] == 0x02 && script[2] == 0x4e && script[3]
        == 0x73 {
        assert(script =~= anchor);
    }
    assert(anchor.len() == 4 && anchor[0] == 0x51 && anchor[1] == 0x02 && anchor[2] == 0x4e
        && anchor[3] == 0x73);
}

} // verus!
