//! The supported address types, and what binds an address to a public-key hash.

use crate::bip32::keys::{
    derive_compressed_pubkey, derived_key_of, pubkey_sha256, CompressedPublicKey, DeriveError,
};
use crate::bip32::path::{
    child_of, children_of, harden, hardened, ChildNumber, HARDENED_BIT,
};
use crate::bip32::scripts::{
    hash160_of, mainnet_address_of, new_p2pkh, new_p2sh, new_p2wpkh, p2pkh_address, p2pkh_script,
    p2sh_script, p2shwpkh_address, p2wpkh_address, p2wpkh_script, read_address, ripemd160,
    ripemd160_of, script_hash, script_kind, Address, AddressError, ScriptKind,
};
use crate::digest::sha256_of;
use crate::text::{trim, trimmed};
use vstd::prelude::*;

verus! {

/// The supported address types. Each has its standard purpose.
#[derive(Debug, Clone, Copy, PartialEq, Eq, Structural)]
pub enum AddressType {
    /// Pay to public-key hash (`1...`), purpose 44.
    P2pkh,
    /// Native pay to witness public-key hash (`bc1q...`), purpose 84.
    P2wpkh,
    /// The same, nested in pay to script hash (`3...`), purpose 49.
    P2shwpkh,
}

impl AddressType {
    /// The three types in menu order.
    pub const ALL: [AddressType; 3] = [
        AddressType::P2pkh,
        AddressType::P2wpkh,
        AddressType::P2shwpkh,
    ];

    /// The purpose index, without the hardened bit.
    pub open spec fn purpose_index(self) -> u32 {
        match self {
            AddressType::P2pkh => 44,
            AddressType::P2wpkh => 84,
            AddressType::P2shwpkh => 49,
        }
    }

    /// The purpose index, without the hardened bit.
    pub fn purpose(self) -> (r: u32)
        ensures
            r == self.purpose_index(),
    {
        match self {
            AddressType::P2pkh => 44,
            AddressType::P2wpkh => 84,
            AddressType::P2shwpkh => 49,
        }
    }

    /// The type in words.
    pub fn label(self) -> (s: &'static str)
        ensures
            s@ == match self {
                AddressType::P2pkh => "P2PKH (legacy, 1...)"@,
                AddressType::P2wpkh => "P2WPKH (native SegWit, bc1q...)"@,
                AddressType::P2shwpkh => "P2SH-P2WPKH (nested SegWit, 3...)"@,
            },
    {
        match self {
            AddressType::P2pkh => "P2PKH (legacy, 1...)",
            AddressType::P2wpkh => "P2WPKH (native SegWit, bc1q...)",
            AddressType::P2shwpkh => "P2SH-P2WPKH (nested SegWit, 3...)",
        }
    }

    /// The type of an output script, where it is supported. A script hash is taken for a nested
    /// witness program.
    pub open spec fn of_kind(kind: ScriptKind) -> Option<AddressType> {
        match kind {
            ScriptKind::P2pkh => Some(AddressType::P2pkh),
            ScriptKind::P2wpkh => Some(AddressType::P2wpkh),
            ScriptKind::P2sh => Some(AddressType::P2shwpkh),
            _ => None,
        }
    }

    /// The type of an address, where it is supported.
    pub fn from_address(addr: &Address) -> (r: Option<AddressType>)
        ensures
            r == AddressType::of_kind(addr.kind),
    {
        match addr.kind {
            ScriptKind::P2pkh => Some(AddressType::P2pkh),
            ScriptKind::P2wpkh => Some(AddressType::P2wpkh),
            ScriptKind::P2sh => Some(AddressType::P2shwpkh),
            _ => None,
        }
    }
}

/// The path `m/purpose'/0'/account'/change/index`.
pub open spec fn bip44_indices(ty: AddressType, account: int, change: int, index: int) -> Seq<u32> {
    seq![
        hardened(ty.purpose_index() as int),
        HARDENED_BIT,
        hardened(account),
        change as u32,
        index as u32,
    ]
}

/// The path `m/purpose'/0'/account'/change/index`, with the hardened bit set on its first three
/// levels.
pub fn bip44_path(ty: AddressType, account: u32, change: u32, index: u32) -> (path: Vec<u32>)
    ensures
        path@ == bip44_indices(ty, account as int, change as int, index as int),
{
    let mut path: Vec<u32> = Vec::new();
    path.push(harden(ty.purpose()));
    path.push(HARDENED_BIT);
    path.push(harden(account));
    path.push(change);
    path.push(index);
    assert(path@ =~= bip44_indices(ty, account as int, change as int, index as int));
    path
}

/// `HASH160` of a public key, from the SHA-256 hash of the key.
pub fn hash160_from_sha256(sha256: &[u8; 32]) -> (hash: [u8; 20])
    ensures
        hash@ == ripemd160_of(sha256@),
{
    ripemd160(sha256.as_slice())
}

/// The output script of a type for a `HASH160`.
pub open spec fn script_of(ty: AddressType, hash160: Seq<u8>) -> Seq<u8> {
    match ty {
        AddressType::P2pkh => p2pkh_script(hash160),
        AddressType::P2wpkh => p2wpkh_script(hash160),
        AddressType::P2shwpkh => p2sh_script(hash160_of(p2wpkh_script(hash160))),
    }
}

/// The output script of a type for a `HASH160`. In the nested type the redeem script is the witness
/// program.
pub fn script_pubkey_for(ty: AddressType, hash160: &[u8; 20]) -> (script: Vec<u8>)
    ensures
        script@ == script_of(ty, hash160@),
{
    match ty {
        AddressType::P2pkh => new_p2pkh(hash160),
        AddressType::P2wpkh => new_p2wpkh(hash160),
        AddressType::P2shwpkh => {
            let redeem = new_p2wpkh(hash160);
            let hash = script_hash(redeem.as_slice());
            new_p2sh(&hash)
        },
    }
}

/// The mainnet address of a type for a public key.
pub fn address_for(ty: AddressType, pubkey: &CompressedPublicKey) -> (address: Address)
    ensures
        address.wf(),
        address.script_pubkey@ == script_of(ty, hash160_of(pubkey@)),
        AddressType::of_kind(address.kind) == Some(ty),
{
    let key = pubkey.to_bytes();
    let (script, text) = match ty {
        AddressType::P2pkh => p2pkh_address(&key),
        AddressType::P2wpkh => p2wpkh_address(&key),
        AddressType::P2shwpkh => p2shwpkh_address(&key),
    };
    assert(script@.len() >= 2);
    let kind = script_kind(&script);
    Address { script_pubkey: script, kind, text }
}

/// Reads a mainnet address. White space at its ends does not count.
pub fn parse_address(s: &str) -> (r: Result<Address, AddressError>)
    ensures
        match r {
            Ok(address) => {
                &&& mainnet_address_of(trimmed(s@)) == Ok::<Seq<u8>, (bool, Seq<char>)>(
                    address.script_pubkey@,
                )
                &&& address.wf()
            },
            Err(AddressError::Invalid { detail }) => mainnet_address_of(trimmed(s@)) == Err::<
                Seq<u8>,
                (bool, Seq<char>),
            >((false, detail@)),
            Err(AddressError::WrongNetwork { detail }) => mainnet_address_of(trimmed(s@)) == Err::<
                Seq<u8>,
                (bool, Seq<char>),
            >((true, detail@)),
        },
{
    match read_address(trim(s)) {
        Ok((script, text)) => {
            let kind = script_kind(&script);
            Ok(Address { script_pubkey: script, kind, text })
        },
        Err(e) => Err(e),
    }
}

/// Why a proof does not bind to an address.
#[derive(Debug, Clone, Copy, PartialEq, Eq, Structural)]
pub enum BindError {
    /// The address has no supported type.
    Unsupported,
    /// The address belongs to another public-key hash.
    Mismatch,
}

impl BindError {
    /// The error in words.
    pub open spec fn words(self) -> Seq<char> {
        match self {
            BindError::Unsupported =>
                "unsupported address type (only P2PKH, P2WPKH and P2SH-P2WPKH are supported)"@,
            BindError::Mismatch => "proof does not match this address (public-key hash mismatch)"@,
        }
    }

    /// The error in words.
    pub fn message(&self) -> (s: &'static str)
        ensures
            s@ == self.words(),
    {
        match self {
            BindError::Unsupported =>
                "unsupported address type (only P2PKH, P2WPKH and P2SH-P2WPKH are supported)",
            BindError::Mismatch =>
                "proof does not match this address (public-key hash mismatch)",
        }
    }
}

/// What binds an output script of some kind to the SHA-256 hash of a public key: a supported type
/// whose script for that hash it is.
pub open spec fn binding(kind: ScriptKind, script: Seq<u8>, sha256: Seq<u8>) -> Result<
    AddressType,
    BindError,
> {
    match AddressType::of_kind(kind) {
        None => Err(BindError::Unsupported),
        Some(ty) => if script == script_of(ty, ripemd160_of(sha256)) {
            Ok(ty)
        } else {
            Err(BindError::Mismatch)
        },
    }
}

/// Whether two byte strings are equal.
pub(crate) fn same_bytes(a: &Vec<u8>, b: &Vec<u8>) -> (r: bool)
    ensures
        r == (a@ == b@),
{
    if a.len() != b.len() {
        return false;
    }
    let mut i: usize = 0;
    while i < a.len()
        invariant
            i <= a@.len(),
            a@.len() == b@.len(),
            forall|k: int| 0 <= k < i ==> a@[k] == b@[k],
        decreases a@.len() - i,
    {
        if a[i] != b[i] {
            return false;
        }
        i = i + 1;
    }
    assert(a@ =~= b@);
    true
}

/// Checks that the SHA-256 hash of a public key belongs to an address, and gives the type of the
/// address.
pub fn bind_address_to_hash(address: &Address, sha256: &[u8; 32]) -> (r: Result<
    AddressType,
    BindError,
>)
    ensures
        r == binding(address.kind, address.script_pubkey@, sha256@),
{
    match AddressType::from_address(address) {
        None => Err(BindError::Unsupported),
        Some(ty) => {
            let hash160 = hash160_from_sha256(sha256);
            let expected = script_pubkey_for(ty, &hash160);
            if same_bytes(&address.script_pubkey, &expected) {
                Ok(ty)
            } else {
                Err(BindError::Mismatch)
            }
        },
    }
}

/// The path that a scan tries at position `n`: the two chains vary first, then the address index,
/// then the account.
pub open spec fn candidate(ty: AddressType, n: int) -> Seq<u32> {
    bip44_indices(ty, n / 2 / 0xffff_ffff, n % 2, n / 2 % 0xffff_ffff)
}

/// What derivation gives at position `n` of a scan.
pub open spec fn key_at(seed: Seq<u8>, ty: AddressType, n: int) -> Result<
    Seq<u8>,
    (bool, Seq<char>),
> {
    derived_key_of(seed, children_of(candidate(ty, n)))
}

/// The address at position `n` of a scan is the one that pays to `script`.
pub open spec fn matches_at(seed: Seq<u8>, ty: AddressType, script: Seq<u8>, n: int) -> bool {
    match key_at(seed, ty, n) {
        Ok(key) => script_of(ty, hash160_of(key)) == script,
        Err(_) => false,
    }
}

/// The scan goes past the positions before `n`: each has a key, of another address.
pub open spec fn passes(seed: Seq<u8>, ty: AddressType, script: Seq<u8>, n: int) -> bool {
    forall|m: int|
        0 <= m < n ==> (#[trigger] key_at(seed, ty, m)) is Ok && !matches_at(seed, ty, script, m)
}

/// The path of the first position whose address pays to `script`, among the first `limit`.
pub open spec fn scan_finds(
    seed: Seq<u8>,
    ty: AddressType,
    script: Seq<u8>,
    limit: int,
    path: Seq<u32>,
) -> bool {
    exists|n: int|
        {
            &&& 0 <= n < limit
            &&& #[trigger] passes(seed, ty, script, n)
            &&& matches_at(seed, ty, script, n)
            &&& path == candidate(ty, n)
        }
}

/// The scan stops at a position without a key, among the first `limit`, for this reason.
pub open spec fn scan_stops(
    seed: Seq<u8>,
    ty: AddressType,
    script: Seq<u8>,
    limit: int,
    fault: (bool, Seq<char>),
) -> bool {
    exists|n: int|
        {
            &&& 0 <= n < limit
            &&& #[trigger] passes(seed, ty, script, n)
            &&& key_at(seed, ty, n) == Err::<Seq<u8>, (bool, Seq<char>)>(fault)
        }
}

/// Scans up to `max_addresses` paths of a type for one whose address is the target, and gives the
/// first.
pub fn scan_for_path(
    seed: &[u8; 64],
    ty: AddressType,
    target: &Address,
    max_addresses: usize,
) -> (r: Result<Option<Vec<u32>>, DeriveError>)
    ensures
        match r {
            Ok(Some(path)) => scan_finds(
                seed@,
                ty,
                target.script_pubkey@,
                max_addresses as int,
                path@,
            ),
            Ok(None) => passes(seed@, ty, target.script_pubkey@, max_addresses as int),
            Err(e) => scan_stops(
                seed@,
                ty,
                target.script_pubkey@,
                max_addresses as int,
                e.fault(),
            ),
        },
{
    let mut n: usize = 0;
    while n < max_addresses
        invariant
            n <= max_addresses,
            passes(seed@, ty, target.script_pubkey@, n as int),
        decreases max_addresses - n,
    {
        let pair: usize = n / 2;
        let account: u32 = (pair as u64 / 0xffff_ffff) as u32;
        let index: u32 = (pair as u64 % 0xffff_ffff) as u32;
        let change: u32 = (n % 2) as u32;
        let path = bip44_path(ty, account, change, index);
        assert(path@ == candidate(ty, n as int));
        match derive_compressed_pubkey(seed, path.as_slice()) {
            Err(e) => {
                assert(key_at(seed@, ty, n as int) == Err::<Seq<u8>, (bool, Seq<char>)>(e.fault()));
                return Err(e);
            },
            Ok(pubkey) => {
                let sha256 = pubkey_sha256(&pubkey);
                let hash160 = hash160_from_sha256(&sha256);
                let script = script_pubkey_for(ty, &hash160);
                assert(key_at(seed@, ty, n as int) == Ok::<Seq<u8>, (bool, Seq<char>)>(pubkey@));
                if same_bytes(&script, &target.script_pubkey) {
                    assert(matches_at(seed@, ty, target.script_pubkey@, n as int));
                    return Ok(Some(path));
                }
            },
        }
        n = n + 1;
    }
    Ok(None)
}

/// The address of a key binds to the hash of that key, and the detected type is the address's own.
pub proof fn law_binding_round_trip(ty: AddressType, address: Address, key: Seq<u8>)
    requires
        address.script_pubkey@ == script_of(ty, hash160_of(key)),
        AddressType::of_kind(address.kind) == Some(ty),
    ensures
        binding(address.kind, address.script_pubkey@, sha256_of(key)) == Ok::<
            AddressType,
            BindError,
        >(ty),
{
}

/// Binding succeeds exactly when the address pays to the given key hash in its own type, and the type
/// that it names is that one.
pub proof fn law_binding_names_own_type(ty: AddressType, address: Address, sha256: Seq<u8>)
    requires
        AddressType::of_kind(address.kind) == Some(ty),
    ensures
        ({
            let r = binding(address.kind, address.script_pubkey@, sha256);
            &&& (r is Ok) == (address.script_pubkey@ == script_of(ty, ripemd160_of(sha256)))
            &&& r is Ok ==> r->Ok_0 == ty
            &&& r is Err ==> r->Err_0 == BindError::Mismatch
        }),
{
}

/// The address of one public-key hash does not bind to another. In the nested type this holds as
/// far as the two witness programs have different hashes.
pub proof fn law_binding_rejects_other_hash(
    ty: AddressType,
    address: Address,
    hash160: Seq<u8>,
    sha256: Seq<u8>,
)
    requires
        address.script_pubkey@ == script_of(ty, hash160),
        AddressType::of_kind(address.kind) == Some(ty),
        ripemd160_of(sha256) != hash160,
        ty == AddressType::P2shwpkh ==> hash160_of(p2wpkh_script(ripemd160_of(sha256)))
            != hash160_of(p2wpkh_script(hash160)),
    ensures
        binding(address.kind, address.script_pubkey@, sha256) == Err::<AddressType, BindError>(
            BindError::Mismatch,
        ),
{
    let script = script_of(ty, hash160);
    let other = script_of(ty, ripemd160_of(sha256));
    if script == other {
        let n = script.len() as int;
        match ty {
            AddressType::P2pkh => {
                assert(script.subrange(3, n - 2) =~= hash160);
                assert(other.subrange(3, n - 2) =~= ripemd160_of(sha256));
            },
            AddressType::P2wpkh => {
                assert(script.subrange(2, n) =~= hash160);
                assert(other.subrange(2, n) =~= ripemd160_of(sha256));
            },
            AddressType::P2shwpkh => {
                let a = hash160_of(p2wpkh_script(hash160));
                let b = hash160_of(p2wpkh_script(ripemd160_of(sha256)));
                assert(script.subrange(2, n - 1) =~= a);
                assert(other.subrange(2, n - 1) =~= b);
            },
        }
    }
}

/// The first four levels of a path are the purpose, the coin and the account, all hardened, and the
/// chain; the last is the index.
pub proof fn law_path_levels(ty: AddressType, account: u32, change: u32, index: u32)
    requires
        account < HARDENED_BIT,
        change < HARDENED_BIT,
        index < HARDENED_BIT,
    ensures
        children_of(bip44_indices(ty, account as int, change as int, index as int)) == seq![
            ChildNumber::Hardened {
                index: match ty {
                    AddressType::P2pkh => 44,
                    AddressType::P2shwpkh => 49,
                    AddressType::P2wpkh => 84,
                },
            },
            ChildNumber::Hardened { index: 0 },
            ChildNumber::Hardened { index: account },
            ChildNumber::Normal { index: change },
            ChildNumber::Normal { index },
        ],
{
    let path = bip44_indices(ty, account as int, change as int, index as int);
    assert(children_of(path) =~= seq![
        child_of(path[0]),
        child_of(path[1]),
        child_of(path[2]),
        child_of(path[3]),
        child_of(path[4]),
    ]);
}

/// A scan tries every path of the first account once, the receive chain before the change chain of
/// each index: the path of index `i` and chain `c` at position `2 i + c`, and at no other.
pub proof fn law_scan_order(ty: AddressType, change: int, index: int, n: int)
    requires
        change == 0 || change == 1,
        0 <= index < 0xffff_ffff,
        0 <= n < 0x8000_0000_0000_0000,
    ensures
        candidate(ty, 2 * index + change) == bip44_indices(ty, 0, change, index),
        candidate(ty, n) == candidate(ty, 2 * index + change) ==> n == 2 * index + change,
{
    let m = 2 * index + change;
    assert(m / 2 == index && m % 2 == change);
    let (p, q) = (candidate(ty, n), candidate(ty, m));
    if p == q {
        let account = n / 2 / 0xffff_ffff;
        assert(account < HARDENED_BIT);
        assert(p[2] == hardened(account));
        assert(q[2] == hardened(0));
        assert(p[3] == (n % 2) as u32 && q[3] == change as u32);
        assert(p[4] == (n / 2 % 0xffff_ffff) as u32 && q[4] == index as u32);
        assert(account == 0);
    }
}

/// A scan that finds nothing has missed nothing: each path of the first account within its limit has a
/// key, and that key has another address.
pub proof fn law_scan_misses_nothing(
    seed: Seq<u8>,
    ty: AddressType,
    script: Seq<u8>,
    limit: int,
    change: int,
    index: int,
)
    requires
        passes(seed, ty, script, limit),
        change == 0 || change == 1,
        0 <= index < 0xffff_ffff,
        2 * index + change < limit,
    ensures
        ({
            let key = derived_key_of(
                seed,
                children_of(bip44_indices(ty, 0, change, index)),
            );
            &&& key is Ok
            &&& script_of(ty, hash160_of(key->Ok_0)) != script
        }),
{
    law_scan_order(ty, change, index, 0);
    assert(key_at(seed, ty, 2 * index + change) is Ok);
}

/// A path that a scan finds is one within its limit whose key has the address, and no path before it
/// has; where a scan stops with an error, no path before has the address either.
pub proof fn law_scan_finds_first(
    seed: Seq<u8>,
    ty: AddressType,
    script: Seq<u8>,
    limit: int,
    path: Seq<u32>,
)
    requires
        limit <= 0x1_ffff_fffe,
        scan_finds(seed, ty, script, limit, path),
    ensures
        exists|change: int, index: int|
            {
                let key = derived_key_of(seed, children_of(path));
                &&& change == 0 || change == 1
                &&& 0 <= index
                &&& 2 * index + change < limit
                &&& path == #[trigger] bip44_indices(ty, 0, change, index)
                &&& key is Ok
                &&& script_of(ty, hash160_of(key->Ok_0)) == script
                &&& passes(seed, ty, script, 2 * index + change)
            },
{
    let n = choose|n: int|
        {
            &&& 0 <= n < limit
            &&& #[trigger] passes(seed, ty, script, n)
            &&& matches_at(seed, ty, script, n)
            &&& path == candidate(ty, n)
        };
    let (change, index) = (n % 2, n / 2);
    law_scan_order(ty, change, index, 0);
    assert(path == bip44_indices(ty, 0, change, index));
}

/// A scan always finds an address of its own seed: with a key for every path before it, the address of
/// the key at index `i` of chain `c` cannot be passed by, and some path to it is found.
pub proof fn law_scan_recovers(
    seed: Seq<u8>,
    ty: AddressType,
    script: Seq<u8>,
    limit: int,
    change: int,
    index: int,
)
    requires
        change == 0 || change == 1,
        0 <= index < 0xffff_ffff,
        2 * index + change < limit,
        derived_key_of(seed, children_of(bip44_indices(ty, 0, change, index))) is Ok,
        script == script_of(
            ty,
            hash160_of(
                derived_key_of(seed, children_of(bip44_indices(ty, 0, change, index)))->Ok_0,
            ),
        ),
    ensures
        !passes(seed, ty, script, limit),
        (exists|path: Seq<u32>| scan_finds(seed, ty, script, limit, path)) || (exists|
            fault: (bool, Seq<char>),
        | scan_stops(seed, ty, script, limit, fault)),
{
    if passes(seed, ty, script, limit) {
        law_scan_misses_nothing(seed, ty, script, limit, change, index);
    }
    lemma_first_stop(seed, ty, script, limit, 0);
}

/// A scan that does not pass all positions ends at one of them.
proof fn lemma_first_stop(seed: Seq<u8>, ty: AddressType, script: Seq<u8>, limit: int, n: int)
    requires
        0 <= n <= limit,
        passes(seed, ty, script, n),
        !passes(seed, ty, script, limit),
    ensures
        (exists|path: Seq<u32>| scan_finds(seed, ty, script, limit, path)) || (exists|
            fault: (bool, Seq<char>),
        | scan_stops(seed, ty, script, limit, fault)),
    decreases limit - n,
{
    assert(n < limit);
    match key_at(seed, ty, n) {
        Err(fault) => {
            assert(scan_stops(seed, ty, script, limit, fault));
        },
        Ok(key) => {
            if matches_at(seed, ty, script, n) {
                assert(scan_finds(seed, ty, script, limit, candidate(ty, n)));
            } else {
                lemma_first_stop(seed, ty, script, limit, n + 1);
            }
        },
    }
}

/// Which kinds of script have a supported type: those that pay to a public-key hash, to a witness
/// public-key hash, and to a script hash. The three types come from three different kinds.
pub proof fn law_supported_kinds(kind: ScriptKind)
    ensures
        AddressType::of_kind(kind) is Some <==> kind == ScriptKind::P2pkh || kind
            == ScriptKind::P2wpkh || kind == ScriptKind::P2sh,
        AddressType::of_kind(kind) == Some(AddressType::P2pkh) <==> kind == ScriptKind::P2pkh,
        AddressType::of_kind(kind) == Some(AddressType::P2wpkh) <==> kind == ScriptKind::P2wpkh,
        AddressType::of_kind(kind) == Some(AddressType::P2shwpkh) <==> kind == ScriptKind::P2sh,
{
}

/// When a script binds to the hash of a key, in bytes: `h` is the key's `HASH160`, and `n` that of the
/// witness program which holds `h`.
pub proof fn law_binding_bytes(kind: ScriptKind, script: Seq<u8>, sha256: Seq<u8>)
    ensures
        ({
            let h = ripemd160_of(sha256);
            let n = hash160_of(seq![0u8, 20] + h);
            &&& binding(kind, script, sha256) is Ok <==> {
                ||| kind == ScriptKind::P2pkh && script == seq![0x76u8, 0xa9, 20] + h + seq![
                    0x88u8,
                    0xac,
                ]
                ||| kind == ScriptKind::P2wpkh && script == seq![0u8, 20] + h
                ||| kind == ScriptKind::P2sh && script == seq![0xa9u8, 20] + n + seq![0x87u8]
            }
            &&& binding(kind, script, sha256) == Err::<AddressType, BindError>(
                BindError::Unsupported,
            ) <==> kind != ScriptKind::P2pkh && kind != ScriptKind::P2wpkh && kind
                != ScriptKind::P2sh
        }),
{
}

/// The script of a type, in its number of bytes: 25, 22 and 23.
pub proof fn law_script_lengths(ty: AddressType, hash160: Seq<u8>)
    requires
        hash160.len() == 20,
    ensures
        ty == AddressType::P2pkh ==> script_of(ty, hash160).len() == 25,
        ty == AddressType::P2wpkh ==> script_of(ty, hash160).len() == 22,
        ty == AddressType::P2shwpkh ==> script_of(ty, hash160).len() == 3 + hash160_of(
            seq![0u8, 20] + hash160,
        ).len(),
{
}

} // verus!
