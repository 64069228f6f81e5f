//! The decisions of the wallet program: from a seed phrase and an address, or from fresh entropy, to
//! a wallet; the choice of a type, the message to sign and the name of a proof file. Seeds come from
//! the `bip39` crate.

use crate::bip32::address::{
    address_for, binding, bip44_indices, bip44_path, candidate, key_at, law_binding_round_trip,
    matches_at, parse_address, passes, same_bytes, scan_finds, scan_for_path, scan_stops, script_of,
    AddressType, BindError,
};
use crate::bip32::keys::{derive_compressed_pubkey, derived_key_of, DeriveError};
use crate::bip32::path::{
    children_of, first_fault, parse_path, parts_of, path_body, path_of, PathError,
};
use crate::bip32::scripts::{
    hash160_of, kind_of, mainnet_address_of, mainnet_text_of, ripemd160_of, Address, AddressError,
    ScriptKind,
};
use crate::digest::{sha256, sha256_of};
use crate::text::{decimal, hex, hex_text, push_decimal, same_text, trimmed};
use vstd::prelude::*;
use vstd::string::*;

verus! {

/// The number of addresses to scan for the path of an existing wallet.
pub const SCAN_LIMIT: usize = 1000;

/// The depth of the deepest path that can be proved.
pub const MAX_DEPTH: usize = 5;

/// The exact phrase that a user must type to acknowledge the warning about unaudited software.
pub const CONFIRMATION: &'static str = "I confirm this wallet seed protects no value";

/// The seed of a mnemonic phrase with an empty passphrase, or why the phrase is none.
pub uninterp spec fn phrase_seed_of(phrase: Seq<char>) -> Result<Seq<u8>, Seq<char>>;

/// The seed of the mnemonic that some entropy stands for, with an empty passphrase, or why there is
/// none.
pub uninterp spec fn entropy_seed_of(entropy: Seq<u8>) -> Result<Seq<u8>, Seq<char>>;

/// `bip39::Mnemonic::parse_normalized` on a phrase, and then `to_seed` with an empty passphrase.
/// Claimed of them: what comes out, the 64 bytes of the seed or the reason in words, depends on the
/// phrase alone and is here called `phrase_seed_of`.
#[verifier::external_body]
fn seed_of_phrase(phrase: &str) -> (r: Result<[u8; 64], String>)
    ensures
        match r {
            Ok(seed) => phrase_seed_of(phrase@) == Ok::<Seq<u8>, Seq<char>>(seed@),
            Err(detail) => phrase_seed_of(phrase@) == Err::<Seq<u8>, Seq<char>>(detail@),
        },
{
    match bip39::Mnemonic::parse_normalized(phrase) {
        Ok(mnemonic) => Ok(mnemonic.to_seed("")),
        Err(e) => Err(e.to_string()),
    }
}

/// `bip39::Mnemonic::from_entropy` on 32 bytes, and then `to_seed` with an empty passphrase. Claimed
/// of them: what comes out depends on the bytes alone and is here called `entropy_seed_of`; and it is
/// a seed, since `from_entropy` refuses some lengths and nothing else, and accepts 32 bytes.
#[verifier::external_body]
fn seed_of_entropy(entropy: &[u8; 32]) -> (r: Result<[u8; 64], String>)
    ensures
        match r {
            Ok(seed) => entropy_seed_of(entropy@) == Ok::<Seq<u8>, Seq<char>>(seed@),
            Err(detail) => entropy_seed_of(entropy@) == Err::<Seq<u8>, Seq<char>>(detail@),
        },
        r is Ok,
{
    match bip39::Mnemonic::from_entropy(entropy) {
        Ok(mnemonic) => Ok(mnemonic.to_seed("")),
        Err(e) => Err(e.to_string()),
    }
}

/// Whether a line is the confirmation phrase.
pub fn confirmed(line: &str) -> (r: bool)
    ensures
        r == (line@ == CONFIRMATION@),
{
    same_text(line, CONFIRMATION)
}

/// Why there is no wallet, or nothing to sign.
#[derive(Debug, PartialEq, Eq)]
pub enum WalletError {
    /// The confirmation phrase was not typed.
    NotConfirmed,
    /// The phrase is no mnemonic.
    Phrase { detail: String },
    /// The entropy gives no mnemonic.
    Entropy { detail: String },
    /// The text is no mainnet address.
    Address(AddressError),
    /// The address has no supported type.
    Unsupported,
    /// There is no key at the end of a path.
    Derive(DeriveError),
    /// The message is empty.
    EmptyMessage,
}

impl WalletError {
    /// The error in words.
    pub open spec fn words(self) -> Seq<char> {
        match self {
            WalletError::NotConfirmed => "confirmation phrase not entered; aborting"@,
            WalletError::Phrase { detail } => "invalid BIP39 mnemonic: "@ + detail@,
            WalletError::Entropy { detail } => "failed to generate mnemonic: "@ + detail@,
            WalletError::Address(e) => e.words(),
            WalletError::Unsupported => BindError::Unsupported.words(),
            WalletError::Derive(e) => e.words(),
            WalletError::EmptyMessage => "message must not be empty"@,
        }
    }

    /// The error in words.
    pub fn message(&self) -> (s: String)
        ensures
            s@ == self.words(),
    {
        match self {
            WalletError::NotConfirmed => String::from_str(
                "confirmation phrase not entered; aborting",
            ),
            WalletError::Phrase { detail } => {
                let mut s = String::from_str("invalid BIP39 mnemonic: ");
                s.append(detail.as_str());
                s
            },
            WalletError::Entropy { detail } => {
                let mut s = String::from_str("failed to generate mnemonic: ");
                s.append(detail.as_str());
                s
            },
            WalletError::Address(e) => e.message(),
            WalletError::Unsupported => String::from_str(BindError::Unsupported.message()),
            WalletError::Derive(e) => e.message(),
            WalletError::EmptyMessage => String::from_str("message must not be empty"),
        }
    }
}

/// Refuses to sign an empty message.
pub fn check_message(message: &str) -> (r: Result<(), WalletError>)
    ensures
        r == (if message@.len() == 0 {
            Err::<(), WalletError>(WalletError::EmptyMessage)
        } else {
            Ok(())
        }),
{
    if message.unicode_len() == 0 {
        Err(WalletError::EmptyMessage)
    } else {
        Ok(())
    }
}

/// A wallet to prove with: the seed, the path of its key and the text of the key's address.
#[derive(Debug, PartialEq, Eq)]
pub struct Wallet {
    pub seed: [u8; 64],
    pub path: Vec<u32>,
    pub address: String,
}

impl Wallet {
    /// The key at the end of the path has an address of the given type that pays to `script`, and
    /// the text is that address's.
    pub open spec fn pays_to(self, ty: AddressType, script: Seq<u8>) -> bool {
        let key = derived_key_of(self.seed@, children_of(self.path@));
        &&& key is Ok
        &&& script_of(ty, hash160_of(key->Ok_0)) == script
        &&& self.address@ == mainnet_text_of(script)
    }
}

/// The address that a wallet pays to binds to the hash of the wallet's own key, so that a proof made
/// with the wallet belongs to that address.
pub proof fn law_wallet_binds(wallet: Wallet, ty: AddressType, address: Address)
    requires
        wallet.pays_to(ty, address.script_pubkey@),
        AddressType::of_kind(address.kind) == Some(ty),
    ensures
        binding(
            address.kind,
            address.script_pubkey@,
            sha256_of(derived_key_of(wallet.seed@, children_of(wallet.path@))->Ok_0),
        ) == Ok::<AddressType, BindError>(ty),
{
    let key = derived_key_of(wallet.seed@, children_of(wallet.path@))->Ok_0;
    law_binding_round_trip(ty, address, key);
}

/// An existing wallet of which the seed is known, and the address is still to be read.
#[derive(Debug, PartialEq, Eq)]
pub struct Seeded {
    pub seed: [u8; 64],
}

/// Reads the mnemonic phrase of an existing wallet.
pub fn read_phrase(phrase: &str) -> (r: Result<Seeded, WalletError>)
    ensures
        match r {
            Ok(seeded) => phrase_seed_of(phrase@) == Ok::<Seq<u8>, Seq<char>>(seeded.seed@),
            Err(e) => e is Phrase && phrase_seed_of(phrase@) == Err::<Seq<u8>, Seq<char>>(
                e->Phrase_detail@,
            ),
        },
{
    match seed_of_phrase(phrase) {
        Ok(seed) => Ok(Seeded { seed }),
        Err(detail) => Err(WalletError::Phrase { detail }),
    }
}

/// An existing wallet of which the path is still to be found.
#[derive(Debug, PartialEq, Eq)]
pub struct Located {
    pub seed: [u8; 64],
    pub address: Address,
    pub ty: AddressType,
}

/// What reading an address text and detecting its type gives.
pub open spec fn located_as(text: Seq<char>, address: Address, ty: AddressType) -> bool {
    &&& mainnet_address_of(trimmed(text)) == Ok::<Seq<u8>, (bool, Seq<char>)>(
        address.script_pubkey@,
    )
    &&& address.wf()
    &&& AddressType::of_kind(address.kind) == Some(ty)
}

/// Why an address text cannot be used: it is no mainnet address, or its type is not supported.
pub open spec fn address_refused(text: Seq<char>, e: WalletError) -> bool {
    match e {
        WalletError::Address(why) => mainnet_address_of(trimmed(text)) == Err::<
            Seq<u8>,
            (bool, Seq<char>),
        >(why.fault()),
        WalletError::Unsupported => mainnet_address_of(trimmed(text)) is Ok
            && AddressType::of_kind(
            kind_of(mainnet_address_of(trimmed(text))->Ok_0),
        ) is None,
        _ => false,
    }
}

impl Seeded {
    /// Reads the address of the wallet, and detects its type.
    pub fn read_address(self, text: &str) -> (r: Result<Located, WalletError>)
        ensures
            match r {
                Ok(located) => {
                    &&& located.seed == self.seed
                    &&& located_as(text@, located.address, located.ty)
                },
                Err(e) => address_refused(text@, e),
            },
    {
        let address = match parse_address(text) {
            Ok(address) => address,
            Err(e) => {
                return Err(WalletError::Address(e));
            },
        };
        match AddressType::from_address(&address) {
            Some(ty) => Ok(Located { seed: self.seed, address, ty }),
            None => Err(WalletError::Unsupported),
        }
    }
}

/// What the search for a path gives.
#[derive(Debug, PartialEq, Eq)]
pub enum Recovery {
    /// The wallet, with its path.
    Found(Wallet),
    /// Nothing: a path is to be entered.
    NotFound(Located),
}

impl Located {
    /// Scans the first `SCAN_LIMIT` addresses for the wallet's own.
    pub fn recover(self) -> (r: Result<Recovery, WalletError>)
        requires
            self.address.wf(),
        ensures
            match r {
                Ok(Recovery::Found(wallet)) => {
                    &&& wallet.seed == self.seed
                    &&& scan_finds(
                        self.seed@,
                        self.ty,
                        self.address.script_pubkey@,
                        SCAN_LIMIT as int,
                        wallet.path@,
                    )
                    &&& wallet.pays_to(self.ty, self.address.script_pubkey@)
                },
                Ok(Recovery::NotFound(located)) => {
                    &&& located == self
                    &&& passes(self.seed@, self.ty, self.address.script_pubkey@, SCAN_LIMIT as int)
                },
                Err(e) => e is Derive && scan_stops(
                    self.seed@,
                    self.ty,
                    self.address.script_pubkey@,
                    SCAN_LIMIT as int,
                    e->Derive_0.fault(),
                ),
            },
    {
        match scan_for_path(&self.seed, self.ty, &self.address, SCAN_LIMIT) {
            Ok(Some(path)) => Ok(
                Recovery::Found(Wallet { seed: self.seed, path, address: self.address.text }),
            ),
            Ok(None) => Ok(Recovery::NotFound(self)),
            Err(e) => Err(WalletError::Derive(e)),
        }
    }

    /// Completes a wallet with a path that its user entered.
    pub fn enter_path(self, entered: &str) -> (r: Result<Wallet, EnteredPathError>)
        requires
            self.address.wf(),
        ensures
            match r {
                Ok(wallet) => {
                    &&& wallet.seed == self.seed
                    &&& path_of(entered@) == Some(wallet.path@)
                    &&& wallet.path@.len() <= MAX_DEPTH
                    &&& wallet.pays_to(self.ty, self.address.script_pubkey@)
                },
                Err(e) => path_refused(
                    self.seed@,
                    self.ty,
                    self.address.script_pubkey@,
                    entered@,
                    e,
                ),
            },
    {
        match entered_path(&self.seed, self.ty, &self.address, entered) {
            Ok(path) => Ok(Wallet { seed: self.seed, path, address: self.address.text }),
            Err(e) => Err(e),
        }
    }
}

/// An existing wallet from its mnemonic phrase and its address. The phrase is read first, then the
/// address, then its type is detected, and then its path is looked for.
pub fn existing_wallet(phrase: &str, address: &str) -> (r: Result<Recovery, WalletError>)
    ensures
        match r {
            Err(WalletError::Phrase { detail }) => phrase_seed_of(phrase@) == Err::<
                Seq<u8>,
                Seq<char>,
            >(detail@),
            Err(WalletError::Derive(e)) => {
                &&& phrase_seed_of(phrase@) is Ok
                &&& exists|a: Address, ty: AddressType|
                    {
                        &&& #[trigger] located_as(address@, a, ty)
                        &&& scan_stops(
                            phrase_seed_of(phrase@)->Ok_0,
                            ty,
                            a.script_pubkey@,
                            SCAN_LIMIT as int,
                            e.fault(),
                        )
                    }
            },
            Err(e) => phrase_seed_of(phrase@) is Ok && address_refused(address@, e),
            Ok(Recovery::Found(wallet)) => {
                &&& phrase_seed_of(phrase@) == Ok::<Seq<u8>, Seq<char>>(wallet.seed@)
                &&& exists|a: Address, ty: AddressType|
                    {
                        &&& #[trigger] located_as(address@, a, ty)
                        &&& scan_finds(
                            wallet.seed@,
                            ty,
                            a.script_pubkey@,
                            SCAN_LIMIT as int,
                            wallet.path@,
                        )
                        &&& wallet.pays_to(ty, a.script_pubkey@)
                    }
            },
            Ok(Recovery::NotFound(located)) => {
                &&& phrase_seed_of(phrase@) == Ok::<Seq<u8>, Seq<char>>(located.seed@)
                &&& located_as(address@, located.address, located.ty)
                &&& passes(
                    located.seed@,
                    located.ty,
                    located.address.script_pubkey@,
                    SCAN_LIMIT as int,
                )
            },
        },
{
    let seeded = match read_phrase(phrase) {
        Ok(seeded) => seeded,
        Err(e) => {
            return Err(e);
        },
    };
    let located = match seeded.read_address(address) {
        Ok(located) => located,
        Err(e) => {
            return Err(e);
        },
    };
    assert(located_as(address@, located.address, located.ty));
    located.recover()
}

/// A demo wallet: the seed from fresh entropy, and one of the first twenty receive addresses, picked
/// by a random draw.
pub fn demo_wallet(entropy: &[u8; 32], ty: AddressType, draw: u32) -> (r: Result<
    Wallet,
    WalletError,
>)
    ensures
        entropy_seed_of(entropy@) is Ok,
        ({
            let seed = entropy_seed_of(entropy@)->Ok_0;
            let path = bip44_indices(ty, 0, 0, draw as int % 20);
            let key = derived_key_of(seed, children_of(path));
            match r {
                Ok(wallet) => {
                    &&& wallet.seed@ == seed
                    &&& wallet.path@ == path
                    &&& key is Ok
                    &&& wallet.pays_to(ty, script_of(ty, hash160_of(key->Ok_0)))
                },
                Err(e) => e is Derive && key == Err::<Seq<u8>, (bool, Seq<char>)>(
                    e->Derive_0.fault(),
                ),
            }
        }),
{
    let seed = match seed_of_entropy(entropy) {
        Ok(seed) => seed,
        Err(detail) => {
            return Err(WalletError::Entropy { detail });
        },
    };
    let path = demo_path(ty, draw);
    match derive_compressed_pubkey(&seed, path.as_slice()) {
        Ok(pubkey) => {
            let address = address_for(ty, &pubkey);
            Ok(Wallet { seed, path, address: address.text })
        },
        Err(e) => Err(WalletError::Derive(e)),
    }
}

/// The type that a menu choice stands for.
pub fn menu_choice(line: &str) -> (r: Option<AddressType>)
    ensures
        r == if line@ == "1"@ {
            Some(AddressType::P2pkh)
        } else if line@ == "2"@ {
            Some(AddressType::P2wpkh)
        } else if line@ == "3"@ {
            Some(AddressType::P2shwpkh)
        } else {
            None
        },
{
    proof {
        reveal_strlit("1");
        reveal_strlit("2");
        reveal_strlit("3");
        assert("1"@ =~= seq!['1']);
        assert("2"@ =~= seq!['2']);
        assert("3"@ =~= seq!['3']);
    }
    if line.unicode_len() != 1 {
        return None;
    }
    let c: char = line.get_char(0);
    assert(line@ =~= seq![c]);
    assert(seq![c][0] == c && seq!['1'][0] == '1' && seq!['2'][0] == '2' && seq!['3'][0] == '3');
    if c == '1' {
        Some(AddressType::P2pkh)
    } else if c == '2' {
        Some(AddressType::P2wpkh)
    } else if c == '3' {
        Some(AddressType::P2shwpkh)
    } else {
        None
    }
}

/// The path of a demo wallet: one of the first twenty receive addresses, picked by a random draw.
pub fn demo_path(ty: AddressType, draw: u32) -> (path: Vec<u32>)
    ensures
        path@ == bip44_indices(ty, 0, 0, draw as int % 20),
{
    bip44_path(ty, 0, 0, draw % 20)
}

/// The name of the file that holds the proof for an address and a message: the address, and the
/// first eight hexadecimal digits of the message's SHA-256 hash.
pub fn signature_file_name(address: &str, message: &[u8]) -> (s: String)
    ensures
        s@ == "signature-"@ + address@ + "-"@ + hex_text(sha256_of(message@)).take(8) + ".bin"@,
{
    let digest = sha256(message);
    let digits = hex(digest.as_slice());
    proof {
        assert(digits@.len() == 64);
        assert(digits@.subrange(0, 8) =~= digits@.take(8));
    }
    let mut s = String::from_str("signature-");
    s.append(address);
    s.append("-");
    s.append(digits.as_str().substring_char(0, 8));
    s.append(".bin");
    s
}

/// Why an entered path cannot be used.
#[derive(Debug, PartialEq, Eq)]
pub enum EnteredPathError {
    /// It is no path.
    Path(PathError),
    /// It is deeper than what can be proved.
    TooDeep { depth: usize },
    /// There is no key at its end.
    Derive(DeriveError),
    /// Its key has another address.
    OtherAddress,
}

impl EnteredPathError {
    /// The error in words.
    pub fn message(&self) -> (s: String)
        ensures
            s@ == match *self {
                EnteredPathError::Path(e) => e.words(),
                EnteredPathError::TooDeep { depth } => "path depth "@ + decimal(depth as nat)
                    + " exceeds the circuit maximum of 5"@,
                EnteredPathError::Derive(e) => e.words(),
                EnteredPathError::OtherAddress =>
                    "the entered path does not derive the given address"@,
            },
    {
        match self {
            EnteredPathError::Path(e) => e.message(),
            EnteredPathError::TooDeep { depth } => {
                let mut s = String::from_str("path depth ");
                push_decimal(&mut s, *depth as u64);
                s.append(" exceeds the circuit maximum of 5");
                s
            },
            EnteredPathError::Derive(e) => e.message(),
            EnteredPathError::OtherAddress => String::from_str(
                "the entered path does not derive the given address",
            ),
        }
    }
}

/// Why an entered path cannot be used for an address of a given type that pays to `script`.
pub open spec fn path_refused(
    seed: Seq<u8>,
    ty: AddressType,
    script: Seq<u8>,
    entered: Seq<char>,
    e: EnteredPathError,
) -> bool {
    match e {
        EnteredPathError::Path(why) => {
            &&& path_of(entered) is None
            &&& first_fault(parts_of(path_body(entered)), why.fault())
        },
        EnteredPathError::TooDeep { depth } => {
            &&& path_of(entered) is Some
            &&& path_of(entered).unwrap().len() == depth
            &&& depth > MAX_DEPTH
        },
        EnteredPathError::Derive(why) => {
            &&& path_of(entered) is Some
            &&& path_of(entered).unwrap().len() <= MAX_DEPTH
            &&& derived_key_of(seed, children_of(path_of(entered).unwrap())) == Err::<
                Seq<u8>,
                (bool, Seq<char>),
            >(why.fault())
        },
        EnteredPathError::OtherAddress => {
            let key = derived_key_of(seed, children_of(path_of(entered).unwrap()));
            &&& path_of(entered) is Some
            &&& path_of(entered).unwrap().len() <= MAX_DEPTH
            &&& key is Ok
            &&& script_of(ty, hash160_of(key->Ok_0)) != script
        },
    }
}

/// Reads a path that a user entered for an address of a given type: it must be no deeper than
/// `MAX_DEPTH`, and its key must have that address.
pub fn entered_path(seed: &[u8; 64], ty: AddressType, address: &Address, entered: &str) -> (r:
    Result<Vec<u32>, EnteredPathError>)
    ensures
        match r {
            Ok(path) => {
                let key = derived_key_of(seed@, children_of(path@));
                &&& path_of(entered@) == Some(path@)
                &&& path@.len() <= MAX_DEPTH
                &&& key is Ok
                &&& script_of(ty, hash160_of(key->Ok_0)) == address.script_pubkey@
            },
            Err(e) => path_refused(seed@, ty, address.script_pubkey@, entered@, e),
        },
{
    let path = match parse_path(entered) {
        Ok(path) => path,
        Err(e) => {
            return Err(EnteredPathError::Path(e));
        },
    };
    if path.len() > MAX_DEPTH {
        return Err(EnteredPathError::TooDeep { depth: path.len() });
    }
    let pubkey = match derive_compressed_pubkey(seed, path.as_slice()) {
        Ok(pubkey) => pubkey,
        Err(e) => {
            return Err(EnteredPathError::Derive(e));
        },
    };
    let derived = address_for(ty, &pubkey);
    if same_bytes(&derived.script_pubkey, &address.script_pubkey) {
        Ok(path)
    } else {
        Err(EnteredPathError::OtherAddress)
    }
}

/// Why an entered path is refused: it is no path; it has more than five levels; no key can be derived
/// along it; or the key that is derived has another script. Each excludes the others.
pub proof fn law_path_refusals(
    seed: Seq<u8>,
    ty: AddressType,
    script: Seq<u8>,
    entered: Seq<char>,
    e: EnteredPathError,
)
    requires
        path_refused(seed, ty, script, entered, e),
    ensures
        e is Path <==> path_of(entered) is None,
        path_of(entered) is Some ==> {
            let path = path_of(entered).unwrap();
            let key = derived_key_of(seed, children_of(path));
            &&& e is TooDeep <==> path.len() >= 6
            &&& e is TooDeep ==> e->depth == path.len()
            &&& e is Derive <==> path.len() <= 5 && key is Err
            &&& e is OtherAddress <==> path.len() <= 5 && key is Ok
            &&& path.len() <= 5 && key is Ok ==> script_of(ty, hash160_of(key->Ok_0)) != script
        },
{
}

/// Why an address is refused: it is no mainnet address, or what it pays to is none of a public-key
/// hash, a witness public-key hash and a script hash.
pub proof fn law_address_refusals(text: Seq<char>, e: WalletError)
    requires
        address_refused(text, e),
    ensures
        e is Address <==> mainnet_address_of(trimmed(text)) is Err,
        e is Unsupported <==> mainnet_address_of(trimmed(text)) is Ok,
        e is Unsupported ==> {
            let kind = kind_of(mainnet_address_of(trimmed(text))->Ok_0);
            kind != ScriptKind::P2pkh && kind
                != ScriptKind::P2wpkh && kind
                != ScriptKind::P2sh
        },
{
}

/// What a wallet holds: a path along which its seed derives a key, and the text of the address that pays
/// to the script of that key's hash.
pub proof fn law_wallet_key(wallet: Wallet, ty: AddressType, script: Seq<u8>)
    requires
        wallet.pays_to(ty, script),
    ensures
        ({
            let key = derived_key_of(wallet.seed@, children_of(wallet.path@));
            let h = ripemd160_of(sha256_of(key->Ok_0));
            &&& key is Ok
            &&& ty == AddressType::P2pkh ==> script == seq![0x76u8, 0xa9, 20] + h + seq![0x88u8, 0xac]
            &&& ty == AddressType::P2wpkh ==> script == seq![0u8, 20] + h
            &&& wallet.address@ == mainnet_text_of(script)
        }),
{
}

/// An address that was located is the one that its trimmed text is read as, with the kind and the type of
/// its script.
pub proof fn law_located(text: Seq<char>, address: Address, ty: AddressType)
    requires
        located_as(text, address, ty),
    ensures
        mainnet_address_of(trimmed(text)) is Ok,
        mainnet_address_of(trimmed(text))->Ok_0 == address.script_pubkey@,
        address.text@ == mainnet_text_of(address.script_pubkey@),
        ty == AddressType::P2pkh ==> address.script_pubkey@.len() == 25,
        ty == AddressType::P2wpkh ==> address.script_pubkey@.len() == 22,
        ty == AddressType::P2shwpkh ==> address.script_pubkey@.len() == 23,
{
}

/// How far a scan reaches: an address that is one of the first 500 receive or the first 500 change
/// addresses of its seed is not passed over.
pub proof fn law_recovery_reaches(seed: Seq<u8>, ty: AddressType, change: int, index: int)
    requires
        change == 0 || change == 1,
        0 <= index < 500,
        derived_key_of(seed, children_of(bip44_indices(ty, 0, change, index))) is Ok,
    ensures
        ({
            let key = derived_key_of(seed, children_of(bip44_indices(ty, 0, change, index)))->Ok_0;
            !passes(seed, ty, script_of(ty, hash160_of(key)), SCAN_LIMIT as int)
        }),
{
    let key = derived_key_of(seed, children_of(bip44_indices(ty, 0, change, index)))->Ok_0;
    crate::bip32::address::law_scan_recovers(
        seed,
        ty,
        script_of(ty, hash160_of(key)),
        SCAN_LIMIT as int,
        change,
        index,
    );
}

/// And no farther: where every key of those addresses can be derived and none of them pays to a script,
/// the script is passed over.
pub proof fn law_recovery_ends(seed: Seq<u8>, ty: AddressType, script: Seq<u8>)
    requires
        forall|change: int, index: int|
            0 <= change < 2 && 0 <= index < 500 ==> {
                let key = derived_key_of(
                    seed,
                    children_of(#[trigger] bip44_indices(ty, 0, change, index)),
                );
                key is Ok && script_of(ty, hash160_of(key->Ok_0)) != script
            },
    ensures
        passes(seed, ty, script, SCAN_LIMIT as int),
{
    assert forall|n: int| 0 <= n < SCAN_LIMIT implies key_at(seed, ty, n) is Ok && !(
    #[trigger] matches_at(seed, ty, script, n)) by {
        crate::bip32::address::law_scan_order(ty, n % 2, n / 2, n);
        assert(candidate(ty, n) == bip44_indices(ty, 0, n % 2, n / 2));
    }
}

} // verus!
