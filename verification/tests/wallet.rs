//! Paths, keys, addresses and proof files.

use bip39::Mnemonic;
use recursion_discharge::bip32::address::{
    address_for, bind_address_to_hash, bip44_path, hash160_from_sha256, parse_address,
    scan_for_path, script_pubkey_for, AddressType, BindError,
};
use recursion_discharge::bip32::keys::{
    derive_compressed_pubkey, pubkey_sha256, CompressedPublicKey, DeriveError,
};
use recursion_discharge::bip32::path::{
    child_number, format_path, harden, parse_number, parse_path, ChildNumber, NumberError,
    PathError, HARDENED_BIT,
};
use recursion_discharge::bip32::proof_file::{ProofFile, ProofFileError};
use recursion_discharge::bip32::scripts::{AddressError, ScriptKind};
use recursion_discharge::bip32::wallet::{
    check_message, confirmed, demo_path, demo_wallet, entered_path, existing_wallet, menu_choice,
    read_phrase, signature_file_name, EnteredPathError, Recovery, WalletError, CONFIRMATION,
    SCAN_LIMIT,
};
use recursion_discharge::text::{hex, trim};

fn test_seed() -> [u8; 64] {
    // A fixed mnemonic -> seed, so the test is deterministic and offline.
    let mnemonic = Mnemonic::parse_normalized(
        "abandon abandon abandon abandon abandon abandon abandon abandon \
         abandon abandon abandon about",
    )
    .unwrap();
    mnemonic.to_seed("")
}

#[test]
fn address_binding_round_trips_for_each_type() {
    let seed = test_seed();
    for ty in AddressType::ALL {
        let path = bip44_path(ty, 0, 0, 0);
        let pubkey = derive_compressed_pubkey(&seed, &path).unwrap();
        let address = address_for(ty, &pubkey);
        let sha256 = pubkey_sha256(&pubkey);
        let detected = bind_address_to_hash(&address, &sha256).unwrap();
        assert_eq!(detected, ty);
    }
}

#[test]
fn binding_rejects_wrong_hash() {
    let seed = test_seed();
    let path = bip44_path(AddressType::P2pkh, 0, 0, 0);
    let pubkey = derive_compressed_pubkey(&seed, &path).unwrap();
    let address = address_for(AddressType::P2pkh, &pubkey);
    let mut wrong = pubkey_sha256(&pubkey);
    wrong[0] ^= 0xff;
    assert!(bind_address_to_hash(&address, &wrong).is_err());
}

#[test]
fn scan_recovers_known_path() {
    let seed = test_seed();
    let ty = AddressType::P2wpkh;
    let path = bip44_path(ty, 0, 1, 7);
    let pubkey = derive_compressed_pubkey(&seed, &path).unwrap();
    let address = address_for(ty, &pubkey);
    let found = scan_for_path(&seed, ty, &address, 1000).unwrap();
    assert_eq!(found, Some(path));
}

#[test]
fn path_string_round_trip() {
    let path = bip44_path(AddressType::P2pkh, 3, 1, 9);
    assert_eq!(format_path(&path), "m/44'/0'/3'/1/9");
    assert_eq!(parse_path("m/44'/0'/3'/1/9").unwrap(), path);
    assert_eq!(parse_path("44h/0h/3h/1/9").unwrap(), path);
}

#[test]
fn round_trip() {
    let file = ProofFile {
        pubkey_sha256: [7u8; 32],
        proof: vec![1, 2, 3, 4, 5],
    };
    let parsed = ProofFile::from_bytes(&file.to_bytes()).unwrap();
    assert_eq!(parsed.pubkey_sha256, file.pubkey_sha256);
    assert_eq!(parsed.proof, file.proof);
}

#[test]
fn rejects_short_input() {
    assert!(ProofFile::from_bytes(&[0u8; 16]).is_err());
}

#[test]
fn proof_file_layout_and_error_words() {
    let file = ProofFile { pubkey_sha256: [9u8; 32], proof: vec![] };
    assert_eq!(file.to_bytes(), vec![9u8; 32]);
    let err = ProofFile::from_bytes(&[0u8; 31]).unwrap_err();
    assert_eq!(err, ProofFileError::TooShort { len: 31 });
    assert_eq!(err.message(), "proof file too short: 31 bytes (need at least 32)");
    let bytes: Vec<u8> = (0..40).collect();
    assert_eq!(ProofFile::from_bytes(&bytes).unwrap().to_bytes(), bytes);
}

#[test]
fn purposes_and_labels() {
    assert_eq!(AddressType::P2pkh.purpose(), 44);
    assert_eq!(AddressType::P2wpkh.purpose(), 84);
    assert_eq!(AddressType::P2shwpkh.purpose(), 49);
    assert_eq!(AddressType::P2pkh.label(), "P2PKH (legacy, 1...)");
    assert_eq!(AddressType::P2wpkh.label(), "P2WPKH (native SegWit, bc1q...)");
    assert_eq!(AddressType::P2shwpkh.label(), "P2SH-P2WPKH (nested SegWit, 3...)");
    assert_eq!(
        bip44_path(AddressType::P2wpkh, 0x8000_0001, 1, 5),
        vec![84 | HARDENED_BIT, HARDENED_BIT, 0x8000_0001, 1, 5]
    );
}

#[test]
fn known_addresses_of_the_test_mnemonic() {
    let seed = test_seed();
    let expected = [
        (AddressType::P2pkh, "1LqBGSKuX5yYUonjxT5qGfpUsXKYYWeabA"),
        (AddressType::P2wpkh, "bc1qcr8te4kr609gcawutmrza0j4xv80jy8z306fyu"),
        (AddressType::P2shwpkh, "37VucYSaXLCAsxYyAPfbSi9eh4iEcbShgf"),
    ];
    for (ty, text) in expected {
        let pubkey = derive_compressed_pubkey(&seed, &bip44_path(ty, 0, 0, 0)).unwrap();
        let address = address_for(ty, &pubkey);
        assert_eq!(address.text, text);
        let parsed = parse_address(&format!("  {text}\n")).unwrap();
        assert_eq!(parsed, address);
        assert_eq!(AddressType::from_address(&parsed), Some(ty));
        let hash160 = hash160_from_sha256(&pubkey_sha256(&pubkey));
        assert_eq!(script_pubkey_for(ty, &hash160), address.script_pubkey);
    }
}

#[test]
fn scripts_have_their_standard_bytes() {
    let hash = [0x11u8; 20];
    let p2pkh = script_pubkey_for(AddressType::P2pkh, &hash);
    assert_eq!(p2pkh[..3], [0x76, 0xa9, 0x14]);
    assert_eq!(p2pkh[3..23], hash);
    assert_eq!(p2pkh[23..], [0x88, 0xac]);
    let p2wpkh = script_pubkey_for(AddressType::P2wpkh, &hash);
    assert_eq!(p2wpkh[..2], [0x00, 0x14]);
    assert_eq!(p2wpkh[2..], hash);
    let nested = script_pubkey_for(AddressType::P2shwpkh, &hash);
    assert_eq!(nested.len(), 23);
    assert_eq!(nested[..2], [0xa9, 0x14]);
    assert_eq!(nested[22], 0x87);
    // RIPEMD-160 of the empty SHA-256 digest's bytes is no fixed point.
    assert_ne!(hash160_from_sha256(&[0u8; 32])[..], [0u8; 20]);
}

#[test]
fn unsupported_addresses_do_not_bind() {
    // Taproot.
    let taproot =
        parse_address("bc1p5cyxnuxmeuwuvkwfem96lqzszd02n6xdcjrs20cac6yqjjwudpxqkedrcr").unwrap();
    assert_eq!(taproot.kind, ScriptKind::P2tr);
    assert_eq!(AddressType::from_address(&taproot), None);
    let err = bind_address_to_hash(&taproot, &[0u8; 32]).unwrap_err();
    assert_eq!(err, BindError::Unsupported);
    assert_eq!(
        err.message(),
        "unsupported address type (only P2PKH, P2WPKH and P2SH-P2WPKH are supported)"
    );
    let p2pkh = parse_address("1LqBGSKuX5yYUonjxT5qGfpUsXKYYWeabA").unwrap();
    let err = bind_address_to_hash(&p2pkh, &[0u8; 32]).unwrap_err();
    assert_eq!(err, BindError::Mismatch);
    assert_eq!(err.message(), "proof does not match this address (public-key hash mismatch)");
}

#[test]
fn address_texts_that_are_refused() {
    let err = parse_address("no address").unwrap_err();
    assert!(matches!(err, AddressError::Invalid { .. }));
    assert!(err.message().starts_with("invalid Bitcoin address: "));
    // A testnet address.
    let err = parse_address("tb1qw508d6qejxtdg4y5r3zarvary0c5xw7kxpjzsx").unwrap_err();
    assert!(matches!(err, AddressError::WrongNetwork { .. }));
    assert!(err.message().starts_with("address is not a Bitcoin mainnet address: "));
}

#[test]
fn paths_that_are_read_and_refused() {
    assert_eq!(parse_path("").unwrap(), Vec::<u32>::new());
    assert_eq!(parse_path(" m ").unwrap(), Vec::<u32>::new());
    assert_eq!(parse_path("m/").unwrap(), Vec::<u32>::new());
    assert_eq!(parse_path("m/m/mm7").unwrap(), vec![7]);
    assert_eq!(parse_path("\u{2003}1H / +2\u{a0}").unwrap(), vec![1 | HARDENED_BIT, 2]);
    let err = parse_path("44'//0").unwrap_err();
    assert_eq!(err, PathError::Invalid { part: String::new(), reason: NumberError::Empty });
    assert_eq!(err.message(), "invalid path element '': cannot parse integer from empty string");
    let err = parse_path("1/x'/9999999999").unwrap_err();
    assert_eq!(err.message(), "invalid path element 'x'': invalid digit found in string");
    let err = parse_path("9999999999").unwrap_err();
    assert_eq!(
        err.message(),
        "invalid path element '9999999999': number too large to fit in target type"
    );
    let err = parse_path("2147483648").unwrap_err();
    assert_eq!(err, PathError::OutOfRange { index: 0x8000_0000 });
    assert_eq!(err.message(), "path element 2147483648 out of range (must be < 2^31)");
    assert_eq!(parse_path("2147483647'").unwrap(), vec![u32::MAX]);
}

#[test]
fn prefix_and_marks_do_not_matter() {
    for s in ["44'/0'/0'/0/5", "", "m", "m/1'", "mm7", "1 / 2'", "4'4", "'", "+'/1", "1//2'", "x'"] {
        let marked = |c: &str| format!("m/{}", s.replace('\'', c));
        for c in ["'", "h", "H"] {
            assert_eq!(parse_path(&marked(c)).ok(), parse_path(s).ok());
        }
    }
    assert_eq!(
        parse_path("m/44h/0H/0'/0/5").unwrap(),
        vec![44 | HARDENED_BIT, HARDENED_BIT, HARDENED_BIT, 0, 5]
    );
    // White space before the prefix of a text is no part of a prefix inside it.
    assert_eq!(parse_path(" m/1").unwrap(), vec![1]);
    assert!(parse_path("m/ m/1").is_err());
}

#[test]
fn numbers_agree_with_the_standard_parser() {
    for text in ["", "+", "-", "+1", "-1", "0", "007", "4294967295", "4294967296", "12a", "\u{0661}"]
    {
        let expected: Result<u32, _> = text.parse();
        assert_eq!(parse_number(text).ok(), expected.as_ref().ok().copied(), "{text}");
        if let Err(e) = expected {
            assert_eq!(parse_number(text).unwrap_err().message(), e.to_string(), "{text}");
        }
    }
}

#[test]
fn path_texts_round_trip() {
    let paths: [&[u32]; 5] =
        [&[], &[0], &[u32::MAX, 0, 0x8000_0000], &[1, 2, 3, 4, 5], &[0x7fff_ffff]];
    for path in paths {
        assert_eq!(parse_path(&format_path(path)).unwrap(), path);
    }
    assert_eq!(format_path(&[]), "m");
}

#[test]
fn child_numbers() {
    assert_eq!(child_number(5), ChildNumber::Normal { index: 5 });
    assert_eq!(child_number(harden(5)), ChildNumber::Hardened { index: 5 });
}

#[test]
fn derivation_fails_on_deep_paths_only() {
    let seed = test_seed();
    assert!(derive_compressed_pubkey(&seed, &[0; 255]).is_ok());
    let err = derive_compressed_pubkey(&seed, &[0; 256]).unwrap_err();
    assert!(matches!(err, DeriveError::Derivation { .. }));
    assert!(err.message().starts_with("derivation failed: "));
    let err = DeriveError::Master { detail: String::from("x") };
    assert_eq!(err.message(), "master key: x");
}

#[test]
fn public_keys_are_points() {
    assert!(CompressedPublicKey::from_bytes([0; 33]).is_none());
    let seed = test_seed();
    let key = derive_compressed_pubkey(&seed, &[0]).unwrap();
    let again = CompressedPublicKey::from_bytes(key.to_bytes()).unwrap();
    assert_eq!(again.to_bytes(), key.to_bytes());
}

#[test]
fn scan_gives_up_at_its_limit() {
    let seed = test_seed();
    let ty = AddressType::P2wpkh;
    let pubkey = derive_compressed_pubkey(&seed, &bip44_path(ty, 0, 1, 2)).unwrap();
    let address = address_for(ty, &pubkey);
    // Position 5: the chains vary first.
    assert_eq!(scan_for_path(&seed, ty, &address, 5).unwrap(), None);
    assert_eq!(scan_for_path(&seed, ty, &address, 6).unwrap(), Some(bip44_path(ty, 0, 1, 2)));
    assert_eq!(scan_for_path(&seed, ty, &address, 0).unwrap(), None);
}

#[test]
fn entered_paths() {
    let seed = test_seed();
    let ty = AddressType::P2pkh;
    let path = bip44_path(ty, 2, 0, 3);
    let address = address_for(ty, &derive_compressed_pubkey(&seed, &path).unwrap());
    assert_eq!(entered_path(&seed, ty, &address, "44'/0'/2'/0/3").unwrap(), path);
    let err = entered_path(&seed, ty, &address, "44'/0'/2'/0/4").unwrap_err();
    assert_eq!(err, EnteredPathError::OtherAddress);
    assert_eq!(err.message(), "the entered path does not derive the given address");
    let err = entered_path(&seed, ty, &address, "1/2/3/4/5/6").unwrap_err();
    assert_eq!(err.message(), "path depth 6 exceeds the circuit maximum of 5");
    let err = entered_path(&seed, ty, &address, "1/").unwrap_err();
    assert!(matches!(err, EnteredPathError::Path(_)));
    assert_eq!(err.message(), "invalid path element '': cannot parse integer from empty string");
}

#[test]
fn menu_and_demo_path() {
    assert_eq!(menu_choice("1"), Some(AddressType::P2pkh));
    assert_eq!(menu_choice("2"), Some(AddressType::P2wpkh));
    assert_eq!(menu_choice("3"), Some(AddressType::P2shwpkh));
    assert_eq!(menu_choice("4"), None);
    assert_eq!(menu_choice("11"), None);
    assert_eq!(demo_path(AddressType::P2wpkh, 47), bip44_path(AddressType::P2wpkh, 0, 0, 7));
}

#[test]
fn file_names_hold_the_message_digest() {
    // SHA-256("abc") starts with ba7816bf.
    assert_eq!(signature_file_name("addr", b"abc"), "signature-addr-ba7816bf.bin");
}

#[test]
fn hex_and_trim() {
    assert_eq!(hex(&[0x00, 0x9f, 0xa0, 0xff]), "009fa0ff");
    assert_eq!(trim("\u{feff} x y\t\u{3000}"), "\u{feff} x y");
    assert_eq!(trim(" \n "), "");
}

const PHRASE: &str = "abandon abandon abandon abandon abandon abandon abandon abandon abandon \
                      abandon abandon about";

#[test]
fn phrases_give_their_seeds() {
    let seeded = read_phrase(PHRASE).unwrap();
    assert_eq!(seeded.seed, test_seed());
    assert_eq!(
        hex(&seeded.seed),
        "5eb00bbddcf069084889a8ab9155568165f5c453ccb85e70811aaed6f6da5fc1\
         9a5ac40b389cd370d086206dec8aa6c43daea6690f20ad3d8d48b2d2ce9e38e4"
    );
    let err = read_phrase("abandon about").unwrap_err();
    assert_eq!(
        err.message(),
        "invalid BIP39 mnemonic: mnemonic has an invalid word count: 2. Word count must be 12, \
         15, 18, 21, or 24"
    );
    let swapped = PHRASE.replace("about", "zoo");
    assert_eq!(
        read_phrase(&swapped).unwrap_err().message(),
        "invalid BIP39 mnemonic: the mnemonic has an invalid checksum"
    );
}

#[test]
fn existing_wallets_are_recovered() {
    let seed = test_seed();
    for ty in AddressType::ALL {
        let path = bip44_path(ty, 0, 1, 4);
        let address = address_for(ty, &derive_compressed_pubkey(&seed, &path).unwrap());
        match existing_wallet(PHRASE, &format!(" {} ", address.text)).unwrap() {
            Recovery::Found(wallet) => {
                assert_eq!(wallet.seed, seed);
                assert_eq!(wallet.path, path);
                assert_eq!(wallet.address, address.text);
                let key = derive_compressed_pubkey(&wallet.seed, &wallet.path).unwrap();
                let own = parse_address(&wallet.address).unwrap();
                assert_eq!(bind_address_to_hash(&own, &pubkey_sha256(&key)), Ok(ty));
            }
            Recovery::NotFound(_) => panic!("the path is among the first {SCAN_LIMIT}"),
        }
    }
}

#[test]
fn existing_wallets_beyond_the_scan_need_a_path() {
    let seed = test_seed();
    let ty = AddressType::P2wpkh;
    let path = bip44_path(ty, 3, 0, 0);
    let address = address_for(ty, &derive_compressed_pubkey(&seed, &path).unwrap());
    let located = match existing_wallet(PHRASE, &address.text).unwrap() {
        Recovery::NotFound(located) => located,
        Recovery::Found(_) => panic!("the scan stays in the first account"),
    };
    let wallet = located.enter_path("m/84'/0'/3'/0/0").unwrap();
    assert_eq!((wallet.seed, wallet.path), (seed, path));
    assert_eq!(wallet.address, address.text);
    let located = read_phrase(PHRASE).unwrap().read_address(&address.text).unwrap();
    assert_eq!(
        located.enter_path("84'/0'/3'/0/1").unwrap_err(),
        EnteredPathError::OtherAddress
    );
}

#[test]
fn existing_wallets_are_refused_in_order() {
    // A bad phrase comes before a bad address.
    let err = existing_wallet("abandon", "nonsense").unwrap_err();
    assert!(matches!(err, WalletError::Phrase { .. }));
    let err = existing_wallet(PHRASE, "nonsense").unwrap_err();
    assert!(matches!(err, WalletError::Address(AddressError::Invalid { .. })));
    assert!(err.message().starts_with("invalid Bitcoin address: "));
    let err = existing_wallet(PHRASE, "tb1qw508d6qejxtdg4y5r3zarvary0c5xw7kxpjzsx").unwrap_err();
    assert!(matches!(err, WalletError::Address(AddressError::WrongNetwork { .. })));
    let taproot = "bc1p5cyxnuxmeuwuvkwfem96lqzszd02n6xdcjrs20cac6yqjjwudpxqkedrcr";
    let err = existing_wallet(PHRASE, taproot).unwrap_err();
    assert_eq!(err, WalletError::Unsupported);
    assert_eq!(
        err.message(),
        "unsupported address type (only P2PKH, P2WPKH and P2SH-P2WPKH are supported)"
    );
}

#[test]
fn demo_wallets_come_from_their_entropy() {
    let ty = AddressType::P2wpkh;
    let wallet = demo_wallet(&[0; 32], ty, 47).unwrap();
    // Zero entropy stands for this phrase.
    let phrase = format!("{}art", "abandon ".repeat(23));
    assert_eq!(wallet.seed, read_phrase(&phrase).unwrap().seed);
    assert_eq!(wallet.path, bip44_path(ty, 0, 0, 7));
    let key = derive_compressed_pubkey(&wallet.seed, &wallet.path).unwrap();
    assert_eq!(wallet.address, address_for(ty, &key).text);
    assert_ne!(wallet.seed, demo_wallet(&[1; 32], ty, 47).unwrap().seed);
}

#[test]
fn confirmation_and_message() {
    assert!(confirmed("I confirm this wallet seed protects no value"));
    assert!(confirmed(CONFIRMATION));
    assert!(!confirmed("I confirm this wallet seed protects no value."));
    assert!(!confirmed("i confirm this wallet seed protects no value"));
    assert!(!confirmed(""));
    assert_eq!(
        WalletError::NotConfirmed.message(),
        "confirmation phrase not entered; aborting"
    );
    let why = || "why".to_string();
    assert_eq!(
        WalletError::Entropy { detail: why() }.message(),
        "failed to generate mnemonic: why"
    );
    let deep = derive_compressed_pubkey(&test_seed(), &vec![0; 300]).unwrap_err();
    let words = deep.message();
    assert_eq!(WalletError::Derive(deep).message(), words);
    assert_eq!(check_message("x"), Ok(()));
    assert_eq!(check_message("").unwrap_err().message(), "message must not be empty");
}
