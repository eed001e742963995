use bdk::bitcoin::secp256k1::Secp256k1;
use bdk::bitcoin::util::bip32::{DerivationPath, KeySource};
use bdk::blockchain::rpc::wallet_name_from_descriptor;
use bdk::keys::bip39::{Language, Mnemonic};
use bdk::keys::{DerivableKey, DescriptorKey};
use bdk::miniscript::Segwitv0;
use std::str::FromStr;
use wallet_core::descriptor::{
    branch_descriptor, branch_path, build, hardened_to_account, wallet_identity, DescriptorError,
    KeyOrigin,
};
use wallet_core::keys::{derive_private, ChildNumber};
use wallet_core::primitives::{Branch, Network};
use wallet_core::seed::from_mnemonic;
use wallet_core::wallet::get_descriptors;

const PHRASE: &str =
    "abandon abandon abandon abandon abandon abandon abandon abandon abandon abandon abandon about";

/// The descriptors as bdk writes them when it is called directly.
fn written_by_bdk(phrase: &str, password: &str, network: bdk::bitcoin::Network, paths: [&str; 2]) -> Vec<String> {
    let secp = Secp256k1::new();
    let mnemonic = Mnemonic::from_phrase(phrase, Language::English).unwrap();
    let xkey: bdk::keys::ExtendedKey<Segwitv0> =
        (mnemonic, Some(password.to_string())).into_extended_key().unwrap();
    let xprv = xkey.into_xprv(network).unwrap();
    let mut keys = Vec::new();
    for path in paths {
        let deriv_path = DerivationPath::from_str(path).unwrap();
        let derived_xprv = xprv.derive_priv(&secp, &deriv_path).unwrap();
        let origin: KeySource = (xprv.fingerprint(&secp), deriv_path);
        let desc_key: DescriptorKey<Segwitv0> =
            derived_xprv.into_descriptor_key(Some(origin), DerivationPath::default()).unwrap();
        if let DescriptorKey::Secret(key, _, _) = desc_key {
            let mut desc = "wpkh(".to_string();
            desc.push_str(&key.to_string());
            desc.push_str(")");
            keys.push(desc);
        }
    }
    keys
}

#[test]
fn descriptors_are_those_that_bdk_writes() {
    let expected = written_by_bdk(PHRASE, "random password", bdk::bitcoin::Network::Testnet, ["m/84h/1h/0h/0", "m/84h/1h/0h/1"]);
    let master = from_mnemonic(PHRASE, "random password", Network::Testnet).ok().unwrap();
    let receive = branch_descriptor(&master, 0, Branch::Receive).ok().unwrap();
    let change = branch_descriptor(&master, 0, Branch::Change).ok().unwrap();
    assert_eq!(receive.text(), expected[0]);
    assert_eq!(change.text(), expected[1]);
    assert!(receive.text().starts_with("wpkh([") && receive.text().ends_with("/*)"));
    assert!(receive.text().contains("/84'/1'/0'/0]tprv"));
    assert!(change.text().contains("/84'/1'/0'/1]tprv"));
    assert_eq!(receive.fingerprint(), master.fingerprint().unwrap());
    assert_eq!(receive.path(), &branch_path(false, 0, Branch::Receive));
    assert_eq!(receive.key().depth(), 4);
}

#[test]
fn descriptors_of_the_main_network() {
    let expected = written_by_bdk(PHRASE, "", bdk::bitcoin::Network::Bitcoin, ["m/84'/0'/2'/0", "m/84'/0'/2'/1"]);
    let master = from_mnemonic(PHRASE, "", Network::Bitcoin).ok().unwrap();
    let receive = branch_descriptor(&master, 2, Branch::Receive).ok().unwrap();
    let change = branch_descriptor(&master, 2, Branch::Change).ok().unwrap();
    assert_eq!(receive.text(), expected[0]);
    assert_eq!(change.text(), expected[1]);
    assert!(receive.text().starts_with("wpkh([73c5da0a/84'/0'/2'/0]xprv"));
}

#[test]
fn descriptors_are_stable() {
    let master = from_mnemonic(PHRASE, "x", Network::Testnet).ok().unwrap();
    let first = branch_descriptor(&master, 0, Branch::Receive).ok().unwrap();
    let again = from_mnemonic(PHRASE, "x", Network::Testnet).ok().unwrap();
    let second = branch_descriptor(&again, 0, Branch::Receive).ok().unwrap();
    assert_eq!(first.text(), second.text());
    let change = branch_descriptor(&master, 0, Branch::Change).ok().unwrap();
    assert_ne!(first.text(), change.text());
    let other_account = branch_descriptor(&master, 1, Branch::Receive).ok().unwrap();
    assert_ne!(first.text(), other_account.text());
}

#[test]
fn descriptors_differ_between_main_and_test_network() {
    let main = from_mnemonic(PHRASE, "", Network::Bitcoin).ok().unwrap();
    let test = from_mnemonic(PHRASE, "", Network::Testnet).ok().unwrap();
    let path = branch_path(false, 0, Branch::Receive);
    let origin = KeyOrigin { fingerprint: main.fingerprint().unwrap(), path: path.clone() };
    let on_main = build(&derive_private(&main, &path).ok().unwrap(), &origin).ok().unwrap();
    let on_test = build(&derive_private(&test, &path).ok().unwrap(), &origin).ok().unwrap();
    assert_ne!(on_main.text(), on_test.text());
    let regtest = from_mnemonic(PHRASE, "", Network::Regtest).ok().unwrap();
    let on_regtest = build(&derive_private(&regtest, &path).ok().unwrap(), &origin).ok().unwrap();
    assert_eq!(on_test.text(), on_regtest.text());
}

#[test]
fn public_descriptor_names_the_same_origin() {
    let master = from_mnemonic(PHRASE, "", Network::Testnet).ok().unwrap();
    let path = branch_path(false, 0, Branch::Receive);
    let key = derive_private(&master, &path).ok().unwrap();
    let origin = KeyOrigin { fingerprint: master.fingerprint().unwrap(), path };
    let secret = build(&key, &origin).ok().unwrap();
    let public = build(&key.to_public().ok().unwrap(), &origin).ok().unwrap();
    assert!(public.text().starts_with("wpkh([73c5da0a/84'/1'/0'/0]tpub"));
    assert!(secret.text().starts_with("wpkh([73c5da0a/84'/1'/0'/0]tprv"));
    let secp = Secp256k1::new();
    let a = wallet_name_from_descriptor(secret.text(), None, bdk::bitcoin::Network::Testnet, &secp).unwrap();
    let b = wallet_name_from_descriptor(public.text(), None, bdk::bitcoin::Network::Testnet, &secp).unwrap();
    assert_eq!(a, b);
}

#[test]
fn origin_out_of_range_is_an_invalid_path() {
    let master = from_mnemonic(PHRASE, "", Network::Testnet).ok().unwrap();
    let origin = KeyOrigin {
        fingerprint: [1, 2, 3, 4],
        path: vec![ChildNumber { index: 0x8000_0000, hardened: true }],
    };
    assert_eq!(build(&master, &origin).err(), Some(DescriptorError::InvalidPath));
    let fine = KeyOrigin { fingerprint: [1, 2, 3, 4], path: vec![] };
    assert!(build(&master, &fine).ok().unwrap().text().starts_with("wpkh([01020304]tprv"));
}

#[test]
fn public_master_has_no_account() {
    let master = from_mnemonic(PHRASE, "", Network::Testnet).ok().unwrap();
    let public = master.to_public().ok().unwrap();
    assert_eq!(branch_descriptor(&public, 0, Branch::Receive).err(), Some(DescriptorError::InvalidPath));
    assert_eq!(
        branch_descriptor(&master, 0x8000_0000, Branch::Receive).err(),
        Some(DescriptorError::DerivationOverflow)
    );
}

#[test]
fn branch_paths_differ_in_one_step() {
    let receive = branch_path(true, 3, Branch::Receive);
    let change = branch_path(true, 3, Branch::Change);
    assert_eq!(receive.len(), 4);
    assert_eq!(receive[..3], change[..3]);
    assert_ne!(receive[3], change[3]);
    assert_eq!(receive[0], ChildNumber { index: 84, hardened: true });
    assert_eq!(receive[1], ChildNumber { index: 0, hardened: true });
    assert_eq!(branch_path(false, 3, Branch::Receive)[1], ChildNumber { index: 1, hardened: true });
    assert_eq!(receive[2], ChildNumber { index: 3, hardened: true });
    assert!(hardened_to_account(&receive));
    assert!(hardened_to_account(&change));
    assert!(hardened_to_account(&receive[..3].to_vec()));
    assert!(!hardened_to_account(&receive[..2].to_vec()));
    let mut soft = receive.clone();
    soft[1].hardened = false;
    assert!(!hardened_to_account(&soft));
    let mut hard = receive.clone();
    hard[3].hardened = true;
    assert!(!hardened_to_account(&hard));
}

#[test]
fn wallet_identity_is_the_bdk_name_with_the_network() {
    let master = from_mnemonic(PHRASE, "", Network::Testnet).ok().unwrap();
    let receive = branch_descriptor(&master, 0, Branch::Receive).ok().unwrap();
    let change = branch_descriptor(&master, 0, Branch::Change).ok().unwrap();
    let id = wallet_identity(&receive, &change, Network::Testnet).ok().unwrap();
    let expected = wallet_name_from_descriptor(
        receive.text(),
        Some(change.text()),
        bdk::bitcoin::Network::Testnet,
        &Secp256k1::new(),
    ).unwrap();
    assert_eq!(id.name, expected);
    assert_eq!(id.name.len(), 16);
    assert_eq!(id.network, Network::Testnet);
    let again = wallet_identity(&receive, &change, Network::Testnet).ok().unwrap();
    assert!(id.same_as(&again));
    let on_regtest = wallet_identity(&receive, &change, Network::Regtest).ok().unwrap();
    assert_eq!(on_regtest.name, id.name);
    assert!(!id.same_as(&on_regtest));
    let swapped = wallet_identity(&change, &receive, Network::Testnet).ok().unwrap();
    assert!(!id.same_as(&swapped));
    assert_eq!(
        wallet_identity(&receive, &change, Network::Bitcoin).err(),
        Some(DescriptorError::WrongNetwork)
    );
}

#[test]
fn fresh_descriptors_are_a_pair_for_the_test_network() {
    let (receive, change) = get_descriptors().ok().unwrap();
    assert!(receive.starts_with("wpkh([") && receive.ends_with("/*)"));
    assert!(receive.contains("/84'/1'/0'/0]tprv"));
    assert!(change.contains("/84'/1'/0'/1]tprv"));
    assert_eq!(receive[..14], change[..14]);
    let (other, _) = get_descriptors().ok().unwrap();
    assert_ne!(receive, other);
    let secp = Secp256k1::new();
    assert!(wallet_name_from_descriptor(receive.as_str(), Some(change.as_str()), bdk::bitcoin::Network::Testnet, &secp).is_ok());
}

#[test]
fn a_key_that_is_no_key_has_no_descriptor() {
    let mut data = vec![0u8; 78];
    data[..4].copy_from_slice(&[0x04, 0x35, 0x83, 0x94]);
    let unusable = wallet_core::keys::ExtendedKey::from_master_data(data).unwrap();
    let origin = KeyOrigin { fingerprint: [0; 4], path: vec![] };
    assert_eq!(build(&unusable, &origin).err(), Some(DescriptorError::KeyRejected));
    assert_eq!(branch_descriptor(&unusable, 0, Branch::Receive).err(), Some(DescriptorError::KeyRejected));
}
