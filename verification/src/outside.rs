//! The calls that this library makes into the cryptographic code it builds
//! on. Nothing here is proved: each function states what the called code is
//! taken to do, and the rest of the library is proved from these statements.
//!
//! Extended keys cross this boundary in their 78-byte serialization, and
//! everything else as bytes or text.

use crate::primitives::Network;
use bdk::bitcoin::secp256k1::Secp256k1;
use bdk::bitcoin::util::bip32;
use bdk::keys::bip39;
use bdk::keys::DescriptorKey;
use bdk::miniscript::Segwitv0;
use bdk::keys::{DerivableKey, GeneratableKey};
use std::str::FromStr;
use vstd::prelude::*;

verus! {

/// The entropy that an English mnemonic phrase encodes; `None` for a phrase
/// that is no valid mnemonic.
pub uninterp spec fn spec_mnemonic_entropy(phrase: Seq<char>) -> Option<Seq<u8>>;

/// The serialized master private key of a mnemonic phrase and a passphrase,
/// for the main network or for the test networks.
pub uninterp spec fn spec_master_key(phrase: Seq<char>, passphrase: Seq<char>, mainnet: bool)
    -> Option<Seq<u8>>;

/// The serialized private child of a serialized extended private key, at a
/// child number whose top bit asks for a hardened child.
pub uninterp spec fn spec_ckd_priv(parent: Seq<u8>, number: u32) -> Option<Seq<u8>>;

/// The serialized public child of a serialized extended public key.
pub uninterp spec fn spec_ckd_pub(parent: Seq<u8>, number: u32) -> Option<Seq<u8>>;

/// The serialized extended public key of a serialized extended private key.
pub uninterp spec fn spec_neuter(key: Seq<u8>) -> Option<Seq<u8>>;

/// RIPEMD-160 of SHA-256 of the bytes.
pub uninterp spec fn spec_hash160(data: Seq<u8>) -> Seq<u8>;

/// The text of a private descriptor key: an extended private key with the
/// fingerprint and path of its origin in front and a wildcard for its
/// children behind.
pub uninterp spec fn spec_secret_key_text(key: Seq<u8>, fingerprint: Seq<u8>, path: Seq<u32>)
    -> Option<Seq<char>>;

/// The text of a public descriptor key, made like that of a private one.
pub uninterp spec fn spec_public_key_text(key: Seq<u8>, fingerprint: Seq<u8>, path: Seq<u32>)
    -> Option<Seq<char>>;

/// The name under which a wallet with these two descriptors is stored.
pub uninterp spec fn spec_wallet_name(receive: Seq<char>, change: Seq<char>, network: u8)
    -> Option<Seq<char>>;

/// The locking script that an address stands for.
pub uninterp spec fn spec_address_script(address: Seq<char>) -> Option<Seq<u8>>;

/// The witness-pubkey-hash address of a serialized public key.
pub uninterp spec fn spec_p2wpkh_address(public_key: Seq<u8>, network: u8) -> Option<Seq<char>>;

/// SHA-256 of SHA-256 of the bytes.
pub uninterp spec fn spec_sha256d(data: Seq<u8>) -> Seq<u8>;

/// The signature, in DER, that a secret key makes over a digest, with the
/// nonce that the key and the digest determine.
pub uninterp spec fn spec_ecdsa_sign(secret: Seq<u8>, digest: Seq<u8>) -> Option<Seq<u8>>;

/// Whether a signature in DER is one of the public key over the digest.
pub uninterp spec fn spec_ecdsa_verifies(public_key: Seq<u8>, digest: Seq<u8>, signature: Seq<u8>)
    -> bool;

/// The child numbers of a derivation path written as text; `None` for text
/// that is no path.
pub uninterp spec fn spec_parse_path(text: Seq<char>) -> Option<Seq<u32>>;

/// The version bytes of a serialized extended private key.
pub open spec fn private_version(mainnet: bool) -> Seq<u8> {
    if mainnet {
        seq![0x04u8, 0x88u8, 0xADu8, 0xE4u8]
    } else {
        seq![0x04u8, 0x35u8, 0x83u8, 0x94u8]
    }
}

/// The version bytes of a serialized extended public key.
pub open spec fn public_version(mainnet: bool) -> Seq<u8> {
    if mainnet {
        seq![0x04u8, 0x88u8, 0xB2u8, 0x1Eu8]
    } else {
        seq![0x04u8, 0x35u8, 0x87u8, 0xCFu8]
    }
}

/// Draws fresh entropy and returns its English mnemonic phrase.
///
/// Calls `bdk::keys::GeneratableKey::generate` for `bip39::Mnemonic`. The
/// phrase depends on chance. Claimed of every outcome: a phrase comes back
/// exactly for the five entropy sizes that a mnemonic can have, and it is a
/// valid mnemonic of entropy of the size asked for.
#[verifier::external_body]
pub(crate) fn generate_phrase(entropy_bits: usize) -> (r: Option<String>)
    ensures
        r is Some <==> (entropy_bits == 128 || entropy_bits == 160 || entropy_bits == 192
            || entropy_bits == 224 || entropy_bits == 256),
        r matches Some(p) ==> (spec_mnemonic_entropy(p@) matches Some(e) && e.len() * 8
            == entropy_bits),
{
    let kind = bip39::MnemonicType::for_key_size(entropy_bits).ok()?;
    let options = (kind, bip39::Language::English);
    let key: bdk::keys::GeneratedKey<bip39::Mnemonic, Segwitv0> =
        bip39::Mnemonic::generate(options).ok()?;
    Some(key.into_key().into_phrase())
}

/// Reads an English mnemonic phrase and returns the entropy it encodes.
///
/// Calls `bip39::Mnemonic::from_phrase`, which refuses a word that is not
/// in the word list, a number of words other than 12, 15, 18, 21 or 24, and
/// a wrong checksum. Claimed: the result is a function of the phrase, and
/// the entropy is 16, 20, 24, 28 or 32 bytes long.
#[verifier::external_body]
pub(crate) fn mnemonic_entropy(phrase: &str) -> (r: Option<Vec<u8>>)
    ensures
        match r {
            Some(e) => spec_mnemonic_entropy(phrase@) == Some(e@),
            None => spec_mnemonic_entropy(phrase@) is None,
        },
        r matches Some(e) ==> (e@.len() == 16 || e@.len() == 20 || e@.len() == 24 || e@.len()
            == 28 || e@.len() == 32),
{
    let parsed = bip39::Mnemonic::from_phrase(
        phrase,
        bip39::Language::English,
    );
    parsed.ok().map(|m| m.entropy().to_vec())
}

/// Stretches a mnemonic phrase and a passphrase into the master extended
/// private key and returns its serialization.
///
/// Calls `bdk::keys::DerivableKey::into_extended_key` on the mnemonic with
/// its passphrase and `bdk::keys::ExtendedKey::into_xprv`. Claimed: the
/// result is a function of the arguments; a key that comes back is 78 bytes
/// long, carries the private version bytes of its network, and has depth
/// zero.
#[verifier::external_body]
pub(crate) fn master_key(phrase: &str, passphrase: &str, network: Network) -> (r: Option<Vec<u8>>)
    ensures
        match r {
            Some(k) => spec_master_key(phrase@, passphrase@, network.spec_is_mainnet()) == Some(
                k@,
            ),
            None => spec_master_key(phrase@, passphrase@, network.spec_is_mainnet()) is None,
        },
        r matches Some(k) ==> k@.len() == 78 && k@.subrange(0, 4) == private_version(
            network.spec_is_mainnet(),
        ) && k@[4] == 0,
{
    let mnemonic = bip39::Mnemonic::from_phrase(
        phrase,
        bip39::Language::English,
    ).ok()?;
    let key: bdk::keys::ExtendedKey<Segwitv0> = (
        mnemonic,
        Some(passphrase.to_string()),
    ).into_extended_key().ok()?;
    let target = match network {
        Network::Bitcoin => bdk::bitcoin::Network::Bitcoin,
        Network::Testnet => bdk::bitcoin::Network::Testnet,
        Network::Signet => bdk::bitcoin::Network::Signet,
        Network::Regtest => bdk::bitcoin::Network::Regtest,
    };
    Some(key.into_xprv(target)?.encode().to_vec())
}

/// Derives the private child of an extended private key.
///
/// Calls `bitcoin::util::bip32::ExtendedPrivKey::ckd_priv` between `decode`
/// and `encode`. The called code adds one to the depth without a check, so
/// a parent at depth 255 is left out. Claimed: the result is a function of
/// the arguments; a child that comes back is 78 bytes long and has the
/// parent's version bytes and the parent's depth and one.
#[verifier::external_body]
pub(crate) fn ckd_priv(parent: &Vec<u8>, number: u32) -> (r: Option<Vec<u8>>)
    requires
        parent@.len() == 78,
        parent@[4] < 255,
    ensures
        match r {
            Some(c) => spec_ckd_priv(parent@, number) == Some(c@),
            None => spec_ckd_priv(parent@, number) is None,
        },
        r matches Some(c) ==> c@.len() == 78 && c@.subrange(0, 4) == parent@.subrange(0, 4)
            && c@[4] == parent@[4] + 1,
{
    let key = bip32::ExtendedPrivKey::decode(parent).ok()?;
    let secp = Secp256k1::new();
    let child = key.ckd_priv(&secp, bip32::ChildNumber::from(number)).ok()?;
    Some(child.encode().to_vec())
}

/// Derives the public child of an extended public key.
///
/// Calls `bitcoin::util::bip32::ExtendedPubKey::ckd_pub` between `decode`
/// and `encode`; it refuses a hardened child number. A parent at depth 255
/// is left out as for `ckd_priv`. Claimed: the same as for `ckd_priv`.
#[verifier::external_body]
pub(crate) fn ckd_pub(parent: &Vec<u8>, number: u32) -> (r: Option<Vec<u8>>)
    requires
        parent@.len() == 78,
        parent@[4] < 255,
    ensures
        match r {
            Some(c) => spec_ckd_pub(parent@, number) == Some(c@),
            None => spec_ckd_pub(parent@, number) is None,
        },
        r matches Some(c) ==> c@.len() == 78 && c@.subrange(0, 4) == parent@.subrange(0, 4)
            && c@[4] == parent@[4] + 1,
{
    let key = bip32::ExtendedPubKey::decode(parent).ok()?;
    let secp = Secp256k1::new();
    let child = key.ckd_pub(&secp, bip32::ChildNumber::from(number)).ok()?;
    Some(child.encode().to_vec())
}

/// Turns an extended private key into the extended public key of the same
/// place in the tree.
///
/// Calls `bitcoin::util::bip32::ExtendedPubKey::from_private` between
/// `decode` and `encode`. Claimed: the result is a function of the key; a
/// public key that comes back is 78 bytes long, carries the public version
/// bytes of the private key's network, and has its depth.
#[verifier::external_body]
pub(crate) fn neuter(key: &Vec<u8>) -> (r: Option<Vec<u8>>)
    requires
        key@.len() == 78,
    ensures
        match r {
            Some(p) => spec_neuter(key@) == Some(p@),
            None => spec_neuter(key@) is None,
        },
        r matches Some(p) ==> p@.len() == 78 && p@[4] == key@[4] && (
        exists|mainnet: bool|
            key@.subrange(0, 4) == private_version(mainnet) && p@.subrange(0, 4) == public_version(
                mainnet,
            )),
{
    let private = bip32::ExtendedPrivKey::decode(key).ok()?;
    let secp = Secp256k1::new();
    Some(bip32::ExtendedPubKey::from_private(&secp, &private).encode().to_vec())
}

/// Hashes bytes with SHA-256 and then RIPEMD-160.
///
/// Calls `bitcoin_hashes::hash160::Hash::hash`. Claimed: the result is a
/// function of the bytes and is 20 bytes long.
#[verifier::external_body]
pub(crate) fn hash160(data: &Vec<u8>) -> (r: Vec<u8>)
    ensures
        r@ == spec_hash160(data@),
        r@.len() == 20,
{
    let digest =
        <bdk::bitcoin::hashes::hash160::Hash as bdk::bitcoin::hashes::Hash>::hash(data);
    digest[..].to_vec()
}

/// Reads a derivation path such as `m/84'/1'/0'/0` and returns its child
/// numbers, each with its top bit set where the step is hardened.
///
/// Calls `bitcoin::util::bip32::DerivationPath::from_str`. Claimed: the
/// result is a function of the text.
#[verifier::external_body]
pub(crate) fn parse_path(text: &str) -> (r: Option<Vec<u32>>)
    ensures
        match r {
            Some(p) => spec_parse_path(text@) == Some(p@),
            None => spec_parse_path(text@) is None,
        },
{
    let parsed = bip32::DerivationPath::from_str(text).ok()?;
    Some(parsed.into_iter().map(|step| u32::from(*step)).collect())
}

/// Writes an extended private key as a descriptor key with its origin.
///
/// Calls `bdk::keys::DerivableKey::into_descriptor_key` on the decoded key
/// with the origin and an empty path, and `to_string` on the secret key
/// that comes back. Claimed: the result is a function of the arguments.
#[verifier::external_body]
pub(crate) fn secret_key_text(key: &Vec<u8>, fingerprint: &Vec<u8>, path: &Vec<u32>) -> (r: Option<
    String,
>)
    requires
        key@.len() == 78,
        fingerprint@.len() == 4,
    ensures
        match r {
            Some(t) => spec_secret_key_text(key@, fingerprint@, path@) == Some(t@),
            None => spec_secret_key_text(key@, fingerprint@, path@) is None,
        },
{
    let steps: Vec<bip32::ChildNumber> = path.iter().map(|n| (*n).into()).collect();
    let origin = (bip32::Fingerprint::from(&fingerprint[..]), steps.into());
    let private = bip32::ExtendedPrivKey::decode(key).ok()?;
    let made: DescriptorKey<Segwitv0> =
        private.into_descriptor_key(Some(origin), Default::default()).ok()?;
    match made {
        DescriptorKey::Secret(secret, _, _) => Some(secret.to_string()),
        DescriptorKey::Public(_, _, _) => None,
    }
}

/// Writes an extended public key as a descriptor key with its origin.
///
/// Calls `bdk::keys::DerivableKey::into_descriptor_key` on the decoded key
/// with the origin and an empty path, and `to_string` on the public key
/// that comes back. Claimed: the result is a function of the arguments.
#[verifier::external_body]
pub(crate) fn public_key_text(key: &Vec<u8>, fingerprint: &Vec<u8>, path: &Vec<u32>) -> (r: Option<
    String,
>)
    requires
        key@.len() == 78,
        fingerprint@.len() == 4,
    ensures
        match r {
            Some(t) => spec_public_key_text(key@, fingerprint@, path@) == Some(t@),
            None => spec_public_key_text(key@, fingerprint@, path@) is None,
        },
{
    let steps: Vec<bip32::ChildNumber> = path.iter().map(|n| (*n).into()).collect();
    let origin = (bip32::Fingerprint::from(&fingerprint[..]), steps.into());
    let public = bip32::ExtendedPubKey::decode(key).ok()?;
    let made: DescriptorKey<Segwitv0> =
        public.into_descriptor_key(Some(origin), Default::default()).ok()?;
    match made {
        DescriptorKey::Public(public, _, _) => Some(public.to_string()),
        DescriptorKey::Secret(_, _, _) => None,
    }
}

/// Computes the name of the wallet that two descriptors make on a network.
///
/// Calls `bdk::blockchain::rpc::wallet_name_from_descriptor`, which fails
/// on text that is no descriptor and on keys of another network. Claimed:
/// the result is a function of the arguments.
#[verifier::external_body]
pub(crate) fn wallet_name(receive: &str, change: &str, network: Network) -> (r: Option<String>)
    ensures
        match r {
            Some(n) => spec_wallet_name(receive@, change@, network.spec_tag()) == Some(n@),
            None => spec_wallet_name(receive@, change@, network.spec_tag()) is None,
        },
{
    let target = match network {
        Network::Bitcoin => bdk::bitcoin::Network::Bitcoin,
        Network::Testnet => bdk::bitcoin::Network::Testnet,
        Network::Signet => bdk::bitcoin::Network::Signet,
        Network::Regtest => bdk::bitcoin::Network::Regtest,
    };
    let secp = Secp256k1::new();
    bdk::blockchain::rpc::wallet_name_from_descriptor(receive, Some(change), target, &secp).ok()
}

/// Reads an address and returns the locking script it stands for.
///
/// Calls `bitcoin::Address::from_str` and `script_pubkey`. Claimed: the
/// result is a function of the text.
#[verifier::external_body]
pub(crate) fn address_script(address: &str) -> (r: Option<Vec<u8>>)
    ensures
        match r {
            Some(s) => spec_address_script(address@) == Some(s@),
            None => spec_address_script(address@) is None,
        },
{
    bdk::bitcoin::Address::from_str(address).ok().map(|a| a.script_pubkey().to_bytes())
}

/// Writes the witness-pubkey-hash address of a public key.
///
/// Calls `bitcoin::Address::p2wpkh` and `to_string`; a key that is not a
/// compressed public key gives `None`. Claimed: the result is a function of
/// the arguments.
#[verifier::external_body]
pub(crate) fn p2wpkh_address(public_key: &Vec<u8>, network: Network) -> (r: Option<String>)
    ensures
        match r {
            Some(a) => spec_p2wpkh_address(public_key@, network.spec_tag()) == Some(a@),
            None => spec_p2wpkh_address(public_key@, network.spec_tag()) is None,
        },
{
    let key = bdk::bitcoin::PublicKey::from_slice(public_key).ok()?;
    let target = match network {
        Network::Bitcoin => bdk::bitcoin::Network::Bitcoin,
        Network::Testnet => bdk::bitcoin::Network::Testnet,
        Network::Signet => bdk::bitcoin::Network::Signet,
        Network::Regtest => bdk::bitcoin::Network::Regtest,
    };
    bdk::bitcoin::Address::p2wpkh(&key, target).ok().map(|a| a.to_string())
}

/// Hashes bytes twice with SHA-256.
///
/// Calls `bitcoin_hashes::sha256d::Hash::hash`. Claimed: the result is a
/// function of the bytes and is 32 bytes long.
#[verifier::external_body]
pub(crate) fn sha256d(data: &Vec<u8>) -> (r: Vec<u8>)
    ensures
        r@ == spec_sha256d(data@),
        r@.len() == 32,
{
    let digest =
        <bdk::bitcoin::hashes::sha256d::Hash as bdk::bitcoin::hashes::Hash>::hash(data);
    digest[..].to_vec()
}

/// Signs a digest with a secret key and returns the signature in DER.
///
/// Calls `secp256k1::Secp256k1::sign`, which takes its nonce from the key
/// and the digest alone, between `SecretKey::from_slice`,
/// `Message::from_slice` and `Signature::serialize_der`. A key that is no
/// scalar of the curve and a digest that is not 32 bytes long give `None`.
/// Claimed: the result is a function of the arguments.
#[verifier::external_body]
pub(crate) fn ecdsa_sign(secret: &Vec<u8>, digest: &Vec<u8>) -> (r: Option<Vec<u8>>)
    ensures
        match r {
            Some(s) => spec_ecdsa_sign(secret@, digest@) == Some(s@),
            None => spec_ecdsa_sign(secret@, digest@) is None,
        },
{
    let key = bdk::bitcoin::secp256k1::SecretKey::from_slice(secret).ok()?;
    let message = bdk::bitcoin::secp256k1::Message::from_slice(digest).ok()?;
    Some(Secp256k1::new().sign(&message, &key).serialize_der().to_vec())
}

/// Checks a signature in DER against a public key and a digest.
///
/// Calls `secp256k1::Secp256k1::verify` between `PublicKey::from_slice`,
/// `Message::from_slice` and `Signature::from_der`; bytes that are no key,
/// no digest or no signature give `false`. Claimed: the result is a
/// function of the arguments.
#[verifier::external_body]
pub(crate) fn ecdsa_verifies(public_key: &Vec<u8>, digest: &Vec<u8>, signature: &Vec<u8>) -> (r:
    bool)
    ensures
        r == spec_ecdsa_verifies(public_key@, digest@, signature@),
{
    let key = bdk::bitcoin::secp256k1::PublicKey::from_slice(public_key);
    let message = bdk::bitcoin::secp256k1::Message::from_slice(digest);
    let parsed = bdk::bitcoin::secp256k1::Signature::from_der(signature);
    match (key, message, parsed) {
        (Ok(k), Ok(m), Ok(s)) => Secp256k1::new().verify(&m, &s, &k).is_ok(),
        _ => false,
    }
}

} // verus!
