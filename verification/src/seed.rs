//! From entropy to the master key: mnemonic phrases and what they make.

use crate::keys::{is_private_data, ChildNumber, ExtendedKey, ExtendedKeyView};
use crate::outside::{
    generate_phrase, master_key, mnemonic_entropy, private_version, spec_master_key,
    spec_mnemonic_entropy,
};
use crate::primitives::Network;
use vstd::prelude::*;

verus! {

/// Why a seed or a master key could not be made.
#[derive(Clone, Copy, PartialEq, Eq, Structural, Debug)]
pub enum SeedError {
    /// Entropy comes in 128, 160, 192, 224 or 256 bits, and in no other
    /// strength.
    InvalidStrength,
    /// A word is not in the word list, the number of words is wrong, or the
    /// checksum fails.
    InvalidMnemonic,
    /// The phrase is a mnemonic, but what it stretches to is no key.
    UnusableSeed,
}

/// What a seed is: a mnemonic phrase and a passphrase.
pub struct SeedView {
    pub phrase: Seq<char>,
    pub passphrase: Seq<char>,
}

/// The secret that a wallet grows from. It is never printed by this
/// library, and has no debug form.
pub struct Seed {
    phrase: String,
    passphrase: String,
}

impl View for Seed {
    type V = SeedView;

    closed spec fn view(&self) -> SeedView {
        SeedView { phrase: self.phrase@, passphrase: self.passphrase@ }
    }
}

/// The master key that a phrase and a passphrase make on a network.
pub open spec fn spec_master(phrase: Seq<char>, passphrase: Seq<char>, network: Network) -> Result<
    ExtendedKeyView,
    SeedError,
> {
    if spec_mnemonic_entropy(phrase) is None {
        Err(SeedError::InvalidMnemonic)
    } else {
        match spec_master_key(phrase, passphrase, network.spec_is_mainnet()) {
            Some(data) => Ok(ExtendedKeyView { data: data, path: Seq::<ChildNumber>::empty() }),
            None => Err(SeedError::UnusableSeed),
        }
    }
}

impl Seed {
    /// The phrase of a seed is a valid mnemonic.
    pub open spec fn wf(&self) -> bool {
        spec_mnemonic_entropy(self@.phrase) is Some
    }

    /// The strength of the seed: the number of bits of its entropy.
    pub open spec fn spec_strength(&self) -> nat {
        spec_mnemonic_entropy(self@.phrase).unwrap().len() * 8
    }

    /// A seed from a phrase that its owner wrote down before.
    pub fn from_phrase(phrase: &str, passphrase: &str) -> (r: Result<Seed, SeedError>)
        ensures
            match r {
                Ok(seed) => seed.wf() && seed@.phrase == phrase@ && seed@.passphrase
                    == passphrase@,
                Err(e) => e == SeedError::InvalidMnemonic && spec_mnemonic_entropy(phrase@)
                    is None,
            },
    {
        match mnemonic_entropy(phrase) {
            None => Err(SeedError::InvalidMnemonic),
            Some(_) => Ok(
                Seed { phrase: String::from_str(phrase), passphrase: String::from_str(passphrase) },
            ),
        }
    }

    /// The mnemonic phrase, to be shown to the owner once.
    pub fn phrase(&self) -> (r: &str)
        ensures
            r@ == self@.phrase,
    {
        self.phrase.as_str()
    }

    /// The number of bits of entropy behind the phrase.
    pub fn strength(&self) -> (r: usize)
        requires
            self.wf(),
        ensures
            r == self.spec_strength(),
            r == 128 || r == 160 || r == 192 || r == 224 || r == 256,
    {
        match mnemonic_entropy(self.phrase.as_str()) {
            Some(entropy) => entropy.len() * 8,
            None => 0,
        }
    }

    /// The master key of the seed on a network.
    pub fn master_key(&self, network: Network) -> (r: Result<ExtendedKey, SeedError>)
        ensures
            match r {
                Ok(k) => spec_master(self@.phrase, self@.passphrase, network) == Ok::<
                    ExtendedKeyView,
                    SeedError,
                >(k@) && k.wf() && is_private_data(k@.data),
                Err(e) => spec_master(self@.phrase, self@.passphrase, network) == Err::<
                    ExtendedKeyView,
                    SeedError,
                >(e),
            },
    {
        from_mnemonic(self.phrase.as_str(), self.passphrase.as_str(), network)
    }
}

/// Draws entropy of the given strength, in bits, and makes the seed whose
/// phrase encodes it. The passphrase is the one given.
///
/// Which phrase comes back is left to chance. It is a valid mnemonic of the
/// strength asked for, whenever the strength is one that a mnemonic can
/// have.
pub fn generate(strength: usize, passphrase: &str) -> (r: Result<Seed, SeedError>)
    ensures
        r is Ok <==> (strength == 128 || strength == 160 || strength == 192 || strength == 224
            || strength == 256),
        match r {
            Ok(seed) => seed.wf() && seed.spec_strength() == strength && seed@.passphrase
                == passphrase@,
            Err(e) => e == SeedError::InvalidStrength,
        },
{
    match generate_phrase(strength) {
        None => Err(SeedError::InvalidStrength),
        Some(phrase) => Ok(Seed { phrase, passphrase: String::from_str(passphrase) }),
    }
}

/// Makes the master key of a mnemonic phrase and a passphrase.
///
/// The phrase is refused as `InvalidMnemonic` where a word is not in the
/// word list, the number of words is wrong or the checksum fails. A phrase
/// that is accepted is stretched, together with the passphrase, into the
/// private key and the chain code of the root of the tree.
pub fn from_mnemonic(words: &str, passphrase: &str, network: Network) -> (r: Result<
    ExtendedKey,
    SeedError,
>)
    ensures
        match r {
            Ok(k) => spec_master(words@, passphrase@, network) == Ok::<ExtendedKeyView, SeedError>(
                k@,
            ) && k.wf() && is_private_data(k@.data),
            Err(e) => spec_master(words@, passphrase@, network) == Err::<
                ExtendedKeyView,
                SeedError,
            >(e),
        },
{
    if mnemonic_entropy(words).is_none() {
        return Err(SeedError::InvalidMnemonic);
    }
    match master_key(words, passphrase, network) {
        None => Err(SeedError::UnusableSeed),
        Some(data) => {
            proof {
                assert(data@.subrange(0, 4) == private_version(true) || data@.subrange(0, 4)
                    == private_version(false));
            }
            match ExtendedKey::from_master_data(data) {
                Some(key) => Ok(key),
                None => Err(SeedError::UnusableSeed),
            }
        },
    }
}

/// The private key at the end of a path from the master key of a phrase.
pub open spec fn spec_private_key(
    phrase: Seq<char>,
    passphrase: Seq<char>,
    network: Network,
    path: Seq<ChildNumber>,
) -> Option<ExtendedKeyView> {
    match spec_master(phrase, passphrase, network) {
        Ok(master) => match crate::keys::spec_derive(master, path) {
            Ok(key) => Some(key),
            Err(_) => None,
        },
        Err(_) => None,
    }
}

/// The key that is derived is a function of the mnemonic, the passphrase,
/// the network and the path: derived twice, now or after the program has
/// been started anew, it is the same key, bit for bit.
pub proof fn lemma_private_key_deterministic(
    phrase: Seq<char>,
    passphrase: Seq<char>,
    network: Network,
    path: Seq<ChildNumber>,
    first: ExtendedKeyView,
    second: ExtendedKeyView,
)
    requires
        spec_private_key(phrase, passphrase, network, path) == Some(first),
        spec_private_key(phrase, passphrase, network, path) == Some(second),
    ensures
        first == second,
        first.data == second.data,
{
}

/// The master key is a function of the phrase, the passphrase and the
/// network: asked twice, it is the same.
pub proof fn lemma_master_deterministic(
    phrase: Seq<char>,
    passphrase: Seq<char>,
    network: Network,
    first: Result<ExtendedKeyView, SeedError>,
    second: Result<ExtendedKeyView, SeedError>,
)
    requires
        first == spec_master(phrase, passphrase, network),
        second == spec_master(phrase, passphrase, network),
    ensures
        first == second,
{
}

} // verus!
