//! Every failure of the wallet by its kind, so that a caller knows at once
//! whether to correct its input, to try again, to change the amount, or to
//! give the build up.

use crate::address::InvalidRecipient;
use crate::amount::InvalidAmount;
use crate::builder::{BroadcastError, TxError};
use crate::coin_select::InsufficientFunds;
use crate::descriptor::DescriptorError;
use crate::keys::DeriveError;
use crate::seed::SeedError;
use crate::tracker::SyncError;
use vstd::prelude::*;

verus! {

/// The four kinds of failure.
#[derive(Clone, Copy, PartialEq, Eq, Structural, Debug)]
pub enum ErrorClass {
    /// What the caller gave is malformed, or the call does not fit the state
    /// of the wallet. It is reported at once and never tried again.
    Input,
    /// Something outside the wallet is out of reach. The wallet is as it
    /// was, and the caller may try again later.
    Resource,
    /// The money does not suffice. The numbers are reported, so that the
    /// caller can change the amount or the fee.
    Fund,
    /// The arithmetic of keys and signatures failed. The build in progress
    /// is given up.
    Crypto,
}

/// A failure of the wallet.
#[derive(Debug)]
pub enum WalletError {
    InvalidStrength,
    InvalidMnemonic,
    InvalidPath,
    InvalidRecipient,
    InvalidAmount,
    WrongNetwork,
    /// A selection has no input, an outpoint twice, or sums that are not
    /// those of its inputs.
    InvalidSelection,
    /// A build is in progress; the wallet builds one transaction at a time.
    BuildInProgress,
    /// There is no signed transaction to speak of.
    NothingSigned,
    ChainUnavailable,
    InvalidChainData,
    /// What the store holds is no state of this wallet.
    InvalidSnapshot,
    InsufficientFunds { needed: u128, available: u64 },
    BroadcastRejected { reason: String },
    UnusableSeed,
    DerivationOverflow,
    KeyRejected,
    MissingKey,
    SignatureFailed,
}

impl WalletError {
    /// The kind of the failure.
    pub open spec fn spec_class(&self) -> ErrorClass {
        match self {
            WalletError::InvalidStrength
            | WalletError::InvalidMnemonic
            | WalletError::InvalidPath
            | WalletError::InvalidRecipient
            | WalletError::InvalidAmount
            | WalletError::WrongNetwork
            | WalletError::InvalidSelection
            | WalletError::BuildInProgress
            | WalletError::NothingSigned => ErrorClass::Input,
            WalletError::ChainUnavailable
            | WalletError::InvalidChainData
            | WalletError::InvalidSnapshot => ErrorClass::Resource,
            WalletError::InsufficientFunds { .. } | WalletError::BroadcastRejected { .. } =>
                ErrorClass::Fund,
            WalletError::UnusableSeed
            | WalletError::DerivationOverflow
            | WalletError::KeyRejected
            | WalletError::MissingKey
            | WalletError::SignatureFailed => ErrorClass::Crypto,
        }
    }

    /// The kind of the failure.
    pub fn class(&self) -> (r: ErrorClass)
        ensures
            r == self.spec_class(),
    {
        match self {
            WalletError::InvalidStrength
            | WalletError::InvalidMnemonic
            | WalletError::InvalidPath
            | WalletError::InvalidRecipient
            | WalletError::InvalidAmount
            | WalletError::WrongNetwork
            | WalletError::InvalidSelection
            | WalletError::BuildInProgress
            | WalletError::NothingSigned => ErrorClass::Input,
            WalletError::ChainUnavailable
            | WalletError::InvalidChainData
            | WalletError::InvalidSnapshot => ErrorClass::Resource,
            WalletError::InsufficientFunds { .. } | WalletError::BroadcastRejected { .. } =>
                ErrorClass::Fund,
            WalletError::UnusableSeed
            | WalletError::DerivationOverflow
            | WalletError::KeyRejected
            | WalletError::MissingKey
            | WalletError::SignatureFailed => ErrorClass::Crypto,
        }
    }

    /// Whether trying the same call again later can help. It can where
    /// something outside the wallet was out of reach, and nowhere else.
    pub fn is_retryable(&self) -> (r: bool)
        ensures
            r == (self.spec_class() == ErrorClass::Resource),
    {
        self.class() == ErrorClass::Resource
    }

    /// Whether the build in progress is to be given up on this failure.
    pub fn aborts_build(&self) -> (r: bool)
        ensures
            r == (self.spec_class() == ErrorClass::Crypto),
    {
        self.class() == ErrorClass::Crypto
    }

    /// By how much the money falls short, where it is the money that
    /// failed.
    pub fn shortfall(&self) -> (r: Option<u128>)
        ensures
            r == match *self {
                WalletError::InsufficientFunds { needed, available } => if needed > available {
                    Some((needed - available) as u128)
                } else {
                    Some(0u128)
                },
                _ => None,
            },
    {
        match self {
            WalletError::InsufficientFunds { needed, available } => {
                let have = *available as u128;
                if *needed > have {
                    Some(*needed - have)
                } else {
                    Some(0)
                }
            },
            _ => None,
        }
    }
}

/// A failure of the seed engine as a failure of the wallet.
pub open spec fn spec_from_seed(e: SeedError) -> WalletError {
    match e {
        SeedError::InvalidStrength => WalletError::InvalidStrength,
        SeedError::InvalidMnemonic => WalletError::InvalidMnemonic,
        SeedError::UnusableSeed => WalletError::UnusableSeed,
    }
}

/// A failure of the seed engine as a failure of the wallet.
pub fn from_seed(e: SeedError) -> (r: WalletError)
    ensures
        r == spec_from_seed(e),
{
    match e {
        SeedError::InvalidStrength => WalletError::InvalidStrength,
        SeedError::InvalidMnemonic => WalletError::InvalidMnemonic,
        SeedError::UnusableSeed => WalletError::UnusableSeed,
    }
}

/// A failure of a derivation step as a failure of the wallet.
pub open spec fn spec_from_derive(e: DeriveError) -> WalletError {
    match e {
        DeriveError::InvalidPath => WalletError::InvalidPath,
        DeriveError::DerivationOverflow => WalletError::DerivationOverflow,
        DeriveError::KeyRejected => WalletError::KeyRejected,
    }
}

/// A failure of a derivation step as a failure of the wallet.
pub fn from_derive(e: DeriveError) -> (r: WalletError)
    ensures
        r == spec_from_derive(e),
{
    match e {
        DeriveError::InvalidPath => WalletError::InvalidPath,
        DeriveError::DerivationOverflow => WalletError::DerivationOverflow,
        DeriveError::KeyRejected => WalletError::KeyRejected,
    }
}

/// A failure of the descriptor builder as a failure of the wallet.
pub open spec fn spec_from_descriptor(e: DescriptorError) -> WalletError {
    match e {
        DescriptorError::InvalidPath => WalletError::InvalidPath,
        DescriptorError::DerivationOverflow => WalletError::DerivationOverflow,
        DescriptorError::KeyRejected => WalletError::KeyRejected,
        DescriptorError::WrongNetwork => WalletError::WrongNetwork,
    }
}

/// A failure of the descriptor builder as a failure of the wallet.
pub fn from_descriptor(e: DescriptorError) -> (r: WalletError)
    ensures
        r == spec_from_descriptor(e),
{
    match e {
        DescriptorError::InvalidPath => WalletError::InvalidPath,
        DescriptorError::DerivationOverflow => WalletError::DerivationOverflow,
        DescriptorError::KeyRejected => WalletError::KeyRejected,
        DescriptorError::WrongNetwork => WalletError::WrongNetwork,
    }
}

/// A failure of a synchronisation as a failure of the wallet.
pub open spec fn spec_from_sync(e: SyncError) -> WalletError {
    match e {
        SyncError::ChainUnavailable => WalletError::ChainUnavailable,
        SyncError::InvalidChainData => WalletError::InvalidChainData,
    }
}

/// A failure of a synchronisation as a failure of the wallet.
pub fn from_sync(e: SyncError) -> (r: WalletError)
    ensures
        r == spec_from_sync(e),
{
    match e {
        SyncError::ChainUnavailable => WalletError::ChainUnavailable,
        SyncError::InvalidChainData => WalletError::InvalidChainData,
    }
}

/// A failure of the selector as a failure of the wallet, with its numbers.
pub open spec fn spec_from_funds(e: InsufficientFunds) -> WalletError {
    WalletError::InsufficientFunds { needed: e.needed, available: e.available }
}

/// A failure of the selector as a failure of the wallet, with its numbers.
pub fn from_funds(e: InsufficientFunds) -> (r: WalletError)
    ensures
        r == spec_from_funds(e),
{
    WalletError::InsufficientFunds { needed: e.needed, available: e.available }
}

/// A failure of a build as a failure of the wallet. A step out of turn
/// says that a build is in progress.
pub open spec fn spec_from_tx(e: TxError) -> WalletError {
    match e {
        TxError::WrongState => WalletError::BuildInProgress,
        TxError::InvalidSelection => WalletError::InvalidSelection,
        TxError::InvalidRecipient => WalletError::InvalidRecipient,
        TxError::MissingKey => WalletError::MissingKey,
        TxError::SignatureFailed => WalletError::SignatureFailed,
    }
}

/// A failure of a build as a failure of the wallet.
pub fn from_tx(e: TxError) -> (r: WalletError)
    ensures
        r == spec_from_tx(e),
{
    match e {
        TxError::WrongState => WalletError::BuildInProgress,
        TxError::InvalidSelection => WalletError::InvalidSelection,
        TxError::InvalidRecipient => WalletError::InvalidRecipient,
        TxError::MissingKey => WalletError::MissingKey,
        TxError::SignatureFailed => WalletError::SignatureFailed,
    }
}

/// A malformed destination as a failure of the wallet.
pub fn from_recipient(e: InvalidRecipient) -> (r: WalletError)
    ensures
        r == WalletError::InvalidRecipient,
{
    WalletError::InvalidRecipient
}

/// A malformed amount as a failure of the wallet.
pub fn from_amount(e: InvalidAmount) -> (r: WalletError)
    ensures
        r == WalletError::InvalidAmount,
{
    WalletError::InvalidAmount
}

/// A transaction that did not go out as a failure of the wallet, with the
/// reason of the chain source.
pub fn from_broadcast(e: BroadcastError) -> (r: WalletError)
    ensures
        r == match e {
            BroadcastError::WrongState => WalletError::NothingSigned,
            BroadcastError::Rejected(reason) => WalletError::BroadcastRejected { reason: reason },
        },
{
    match e {
        BroadcastError::WrongState => WalletError::NothingSigned,
        BroadcastError::Rejected(reason) => WalletError::BroadcastRejected { reason },
    }
}

/// A failure that may be tried again has left the wallet as it was, and is
/// no failure of the caller's input, of the money or of the keys.
pub proof fn lemma_classes_are_apart(e: WalletError)
    ensures
        e.spec_class() == ErrorClass::Resource <==> (e == WalletError::ChainUnavailable || e
            == WalletError::InvalidChainData || e == WalletError::InvalidSnapshot),
        e.spec_class() == ErrorClass::Fund <==> (e is InsufficientFunds || e is BroadcastRejected),
{
}

} // verus!
