//! The core of a deterministic Bitcoin wallet: keys and descriptors derived
//! from a mnemonic, the set of unspent outputs, coin selection, and the
//! building and signing of transactions.
//!
//! The library decides and computes; it reads no file and opens no
//! connection. Whoever uses it asks the chain and keeps the store, and hands
//! the library what came of it.
//!
//! - `seed`, `keys`, `descriptor`, `address`: from a mnemonic phrase to the
//!   master key, along derivation paths to the keys of the wallet, and on
//!   to descriptors, addresses and the wallet's name.
//! - `utxo_set`, `tracker`, `snapshot`: the unspent outputs of the wallet,
//!   how they follow the chain, and how they are kept between runs.
//! - `fee`, `coin_select`: what a payment costs and which outputs pay it.
//! - `tx`, `encode`, `builder`: transactions in bytes, and the states that a
//!   payment goes through until it is signed and sent.
//! - `wallet`: all of this behind one handle.
//! - `error`, `amount`, `primitives`: failures by their kind, amounts as
//!   text, and the plain values that the rest is made of.
//! - `outside`: the calls into the cryptographic code that the library
//!   builds on, each with what is taken for granted of it.

pub mod address;
pub mod amount;
pub mod builder;
pub mod coin_select;
pub mod descriptor;
pub mod encode;
pub mod error;
pub mod fee;
pub mod keys;
pub mod outside;
pub mod primitives;
pub mod seed;
pub mod snapshot;
pub mod tracker;
pub mod tx;
pub mod utxo_set;
pub mod wallet;
