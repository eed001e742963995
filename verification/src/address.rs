//! Addresses and locking scripts: what a key is paid on, and what a payment
//! may be sent to.

use crate::keys::{spec_public_key, ExtendedKey};
use crate::outside::{
    address_script, hash160, p2wpkh_address, spec_address_script, spec_hash160,
    spec_p2wpkh_address,
};
use crate::primitives::Network;
use vstd::prelude::*;

verus! {

/// The destination of a payment is malformed: the text is no address, or
/// the script is none that a payment can be locked to.
#[derive(Clone, Copy, PartialEq, Eq, Structural, Debug)]
pub struct InvalidRecipient;

/// The script pays to the hash of a public key, in the form of before the
/// witness.
pub open spec fn is_p2pkh(script: Seq<u8>) -> bool {
    &&& script.len() == 25
    &&& script[0] == 0x76
    &&& script[1] == 0xa9
    &&& script[2] == 0x14
    &&& script[23] == 0x88
    &&& script[24] == 0xac
}

/// The script pays to the hash of a script.
pub open spec fn is_p2sh(script: Seq<u8>) -> bool {
    &&& script.len() == 23
    &&& script[0] == 0xa9
    &&& script[1] == 0x14
    &&& script[22] == 0x87
}

/// The script is a witness program: a version from 0 to 16 and a program of
/// 2 to 40 bytes, which for version 0 has 20 or 32.
pub open spec fn is_witness_program(script: Seq<u8>) -> bool {
    &&& 4 <= script.len() <= 42
    &&& script[0] == 0 || 0x51 <= script[0] <= 0x60
    &&& script[1] == script.len() - 2
    &&& script[0] == 0 ==> script.len() == 22 || script.len() == 34
}

/// The script is one that a payment can be locked to.
pub open spec fn spec_is_standard_script(script: Seq<u8>) -> bool {
    is_p2pkh(script) || is_p2sh(script) || is_witness_program(script)
}

/// Whether a locking script is one of the forms that a payment can be sent
/// to.
pub fn is_standard_script(script: &Vec<u8>) -> (r: bool)
    ensures
        r == spec_is_standard_script(script@),
{
    let n = script.len();
    let p2pkh = n == 25 && script[0] == 0x76 && script[1] == 0xa9 && script[2] == 0x14
        && script[23] == 0x88 && script[24] == 0xac;
    let p2sh = n == 23 && script[0] == 0xa9 && script[1] == 0x14 && script[22] == 0x87;
    let witness = 4 <= n && n <= 42 && (script[0] == 0 || (0x51 <= script[0] && script[0]
        <= 0x60)) && script[1] as usize == n - 2 && (script[0] != 0 || n == 22 || n == 34);
    p2pkh || p2sh || witness
}

/// The script that a payment to an address is locked to.
pub open spec fn spec_destination_script(address: Seq<char>) -> Result<Seq<u8>, InvalidRecipient> {
    match spec_address_script(address) {
        Some(script) => if spec_is_standard_script(script) {
            Ok(script)
        } else {
            Err(InvalidRecipient)
        },
        None => Err(InvalidRecipient),
    }
}

/// Reads the address of a recipient and returns the script that locks a
/// payment to it.
pub fn destination_script(address: &str) -> (r: Result<Vec<u8>, InvalidRecipient>)
    ensures
        match r {
            Ok(script) => spec_destination_script(address@) == Ok::<Seq<u8>, InvalidRecipient>(
                script@,
            ),
            Err(e) => spec_destination_script(address@) is Err,
        },
{
    match address_script(address) {
        None => Err(InvalidRecipient),
        Some(script) => if is_standard_script(&script) {
            Ok(script)
        } else {
            Err(InvalidRecipient)
        },
    }
}

/// The witness program of a key: the hash of its public key.
pub open spec fn spec_witness_program(data: Seq<u8>) -> Option<Seq<u8>> {
    match spec_public_key(data) {
        Some(public) => Some(spec_hash160(public)),
        None => None,
    }
}

/// The witness program that locks the outputs paid to a key.
pub fn witness_program(key: &ExtendedKey) -> (r: Option<[u8; 20]>)
    requires
        key.wf(),
    ensures
        match r {
            Some(p) => spec_witness_program(key@.data) == Some(p@),
            None => spec_witness_program(key@.data) is None,
        },
{
    match key.public_key() {
        None => None,
        Some(public) => {
            let digest = hash160(&public);
            let mut program = [0u8; 20];
            let mut i: usize = 0;
            while i < 20
                invariant
                    i <= 20,
                    digest@.len() == 20,
                    forall|j: int| 0 <= j < i ==> program@[j] == digest@[j],
                decreases 20 - i,
            {
                program[i] = digest[i];
                i += 1;
            }
            assert(program@ =~= digest@);
            Some(program)
        },
    }
}

/// The address of a key on a network.
pub open spec fn spec_address(data: Seq<u8>, network: Network) -> Option<Seq<char>> {
    match spec_public_key(data) {
        Some(public) => spec_p2wpkh_address(public, network.spec_tag()),
        None => None,
    }
}

/// The address on which a key is paid.
pub fn address(key: &ExtendedKey, network: Network) -> (r: Option<String>)
    requires
        key.wf(),
    ensures
        match r {
            Some(a) => spec_address(key@.data, network) == Some(a@),
            None => spec_address(key@.data, network) is None,
        },
{
    match key.public_key() {
        None => None,
        Some(public) => p2wpkh_address(&public, network),
    }
}

} // verus!
