//! Transactions in bytes: the serialization that the network reads, the
//! identifier, and the digest that the signature of an input commits to.
//!
//! All inputs spend witness-pubkey-hash outputs of the wallet, carry the
//! final sequence number and an empty unlocking script; what unlocks them
//! stands in the witness.

use crate::encode::{
    compact_size, le_bytes, le_value, lemma_le_round_trip, push_bytes, push_compact_size, push_le,
    push_program, read_le16,
};
use crate::outside::{sha256d, spec_ecdsa_verifies, spec_hash160, spec_sha256d};
use crate::primitives::{OutPoint, Txid, Utxo};
use vstd::prelude::*;

verus! {

/// The version of the transactions that the wallet makes.
pub const TX_VERSION: u32 = 2;

/// The sequence number of every input.
pub const SEQUENCE_FINAL: u32 = 0xffff_ffff;

/// The lock time of every transaction: none.
pub const LOCK_TIME: u32 = 0;

/// The signature covers all inputs and all outputs.
pub const SIGHASH_ALL: u8 = 1;

/// What a transaction output is.
pub struct TxOutputView {
    pub value: u64,
    pub script: Seq<u8>,
}

/// An output of a transaction: a value and the script that locks it.
pub struct TxOutput {
    pub value: u64,
    pub script: Vec<u8>,
}

impl View for TxOutput {
    type V = TxOutputView;

    open spec fn view(&self) -> TxOutputView {
        TxOutputView { value: self.value, script: self.script@ }
    }
}

/// What a witness is.
pub struct WitnessView {
    pub signature: Seq<u8>,
    pub public_key: Seq<u8>,
}

/// What unlocks a witness-pubkey-hash input: a signature, with the byte
/// that says what it covers behind it, and the public key.
pub struct Witness {
    pub signature: Vec<u8>,
    pub public_key: Vec<u8>,
}

impl View for Witness {
    type V = WitnessView;

    open spec fn view(&self) -> WitnessView {
        WitnessView { signature: self.signature@, public_key: self.public_key@ }
    }
}

/// What a sequence of outputs is.
pub open spec fn outputs_view(outputs: Seq<TxOutput>) -> Seq<TxOutputView> {
    outputs.map_values(|o: TxOutput| o@)
}

/// What a sequence of witnesses is.
pub open spec fn witnesses_view(witnesses: Seq<Witness>) -> Seq<WitnessView> {
    witnesses.map_values(|w: Witness| w@)
}

/// An outpoint in bytes: the identifier, least significant byte first, and
/// the number of the output.
pub open spec fn outpoint_bytes(outpoint: OutPoint) -> Seq<u8> {
    le_bytes(outpoint.txid.lo as nat, 16) + le_bytes(outpoint.txid.hi as nat, 16) + le_bytes(
        outpoint.vout as nat,
        4,
    )
}

/// The outpoints of all inputs on end.
pub open spec fn prevouts_bytes(inputs: Seq<Utxo>) -> Seq<u8>
    decreases inputs.len(),
{
    if inputs.len() == 0 {
        Seq::<u8>::empty()
    } else {
        prevouts_bytes(inputs.drop_last()) + outpoint_bytes(inputs.last().outpoint)
    }
}

/// The sequence numbers of `n` inputs on end.
pub open spec fn sequences_bytes(n: nat) -> Seq<u8>
    decreases n,
{
    if n == 0 {
        Seq::<u8>::empty()
    } else {
        sequences_bytes((n - 1) as nat) + le_bytes(SEQUENCE_FINAL as nat, 4)
    }
}

/// The inputs as they stand in a transaction.
pub open spec fn inputs_bytes(inputs: Seq<Utxo>) -> Seq<u8>
    decreases inputs.len(),
{
    if inputs.len() == 0 {
        Seq::<u8>::empty()
    } else {
        inputs_bytes(inputs.drop_last()) + outpoint_bytes(inputs.last().outpoint) + seq![0u8]
            + le_bytes(SEQUENCE_FINAL as nat, 4)
    }
}

/// An output in bytes: the value, and the script with its length in front.
pub open spec fn output_bytes(output: TxOutputView) -> Seq<u8> {
    le_bytes(output.value as nat, 8) + compact_size(output.script.len()) + output.script
}

/// The outputs as they stand in a transaction.
pub open spec fn outputs_bytes(outputs: Seq<TxOutputView>) -> Seq<u8>
    decreases outputs.len(),
{
    if outputs.len() == 0 {
        Seq::<u8>::empty()
    } else {
        outputs_bytes(outputs.drop_last()) + output_bytes(outputs.last())
    }
}

/// A witness in bytes: two items, the signature and the public key, each
/// with its length in front.
pub open spec fn witness_bytes(witness: WitnessView) -> Seq<u8> {
    seq![2u8] + compact_size(witness.signature.len()) + witness.signature + compact_size(
        witness.public_key.len(),
    ) + witness.public_key
}

/// The witnesses as they stand in a transaction.
pub open spec fn witnesses_bytes(witnesses: Seq<WitnessView>) -> Seq<u8>
    decreases witnesses.len(),
{
    if witnesses.len() == 0 {
        Seq::<u8>::empty()
    } else {
        witnesses_bytes(witnesses.drop_last()) + witness_bytes(witnesses.last())
    }
}

/// The script that the signature of a witness-pubkey-hash input signs: the
/// pay-to-pubkey-hash script of the program, with its length in front.
pub open spec fn script_code(program: Seq<u8>) -> Seq<u8> {
    seq![0x19u8, 0x76u8, 0xa9u8, 0x14u8] + program + seq![0x88u8, 0xacu8]
}

/// What is hashed into the digest of input `i`.
pub open spec fn sighash_preimage(inputs: Seq<Utxo>, outputs: Seq<TxOutputView>, i: int) -> Seq<
    u8,
> {
    le_bytes(TX_VERSION as nat, 4) + spec_sha256d(prevouts_bytes(inputs)) + spec_sha256d(
        sequences_bytes(inputs.len()),
    ) + outpoint_bytes(inputs[i].outpoint) + script_code(inputs[i].program@) + le_bytes(
        inputs[i].value as nat,
        8,
    ) + le_bytes(SEQUENCE_FINAL as nat, 4) + spec_sha256d(outputs_bytes(outputs)) + le_bytes(
        LOCK_TIME as nat,
        4,
    ) + le_bytes(SIGHASH_ALL as nat, 4)
}

/// The digest that the signature of input `i` commits to.
pub open spec fn spec_sighash(inputs: Seq<Utxo>, outputs: Seq<TxOutputView>, i: int) -> Seq<u8> {
    spec_sha256d(sighash_preimage(inputs, outputs, i))
}

/// The transaction without its witnesses: what its identifier is the hash
/// of.
pub open spec fn base_bytes(inputs: Seq<Utxo>, outputs: Seq<TxOutputView>) -> Seq<u8> {
    le_bytes(TX_VERSION as nat, 4) + compact_size(inputs.len()) + inputs_bytes(inputs)
        + compact_size(outputs.len()) + outputs_bytes(outputs) + le_bytes(LOCK_TIME as nat, 4)
}

/// The transaction as it goes to the network.
pub open spec fn signed_bytes(
    inputs: Seq<Utxo>,
    outputs: Seq<TxOutputView>,
    witnesses: Seq<WitnessView>,
) -> Seq<u8> {
    le_bytes(TX_VERSION as nat, 4) + seq![0u8, 1u8] + compact_size(inputs.len()) + inputs_bytes(
        inputs,
    ) + compact_size(outputs.len()) + outputs_bytes(outputs) + witnesses_bytes(witnesses)
        + le_bytes(LOCK_TIME as nat, 4)
}

/// The identifier of the transaction: the hash of the transaction without
/// its witnesses.
pub open spec fn spec_txid(inputs: Seq<Utxo>, outputs: Seq<TxOutputView>) -> Txid {
    txid_of_hash(spec_sha256d(base_bytes(inputs, outputs)))
}

/// The identifier that the 32 bytes of a hash stand for: the number that
/// the bytes make, the least significant first.
pub open spec fn txid_of_hash(hash: Seq<u8>) -> Txid {
    Txid {
        lo: le_value(hash.subrange(0, 16)) as u128,
        hi: le_value(hash.subrange(16, 32)) as u128,
    }
}

/// The 32 bytes of the hash that an identifier stands for.
pub open spec fn hash_of_txid(txid: Txid) -> Seq<u8> {
    le_bytes(txid.lo as nat, 16) + le_bytes(txid.hi as nat, 16)
}

/// An identifier made from a hash is written back as that hash: an output
/// of a transaction is spent under the identifier that the transaction
/// has.
pub proof fn lemma_txid_round_trip(hash: Seq<u8>)
    requires
        hash.len() == 32,
    ensures
        hash_of_txid(txid_of_hash(hash)) == hash,
        forall|vout: u32|
            #![trigger outpoint_bytes(OutPoint { txid: txid_of_hash(hash), vout: vout })]
            outpoint_bytes(OutPoint { txid: txid_of_hash(hash), vout: vout }) == hash + le_bytes(
                vout as nat,
                4,
            ),
{
    let lo = hash.subrange(0, 16);
    let hi = hash.subrange(16, 32);
    lemma_le_round_trip(lo);
    lemma_le_round_trip(hi);
    crate::encode::lemma_le_value_bound(lo);
    crate::encode::lemma_le_value_bound(hi);
    crate::encode::lemma_pow256_is_u128();
    assert(lo + hi =~= hash);
}

/// The identifier that a hash of 32 bytes stands for; `None` for bytes of
/// another length.
pub fn txid_from_hash(hash: &Vec<u8>) -> (r: Option<Txid>)
    ensures
        r == if hash@.len() == 32 {
            Some(txid_of_hash(hash@))
        } else {
            None
        },
{
    if hash.len() != 32 {
        return None;
    }
    let lo = read_le16(hash, 0);
    let hi = read_le16(hash, 16);
    Some(Txid { hi, lo })
}

/// The 32 bytes of the hash of an identifier.
pub fn txid_to_hash(txid: Txid) -> (r: Vec<u8>)
    ensures
        r@ == hash_of_txid(txid),
{
    let mut out: Vec<u8> = Vec::new();
    push_le(&mut out, txid.lo, 16);
    push_le(&mut out, txid.hi, 16);
    assert(out@ =~= hash_of_txid(txid));
    out
}

/// The witness unlocks an output locked to `program`, in a transaction in
/// which the input's digest is `digest`: the public key hashes to the
/// program, and the signature is one of that key over the digest and says
/// that it covers everything.
pub open spec fn unlocks(program: Seq<u8>, digest: Seq<u8>, witness: WitnessView) -> bool {
    &&& witness.signature.len() >= 1
    &&& witness.signature.last() == SIGHASH_ALL
    &&& spec_hash160(witness.public_key) == program
    &&& spec_ecdsa_verifies(witness.public_key, digest, witness.signature.drop_last())
}

fn push_outpoint(out: &mut Vec<u8>, outpoint: OutPoint)
    ensures
        final(out)@ == old(out)@ + outpoint_bytes(outpoint),
{
    let ghost start = out@;
    push_le(out, outpoint.txid.lo, 16);
    push_le(out, outpoint.txid.hi, 16);
    push_le(out, outpoint.vout as u128, 4);
    assert(out@ =~= start + outpoint_bytes(outpoint));
}

fn push_output(out: &mut Vec<u8>, output: &TxOutput)
    ensures
        final(out)@ == old(out)@ + output_bytes(output@),
{
    let ghost start = out@;
    push_le(out, output.value as u128, 8);
    push_compact_size(out, output.script.len());
    push_bytes(out, &output.script);
    assert(out@ =~= start + output_bytes(output@));
}

fn push_witness(out: &mut Vec<u8>, witness: &Witness)
    ensures
        final(out)@ == old(out)@ + witness_bytes(witness@),
{
    let ghost start = out@;
    out.push(2u8);
    push_compact_size(out, witness.signature.len());
    push_bytes(out, &witness.signature);
    push_compact_size(out, witness.public_key.len());
    push_bytes(out, &witness.public_key);
    assert(out@ =~= start + witness_bytes(witness@));
}

fn push_inputs(out: &mut Vec<u8>, inputs: &Vec<Utxo>)
    ensures
        final(out)@ == old(out)@ + inputs_bytes(inputs@),
{
    let ghost start = out@;
    let mut i: usize = 0;
    assert(out@ =~= start + inputs_bytes(inputs@.subrange(0, 0)));
    while i < inputs.len()
        invariant
            i <= inputs@.len(),
            out@ == start + inputs_bytes(inputs@.subrange(0, i as int)),
        decreases inputs@.len() - i,
    {
        let ghost before = out@;
        push_outpoint(out, inputs[i].outpoint);
        out.push(0u8);
        push_le(out, SEQUENCE_FINAL as u128, 4);
        proof {
            let next = inputs@.subrange(0, i as int + 1);
            assert(next.drop_last() =~= inputs@.subrange(0, i as int));
            assert(next.last() == inputs@[i as int]);
            assert(out@ =~= start + inputs_bytes(next));
        }
        i += 1;
    }
    assert(inputs@.subrange(0, inputs@.len() as int) =~= inputs@);
}

fn push_outputs(out: &mut Vec<u8>, outputs: &Vec<TxOutput>)
    ensures
        final(out)@ == old(out)@ + outputs_bytes(outputs_view(outputs@)),
{
    let ghost start = out@;
    let ghost all = outputs_view(outputs@);
    let mut i: usize = 0;
    assert(out@ =~= start + outputs_bytes(all.subrange(0, 0)));
    while i < outputs.len()
        invariant
            i <= outputs@.len(),
            all == outputs_view(outputs@),
            out@ == start + outputs_bytes(all.subrange(0, i as int)),
        decreases outputs@.len() - i,
    {
        push_output(out, &outputs[i]);
        proof {
            let next = all.subrange(0, i as int + 1);
            assert(next.drop_last() =~= all.subrange(0, i as int));
            assert(next.last() == outputs@[i as int]@);
            assert(out@ =~= start + outputs_bytes(next));
        }
        i += 1;
    }
    assert(all.subrange(0, all.len() as int) =~= all);
}

fn push_witnesses(out: &mut Vec<u8>, witnesses: &Vec<Witness>)
    ensures
        final(out)@ == old(out)@ + witnesses_bytes(witnesses_view(witnesses@)),
{
    let ghost start = out@;
    let ghost all = witnesses_view(witnesses@);
    let mut i: usize = 0;
    assert(out@ =~= start + witnesses_bytes(all.subrange(0, 0)));
    while i < witnesses.len()
        invariant
            i <= witnesses@.len(),
            all == witnesses_view(witnesses@),
            out@ == start + witnesses_bytes(all.subrange(0, i as int)),
        decreases witnesses@.len() - i,
    {
        push_witness(out, &witnesses[i]);
        proof {
            let next = all.subrange(0, i as int + 1);
            assert(next.drop_last() =~= all.subrange(0, i as int));
            assert(next.last() == witnesses@[i as int]@);
            assert(out@ =~= start + witnesses_bytes(next));
        }
        i += 1;
    }
    assert(all.subrange(0, all.len() as int) =~= all);
}

/// The three hashes that the digests of all inputs of a transaction share.
pub(crate) struct SharedHashes {
    pub prevouts: Vec<u8>,
    pub sequences: Vec<u8>,
    pub outputs: Vec<u8>,
}

/// Hashes what the digests of all inputs share: the outpoints, the sequence
/// numbers and the outputs.
pub(crate) fn shared_hashes(inputs: &Vec<Utxo>, outputs: &Vec<TxOutput>) -> (r: SharedHashes)
    ensures
        r.prevouts@ == spec_sha256d(prevouts_bytes(inputs@)),
        r.sequences@ == spec_sha256d(sequences_bytes(inputs@.len())),
        r.outputs@ == spec_sha256d(outputs_bytes(outputs_view(outputs@))),
{
    let mut prevouts: Vec<u8> = Vec::new();
    let mut sequences: Vec<u8> = Vec::new();
    let mut i: usize = 0;
    while i < inputs.len()
        invariant
            i <= inputs@.len(),
            prevouts@ == prevouts_bytes(inputs@.subrange(0, i as int)),
            sequences@ == sequences_bytes(i as nat),
        decreases inputs@.len() - i,
    {
        push_outpoint(&mut prevouts, inputs[i].outpoint);
        push_le(&mut sequences, SEQUENCE_FINAL as u128, 4);
        proof {
            let next = inputs@.subrange(0, i as int + 1);
            assert(next.drop_last() =~= inputs@.subrange(0, i as int));
            assert(next.last() == inputs@[i as int]);
        }
        i += 1;
    }
    assert(inputs@.subrange(0, inputs@.len() as int) =~= inputs@);
    let mut serialized: Vec<u8> = Vec::new();
    push_outputs(&mut serialized, outputs);
    assert(serialized@ =~= outputs_bytes(outputs_view(outputs@)));
    SharedHashes {
        prevouts: sha256d(&prevouts),
        sequences: sha256d(&sequences),
        outputs: sha256d(&serialized),
    }
}

/// The digest that the signature of input `i` commits to, from the hashes
/// that all inputs share.
pub(crate) fn sighash(
    inputs: &Vec<Utxo>,
    outputs: &Vec<TxOutput>,
    shared: &SharedHashes,
    i: usize,
) -> (r: Vec<u8>)
    requires
        i < inputs@.len(),
        shared.prevouts@ == spec_sha256d(prevouts_bytes(inputs@)),
        shared.sequences@ == spec_sha256d(sequences_bytes(inputs@.len())),
        shared.outputs@ == spec_sha256d(outputs_bytes(outputs_view(outputs@))),
    ensures
        r@ == spec_sighash(inputs@, outputs_view(outputs@), i as int),
        r@.len() == 32,
{
    let input = inputs[i];
    let mut pre: Vec<u8> = Vec::new();
    push_le(&mut pre, TX_VERSION as u128, 4);
    push_bytes(&mut pre, &shared.prevouts);
    push_bytes(&mut pre, &shared.sequences);
    push_outpoint(&mut pre, input.outpoint);
    pre.push(0x19);
    pre.push(0x76);
    pre.push(0xa9);
    pre.push(0x14);
    push_program(&mut pre, &input.program);
    pre.push(0x88);
    pre.push(0xac);
    push_le(&mut pre, input.value as u128, 8);
    push_le(&mut pre, SEQUENCE_FINAL as u128, 4);
    push_bytes(&mut pre, &shared.outputs);
    push_le(&mut pre, LOCK_TIME as u128, 4);
    push_le(&mut pre, SIGHASH_ALL as u128, 4);
    assert(pre@ =~= sighash_preimage(inputs@, outputs_view(outputs@), i as int));
    sha256d(&pre)
}

/// The digest that the signature of input `i` commits to; `None` where the
/// transaction has no such input.
pub fn input_digest(inputs: &Vec<Utxo>, outputs: &Vec<TxOutput>, i: usize) -> (r: Option<Vec<u8>>)
    ensures
        match r {
            Some(d) => i < inputs@.len() && d@ == spec_sighash(
                inputs@,
                outputs_view(outputs@),
                i as int,
            ),
            None => i >= inputs@.len(),
        },
{
    if i >= inputs.len() {
        return None;
    }
    let shared = shared_hashes(inputs, outputs);
    Some(sighash(inputs, outputs, &shared, i))
}

/// The identifier of a transaction: the hash of the transaction without
/// its witnesses.
pub fn txid(inputs: &Vec<Utxo>, outputs: &Vec<TxOutput>) -> (r: Txid)
    ensures
        r == spec_txid(inputs@, outputs_view(outputs@)),
{
    let mut out: Vec<u8> = Vec::new();
    push_le(&mut out, TX_VERSION as u128, 4);
    push_compact_size(&mut out, inputs.len());
    push_inputs(&mut out, inputs);
    push_compact_size(&mut out, outputs.len());
    push_outputs(&mut out, outputs);
    push_le(&mut out, LOCK_TIME as u128, 4);
    assert(out@ =~= base_bytes(inputs@, outputs_view(outputs@)));
    let hash = sha256d(&out);
    Txid { lo: read_le16(&hash, 0), hi: read_le16(&hash, 16) }
}

/// The transaction as it goes to the network.
pub fn serialize(inputs: &Vec<Utxo>, outputs: &Vec<TxOutput>, witnesses: &Vec<Witness>) -> (r: Vec<
    u8,
>)
    ensures
        r@ == signed_bytes(inputs@, outputs_view(outputs@), witnesses_view(witnesses@)),
{
    let mut out: Vec<u8> = Vec::new();
    push_le(&mut out, TX_VERSION as u128, 4);
    out.push(0u8);
    out.push(1u8);
    push_compact_size(&mut out, inputs.len());
    push_inputs(&mut out, inputs);
    push_compact_size(&mut out, outputs.len());
    push_outputs(&mut out, outputs);
    push_witnesses(&mut out, witnesses);
    push_le(&mut out, LOCK_TIME as u128, 4);
    assert(out@ =~= signed_bytes(
        inputs@,
        outputs_view(outputs@),
        witnesses_view(witnesses@),
    ));
    out
}

} // verus!
