use bdk::bitcoin::consensus::deserialize;
use bdk::bitcoin::secp256k1::{Message, PublicKey, Secp256k1, Signature};
use bdk::bitcoin::util::bip143::SigHashCache;
use bdk::bitcoin::{Script, SigHashType, Transaction};
use wallet_core::address::{destination_script, witness_program};
use wallet_core::builder::{
    BroadcastError, BroadcastOutcome, TransactionBuilder, TxError, TxState,
};
use wallet_core::coin_select::{select, Selection};
use wallet_core::descriptor::branch_path;
use wallet_core::fee::FeeRate;
use wallet_core::keys::{derive_private, ChildNumber, ExtendedKey};
use wallet_core::primitives::{Branch, Network, OutPoint, Txid, Utxo};
use wallet_core::seed::from_mnemonic;
use wallet_core::tx::{input_digest, txid_from_hash, txid_to_hash};
use wallet_core::utxo_set::UtxoSet;

const PHRASE: &str =
    "abandon abandon abandon abandon abandon abandon abandon abandon abandon abandon abandon about";

const RECIPIENT: &str = "tb1q6rz28mcfaxtmd6v789l9rrlrusdprr9pqcpvkl";

fn branch_keys() -> (ExtendedKey, ExtendedKey) {
    let master = from_mnemonic(PHRASE, "", Network::Testnet).ok().unwrap();
    let receive = derive_private(&master, &branch_path(false, 0, Branch::Receive)).ok().unwrap();
    let change = derive_private(&master, &branch_path(false, 0, Branch::Change)).ok().unwrap();
    (receive, change)
}

fn program_at(branch_key: &ExtendedKey, index: u32) -> [u8; 20] {
    let key = branch_key.child(ChildNumber { index, hardened: false }).ok().unwrap();
    witness_program(&key).unwrap()
}

fn utxo(n: u128, value: u64, branch: Branch, index: u32, program: [u8; 20]) -> Utxo {
    Utxo {
        outpoint: OutPoint { txid: Txid { hi: 0xabcd_0000_0000_0000_0000_0000_0000_0001, lo: n }, vout: 1 },
        value,
        branch,
        index,
        program,
        height: Some(100),
        pending_spend: false,
    }
}

fn wallet_set(values: &[u64]) -> UtxoSet {
    let (receive, _) = branch_keys();
    let mut set = UtxoSet::new();
    for (i, v) in values.iter().enumerate() {
        let u = utxo(i as u128 + 1, *v, Branch::Receive, i as u32, program_at(&receive, i as u32));
        assert!(set.insert(u).is_ok());
    }
    set
}

fn signed_builder(values: &[u64], target: u64, rate: FeeRate, dust: u64) -> TransactionBuilder {
    let (receive, change) = branch_keys();
    let set = wallet_set(values);
    let selection = select(&set, target, rate).ok().unwrap();
    let mut builder = TransactionBuilder::new();
    assert_eq!(builder.select_inputs(selection), Ok(()));
    let script = destination_script(RECIPIENT).ok().unwrap();
    assert_eq!(builder.set_outputs(script, program_at(&change, 0), dust), Ok(()));
    assert_eq!(builder.sign(&receive, &change), Ok(()));
    builder
}

fn check_with_bitcoin_crate(builder: &TransactionBuilder) {
    let finished = builder.finalize().ok().unwrap();
    let tx: Transaction = deserialize(&finished.bytes).unwrap();
    assert_eq!(tx.version, 2);
    assert_eq!(tx.lock_time, 0);
    assert_eq!(tx.txid().to_string(), format!("{:032x}{:032x}", finished.txid.hi, finished.txid.lo));
    assert_eq!(&tx.txid()[..], &txid_to_hash(finished.txid)[..]);
    assert_eq!(txid_from_hash(&tx.txid()[..].to_vec()), Some(finished.txid));
    assert_eq!(tx.input.len(), builder.inputs().len());
    assert_eq!(tx.output.len(), builder.outputs().len());
    for (i, output) in builder.outputs().iter().enumerate() {
        assert_eq!(tx.output[i].value, output.value);
        assert_eq!(tx.output[i].script_pubkey.as_bytes(), &output.script[..]);
    }
    assert!(input_digest(builder.inputs(), builder.outputs(), builder.inputs().len()).is_none());
    let secp = Secp256k1::new();
    let mut cache = SigHashCache::new(&tx);
    for (i, input) in builder.inputs().iter().enumerate() {
        let shown = format!("{:032x}{:032x}", input.outpoint.txid.hi, input.outpoint.txid.lo);
        assert_eq!(tx.input[i].previous_output.txid.to_string(), shown);
        assert_eq!(tx.input[i].previous_output.vout, input.outpoint.vout);
        assert_eq!(tx.input[i].sequence, 0xffff_ffff);
        assert!(tx.input[i].script_sig.is_empty());
        let witness = &tx.input[i].witness;
        assert_eq!(witness.len(), 2);
        assert_eq!(witness[0], builder.witnesses()[i].signature);
        assert_eq!(witness[1], builder.witnesses()[i].public_key);
        let mut code = vec![0x76u8, 0xa9, 0x14];
        code.extend_from_slice(&input.program);
        code.extend_from_slice(&[0x88, 0xac]);
        let digest = cache.signature_hash(i, &Script::from(code), input.value, SigHashType::All);
        assert_eq!(input_digest(builder.inputs(), builder.outputs(), i).unwrap(), digest[..].to_vec());
        let message = Message::from_slice(&digest[..]).unwrap();
        let (last, der) = witness[0].split_last().unwrap();
        assert_eq!(*last, 1);
        let signature = Signature::from_der(der).unwrap();
        let key = PublicKey::from_slice(&witness[1]).unwrap();
        assert!(secp.verify(&message, &signature, &key).is_ok());
    }
}

#[test]
fn single_input_payment_with_change() {
    let rate = FeeRate { base_fee: 132, fee_per_input: 68 };
    let builder = signed_builder(&[5000, 3000, 1000], 4000, rate, 546);
    assert_eq!(builder.state(), TxState::Signed);
    assert_eq!(builder.inputs().len(), 1);
    assert_eq!(builder.inputs()[0].value, 5000);
    assert_eq!(builder.fee(), 200);
    assert_eq!(builder.outputs().len(), 2);
    assert_eq!(builder.outputs()[0].value, 4000);
    assert_eq!(builder.outputs()[1].value, 800);
    check_with_bitcoin_crate(&builder);
}

#[test]
fn change_below_dust_goes_to_the_fee() {
    let rate = FeeRate { base_fee: 132, fee_per_input: 68 };
    let builder = signed_builder(&[5000, 4300, 1000], 4000, rate, 546);
    assert_eq!(builder.inputs().len(), 1);
    assert_eq!(builder.inputs()[0].value, 4300);
    assert_eq!(builder.outputs().len(), 1);
    assert_eq!(builder.outputs()[0].value, 4000);
    assert_eq!(builder.fee(), 300);
    check_with_bitcoin_crate(&builder);
}

#[test]
fn change_at_the_dust_threshold_is_kept() {
    let rate = FeeRate { base_fee: 200, fee_per_input: 0 };
    let builder = signed_builder(&[5000], 4254, rate, 546);
    assert_eq!(builder.outputs().len(), 2);
    assert_eq!(builder.outputs()[1].value, 546);
    assert_eq!(builder.fee(), 200);
    let below = signed_builder(&[5000], 4255, rate, 546);
    assert_eq!(below.outputs().len(), 1);
    assert_eq!(below.fee(), 745);
}

#[test]
fn several_inputs_are_all_signed() {
    let rate = FeeRate { base_fee: 100, fee_per_input: 50 };
    let builder = signed_builder(&[5000, 3000, 1000], 8500, rate, 546);
    assert_eq!(builder.inputs().len(), 3);
    assert_eq!(builder.fee(), 500);
    assert_eq!(builder.outputs().len(), 1);
    check_with_bitcoin_crate(&builder);
    let two = signed_builder(&[5000, 3000, 1000], 5500, rate, 100);
    assert_eq!(two.inputs().iter().map(|u| u.value).collect::<Vec<u64>>(), vec![5000, 1000]);
    assert_eq!(two.fee(), 200);
    assert_eq!(two.outputs()[1].value, 300);
    check_with_bitcoin_crate(&two);
}

#[test]
fn signing_twice_gives_the_same_transaction() {
    let rate = FeeRate { base_fee: 132, fee_per_input: 68 };
    let first = signed_builder(&[5000, 3000, 1000], 4000, rate, 546);
    let second = signed_builder(&[5000, 3000, 1000], 4000, rate, 546);
    assert_eq!(first.finalize().ok().unwrap().bytes, second.finalize().ok().unwrap().bytes);
    let (receive, change) = branch_keys();
    let mut again = first;
    let before = again.finalize().ok().unwrap().bytes;
    assert_eq!(again.sign(&receive, &change), Ok(()));
    assert_eq!(again.state(), TxState::Signed);
    assert_eq!(again.finalize().ok().unwrap().bytes, before);
}

#[test]
fn states_follow_one_another() {
    let (receive, change) = branch_keys();
    let set = wallet_set(&[5000]);
    let rate = FeeRate { base_fee: 200, fee_per_input: 0 };
    let mut builder = TransactionBuilder::new();
    assert_eq!(builder.state(), TxState::Empty);
    let script = destination_script(RECIPIENT).ok().unwrap();
    assert_eq!(builder.set_outputs(script.clone(), [0u8; 20], 546), Err(TxError::WrongState));
    assert_eq!(builder.sign(&receive, &change), Err(TxError::WrongState));
    assert!(matches!(builder.finalize(), Err(TxError::WrongState)));
    assert!(matches!(
        builder.record_broadcast(BroadcastOutcome::Accepted),
        Err(BroadcastError::WrongState)
    ));
    assert_eq!(builder.select_inputs(select(&set, 1000, rate).ok().unwrap()), Ok(()));
    assert_eq!(builder.state(), TxState::InputsSelected);
    assert_eq!(
        builder.select_inputs(select(&set, 1000, rate).ok().unwrap()),
        Err(TxError::WrongState)
    );
    assert_eq!(builder.sign(&receive, &change), Err(TxError::WrongState));
    assert_eq!(builder.set_outputs(script, program_at(&change, 0), 546), Ok(()));
    assert_eq!(builder.state(), TxState::OutputsSet);
    assert!(matches!(builder.finalize(), Err(TxError::WrongState)));
    assert_eq!(builder.sign(&receive, &change), Ok(()));
    assert_eq!(builder.state(), TxState::Signed);
    assert!(builder.record_broadcast(BroadcastOutcome::Accepted).is_ok());
    assert_eq!(builder.state(), TxState::Broadcast);
    assert!(builder.finalize().is_ok());
    assert_eq!(builder.sign(&receive, &change), Err(TxError::WrongState));
    let held = builder.abort();
    assert_eq!(held.len(), 1);
    assert_eq!(builder.state(), TxState::Empty);
    assert_eq!(builder.inputs().len(), 0);
}

#[test]
fn rejection_keeps_the_transaction_signed() {
    let rate = FeeRate { base_fee: 132, fee_per_input: 68 };
    let mut builder = signed_builder(&[5000, 3000, 1000], 4000, rate, 546);
    let outcome = BroadcastOutcome::Rejected(String::from("min relay fee not met"));
    match builder.record_broadcast(outcome) {
        Err(BroadcastError::Rejected(reason)) => assert_eq!(reason, "min relay fee not met"),
        _ => panic!("the rejection was not handed on"),
    }
    assert_eq!(builder.state(), TxState::Signed);
    assert_eq!(builder.input_outpoints().len(), 1);
}

#[test]
fn malformed_recipient_is_refused() {
    let set = wallet_set(&[5000]);
    let rate = FeeRate { base_fee: 200, fee_per_input: 0 };
    let mut builder = TransactionBuilder::new();
    assert_eq!(builder.select_inputs(select(&set, 1000, rate).ok().unwrap()), Ok(()));
    assert_eq!(builder.set_outputs(vec![], [0u8; 20], 546), Err(TxError::InvalidRecipient));
    assert_eq!(builder.set_outputs(vec![0x6a, 0x00], [0u8; 20], 546), Err(TxError::InvalidRecipient));
    assert_eq!(builder.state(), TxState::InputsSelected);
}

#[test]
fn wrong_key_is_a_missing_key() {
    let (receive, change) = branch_keys();
    let rate = FeeRate { base_fee: 200, fee_per_input: 0 };
    let mut set = UtxoSet::new();
    assert!(set.insert(utxo(1, 5000, Branch::Receive, 3, program_at(&receive, 0))).is_ok());
    let mut builder = TransactionBuilder::new();
    assert_eq!(builder.select_inputs(select(&set, 1000, rate).ok().unwrap()), Ok(()));
    let script = destination_script(RECIPIENT).ok().unwrap();
    assert_eq!(builder.set_outputs(script, program_at(&change, 0), 546), Ok(()));
    assert_eq!(builder.sign(&receive, &change), Err(TxError::MissingKey));
    assert_eq!(builder.state(), TxState::OutputsSet);
    assert_eq!(builder.witnesses().len(), 0);
    let public = receive.to_public().ok().unwrap();
    assert_eq!(builder.sign(&public, &change), Err(TxError::MissingKey));
    assert_eq!(builder.sign(&change, &receive), Err(TxError::MissingKey));
}

#[test]
fn invalid_selections_are_refused() {
    let (receive, _) = branch_keys();
    let a = utxo(1, 5000, Branch::Receive, 0, program_at(&receive, 0));
    let mut builder = TransactionBuilder::new();
    let empty = Selection { inputs: vec![], fee: 0, total: 0, target: 0 };
    assert_eq!(builder.select_inputs(empty), Err(TxError::InvalidSelection));
    let twice = Selection { inputs: vec![a, a], fee: 0, total: 10000, target: 1 };
    assert_eq!(builder.select_inputs(twice), Err(TxError::InvalidSelection));
    let wrong_total = Selection { inputs: vec![a], fee: 0, total: 6000, target: 1 };
    assert_eq!(builder.select_inputs(wrong_total), Err(TxError::InvalidSelection));
    let uncovered = Selection { inputs: vec![a], fee: 1001, total: 5000, target: 4000 };
    assert_eq!(builder.select_inputs(uncovered), Err(TxError::InvalidSelection));
    assert_eq!(builder.state(), TxState::Empty);
    let exact = Selection { inputs: vec![a], fee: 1000, total: 5000, target: 4000 };
    assert_eq!(builder.select_inputs(exact), Ok(()));
}

#[test]
fn identifiers_and_hashes_turn_into_one_another() {
    let mut hash = vec![0u8; 32];
    hash[0] = 0x01;
    hash[15] = 0x0f;
    hash[16] = 0x10;
    hash[31] = 0xff;
    let id = txid_from_hash(&hash).unwrap();
    assert_eq!(id.lo, 0x0f00_0000_0000_0000_0000_0000_0000_0001);
    assert_eq!(id.hi, 0xff00_0000_0000_0000_0000_0000_0000_0010);
    assert_eq!(txid_to_hash(id), hash);
    assert_eq!(txid_from_hash(&vec![0u8; 31]), None);
    assert_eq!(txid_from_hash(&vec![]), None);
    assert_eq!(txid_from_hash(&vec![0xffu8; 32]), Some(Txid { hi: u128::MAX, lo: u128::MAX }));
    assert_eq!(txid_to_hash(Txid { hi: 0, lo: 0 }), vec![0u8; 32]);
    let known = "4a5e1e4baab89f3a32518a88c31bc87f618f76673e2cc77ab2127b7afdeda33b";
    let parsed: bdk::bitcoin::Txid = std::str::FromStr::from_str(known).unwrap();
    let id = txid_from_hash(&parsed[..].to_vec()).unwrap();
    assert_eq!(format!("{:032x}{:032x}", id.hi, id.lo), known);
}
