use bdk::bitcoin::consensus::deserialize;
use bdk::bitcoin::Transaction;
use wallet_core::builder::{BroadcastOutcome, TxState};
use wallet_core::coin_select::select;
use wallet_core::error::WalletError;
use wallet_core::fee::FeeRate;
use wallet_core::primitives::{Branch, Network, OutPoint, Txid};
use wallet_core::snapshot::snapshot;
use wallet_core::tracker::{ChainOutput, ChainReply, UtxoTracker};
use wallet_core::wallet::{create_wallet, Wallet, WalletConfig, Watched};

const PHRASE: &str =
    "abandon abandon abandon abandon abandon abandon abandon abandon abandon abandon abandon about";

const RECIPIENT: &str = "tb1qw508d6qejxtdg4y5r3zarvary0c5xw7kxpjzsx";

fn config() -> WalletConfig {
    WalletConfig {
        fee_rate: FeeRate { base_fee: 132, fee_per_input: 68 },
        dust_threshold: 546,
        gap_limit: 5,
        account: 0,
    }
}

fn wallet() -> Wallet {
    create_wallet(Some(PHRASE), None, Network::Testnet, config()).ok().unwrap().wallet
}

fn paying(watched: &Watched, n: u128, value: u64, height: Option<u32>, spent: bool) -> ChainOutput {
    ChainOutput {
        outpoint: OutPoint { txid: Txid { hi: 0x11, lo: n }, vout: 0 },
        value,
        branch: watched.branch,
        index: watched.index,
        program: watched.program,
        height,
        spent,
    }
}

fn first_change(w: &Wallet) -> Watched {
    *w.watch_list().iter().find(|x| x.branch == Branch::Change).unwrap()
}

fn funded() -> Wallet {
    let mut w = wallet();
    let list = w.watch_list();
    let reply = ChainReply::Outputs(vec![
        paying(&list[0], 1, 5000, Some(100), false),
        paying(&list[1], 2, 3000, Some(101), false),
        paying(&list[2], 3, 1000, Some(102), false),
    ]);
    assert!(w.apply_sync(&reply).is_ok());
    w
}

#[test]
fn new_wallet_from_a_known_mnemonic() {
    let made = create_wallet(Some(PHRASE), None, Network::Testnet, config()).ok().unwrap();
    assert!(made.generated_phrase.is_none());
    let mut w = made.wallet;
    assert_eq!(w.network(), Network::Testnet);
    assert_eq!(w.balance(), 0);
    assert_eq!(w.name().len(), 16);
    assert!(w.receive_descriptor().starts_with("wpkh([73c5da0a/84'/1'/0'/0]tprv"));
    assert!(w.change_descriptor().starts_with("wpkh([73c5da0a/84'/1'/0'/1]tprv"));
    assert_eq!(w.address().ok().unwrap(), "tb1q6rz28mcfaxtmd6v789l9rrlrusdprr9pqcpvkl");
    assert_eq!(w.builder().state(), TxState::Empty);
    let same = wallet();
    assert_eq!(same.name(), w.name());
    let with_passphrase = create_wallet(Some(PHRASE), Some("x"), Network::Testnet, config()).ok().unwrap().wallet;
    assert_ne!(with_passphrase.name(), w.name());
}

#[test]
fn new_wallet_from_fresh_entropy() {
    let made = create_wallet(None, Some("random password"), Network::Testnet, WalletConfig::standard()).ok().unwrap();
    let phrase = made.generated_phrase.unwrap();
    assert_eq!(phrase.split(' ').count(), 12);
    let again = create_wallet(Some(&phrase), Some("random password"), Network::Testnet, WalletConfig::standard()).ok().unwrap();
    assert_eq!(again.wallet.name(), made.wallet.name());
    assert_eq!(again.wallet.receive_descriptor(), made.wallet.receive_descriptor());
    assert_eq!(made.wallet.config(), WalletConfig::standard());
    assert_eq!(WalletConfig::standard().fee_rate, FeeRate::from_sat_per_vbyte(1).unwrap());
}

#[test]
fn malformed_mnemonic_is_an_input_error() {
    let e = create_wallet(Some("abandon abandon"), None, Network::Testnet, config()).err().unwrap();
    assert!(matches!(e, WalletError::InvalidMnemonic));
    let mut c = config();
    c.account = 0x8000_0000;
    let e = create_wallet(Some(PHRASE), None, Network::Testnet, c).err().unwrap();
    assert!(matches!(e, WalletError::DerivationOverflow));
}

#[test]
fn addresses_are_handed_out_once() {
    let mut w = wallet();
    let first = w.address().ok().unwrap();
    let second = w.address().ok().unwrap();
    assert_eq!(first, "tb1q6rz28mcfaxtmd6v789l9rrlrusdprr9pqcpvkl");
    assert_eq!(second, "tb1qd7spv5q28348xl4myc8zmh983w5jx32cjhkn97");
    let list = w.watch_list();
    let reply = ChainReply::Outputs(vec![paying(&list[4], 9, 100, Some(1), false)]);
    assert!(w.apply_sync(&reply).is_ok());
    let mut fresh = wallet();
    for _ in 0..5 {
        assert!(fresh.address().is_ok());
    }
    assert_eq!(w.address().ok().unwrap(), fresh.address().ok().unwrap());
}

#[test]
fn watch_list_covers_both_chains_up_to_the_gap() {
    let mut w = wallet();
    let list = w.watch_list();
    assert_eq!(list.len(), 10);
    let mut handed = wallet();
    for _ in 0..3 {
        assert!(handed.address().is_ok());
    }
    assert_eq!(handed.watch_list().len(), 8 + 5);
    let shape: Vec<(Branch, u32)> = list.iter().map(|x| (x.branch, x.index)).collect();
    let mut expected: Vec<(Branch, u32)> = (0..5).map(|i| (Branch::Receive, i)).collect();
    expected.extend((0..5).map(|i| (Branch::Change, i)));
    assert_eq!(shape, expected);
    let script = wallet_core::address::destination_script("tb1q6rz28mcfaxtmd6v789l9rrlrusdprr9pqcpvkl").ok().unwrap();
    assert_eq!(&script[2..], &list[0].program[..]);
    let reply = ChainReply::Outputs(vec![paying(&list[3], 1, 100, Some(1), false)]);
    assert!(w.apply_sync(&reply).is_ok());
    assert_eq!(w.watch_list().len(), 9 + 5);
}

#[test]
fn balance_counts_confirmed_outputs() {
    let mut w = wallet();
    let list = w.watch_list();
    let reply = ChainReply::Outputs(vec![
        paying(&list[0], 1, 5000, Some(100), false),
        paying(&list[1], 2, 3000, None, false),
        paying(&list[5], 3, 1000, Some(102), false),
    ]);
    let report = w.apply_sync(&reply).ok().unwrap();
    assert_eq!(report.balance, 6000);
    assert_eq!(w.balance(), 6000);
    assert_eq!(w.tracker().balance_with_unconfirmed(), 9000);
    assert!(matches!(w.apply_sync(&ChainReply::Unreachable), Err(WalletError::ChainUnavailable)));
    assert_eq!(w.balance(), 6000);
}

#[test]
fn payment_is_built_signed_and_sent() {
    let mut w = funded();
    let tx = w.prepare_send(RECIPIENT, 4000).ok().unwrap();
    assert_eq!(w.builder().state(), TxState::Signed);
    assert_eq!(w.builder().fee(), 200);
    let parsed: Transaction = deserialize(&tx.bytes).unwrap();
    assert_eq!(parsed.input.len(), 1);
    assert_eq!(parsed.output.len(), 2);
    assert_eq!(parsed.output[0].value, 4000);
    assert_eq!(parsed.output[1].value, 800);
    assert_eq!(parsed.txid().to_string(), format!("{:032x}{:032x}", tx.txid.hi, tx.txid.lo));
    let change = first_change(&w);
    assert_eq!(change.index, 0);
    assert_eq!(&parsed.output[1].script_pubkey.as_bytes()[2..], &change.program[..]);
    let marks: Vec<bool> = w.tracker().utxos().items().iter().map(|u| u.pending_spend).collect();
    assert_eq!(marks, vec![true, false, false]);
    let id = w.complete_send(BroadcastOutcome::Accepted).ok().unwrap();
    assert_eq!(id, tx.txid);
    assert_eq!(w.builder().state(), TxState::Broadcast);
}

#[test]
fn signed_inputs_are_not_offered_again() {
    let mut w = funded();
    assert!(w.prepare_send(RECIPIENT, 4000).is_ok());
    let held = w.builder().input_outpoints();
    let rate = FeeRate { base_fee: 0, fee_per_input: 0 };
    for target in [1, 1000, 3000, 4000] {
        let again = select(w.tracker().utxos(), target, rate).ok().unwrap();
        assert!(again.inputs.iter().all(|u| !held.contains(&u.outpoint)));
    }
    let e = select(w.tracker().utxos(), 4001, rate).err().unwrap();
    assert_eq!(e.available, 4000);
    let list = w.watch_list();
    let reply = ChainReply::Outputs(vec![
        paying(&list[0], 1, 5000, Some(100), true),
        paying(&list[0], 1, 5000, Some(100), false),
    ]);
    assert!(w.apply_sync(&reply).is_ok());
    assert!(w.tracker().utxos().contains(held[0]));
    let again = select(w.tracker().utxos(), 4000, rate).ok().unwrap();
    assert!(again.inputs.iter().all(|u| !held.contains(&u.outpoint)));
    w.abort_send();
    let freed = select(w.tracker().utxos(), 4000, rate).ok().unwrap();
    assert_eq!(freed.inputs[0].outpoint, held[0]);
}

#[test]
fn one_build_at_a_time() {
    let mut w = funded();
    assert!(w.prepare_send(RECIPIENT, 500).is_ok());
    assert!(matches!(w.prepare_send(RECIPIENT, 500), Err(WalletError::BuildInProgress)));
    assert!(w.complete_send(BroadcastOutcome::Accepted).is_ok());
    assert!(matches!(w.prepare_send(RECIPIENT, 500), Err(WalletError::BuildInProgress)));
    assert!(matches!(w.complete_send(BroadcastOutcome::Accepted), Err(WalletError::NothingSigned)));
    w.abort_send();
    assert!(w.prepare_send(RECIPIENT, 500).is_ok());
}

#[test]
fn rejected_payment_is_not_tried_again() {
    let mut w = funded();
    let tx = w.prepare_send(RECIPIENT, 4000).ok().unwrap();
    let outcome = BroadcastOutcome::Rejected(String::from("min relay fee not met"));
    match w.complete_send(outcome) {
        Err(WalletError::BroadcastRejected { reason }) => assert_eq!(reason, "min relay fee not met"),
        _ => panic!("the rejection was not handed on"),
    }
    assert_eq!(w.builder().state(), TxState::Signed);
    assert!(w.tracker().utxos().get(0).unwrap().pending_spend);
    assert_eq!(w.balance(), 9000);
    assert_eq!(w.complete_send(BroadcastOutcome::Accepted).ok().unwrap(), tx.txid);
    w.abort_send();
    assert_eq!(w.builder().state(), TxState::Empty);
    assert!(!w.tracker().utxos().get(0).unwrap().pending_spend);
}

#[test]
fn failures_leave_the_wallet_as_it_was() {
    let mut w = funded();
    assert!(matches!(w.prepare_send("nonsense", 4000), Err(WalletError::InvalidRecipient)));
    assert_eq!(w.builder().state(), TxState::Empty);
    match w.prepare_send(RECIPIENT, 9000) {
        Err(WalletError::InsufficientFunds { needed, available }) => {
            assert_eq!(available, 9000);
            assert_eq!(needed, 9000 + 132 + 3 * 68);
        }
        _ => panic!("the funds should not suffice"),
    }
    assert_eq!(w.builder().state(), TxState::Empty);
    assert!(w.tracker().utxos().items().iter().all(|u| !u.pending_spend));
    assert!(matches!(w.complete_send(BroadcastOutcome::Accepted), Err(WalletError::NothingSigned)));
    let list = w.watch_list();
    let mut wrong = paying(&list[0], 7, 50_000, Some(5), false);
    wrong.program = [9u8; 20];
    assert!(matches!(
        w.apply_sync(&ChainReply::Outputs(vec![paying(&list[1], 8, 1, Some(5), false), wrong])),
        Err(WalletError::InvalidChainData)
    ));
    assert_eq!(w.balance(), 9000);
    assert_eq!(w.tracker().utxos().len(), 3);
    let mut foreign = UtxoTracker::new(5);
    assert!(foreign.apply_sync(&ChainReply::Outputs(vec![wrong])).is_ok());
    assert!(w.restore(&snapshot(&foreign)).is_ok());
    assert_eq!(w.balance(), 50_000);
    assert!(matches!(w.prepare_send(RECIPIENT, 20_000), Err(WalletError::MissingKey)));
    assert_eq!(w.builder().state(), TxState::Empty);
    assert!(w.tracker().utxos().items().iter().all(|u| !u.pending_spend));
    let mut again = funded();
    assert!(again.prepare_send(RECIPIENT, 4000).is_ok());
}

#[test]
fn spent_inputs_leave_with_the_next_sync() {
    let mut w = funded();
    assert!(w.prepare_send(RECIPIENT, 4000).is_ok());
    assert!(w.complete_send(BroadcastOutcome::Accepted).is_ok());
    let list = w.watch_list();
    let reply = ChainReply::Outputs(vec![
        paying(&list[0], 1, 5000, Some(100), true),
        ChainOutput {
            outpoint: OutPoint { txid: Txid { hi: 0x22, lo: 1 }, vout: 1 },
            value: 800,
            branch: Branch::Change,
            index: 0,
            program: first_change(&w).program,
            height: Some(103),
            spent: false,
        },
    ]);
    let report = w.apply_sync(&reply).ok().unwrap();
    assert_eq!(report.balance, 4800);
    assert_eq!(report.change_frontier, 1);
    assert_eq!(first_change(&w).index, 0);
    w.abort_send();
    assert!(matches!(
        w.prepare_send(RECIPIENT, 4500),
        Err(WalletError::InsufficientFunds { needed: 4836, available: 4800 })
    ));
    let tx = w.prepare_send(RECIPIENT, 4400).ok().unwrap();
    let parsed: Transaction = deserialize(&tx.bytes).unwrap();
    assert_eq!(parsed.input.len(), 3);
    assert_eq!(parsed.output.len(), 1);
    assert_eq!(w.builder().fee(), 400);
}

#[test]
fn wallet_of_a_master_key() {
    let main = wallet_core::seed::from_mnemonic(PHRASE, "", Network::Bitcoin).ok().unwrap();
    let opened = Wallet::open(&main, Network::Bitcoin, config()).ok().unwrap();
    assert!(opened.receive_descriptor().starts_with("wpkh([73c5da0a/84'/0'/0'/0]xprv"));
    assert!(matches!(Wallet::open(&main, Network::Testnet, config()), Err(WalletError::WrongNetwork)));
    let test = wallet_core::seed::from_mnemonic(PHRASE, "", Network::Testnet).ok().unwrap();
    assert!(matches!(Wallet::open(&test, Network::Bitcoin, config()), Err(WalletError::WrongNetwork)));
    assert!(Wallet::open(&test, Network::Regtest, config()).is_ok());
    let public = test.to_public().ok().unwrap();
    assert!(matches!(Wallet::open(&public, Network::Testnet, config()), Err(WalletError::InvalidPath)));
    let mut data = vec![0u8; 78];
    data[..4].copy_from_slice(&[0x04, 0x35, 0x83, 0x94]);
    let unusable = wallet_core::keys::ExtendedKey::from_master_data(data).unwrap();
    assert!(matches!(Wallet::open(&unusable, Network::Testnet, config()), Err(WalletError::KeyRejected)));
}
