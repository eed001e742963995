use wallet_core::primitives::{Branch, Network, OutPoint, Txid, MAX_MONEY};
use wallet_core::snapshot::{restore, snapshot, HEADER_LEN, RECORD_LEN};
use wallet_core::tracker::{ChainOutput, ChainReply, UtxoTracker};
use wallet_core::error::WalletError;
use wallet_core::wallet::{create_wallet, WalletConfig};

fn seen(n: u128, value: u64, branch: Branch, index: u32, height: Option<u32>) -> ChainOutput {
    ChainOutput {
        outpoint: OutPoint { txid: Txid { hi: n << 64, lo: n }, vout: n as u32 },
        value,
        branch,
        index,
        program: [n as u8; 20],
        height,
        spent: false,
    }
}

fn tracker() -> UtxoTracker {
    let mut t = UtxoTracker::new(7);
    let reply = ChainReply::Outputs(vec![
        seen(1, 5000, Branch::Receive, 0, Some(100)),
        seen(2, 3000, Branch::Change, 4, None),
        seen(u64::MAX as u128, 1, Branch::Receive, 9, Some(u32::MAX)),
    ]);
    assert!(t.apply_sync(&reply).is_ok());
    t.mark_pending(&vec![OutPoint { txid: Txid { hi: 2 << 64, lo: 2 }, vout: 2 }]);
    t
}

fn state(t: &UtxoTracker) -> (Vec<(OutPoint, u64, Branch, u32, [u8; 20], Option<u32>, bool)>, u32, u32, u32) {
    (
        t.utxos()
            .items()
            .iter()
            .map(|u| (u.outpoint, u.value, u.branch, u.index, u.program, u.height, u.pending_spend))
            .collect(),
        t.frontier(Branch::Receive),
        t.frontier(Branch::Change),
        t.gap_limit(),
    )
}

#[test]
fn snapshot_comes_back_as_it_was() {
    let t = tracker();
    let bytes = snapshot(&t);
    assert_eq!(bytes.len(), HEADER_LEN + 3 * RECORD_LEN);
    let back = restore(&bytes).unwrap();
    assert_eq!(state(&back), state(&t));
    assert_eq!(snapshot(&back), bytes);
    assert_eq!(back.balance(), t.balance());
    let empty = UtxoTracker::new(20);
    let bytes = snapshot(&empty);
    assert_eq!(bytes, vec![0x57, 0x4c, 0x54, 0x01, 20, 0, 0, 0, 0, 0, 0, 0, 0, 0, 0, 0, 0, 0, 0, 0, 0, 0, 0, 0]);
    assert_eq!(state(&restore(&bytes).unwrap()), state(&empty));
}

#[test]
fn snapshot_has_its_fields_in_place() {
    let mut t = UtxoTracker::new(0x0102_0304);
    let reply = ChainReply::Outputs(vec![ChainOutput {
        outpoint: OutPoint { txid: Txid { hi: 0xaa, lo: 0xbb }, vout: 0x0a0b_0c0d },
        value: 0x1122_3344,
        branch: Branch::Change,
        index: 5,
        program: [9u8; 20],
        height: Some(0x0100),
        spent: false,
    }]);
    assert!(t.apply_sync(&reply).is_ok());
    let bytes = snapshot(&t);
    assert_eq!(&bytes[4..8], &[4, 3, 2, 1]);
    assert_eq!(&bytes[8..12], &[0, 0, 0, 0]);
    assert_eq!(&bytes[12..16], &[6, 0, 0, 0]);
    assert_eq!(&bytes[16..24], &[1, 0, 0, 0, 0, 0, 0, 0]);
    let record = &bytes[24..];
    assert_eq!(record[0], 0xbb);
    assert_eq!(record[16], 0xaa);
    assert_eq!(&record[32..36], &[0x0d, 0x0c, 0x0b, 0x0a]);
    assert_eq!(&record[36..44], &[0x44, 0x33, 0x22, 0x11, 0, 0, 0, 0]);
    assert_eq!(record[44], 1);
    assert_eq!(&record[45..49], &[5, 0, 0, 0]);
    assert_eq!(&record[49..69], &[9u8; 20]);
    assert_eq!(record[69], 1);
    assert_eq!(&record[70..74], &[0, 1, 0, 0]);
    assert_eq!(record[74], 0);
}

#[test]
fn bytes_that_are_no_snapshot_are_refused() {
    let good = snapshot(&tracker());
    assert!(restore(&good).is_some());
    assert!(restore(&vec![]).is_none());
    assert!(restore(&good[..23].to_vec()).is_none());
    assert!(restore(&good[..good.len() - 1].to_vec()).is_none());
    let mut longer = good.clone();
    longer.push(0);
    assert!(restore(&longer).is_none());
    let change = |at: usize, to: u8| {
        let mut bytes = good.clone();
        bytes[at] = to;
        restore(&bytes)
    };
    assert!(change(0, 0x58).is_none());
    assert!(change(3, 0x02).is_none());
    assert!(change(16, 2).is_none());
    assert!(change(16, 4).is_none());
    assert!(change(23, 1).is_none());
    assert!(change(24 + 44, 2).is_none());
    assert!(change(24 + 69, 2).is_none());
    assert!(change(24 + 74, 2).is_none());
    assert!(change(24 + 75 + 70, 1).is_none());
    assert!(change(24 + 69, 0).is_none());
    assert!(change(11, 0x80).is_none());
    let mut at_the_limit = good.clone();
    at_the_limit[8] = 0;
    at_the_limit[11] = 0x80;
    assert_eq!(restore(&at_the_limit).unwrap().frontier(Branch::Receive), 0x8000_0000);
    at_the_limit[8] = 1;
    assert!(restore(&at_the_limit).is_none());
    assert!(change(15, 0x81).is_none());
    assert!(change(24 + 74, 1).is_some());
    assert!(change(4, 99).is_some());
}

#[test]
fn snapshot_of_an_impossible_set_is_refused() {
    let mut t = UtxoTracker::new(1);
    let reply = ChainReply::Outputs(vec![
        seen(1, 5000, Branch::Receive, 0, Some(100)),
        seen(2, 3000, Branch::Receive, 1, Some(100)),
    ]);
    assert!(t.apply_sync(&reply).is_ok());
    let good = snapshot(&t);
    let mut twice = good.clone();
    let first: Vec<u8> = good[24..24 + 36].to_vec();
    twice[24 + 75..24 + 75 + 36].copy_from_slice(&first);
    assert!(restore(&twice).is_none());
    let mut rich = good.clone();
    rich[24 + 36..24 + 44].copy_from_slice(&MAX_MONEY.to_le_bytes());
    assert!(restore(&rich).is_none());
    rich[24 + 36..24 + 44].copy_from_slice(&(MAX_MONEY - 3000).to_le_bytes());
    assert_eq!(restore(&rich).unwrap().balance(), MAX_MONEY);
}

#[test]
fn wallet_takes_its_state_from_a_snapshot() {
    let phrase = "abandon abandon abandon abandon abandon abandon abandon abandon abandon abandon abandon about";
    let mut config = WalletConfig::standard();
    config.gap_limit = 7;
    let mut w = create_wallet(Some(phrase), None, Network::Testnet, config).ok().unwrap().wallet;
    let bytes = snapshot(&tracker());
    assert!(w.restore(&bytes).is_ok());
    assert_eq!(w.balance(), 5001);
    assert_eq!(w.snapshot(), bytes);
    assert_eq!(w.tracker().frontier(Branch::Receive), 10);
    let other = snapshot(&UtxoTracker::new(8));
    assert!(matches!(w.restore(&other), Err(WalletError::InvalidSnapshot)));
    assert!(matches!(w.restore(&vec![1, 2, 3]), Err(WalletError::InvalidSnapshot)));
    assert_eq!(w.snapshot(), bytes);
    assert!(WalletError::InvalidSnapshot.is_retryable());
    assert_eq!(w.next_receive(), 0);
    w.resume_at(4);
    w.resume_at(2);
    assert_eq!(w.next_receive(), 4);
    let mut fresh = create_wallet(Some(phrase), None, Network::Testnet, config).ok().unwrap().wallet;
    for _ in 0..10 {
        assert!(fresh.address().is_ok());
    }
    assert_eq!(w.address().ok().unwrap(), fresh.address().ok().unwrap());
    assert_eq!(w.next_receive(), 11);
}

#[test]
fn tracker_from_parts() {
    let set = wallet_core::utxo_set::UtxoSet::new();
    assert!(UtxoTracker::from_parts(set.duplicate(), 0x8000_0001, 0, 20).is_none());
    assert!(UtxoTracker::from_parts(set.duplicate(), 0, 0x8000_0001, 20).is_none());
    let t = UtxoTracker::from_parts(set, 0x8000_0000, 3, 20).unwrap();
    assert_eq!(t.frontier(Branch::Receive), 0x8000_0000);
    assert_eq!(t.frontier(Branch::Change), 3);
    assert_eq!(t.gap_limit(), 20);
}
