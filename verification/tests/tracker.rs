use wallet_core::keys::HARDENED;
use wallet_core::primitives::{Branch, OutPoint, Txid, MAX_MONEY};
use wallet_core::tracker::{ChainOutput, ChainReply, SyncError, UtxoTracker, DEFAULT_GAP_LIMIT};

fn seen(n: u128, value: u64, branch: Branch, index: u32, height: Option<u32>, spent: bool) -> ChainOutput {
    ChainOutput {
        outpoint: OutPoint { txid: Txid { hi: 7, lo: n }, vout: 0 },
        value,
        branch,
        index,
        program: [index as u8; 20],
        height,
        spent,
    }
}

fn snapshot(t: &UtxoTracker) -> (Vec<(u128, u64, Option<u32>, bool)>, u32, u32) {
    (
        t.utxos().items().iter().map(|u| (u.outpoint.txid.lo, u.value, u.height, u.pending_spend)).collect(),
        t.frontier(Branch::Receive),
        t.frontier(Branch::Change),
    )
}

#[test]
fn new_outputs_are_added_and_spent_ones_removed() {
    let mut t = UtxoTracker::new(DEFAULT_GAP_LIMIT);
    let first = ChainReply::Outputs(vec![
        seen(1, 5000, Branch::Receive, 0, Some(100), false),
        seen(2, 3000, Branch::Receive, 1, None, false),
        seen(3, 1000, Branch::Change, 0, Some(101), false),
    ]);
    let report = t.apply_sync(&first).ok().unwrap();
    assert_eq!(report.known_before, 0);
    assert_eq!(report.known_after, 3);
    assert_eq!(report.balance, 6000);
    assert_eq!(report.receive_frontier, 2);
    assert_eq!(report.change_frontier, 1);
    assert_eq!(t.balance(), 6000);
    assert_eq!(t.balance_with_unconfirmed(), 9000);
    let second = ChainReply::Outputs(vec![
        seen(1, 5000, Branch::Receive, 0, Some(100), true),
        seen(2, 3000, Branch::Receive, 1, Some(102), false),
        seen(4, 700, Branch::Receive, 5, Some(102), false),
    ]);
    let report = t.apply_sync(&second).ok().unwrap();
    assert_eq!(report.known_before, 3);
    assert_eq!(report.known_after, 3);
    assert_eq!(report.balance, 4700);
    assert_eq!(report.receive_frontier, 6);
    let ids: Vec<u128> = t.utxos().items().iter().map(|u| u.outpoint.txid.lo).collect();
    assert_eq!(ids, vec![2, 3, 4]);
    assert_eq!(t.utxos().get(0).unwrap().height, Some(102));
}

#[test]
fn unreachable_source_changes_nothing() {
    let mut t = UtxoTracker::new(5);
    assert!(t.apply_sync(&ChainReply::Outputs(vec![seen(1, 5000, Branch::Receive, 3, Some(1), false)])).is_ok());
    let before = snapshot(&t);
    assert_eq!(t.apply_sync(&ChainReply::Unreachable), Err(SyncError::ChainUnavailable));
    assert_eq!(snapshot(&t), before);
    assert!(t.apply_sync(&ChainReply::Outputs(vec![])).is_ok());
    assert_eq!(snapshot(&t), before);
}

#[test]
fn impossible_data_changes_nothing() {
    let mut t = UtxoTracker::new(5);
    assert!(t.apply_sync(&ChainReply::Outputs(vec![seen(1, 5000, Branch::Receive, 3, Some(1), false)])).is_ok());
    let before = snapshot(&t);
    let too_much = ChainReply::Outputs(vec![
        seen(2, 10, Branch::Receive, 9, Some(2), false),
        seen(1, 5000, Branch::Receive, 3, Some(1), true),
        seen(3, MAX_MONEY, Branch::Receive, 4, Some(2), false),
        seen(4, 10, Branch::Receive, 4, Some(2), false),
    ]);
    assert_eq!(t.apply_sync(&too_much), Err(SyncError::InvalidChainData));
    assert_eq!(snapshot(&t), before);
    let bad_index = ChainReply::Outputs(vec![
        seen(2, 10, Branch::Change, 9, Some(2), false),
        seen(5, 10, Branch::Change, HARDENED, Some(2), false),
    ]);
    assert_eq!(t.apply_sync(&bad_index), Err(SyncError::InvalidChainData));
    assert_eq!(snapshot(&t), before);
    let at_the_limit = ChainReply::Outputs(vec![
        seen(1, 5000, Branch::Receive, 3, Some(1), true),
        seen(3, MAX_MONEY, Branch::Receive, HARDENED - 1, Some(2), false),
    ]);
    let report = t.apply_sync(&at_the_limit).ok().unwrap();
    assert_eq!(report.balance, MAX_MONEY);
    assert_eq!(report.receive_frontier, HARDENED);
}

#[test]
fn window_follows_the_frontier() {
    let mut t = UtxoTracker::new(20);
    assert_eq!(t.window(Branch::Receive), 20);
    assert_eq!(t.window(Branch::Change), 20);
    assert!(t.apply_sync(&ChainReply::Outputs(vec![seen(1, 1, Branch::Receive, 19, None, true)])).is_ok());
    assert_eq!(t.frontier(Branch::Receive), 20);
    assert_eq!(t.window(Branch::Receive), 40);
    assert_eq!(t.window(Branch::Change), 20);
    assert_eq!(t.utxos().len(), 0);
    assert!(t.apply_sync(&ChainReply::Outputs(vec![seen(2, 1, Branch::Receive, 4, None, false)])).is_ok());
    assert_eq!(t.frontier(Branch::Receive), 20);
    let mut wide = UtxoTracker::new(u32::MAX);
    assert_eq!(wide.window(Branch::Receive), HARDENED);
    assert!(wide.apply_sync(&ChainReply::Outputs(vec![seen(1, 1, Branch::Change, HARDENED - 1, None, false)])).is_ok());
    assert_eq!(wide.frontier(Branch::Change), HARDENED);
    assert_eq!(wide.window(Branch::Change), HARDENED);
    let none = UtxoTracker::new(0);
    assert_eq!(none.window(Branch::Receive), 0);
}

#[test]
fn pending_marks_survive_a_new_height() {
    let mut t = UtxoTracker::new(20);
    assert!(t.apply_sync(&ChainReply::Outputs(vec![
        seen(1, 5000, Branch::Receive, 0, None, false),
        seen(2, 3000, Branch::Receive, 1, Some(5), false),
    ])).is_ok());
    let held = vec![OutPoint { txid: Txid { hi: 7, lo: 1 }, vout: 0 }];
    t.mark_pending(&held);
    assert!(t.apply_sync(&ChainReply::Outputs(vec![seen(1, 5000, Branch::Receive, 0, Some(6), false)])).is_ok());
    let u = t.utxos().get(0).unwrap();
    assert_eq!(u.height, Some(6));
    assert!(u.pending_spend);
    assert!(!u.is_spendable());
    t.release(&held);
    assert!(t.utxos().get(0).unwrap().is_spendable());
    assert_eq!(t.balance(), 8000);
}

#[test]
fn same_outpoint_twice_in_one_reply() {
    let mut t = UtxoTracker::new(20);
    let reply = ChainReply::Outputs(vec![
        seen(1, 5000, Branch::Receive, 0, None, false),
        seen(1, 5000, Branch::Receive, 0, Some(9), false),
        seen(2, 10, Branch::Receive, 1, Some(9), false),
        seen(2, 10, Branch::Receive, 1, Some(9), true),
        seen(3, 10, Branch::Receive, 2, Some(9), true),
    ]);
    let report = t.apply_sync(&reply).ok().unwrap();
    assert_eq!(report.known_after, 1);
    assert_eq!(report.balance, 5000);
    assert_eq!(report.receive_frontier, 3);
}
