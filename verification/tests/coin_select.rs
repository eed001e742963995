use wallet_core::coin_select::{select, InsufficientFunds};
use wallet_core::fee::{FeeRate, INPUT_VBYTES, TX_OVERHEAD_VBYTES};
use wallet_core::primitives::{Branch, OutPoint, Txid, Utxo, MAX_MONEY};
use wallet_core::utxo_set::{UtxoError, UtxoSet};

fn utxo(n: u128, value: u64) -> Utxo {
    Utxo {
        outpoint: OutPoint { txid: Txid { hi: 0, lo: n }, vout: 0 },
        value,
        branch: Branch::Receive,
        index: n as u32,
        program: [n as u8; 20],
        height: Some(10),
        pending_spend: false,
    }
}

fn set_of(values: &[u64]) -> UtxoSet {
    let mut set = UtxoSet::new();
    for (i, v) in values.iter().enumerate() {
        assert_eq!(set.insert(utxo(i as u128 + 1, *v)), Ok(()));
    }
    set
}

fn values(inputs: &[Utxo]) -> Vec<u64> {
    inputs.iter().map(|u| u.value).collect()
}

const FLAT_200: FeeRate = FeeRate { base_fee: 200, fee_per_input: 0 };

#[test]
fn single_input_cover_with_change() {
    let set = set_of(&[5000, 3000, 1000]);
    let rate = FeeRate { base_fee: 132, fee_per_input: 68 };
    let sel = select(&set, 4000, rate).ok().unwrap();
    assert_eq!(values(&sel.inputs), vec![5000]);
    assert_eq!(sel.fee, 200);
    assert_eq!(sel.total, 5000);
    assert_eq!(sel.target, 4000);
    assert_eq!(sel.total - sel.target - sel.fee, 800);
    let flat = select(&set, 4000, FLAT_200).ok().unwrap();
    assert_eq!(values(&flat.inputs), vec![5000]);
    assert_eq!(flat.total - flat.target - flat.fee, 800);
}

#[test]
fn insufficient_funds_reports_the_shortfall() {
    let set = set_of(&[500]);
    let rate = FeeRate { base_fee: 132, fee_per_input: 68 };
    let e = select(&set, 1000, rate).err().unwrap();
    assert_eq!(e, InsufficientFunds { needed: 1200, available: 500 });
    assert!(e.needed - e.available as u128 >= 500 + 200);
    let no_fee = select(&set, 1000, FeeRate { base_fee: 0, fee_per_input: 0 }).err().unwrap();
    assert_eq!(no_fee.needed - no_fee.available as u128, 500);
}

#[test]
fn smallest_sufficient_output_is_preferred() {
    let set = set_of(&[5000, 4300, 4200, 1000]);
    let sel = select(&set, 4000, FLAT_200).ok().unwrap();
    assert_eq!(values(&sel.inputs), vec![4200]);
    assert_eq!(sel.total - sel.target - sel.fee, 0);
}

#[test]
fn largest_first_until_one_suffices() {
    let set = set_of(&[1000, 5000, 3000, 2000]);
    let rate = FeeRate { base_fee: 100, fee_per_input: 50 };
    let sel = select(&set, 7000, rate).ok().unwrap();
    assert_eq!(values(&sel.inputs), vec![5000, 3000]);
    assert_eq!(sel.fee, 200);
    let sel = select(&set, 5500, rate).ok().unwrap();
    assert_eq!(values(&sel.inputs), vec![5000, 1000]);
    let sel = select(&set, 10000, rate).ok().unwrap();
    assert_eq!(values(&sel.inputs), vec![5000, 3000, 2000, 1000]);
    assert_eq!(sel.fee, 300);
    assert_eq!(sel.total, 11000);
}

#[test]
fn fee_grows_with_the_inputs() {
    let set = set_of(&[1000, 1000, 1000]);
    let rate = FeeRate { base_fee: 0, fee_per_input: 400 };
    let sel = select(&set, 1700, rate).ok().unwrap();
    assert_eq!(sel.inputs.len(), 3);
    assert_eq!(sel.fee, 1200);
    let e = select(&set, 1801, rate).err().unwrap();
    assert_eq!(e, InsufficientFunds { needed: 3001, available: 3000 });
}

#[test]
fn a_subset_may_cover_what_the_whole_set_cannot() {
    let set = set_of(&[10000, 1, 1, 1]);
    let rate = FeeRate { base_fee: 0, fee_per_input: 100 };
    let sel = select(&set, 9800, rate).ok().unwrap();
    assert_eq!(values(&sel.inputs), vec![10000]);
    assert!(10003 < 9800 + 4 * 100);
}

#[test]
fn ties_are_broken_by_outpoint() {
    let mut set = UtxoSet::new();
    assert!(set.insert(utxo(9, 2000)).is_ok());
    assert!(set.insert(utxo(3, 2000)).is_ok());
    assert!(set.insert(utxo(5, 2000)).is_ok());
    let zero = FeeRate { base_fee: 0, fee_per_input: 0 };
    let sel = select(&set, 1500, zero).ok().unwrap();
    assert_eq!(sel.inputs[0].outpoint.txid.lo, 3);
    let sel = select(&set, 5000, zero).ok().unwrap();
    let order: Vec<u128> = sel.inputs.iter().map(|u| u.outpoint.txid.lo).collect();
    assert_eq!(order, vec![3, 5, 9]);
    let mut same_tx = UtxoSet::new();
    let mut a = utxo(7, 100);
    a.outpoint.vout = 4;
    let mut b = utxo(7, 100);
    b.outpoint.vout = 2;
    assert!(same_tx.insert(a).is_ok());
    assert!(same_tx.insert(b).is_ok());
    let sel = select(&same_tx, 50, zero).ok().unwrap();
    assert_eq!(sel.inputs[0].outpoint.vout, 2);
    let mut high = UtxoSet::new();
    let mut c = utxo(1, 100);
    c.outpoint.txid.hi = 1;
    assert!(high.insert(c).is_ok());
    assert!(high.insert(utxo(u128::MAX, 100)).is_ok());
    let sel = select(&high, 50, zero).ok().unwrap();
    assert_eq!(sel.inputs[0].outpoint.txid.hi, 0);
}

#[test]
fn selection_is_repeatable_and_ignores_the_order_of_arrival() {
    let rate = FeeRate { base_fee: 100, fee_per_input: 50 };
    let forward = set_of(&[1000, 5000, 3000, 2000]);
    let mut backward = UtxoSet::new();
    for i in (0..4).rev() {
        assert!(backward.insert(forward.get(i).unwrap()).is_ok());
    }
    for target in [1, 900, 1000, 2500, 4800, 4900, 7000, 9000, 10700] {
        let a = select(&forward, target, rate).ok().unwrap();
        let b = select(&forward, target, rate).ok().unwrap();
        let c = select(&backward, target, rate).ok().unwrap();
        let ids = |inputs: &[Utxo]| inputs.iter().map(|u| u.outpoint).collect::<Vec<OutPoint>>();
        assert_eq!(ids(&a.inputs), ids(&b.inputs));
        assert_eq!(ids(&a.inputs), ids(&c.inputs));
        assert!(a.total >= target + a.fee);
    }
}

#[test]
fn unconfirmed_and_pending_outputs_are_passed_over() {
    let mut set = UtxoSet::new();
    let mut unconfirmed = utxo(1, 9000);
    unconfirmed.height = None;
    let mut pending = utxo(2, 8000);
    pending.pending_spend = true;
    assert!(set.insert(unconfirmed).is_ok());
    assert!(set.insert(pending).is_ok());
    assert!(set.insert(utxo(3, 1000)).is_ok());
    let zero = FeeRate { base_fee: 0, fee_per_input: 0 };
    assert_eq!(values(&select(&set, 900, zero).ok().unwrap().inputs), vec![1000]);
    assert_eq!(
        select(&set, 1001, zero).err().unwrap(),
        InsufficientFunds { needed: 1001, available: 1000 }
    );
}

#[test]
fn empty_set_has_nothing_to_select() {
    let set = UtxoSet::new();
    let e = select(&set, 1000, FLAT_200).err().unwrap();
    assert_eq!(e, InsufficientFunds { needed: 1200, available: 0 });
    let zero = FeeRate { base_fee: 0, fee_per_input: 0 };
    assert_eq!(select(&set, 0, zero).err().unwrap(), InsufficientFunds { needed: 0, available: 0 });
}

#[test]
fn exact_cover_leaves_nothing() {
    let set = set_of(&[4200, 1000]);
    let sel = select(&set, 4000, FLAT_200).ok().unwrap();
    assert_eq!(values(&sel.inputs), vec![4200]);
    assert_eq!(sel.total, sel.target + sel.fee);
    let all = select(&set, 5000, FLAT_200).ok().unwrap();
    assert_eq!(all.total, 5200);
    assert!(select(&set, 5001, FLAT_200).is_err());
}

#[test]
fn whole_set_that_covers_always_succeeds() {
    let rate = FeeRate { base_fee: 10, fee_per_input: 7 };
    let amounts: [u64; 6] = [13, 250, 8, 999, 40, 77];
    let set = set_of(&amounts);
    let sum: u64 = amounts.iter().sum();
    let full_fee = 10 + 7 * 6;
    for target in 0..=(sum - full_fee) {
        let sel = select(&set, target, rate).ok().unwrap();
        assert!(sel.total >= target + sel.fee);
        assert_eq!(sel.fee, 10 + 7 * sel.inputs.len() as u64);
        assert_eq!(sel.total, values(&sel.inputs).iter().sum::<u64>());
    }
}

#[test]
fn huge_fees_do_not_overflow() {
    let set = set_of(&[5000, 3000]);
    let rate = FeeRate { base_fee: u64::MAX, fee_per_input: u64::MAX };
    let e = select(&set, u64::MAX, rate).err().unwrap();
    assert_eq!(e.available, 8000);
    assert_eq!(e.needed, u64::MAX as u128 * 4);
}

#[test]
fn fee_rate_by_virtual_size() {
    let rate = FeeRate::from_sat_per_vbyte(2).unwrap();
    assert_eq!(rate, FeeRate { base_fee: 2 * TX_OVERHEAD_VBYTES, fee_per_input: 2 * INPUT_VBYTES });
    assert_eq!(rate.fee(1), 282);
    assert_eq!(rate.fee(3), 146 + 3 * 136);
    assert_eq!(FeeRate::from_sat_per_vbyte(0).unwrap().fee(10), 0);
    assert!(FeeRate::from_sat_per_vbyte(u64::MAX).is_none());
    assert!(FeeRate::from_sat_per_vbyte(u64::MAX / 73).is_some());
    assert!(FeeRate::from_sat_per_vbyte(u64::MAX / 73 + 1).is_none());
    let big = FeeRate { base_fee: u64::MAX, fee_per_input: u64::MAX };
    assert_eq!(big.fee(usize::MAX), u64::MAX as u128 * (usize::MAX as u128 + 1));
}

#[test]
fn set_refuses_duplicates_and_too_much_money() {
    let mut set = UtxoSet::new();
    assert_eq!(set.insert(utxo(1, MAX_MONEY - 10)), Ok(()));
    assert_eq!(set.insert(utxo(1, 5)), Err(UtxoError::DuplicateOutpoint));
    assert_eq!(set.insert(utxo(2, 11)), Err(UtxoError::ValueOutOfRange));
    assert_eq!(set.insert(utxo(2, 10)), Ok(()));
    assert_eq!(set.total(), MAX_MONEY);
    assert_eq!(set.len(), 2);
    assert_eq!(set.position(utxo(2, 0).outpoint), Some(1));
    assert!(set.contains(utxo(1, 0).outpoint));
    assert!(!set.contains(utxo(3, 0).outpoint));
    assert_eq!(set.remove(utxo(3, 0).outpoint).map(|u| u.value), None);
    assert_eq!(set.remove(utxo(1, 0).outpoint).map(|u| u.value), Some(MAX_MONEY - 10));
    assert_eq!(set.total(), 10);
    assert_eq!(set.len(), 1);
    assert!(set.get(1).is_none());
    assert_eq!(set.get(0).unwrap().value, 10);
    assert_eq!(set.insert(utxo(9, u64::MAX)), Err(UtxoError::ValueOutOfRange));
}

#[test]
fn pending_marks_and_heights() {
    let mut set = set_of(&[100, 200, 300]);
    let marked = vec![utxo(1, 0).outpoint, utxo(3, 0).outpoint, utxo(8, 0).outpoint];
    set.set_pending(&marked, true);
    let flags: Vec<bool> = set.items().iter().map(|u| u.pending_spend).collect();
    assert_eq!(flags, vec![true, false, true]);
    set.set_pending(&vec![utxo(3, 0).outpoint], false);
    let flags: Vec<bool> = set.items().iter().map(|u| u.pending_spend).collect();
    assert_eq!(flags, vec![true, false, false]);
    assert_eq!(set.confirmed_total(), 600);
    set.set_height(utxo(2, 0).outpoint, None);
    assert_eq!(set.confirmed_total(), 400);
    assert_eq!(set.total(), 600);
    set.set_height(utxo(2, 0).outpoint, Some(7));
    set.set_height(utxo(9, 0).outpoint, Some(7));
    assert_eq!(set.get(1).unwrap().height, Some(7));
    assert_eq!(set.duplicate().items().len(), 3);
}

#[test]
fn script_of_an_output_is_its_witness_program() {
    let u = utxo(4, 100);
    let mut expected = vec![0u8, 20];
    expected.extend_from_slice(&[4u8; 20]);
    assert_eq!(u.script(), expected);
    assert!(u.is_spendable());
    assert!(u.is_confirmed());
}
