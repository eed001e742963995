use wallet_core::amount::{parse_amount, InvalidAmount};
use wallet_core::builder::{BroadcastError, TxError};
use wallet_core::coin_select::InsufficientFunds;
use wallet_core::descriptor::DescriptorError;
use wallet_core::encode::{push_bytes, push_compact_size, push_le, push_program};
use wallet_core::error::{
    from_amount, from_broadcast, from_derive, from_descriptor, from_funds, from_recipient, from_seed,
    from_sync, from_tx, ErrorClass, WalletError,
};
use wallet_core::keys::DeriveError;
use wallet_core::primitives::{Network, OutPoint, Txid};
use wallet_core::seed::SeedError;
use wallet_core::tracker::SyncError;

#[test]
fn amounts_are_decimal_digits() {
    assert_eq!(parse_amount("4000"), Ok(4000));
    assert_eq!(parse_amount("0"), Ok(0));
    assert_eq!(parse_amount("007"), Ok(7));
    assert_eq!(parse_amount("18446744073709551615"), Ok(u64::MAX));
    assert_eq!(parse_amount("18446744073709551616"), Err(InvalidAmount));
    assert_eq!(parse_amount("99999999999999999999999"), Err(InvalidAmount));
    assert_eq!(parse_amount(""), Err(InvalidAmount));
    assert_eq!(parse_amount(" 12"), Err(InvalidAmount));
    assert_eq!(parse_amount("12a"), Err(InvalidAmount));
    assert_eq!(parse_amount("-5"), Err(InvalidAmount));
    assert_eq!(parse_amount("1.5"), Err(InvalidAmount));
    assert_eq!(parse_amount("١٢"), Err(InvalidAmount));
}

#[test]
fn errors_fall_into_four_classes() {
    let input = [
        from_seed(SeedError::InvalidStrength),
        from_seed(SeedError::InvalidMnemonic),
        from_derive(DeriveError::InvalidPath),
        from_recipient(wallet_core::address::InvalidRecipient),
        from_amount(InvalidAmount),
        from_descriptor(DescriptorError::WrongNetwork),
        from_tx(TxError::WrongState),
        from_tx(TxError::InvalidSelection),
        from_broadcast(BroadcastError::WrongState),
    ];
    for e in input.iter() {
        assert_eq!(e.class(), ErrorClass::Input);
        assert!(!e.is_retryable());
        assert!(!e.aborts_build());
    }
    let resource = [from_sync(SyncError::ChainUnavailable), from_sync(SyncError::InvalidChainData)];
    for e in resource.iter() {
        assert_eq!(e.class(), ErrorClass::Resource);
        assert!(e.is_retryable());
    }
    let fund = [
        from_funds(InsufficientFunds { needed: 1200, available: 500 }),
        from_broadcast(BroadcastError::Rejected(String::from("fee too low"))),
    ];
    for e in fund.iter() {
        assert_eq!(e.class(), ErrorClass::Fund);
        assert!(!e.is_retryable());
    }
    let crypto = [
        from_seed(SeedError::UnusableSeed),
        from_derive(DeriveError::DerivationOverflow),
        from_derive(DeriveError::KeyRejected),
        from_descriptor(DescriptorError::KeyRejected),
        from_tx(TxError::MissingKey),
        from_tx(TxError::SignatureFailed),
    ];
    for e in crypto.iter() {
        assert_eq!(e.class(), ErrorClass::Crypto);
        assert!(e.aborts_build());
        assert!(!e.is_retryable());
    }
}

#[test]
fn failures_carry_their_numbers_and_reasons() {
    let e = from_funds(InsufficientFunds { needed: 1200, available: 500 });
    assert_eq!(e.shortfall(), Some(700));
    assert!(matches!(e, WalletError::InsufficientFunds { needed: 1200, available: 500 }));
    assert_eq!(from_funds(InsufficientFunds { needed: 0, available: 0 }).shortfall(), Some(0));
    assert_eq!(from_sync(SyncError::ChainUnavailable).shortfall(), None);
    match from_broadcast(BroadcastError::Rejected(String::from("txn-mempool-conflict"))) {
        WalletError::BroadcastRejected { reason } => assert_eq!(reason, "txn-mempool-conflict"),
        _ => panic!("the reason was lost"),
    }
    assert!(matches!(from_descriptor(DescriptorError::InvalidPath), WalletError::InvalidPath));
    assert!(matches!(from_descriptor(DescriptorError::DerivationOverflow), WalletError::DerivationOverflow));
    assert!(matches!(from_tx(TxError::InvalidRecipient), WalletError::InvalidRecipient));
    assert!(matches!(from_tx(TxError::InvalidSelection), WalletError::InvalidSelection));
    assert!(matches!(from_tx(TxError::WrongState), WalletError::BuildInProgress));
}

#[test]
fn networks_and_their_tags() {
    let all = [Network::Bitcoin, Network::Testnet, Network::Signet, Network::Regtest];
    for (i, n) in all.iter().enumerate() {
        assert_eq!(n.tag(), i as u8);
        assert_eq!(Network::from_tag(i as u8), Some(*n));
        assert_eq!(n.is_mainnet(), i == 0);
    }
    assert_eq!(Network::from_tag(4), None);
    assert_eq!(Network::from_tag(255), None);
}

#[test]
fn outpoints_are_ordered_by_identifier_then_number() {
    let op = |hi: u128, lo: u128, vout: u32| OutPoint { txid: Txid { hi, lo }, vout };
    assert!(op(0, 5, 9).precedes(op(1, 0, 0)));
    assert!(op(1, 4, 9).precedes(op(1, 5, 0)));
    assert!(op(1, 5, 0).precedes(op(1, 5, 1)));
    assert!(!op(1, 5, 1).precedes(op(1, 5, 1)));
    assert!(!op(1, 5, 1).precedes(op(1, 5, 0)));
    assert!(!op(2, 0, 0).precedes(op(1, u128::MAX, u32::MAX)));
}

fn compact(n: usize) -> Vec<u8> {
    let mut out = vec![0xee];
    push_compact_size(&mut out, n);
    assert_eq!(out[0], 0xee);
    out[1..].to_vec()
}

#[test]
fn lengths_in_the_compact_form() {
    assert_eq!(compact(0), vec![0]);
    assert_eq!(compact(252), vec![252]);
    assert_eq!(compact(253), vec![0xfd, 253, 0]);
    assert_eq!(compact(0xffff), vec![0xfd, 0xff, 0xff]);
    assert_eq!(compact(0x1_0000), vec![0xfe, 0, 0, 1, 0]);
    assert_eq!(compact(0xffff_ffff), vec![0xfe, 0xff, 0xff, 0xff, 0xff]);
    assert_eq!(compact(0x1_0000_0000), vec![0xff, 0, 0, 0, 0, 1, 0, 0, 0]);
}

#[test]
fn numbers_with_the_least_significant_byte_first() {
    let mut out = Vec::new();
    push_le(&mut out, 0x0102_0304, 4);
    assert_eq!(out, vec![4, 3, 2, 1]);
    push_le(&mut out, 0x0102_0304, 2);
    assert_eq!(out, vec![4, 3, 2, 1, 4, 3]);
    push_le(&mut out, 7, 0);
    assert_eq!(out.len(), 6);
    let mut wide = Vec::new();
    push_le(&mut wide, u128::MAX - 1, 16);
    assert_eq!(wide[0], 0xfe);
    assert_eq!(&wide[1..], &[0xffu8; 15]);
    push_le(&mut wide, 1, 18);
    assert_eq!(wide.len(), 34);
    assert_eq!(wide[16], 1);
    assert_eq!(&wide[17..], &[0u8; 17]);
    let mut bytes = vec![1u8];
    push_bytes(&mut bytes, &vec![2, 3]);
    push_program(&mut bytes, &[9u8; 20]);
    assert_eq!(bytes.len(), 23);
    assert_eq!(&bytes[..3], &[1, 2, 3]);
    assert_eq!(&bytes[3..], &[9u8; 20]);
}
