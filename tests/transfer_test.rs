use ledger_core::calendar::Timestamp;
use ledger_core::transfer::{Transfer, TransferError};

fn sample_wallet_ids() -> (u128, u128) {
    (11, 22)
}

fn noon() -> Timestamp {
    Timestamp::new(2024, 3, 1, 12, 0, 0).unwrap()
}

#[test]
fn test_create_transfer() {
    let (from, to) = sample_wallet_ids();
    let transfer = Transfer::new(from, to, 5000, noon())
        .unwrap()
        .with_description("Test transfer")
        .with_category("groceries");

    assert_eq!(transfer.amount_cents, 5000);
    assert_eq!(transfer.from_wallet, from);
    assert_eq!(transfer.to_wallet, to);
    assert_eq!(transfer.description, Some("Test transfer".to_string()));
    assert_eq!(transfer.category, Some("groceries".to_string()));
    assert!(!transfer.is_reversal());
}

#[test]
fn test_create_reversal() {
    let (from, to) = sample_wallet_ids();
    let original = Transfer::new(from, to, 5000, noon()).unwrap().with_description("Original");

    let reversal = original.create_reversal();

    assert_eq!(reversal.from_wallet, to);
    assert_eq!(reversal.to_wallet, from);
    assert_eq!(reversal.amount_cents, 5000);
    assert_eq!(reversal.reverses, Some(original.id));
    assert!(reversal.is_reversal());
    assert_eq!(reversal.description, Some("Reversal of: Original".to_string()));
}

#[test]
fn test_create_partial_reversal() {
    let (from, to) = sample_wallet_ids();
    let original = Transfer::new(from, to, 10000, noon()).unwrap();

    let partial = original.create_partial_reversal(3000).unwrap();

    assert_eq!(partial.amount_cents, 3000);
    assert_eq!(partial.reverses, Some(original.id));
    assert_eq!(partial.description, Some("Partial reversal of: (no description)".to_string()));
}

#[test]
fn test_transfer_requires_positive_amount() {
    let (from, to) = sample_wallet_ids();
    assert_eq!(
        Transfer::new(from, to, 0, noon()).unwrap_err(),
        TransferError::NonPositiveAmount { amount: 0 }
    );
    assert!(Transfer::new(from, to, -5, noon()).is_err());
}

#[test]
fn partial_reversal_out_of_range_is_refused() {
    let (from, to) = sample_wallet_ids();
    let original = Transfer::new(from, to, 10000, noon()).unwrap();
    assert_eq!(
        original.create_partial_reversal(10001).unwrap_err(),
        TransferError::ReversalAmountOutOfRange { original_amount: 10000, requested: 10001 }
    );
    assert!(original.create_partial_reversal(0).is_err());
    assert!(original.create_partial_reversal(10000).is_ok());
}

#[test]
fn transfer_builders_keep_other_fields() {
    let (from, to) = sample_wallet_ids();
    let t = Transfer::new(from, to, 700, noon())
        .unwrap()
        .with_tags(vec!["a".to_string(), "b".to_string()])
        .with_reverses(99)
        .with_external_ref("bank-1");
    assert_eq!(t.tags, vec!["a".to_string(), "b".to_string()]);
    assert_eq!(t.reverses, Some(99));
    assert_eq!(t.external_ref, Some("bank-1".to_string()));
    assert_eq!(t.timestamp, noon());
    assert_eq!(t.sequence, 0);
}
