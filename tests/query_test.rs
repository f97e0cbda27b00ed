use ledger_core::calendar::Timestamp;
use ledger_core::query::{list_transfers_filtered, TransferQuery};
use ledger_core::transfer::Transfer;

fn day(d: u32, m: u32) -> Timestamp {
    Timestamp::new(2024, m, d, 12, 0, 0).unwrap()
}

fn sample() -> Vec<Transfer> {
    vec![
        Transfer::new(1, 2, 100000, day(1, 1)).unwrap(),
        Transfer::new(2, 3, 15000, day(10, 1)).unwrap().with_category("groceries"),
        Transfer::new(2, 4, 8500, day(15, 1)).unwrap().with_category("groceries"),
        Transfer::new(2, 5, 5000, day(20, 1)).unwrap().with_category("entertainment"),
        Transfer::new(2, 3, 20000, day(5, 2)).unwrap().with_category("groceries"),
    ]
}

fn query() -> TransferQuery {
    TransferQuery { wallet: None, category: None, from_date: None, to_date: None, limit: None }
}

#[test]
fn filter_by_date_range() {
    let transfers = sample();
    let q = TransferQuery {
        from_date: Some(Timestamp::new(2024, 1, 1, 0, 0, 0).unwrap()),
        to_date: Some(Timestamp::new(2024, 1, 31, 0, 0, 0).unwrap()),
        ..query()
    };
    assert_eq!(list_transfers_filtered(&transfers, &q), vec![0, 1, 2, 3]);
}

#[test]
fn filter_by_category_and_wallet() {
    let transfers = sample();
    let q = TransferQuery { category: Some("groceries".to_string()), ..query() };
    assert_eq!(list_transfers_filtered(&transfers, &q), vec![1, 2, 4]);
    let q = TransferQuery { wallet: Some(3), ..query() };
    assert_eq!(list_transfers_filtered(&transfers, &q), vec![1, 4]);
    let q = TransferQuery {
        wallet: Some(2),
        category: Some("groceries".to_string()),
        to_date: Some(day(31, 1)),
        ..query()
    };
    assert_eq!(list_transfers_filtered(&transfers, &q), vec![1, 2]);
}

#[test]
fn filter_respects_limit() {
    let transfers = sample();
    let q = TransferQuery { limit: Some(2), ..query() };
    assert_eq!(list_transfers_filtered(&transfers, &q), vec![0, 1]);
    let q = TransferQuery { limit: Some(0), ..query() };
    assert!(list_transfers_filtered(&transfers, &q).is_empty());
    assert_eq!(list_transfers_filtered(&transfers, &query()).len(), 5);
    assert!(list_transfers_filtered(&[], &query()).is_empty());
}
