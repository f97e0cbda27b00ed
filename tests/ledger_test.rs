use ledger_core::calendar::Timestamp;
use ledger_core::ledger::{
    build_integrity_report, compute_all_balances, compute_balance, total_reversed_amount,
    validate_reversal, IntegrityIssue, ReversalError,
};
use ledger_core::money::Cents;
use ledger_core::transfer::Transfer;
use ledger_core::wallet::{Wallet, WalletType};
use std::collections::HashMap;

fn make_transfer(from: u128, to: u128, amount: Cents) -> Transfer {
    Transfer::new(from, to, amount, Timestamp::new(2024, 1, 1, 9, 0, 0).unwrap()).unwrap()
}

#[test]
fn test_compute_balance_empty() {
    let wallet = 1u128;
    assert_eq!(compute_balance(wallet, &[]), 0);
}

#[test]
fn test_compute_balance_incoming() {
    let wallet = 1u128;
    let external = 2u128;
    let transfers = vec![make_transfer(external, wallet, 5000)];

    assert_eq!(compute_balance(wallet, &transfers), 5000);
}

#[test]
fn test_compute_balance_outgoing() {
    let wallet = 1u128;
    let external = 2u128;
    let transfers = vec![make_transfer(wallet, external, 3000)];

    assert_eq!(compute_balance(wallet, &transfers), -3000);
}

#[test]
fn test_compute_balance_mixed() {
    let checking = 1u128;
    let salary = 2u128;
    let groceries = 3u128;

    let transfers = vec![
        make_transfer(salary, checking, 5000),
        make_transfer(checking, groceries, 1500),
        make_transfer(checking, groceries, 500),
    ];

    assert_eq!(compute_balance(checking, &transfers), 3000);
    assert_eq!(compute_balance(salary, &transfers), -5000);
    assert_eq!(compute_balance(groceries, &transfers), 2000);
}

#[test]
fn test_compute_all_balances() {
    let checking = 1u128;
    let salary = 2u128;
    let groceries = 3u128;

    let transfers = vec![
        make_transfer(salary, checking, 5000),
        make_transfer(checking, groceries, 2000),
    ];

    let balances = compute_all_balances(&transfers);

    assert_eq!(balances.get(&checking), Some(&3000));
    assert_eq!(balances.get(&salary), Some(&-5000));
    assert_eq!(balances.get(&groceries), Some(&2000));
}

#[test]
fn test_balances_sum_to_zero() {
    let a = 1u128;
    let b = 2u128;
    let c = 3u128;

    let transfers = vec![
        make_transfer(a, b, 1000),
        make_transfer(b, c, 500),
        make_transfer(c, a, 200),
        make_transfer(a, c, 300),
    ];

    let balances = compute_all_balances(&transfers);
    let total: Cents = balances.values().sum();

    assert_eq!(total, 0, "All balances must sum to zero (closed system)");
}

#[test]
fn balances_of_many_wallets_sum_to_zero() {
    let mut transfers = Vec::new();
    for i in 0..40u128 {
        transfers.push(make_transfer(i % 7, (i * 3 + 1) % 11, (i as i64 + 1) * 137));
    }
    let balances = compute_all_balances(&transfers);
    let total: Cents = balances.values().sum();
    assert_eq!(total, 0);
    for (w, b) in &balances {
        assert_eq!(compute_balance(*w, &transfers), *b);
    }
}

#[test]
fn self_transfer_leaves_balance_unchanged() {
    let transfers = vec![make_transfer(5, 5, 800)];
    assert_eq!(compute_balance(5, &transfers), 0);
    assert_eq!(compute_all_balances(&transfers).get(&5), Some(&0));
}

#[test]
fn test_validate_reversal_success() {
    let original = make_transfer(1, 2, 10000);

    let result = validate_reversal(&original, 5000, &[]);
    assert!(result.is_ok());
}

#[test]
fn test_validate_reversal_exceeds_amount() {
    let original = make_transfer(1, 2, 10000);

    let result = validate_reversal(&original, 15000, &[]);
    assert!(matches!(result, Err(ReversalError::ExceedsOriginalAmount { .. })));
}

#[test]
fn test_validate_reversal_with_existing_partial() {
    let original = make_transfer(1, 2, 10000);

    let partial = original.create_partial_reversal(6000).unwrap();

    let result = validate_reversal(&original, 6000, &[partial]);
    assert!(matches!(result, Err(ReversalError::ExceedsOriginalAmount { .. })));
}

#[test]
fn accumulated_reversals_are_checked() {
    let original = make_transfer(1, 2, 10000);
    let first = original.create_partial_reversal(6000).unwrap();
    assert!(validate_reversal(&original, 6000, &[]).is_ok());
    let unrelated = make_transfer(2, 1, 9999).with_reverses(original.id + 1);
    let all = vec![first, unrelated];
    assert_eq!(total_reversed_amount(original.id, &all), 6000);
    assert_eq!(
        validate_reversal(&original, 6000, &all),
        Err(ReversalError::ExceedsOriginalAmount {
            original_amount: 10000,
            already_reversed: 6000,
            requested: 6000,
        })
    );
    assert!(validate_reversal(&original, 4000, &all).is_ok());
}

#[test]
fn integrity_report_of_a_balanced_ledger() {
    let checking = Wallet::new("Checking".into(), WalletType::Asset, "EUR".into());
    let salary = Wallet::new("Salary".into(), WalletType::Income, "EUR".into());
    let rent = Wallet::new("Rent".into(), WalletType::Expense, "EUR".into());
    let transfers = vec![
        make_transfer(salary.id, checking.id, 5000),
        make_transfer(checking.id, rent.id, 1200),
    ];
    let balances = compute_all_balances(&transfers);
    let wallets = vec![checking, salary, rent];
    let report = build_integrity_report(&wallets, &balances, 3, 2, false, 0, 0);
    assert!(report.is_healthy());
    assert_eq!(report.total_balance, 0);
    assert_eq!(report.wallet_count, 3);
    assert_eq!(report.transfer_count, 2);
    assert_eq!(
        report.balance_by_type,
        vec![(WalletType::Asset, 3800), (WalletType::Income, -5000), (WalletType::Expense, 1200)]
    );
}

#[test]
fn integrity_report_lists_every_issue() {
    let mut balances: HashMap<u128, Cents> = HashMap::new();
    balances.insert(1, 100);
    balances.insert(2, -30);
    let report = build_integrity_report(&[], &balances, 2, 9, true, 3, 4);
    assert!(!report.is_balanced);
    assert!(!report.is_healthy());
    assert_eq!(report.total_balance, 70);
    assert!(report.balance_by_type.is_empty());
    assert_eq!(
        report.issues,
        vec![
            IntegrityIssue::SequenceGaps,
            IntegrityIssue::InvalidWalletReferences(3),
            IntegrityIssue::InvalidAmounts(4),
            IntegrityIssue::UnbalancedLedger(70),
        ]
    );
}

#[test]
fn large_transfer_and_its_reversal_balance_out() {
    let big = make_transfer(1, 2, i64::MAX / 2 + 10);
    let back = big.create_reversal();
    let transfers = vec![big, back];
    assert_eq!(compute_balance(1, &transfers), 0);
    assert_eq!(compute_balance(2, &transfers), 0);
    let balances = compute_all_balances(&transfers);
    assert_eq!(balances.get(&1), Some(&0));
    assert_eq!(balances.get(&2), Some(&0));
    assert_eq!(total_reversed_amount(transfers[0].id, &transfers), i64::MAX / 2 + 10);
}
