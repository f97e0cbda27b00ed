use ledger_core::wallet::{Wallet, WalletType};

#[test]
fn test_wallet_type_roundtrip() {
    for wt in [
        WalletType::Asset,
        WalletType::Liability,
        WalletType::Income,
        WalletType::Expense,
        WalletType::Equity,
    ] {
        let s = wt.as_str();
        let parsed = WalletType::from_str(s).unwrap();
        assert_eq!(wt, parsed);
    }
}

#[test]
fn test_liability_allows_negative_by_default() {
    let wallet = Wallet::new("Credit Card".into(), WalletType::Liability, "EUR".into());
    assert!(wallet.allow_negative);
}

#[test]
fn test_asset_disallows_negative_by_default() {
    let wallet = Wallet::new("Checking".into(), WalletType::Asset, "EUR".into());
    assert!(!wallet.allow_negative);
}

#[test]
fn test_external_wallets_allow_negative_by_default() {
    let income = Wallet::new("Salary".into(), WalletType::Income, "EUR".into());
    assert!(income.allow_negative);

    let expense = Wallet::new("Groceries".into(), WalletType::Expense, "EUR".into());
    assert!(expense.allow_negative);

    let equity = Wallet::new("Opening Balance".into(), WalletType::Equity, "EUR".into());
    assert!(equity.allow_negative);
}

#[test]
fn test_external_wallet_types() {
    assert!(!WalletType::Asset.is_external());
    assert!(!WalletType::Liability.is_external());
    assert!(WalletType::Income.is_external());
    assert!(WalletType::Expense.is_external());
    assert!(WalletType::Equity.is_external());
}

#[test]
fn wallet_type_names_ignore_case() {
    assert_eq!(WalletType::from_str("ASSET"), Some(WalletType::Asset));
    assert_eq!(WalletType::from_str("Liability"), Some(WalletType::Liability));
    assert_eq!(WalletType::from_str("cash"), None);
    assert_eq!(WalletType::from_lowercase("Income"), None);
    assert_eq!(WalletType::from_lowercase("income"), Some(WalletType::Income));
}

#[test]
fn wallet_builders_and_archive_state() {
    let wallet = Wallet::new("Checking".into(), WalletType::Asset, "EUR".into())
        .with_description("Main account")
        .with_allow_negative(true);
    assert_eq!(wallet.description, Some("Main account".to_string()));
    assert!(wallet.allow_negative);
    assert!(!wallet.is_archived());
    assert!(!wallet.is_external());
    assert_eq!(wallet.name, "Checking");
    assert_eq!(wallet.currency, "EUR");
}
