//! Wallets: named accounts, each of a type that sets its default
//! negative-balance policy.
use crate::calendar::{now, Timestamp};
use crate::ids::{new_id, WalletId};
use crate::text::{lowercase_of, same_text, to_lowercase};
use vstd::prelude::*;

verus! {

#[derive(Clone, Copy, Debug, PartialEq, Eq, Hash, Structural)]
pub enum WalletType {
    /// Bank accounts, cash, investments: what is owned.
    Asset,
    /// Credit cards, loans: what is owed.
    Liability,
    /// Where money comes from (employers, interest).
    Income,
    /// Where money goes (merchants, bills).
    Expense,
    /// Opening balances and adjustments.
    Equity,
}

/// The wallet type that a lower-case name stands for.
pub open spec fn wallet_type_named(s: Seq<char>) -> Option<WalletType> {
    if s == "asset"@ {
        Some(WalletType::Asset)
    } else if s == "liability"@ {
        Some(WalletType::Liability)
    } else if s == "income"@ {
        Some(WalletType::Income)
    } else if s == "expense"@ {
        Some(WalletType::Expense)
    } else if s == "equity"@ {
        Some(WalletType::Equity)
    } else {
        None
    }
}

impl WalletType {
    pub open spec fn name(self) -> Seq<char> {
        match self {
            WalletType::Asset => "asset"@,
            WalletType::Liability => "liability"@,
            WalletType::Income => "income"@,
            WalletType::Expense => "expense"@,
            WalletType::Equity => "equity"@,
        }
    }

    /// Income, expense and equity wallets stand for the world outside the
    /// ledger: money enters or leaves through them.
    pub open spec fn spec_is_external(self) -> bool {
        self is Income || self is Expense || self is Equity
    }

    pub fn as_str(&self) -> (r: &'static str)
        ensures
            r@ == self.name(),
    {
        match self {
            WalletType::Asset => "asset",
            WalletType::Liability => "liability",
            WalletType::Income => "income",
            WalletType::Expense => "expense",
            WalletType::Equity => "equity",
        }
    }

    /// The wallet type named by an already lower-case string.
    pub fn from_lowercase(s: &str) -> (r: Option<WalletType>)
        ensures
            r == wallet_type_named(s@),
    {
        if same_text(s, "asset") {
            Some(WalletType::Asset)
        } else if same_text(s, "liability") {
            Some(WalletType::Liability)
        } else if same_text(s, "income") {
            Some(WalletType::Income)
        } else if same_text(s, "expense") {
            Some(WalletType::Expense)
        } else if same_text(s, "equity") {
            Some(WalletType::Equity)
        } else {
            None
        }
    }

    /// The wallet type named by a string, in any letter case.
    pub fn from_str(s: &str) -> (r: Option<WalletType>)
        ensures
            r == wallet_type_named(lowercase_of(s@)),
    {
        let lower = to_lowercase(s);
        WalletType::from_lowercase(lower.as_str())
    }

    pub fn is_external(&self) -> (r: bool)
        ensures
            r == self.spec_is_external(),
    {
        match self {
            WalletType::Income | WalletType::Expense | WalletType::Equity => true,
            _ => false,
        }
    }
}

#[derive(Clone, Debug)]
pub struct Wallet {
    pub id: WalletId,
    pub name: String,
    pub wallet_type: WalletType,
    pub currency: String,
    /// Whether the balance may go below zero; by default only assets may not.
    pub allow_negative: bool,
    pub description: Option<String>,
    pub created_at: Timestamp,
    /// Set once the wallet is archived (soft-deleted).
    pub archived_at: Option<Timestamp>,
}

impl Wallet {
    /// A new, unarchived wallet with a fresh identifier, created now.
    pub fn new(name: String, wallet_type: WalletType, currency: String) -> (r: Wallet)
        ensures
            r.name == name,
            r.wallet_type == wallet_type,
            r.currency == currency,
            r.allow_negative == !(wallet_type is Asset),
            r.description is None,
            r.created_at.wf(),
            r.archived_at is None,
    {
        let allow_negative = match wallet_type {
            WalletType::Asset => false,
            _ => true,
        };
        Wallet {
            id: new_id(),
            name,
            wallet_type,
            currency,
            allow_negative,
            description: None,
            created_at: now(),
            archived_at: None,
        }
    }

    pub fn with_description(self, description: &str) -> (r: Wallet)
        ensures
            r.description matches Some(d) && d@ == description@,
            r == (Wallet { description: r.description, ..self }),
    {
        Wallet { description: Some(description.to_owned()), ..self }
    }

    pub fn with_allow_negative(self, allow: bool) -> (r: Wallet)
        ensures
            r == (Wallet { allow_negative: allow, ..self }),
    {
        Wallet { allow_negative: allow, ..self }
    }

    pub fn is_archived(&self) -> (r: bool)
        ensures
            r == self.archived_at is Some,
    {
        self.archived_at.is_some()
    }

    pub fn is_external(&self) -> (r: bool)
        ensures
            r == self.wallet_type.spec_is_external(),
    {
        self.wallet_type.is_external()
    }
}

} // verus!
