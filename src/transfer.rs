//! Transfers: atomic, immutable movements of money between two wallets, and
//! the reversals that compensate them.
use crate::calendar::{now, Timestamp};
use crate::ids::{new_id, TransferId, WalletId};
use crate::money::Cents;
use crate::text::joined;
use vstd::prelude::*;

verus! {

/// A movement of `amount_cents` from `from_wallet` to `to_wallet`.
#[derive(Clone, Debug)]
pub struct Transfer {
    pub id: TransferId,
    /// Position in the ledger's total order; assigned when the transfer is
    /// stored, 0 before that.
    pub sequence: i64,
    /// Source wallet (its balance decreases).
    pub from_wallet: WalletId,
    /// Destination wallet (its balance increases).
    pub to_wallet: WalletId,
    /// Always positive.
    pub amount_cents: Cents,
    /// When the movement took place (it may be backdated).
    pub timestamp: Timestamp,
    /// When the transfer was entered.
    pub recorded_at: Timestamp,
    pub description: Option<String>,
    pub category: Option<String>,
    pub tags: Vec<String>,
    /// The transfer that this one reverses, if it is a reversal.
    pub reverses: Option<TransferId>,
    /// A reference outside the ledger (bank transaction, receipt number).
    pub external_ref: Option<String>,
}

/// Why a transfer could not be built.
#[derive(Clone, Copy, Debug, PartialEq, Eq, Structural)]
pub enum TransferError {
    /// Transfer amounts must be positive.
    NonPositiveAmount { amount: Cents },
    /// A partial reversal must move more than nothing and at most the
    /// original amount.
    ReversalAmountOutOfRange { original_amount: Cents, requested: Cents },
}

/// The description given to a reversal: `prefix` followed by the original's
/// description, or by `(no description)`.
pub open spec fn reversal_description(prefix: Seq<char>, original: Option<String>) -> Seq<char> {
    prefix + match original {
        Some(d) => d@,
        None => "(no description)"@,
    }
}

impl Transfer {
    /// A transfer carries a positive amount.
    pub open spec fn wf(self) -> bool {
        self.amount_cents > 0
    }

    /// The transfer as first built: wallets, amount, a fresh identifier, no
    /// sequence number yet, no tags and no outside reference.
    pub open spec fn is_fresh(self, from: WalletId, to: WalletId, amount: Cents) -> bool {
        &&& self.from_wallet == from
        &&& self.to_wallet == to
        &&& self.amount_cents == amount
        &&& self.sequence == 0
        &&& self.recorded_at.wf()
        &&& self.tags@.len() == 0
        &&& self.external_ref is None
    }

    /// A new transfer with a fresh identifier, recorded now. Fails unless the
    /// amount is positive.
    pub fn new(from_wallet: WalletId, to_wallet: WalletId, amount_cents: Cents, timestamp: Timestamp) -> (r:
        Result<Transfer, TransferError>)
        ensures
            r is Err <==> amount_cents <= 0,
            r matches Err(e) ==> e == (TransferError::NonPositiveAmount { amount: amount_cents }),
            r matches Ok(t) ==> {
                &&& t.is_fresh(from_wallet, to_wallet, amount_cents)
                &&& t.timestamp == timestamp
                &&& t.category is None
                &&& t.description is None
                &&& t.reverses is None
            },
    {
        if amount_cents <= 0 {
            return Err(TransferError::NonPositiveAmount { amount: amount_cents });
        }
        Ok(
            Transfer {
                id: new_id(),
                sequence: 0,
                from_wallet,
                to_wallet,
                amount_cents,
                timestamp,
                recorded_at: now(),
                description: None,
                category: None,
                tags: Vec::new(),
                reverses: None,
                external_ref: None,
            },
        )
    }

    pub fn with_description(self, description: &str) -> (r: Transfer)
        ensures
            r.description matches Some(d) && d@ == description@,
            r == (Transfer { description: r.description, ..self }),
    {
        Transfer { description: Some(description.to_owned()), ..self }
    }

    pub fn with_category(self, category: &str) -> (r: Transfer)
        ensures
            r.category matches Some(c) && c@ == category@,
            r == (Transfer { category: r.category, ..self }),
    {
        Transfer { category: Some(category.to_owned()), ..self }
    }

    pub fn with_tags(self, tags: Vec<String>) -> (r: Transfer)
        ensures
            r == (Transfer { tags, ..self }),
    {
        Transfer { tags, ..self }
    }

    pub fn with_reverses(self, original_id: TransferId) -> (r: Transfer)
        ensures
            r == (Transfer { reverses: Some(original_id), ..self }),
    {
        Transfer { reverses: Some(original_id), ..self }
    }

    pub fn with_external_ref(self, external_ref: &str) -> (r: Transfer)
        ensures
            r.external_ref matches Some(e) && e@ == external_ref@,
            r == (Transfer { external_ref: r.external_ref, ..self }),
    {
        Transfer { external_ref: Some(external_ref.to_owned()), ..self }
    }

    pub fn is_reversal(&self) -> (r: bool)
        ensures
            r == self.reverses is Some,
    {
        self.reverses.is_some()
    }

    fn reversal_of(&self, amount_cents: Cents, prefix: &str) -> (r: Transfer)
        requires
            amount_cents > 0,
        ensures
            r.is_fresh(self.to_wallet, self.from_wallet, amount_cents),
            r.timestamp.wf(),
            r.category is None,
            r.reverses == Some(self.id),
            r.description matches Some(d) && d@ == reversal_description(
                prefix@,
                self.description,
            ),
    {
        let original = match &self.description {
            Some(d) => d.as_str(),
            None => "(no description)",
        };
        let text = joined(prefix, original);
        let t = Transfer {
            id: new_id(),
            sequence: 0,
            from_wallet: self.to_wallet,
            to_wallet: self.from_wallet,
            amount_cents,
            timestamp: now(),
            recorded_at: now(),
            description: None,
            category: None,
            tags: Vec::new(),
            reverses: None,
            external_ref: None,
        };
        Transfer { reverses: Some(self.id), description: Some(text), ..t }
    }

    /// A transfer that undoes this one in full: the wallets swapped, the same
    /// amount, dated now.
    pub fn create_reversal(&self) -> (r: Transfer)
        requires
            self.wf(),
        ensures
            r.is_fresh(self.to_wallet, self.from_wallet, self.amount_cents),
            r.timestamp.wf(),
            r.category is None,
            r.reverses == Some(self.id),
            r.description matches Some(d) && d@ == reversal_description(
                "Reversal of: "@,
                self.description,
            ),
    {
        self.reversal_of(self.amount_cents, "Reversal of: ")
    }

    /// A transfer that undoes part of this one. Fails unless
    /// `0 < amount_cents <= self.amount_cents`.
    pub fn create_partial_reversal(&self, amount_cents: Cents) -> (r: Result<Transfer, TransferError>)
        ensures
            r is Err <==> !(0 < amount_cents <= self.amount_cents),
            r matches Err(e) ==> e == (TransferError::ReversalAmountOutOfRange {
                original_amount: self.amount_cents,
                requested: amount_cents,
            }),
            r matches Ok(t) ==> {
                &&& t.is_fresh(self.to_wallet, self.from_wallet, amount_cents)
                &&& t.timestamp.wf()
                &&& t.category is None
                &&& t.reverses == Some(self.id)
                &&& t.description matches Some(d) && d@ == reversal_description(
                    "Partial reversal of: "@,
                    self.description,
                )
            },
    {
        if !(0 < amount_cents && amount_cents <= self.amount_cents) {
            return Err(
                TransferError::ReversalAmountOutOfRange {
                    original_amount: self.amount_cents,
                    requested: amount_cents,
                },
            );
        }
        Ok(self.reversal_of(amount_cents, "Partial reversal of: "))
    }
}

} // verus!
