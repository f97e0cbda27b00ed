//! The checks and plans behind the ledger's operations: whether a transfer
//! or a schedule may be recorded, and what reversing a transfer records.
use crate::ledger::ReversalError;
use crate::money::Cents;
use crate::transfer::{reversal_description, Transfer};
use crate::wallet::Wallet;
use vstd::prelude::*;

verus! {

/// Why a requested transfer or schedule was refused before anything was
/// recorded.
#[derive(Clone, Debug, PartialEq, Eq)]
pub enum RequestError {
    /// The amount is not positive.
    InvalidAmount,
    /// The named wallet is archived.
    WalletArchived(String),
    CurrencyMismatch { from_currency: String, to_currency: String },
    /// The source wallet may not go negative and holds less than required.
    InsufficientFunds { wallet_name: String, balance: Cents, required: Cents },
}

/// Whether money may move from `from` to `to` at all: a positive amount
/// between two active wallets of one currency.
pub open spec fn pair_accepts(from: Wallet, to: Wallet, amount: Cents) -> bool {
    &&& amount > 0
    &&& from.archived_at is None
    &&& to.archived_at is None
    &&& from.currency@ == to.currency@
}

/// Whether the source wallet can fund the amount: it may go negative, the
/// check is overridden, or its balance covers the amount.
pub open spec fn funds_suffice(from: Wallet, amount: Cents, from_balance: Cents, force: bool) -> bool {
    from.allow_negative || force || from_balance >= amount
}

/// What goes wrong first for a pair of wallets: the amount, then the source,
/// then the destination, then the currencies.
pub open spec fn pair_error_matches(r: RequestError, from: Wallet, to: Wallet, amount: Cents) -> bool {
    if amount <= 0 {
        r == RequestError::InvalidAmount
    } else if from.archived_at is Some {
        r matches RequestError::WalletArchived(n) && n@ == from.name@
    } else if to.archived_at is Some {
        r matches RequestError::WalletArchived(n) && n@ == to.name@
    } else {
        r matches RequestError::CurrencyMismatch { from_currency, to_currency }
            && from_currency@ == from.currency@ && to_currency@ == to.currency@
    }
}

fn check_pair(from: &Wallet, to: &Wallet, amount_cents: Cents) -> (r: Result<(), RequestError>)
    ensures
        r is Ok <==> pair_accepts(*from, *to, amount_cents),
        r matches Err(e) ==> pair_error_matches(e, *from, *to, amount_cents),
{
    if amount_cents <= 0 {
        return Err(RequestError::InvalidAmount);
    }
    if from.archived_at.is_some() {
        return Err(RequestError::WalletArchived(from.name.clone()));
    }
    if to.archived_at.is_some() {
        return Err(RequestError::WalletArchived(to.name.clone()));
    }
    if from.currency != to.currency {
        return Err(
            RequestError::CurrencyMismatch {
                from_currency: from.currency.clone(),
                to_currency: to.currency.clone(),
            },
        );
    }
    Ok(())
}

/// Whether a transfer of `amount_cents` from `from` to `to` may be recorded,
/// given the source's current balance; `force` overrides the funds check.
pub fn check_transfer_request(
    from: &Wallet,
    to: &Wallet,
    amount_cents: Cents,
    from_balance: Cents,
    force: bool,
) -> (r: Result<(), RequestError>)
    ensures
        r is Ok <==> pair_accepts(*from, *to, amount_cents) && funds_suffice(
            *from,
            amount_cents,
            from_balance,
            force,
        ),
        r matches Err(e) ==> if pair_accepts(*from, *to, amount_cents) {
            e matches RequestError::InsufficientFunds { wallet_name, balance, required }
                && wallet_name@ == from.name@ && balance == from_balance && required
                == amount_cents
        } else {
            pair_error_matches(e, *from, *to, amount_cents)
        },
{
    check_pair(from, to, amount_cents)?;
    if !from.allow_negative && !force && from_balance < amount_cents {
        return Err(
            RequestError::InsufficientFunds {
                wallet_name: from.name.clone(),
                balance: from_balance,
                required: amount_cents,
            },
        );
    }
    Ok(())
}

/// Whether a schedule moving `amount_cents` from `from` to `to` may be
/// created.
pub fn check_schedule_request(from: &Wallet, to: &Wallet, amount_cents: Cents) -> (r: Result<
    (),
    RequestError,
>)
    ensures
        r is Ok <==> pair_accepts(*from, *to, amount_cents),
        r matches Err(e) ==> pair_error_matches(e, *from, *to, amount_cents),
{
    check_pair(from, to, amount_cents)
}

/// Plans the reversal of `original`, of which `already_reversed` has been
/// reversed before: `requested` (the whole amount when absent) must be
/// positive, at most the original amount, and fit in what remains. The reversal swaps the wallets, carries
/// the original's category, and is partial iff it moves less than the
/// original did; the flag says which.
pub fn prepare_reversal(original: &Transfer, requested: Option<Cents>, already_reversed: Cents) -> (r:
    Result<(Transfer, bool), ReversalError>)
    requires
        original.wf(),
    ensures
        ({
            let amount = match requested {
                Some(a) => a,
                None => original.amount_cents,
            };
            &&& r is Ok <==> 0 < amount && amount <= original.amount_cents && already_reversed
                + amount <= original.amount_cents
            &&& r matches Err(e) ==> if amount > 0 {
                e == (ReversalError::ExceedsOriginalAmount {
                    original_amount: original.amount_cents,
                    already_reversed,
                    requested: amount,
                })
            } else {
                e == (ReversalError::NonPositiveAmount { requested: amount })
            }
            &&& r matches Ok((t, partial)) ==> {
                &&& partial == (amount != original.amount_cents)
                &&& t.is_fresh(original.to_wallet, original.from_wallet, amount)
                &&& t.timestamp.wf()
                &&& t.reverses == Some(original.id)
                &&& t.description matches Some(d) && d@ == reversal_description(
                    if partial {
                        "Partial reversal of: "@
                    } else {
                        "Reversal of: "@
                    },
                    original.description,
                )
                &&& t.category matches Some(c) ==> original.category matches Some(o) && c@ == o@
                &&& t.category is None ==> original.category is None
            }
        }),
{
    let amount = match requested {
        Some(a) => a,
        None => original.amount_cents,
    };
    if amount <= 0 {
        return Err(ReversalError::NonPositiveAmount { requested: amount });
    }
    if amount > original.amount_cents || (already_reversed as i128) + (amount as i128) > (
    original.amount_cents as i128) {
        return Err(
            ReversalError::ExceedsOriginalAmount {
                original_amount: original.amount_cents,
                already_reversed,
                requested: amount,
            },
        );
    }
    let partial = amount != original.amount_cents;
    let reversal = if partial {
        match original.create_partial_reversal(amount) {
            Ok(t) => t,
            Err(_) => {
                return Err(
                    ReversalError::ExceedsOriginalAmount {
                        original_amount: original.amount_cents,
                        already_reversed,
                        requested: amount,
                    },
                );
            },
        }
    } else {
        original.create_reversal()
    };
    let category = match &original.category {
        Some(c) => Some(c.clone()),
        None => None,
    };
    Ok((Transfer { category, ..reversal }, partial))
}

} // verus!
