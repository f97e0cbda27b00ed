//! Identifiers of wallets, transfers, schedules and budgets.
use vstd::prelude::*;

verus! {

/// A 128-bit identifier, as carried by a UUID.
pub type Id = u128;

pub type WalletId = Id;

pub type TransferId = Id;

/// Relies on uuid's `Uuid::new_v4`, read as a number by `Uuid::as_u128`: a
/// fresh random identifier, of which nothing further is promised.
#[verifier::external_body]
pub(crate) fn new_id() -> (r: Id) {
    uuid::Uuid::new_v4().as_u128()
}

} // verus!
