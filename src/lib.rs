//! The core of a transfer-based ledger: money amounts, wallets, transfers and
//! their reversals, balances and integrity checks, recurring transfers and
//! budget periods.
pub mod budget;
pub mod calendar;
pub mod ids;
pub mod ledger;
pub mod money;
pub mod operations;
pub mod query;
pub mod schedule;
pub mod text;
pub mod transfer;
pub mod wallet;
