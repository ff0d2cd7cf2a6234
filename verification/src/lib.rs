//! Batch payment engine: applies an ordered stream of transactions to
//! per-client accounts and keeps a ledger of the transactions that later
//! disputes may refer to.
//!
//! Amounts are fixed-point integers counted in ten-thousandths of a currency
//! unit, so that balances are exact and render with four fractional digits.

pub mod account;
pub mod amount;
pub mod engine;
pub mod laws;
pub mod ledger;
pub mod table;
pub mod transaction;
