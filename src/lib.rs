//! A ledger engine that replays deposits, withdrawals and the dispute
//! lifecycle of client transactions, keeping per-client balances consistent.

pub mod amount;
pub mod transaction;
pub mod ledger;
