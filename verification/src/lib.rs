//! A verified replay engine for client payment transactions.
//!
//! The engine interprets five transaction kinds (deposit, withdrawal,
//! dispute, resolve, chargeback), keeps a ledger of historized transactions
//! so that later disputes can be resolved, and maintains per-client balances.
//! Amounts are fixed-point numbers counted in units of 1/10000, the
//! resolution of the report format.

pub mod assoc;
pub mod engine;
pub mod io;
pub mod laws;
pub mod numeric;
