//! Multi-period revenue deposit: an admin deposits revenue into
//! non-overlapping ledger periods, and the beneficiaries registered for a
//! period each claim `floor(revenue / beneficiary_count)` once it has ended.
//!
//! The crate holds the contract's state and every decision it makes, as a
//! verified state machine. The host environment (persistent storage,
//! authorization, the ledger sequence and token transfers) stays with the
//! caller, which hands the state machine the current ledger and performs the
//! token transfers that a successful call implies.

pub mod address;
pub mod types;
pub mod model;
pub mod contract;
pub mod laws;
pub mod request_laws;


pub use address::Address;
pub use types::{ContractError, Period};
pub use contract::RevenueDepositContract;
