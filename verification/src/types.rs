use vstd::prelude::*;

verus! {

/// Metadata for a single revenue period.
#[derive(Clone, Copy, Debug, PartialEq, Eq, Structural)]
pub struct Period {
    /// Unique monotonically-increasing identifier.
    pub id: u32,
    /// Ledger sequence number at which the period opens (inclusive).
    pub start_ledger: u32,
    /// Ledger sequence number at which the period closes (inclusive).
    pub end_ledger: u32,
    /// Total token amount deposited for distribution this period.
    pub revenue_amount: i128,
    /// How many tokens have been claimed so far.
    pub claimed_amount: i128,
}

/// Canonical error codes returned by the contract's operations.
#[derive(Clone, Copy, Debug, PartialEq, Eq, PartialOrd, Ord, Structural)]
pub enum ContractError {
    /// Caller is not the admin.
    Unauthorized,
    /// Contract has already been initialised.
    AlreadyInitialized,
    /// The referenced period does not exist.
    PeriodNotFound,
    /// The period's end ledger has not been reached yet.
    PeriodNotEnded,
    /// The caller is not registered as a beneficiary for this period.
    NotBeneficiary,
    /// The caller has already claimed their share for this period.
    AlreadyClaimed,
    /// A period with overlapping ledger range already exists.
    PeriodOverlap,
    /// The supplied parameters are logically invalid (e.g. start > end, zero amount).
    InvalidInput,
    /// The revenue deposit failed (e.g. insufficient token balance).
    DepositFailed,
    /// Arithmetic overflow occurred.
    Overflow,
    /// No beneficiaries are registered; nothing to distribute.
    NoBeneficiaries,
}

/// The numeric code under which each error is published.
pub open spec fn error_code_spec(e: ContractError) -> u32 {
    match e {
        ContractError::Unauthorized => 1,
        ContractError::AlreadyInitialized => 2,
        ContractError::PeriodNotFound => 3,
        ContractError::PeriodNotEnded => 4,
        ContractError::NotBeneficiary => 5,
        ContractError::AlreadyClaimed => 6,
        ContractError::PeriodOverlap => 7,
        ContractError::InvalidInput => 8,
        ContractError::DepositFailed => 9,
        ContractError::Overflow => 10,
        ContractError::NoBeneficiaries => 11,
    }
}

impl ContractError {
    /// The numeric code of this error.
    pub fn code(self) -> (c: u32)
        ensures
            c == error_code_spec(self),
    {
        match self {
            ContractError::Unauthorized => 1,
            ContractError::AlreadyInitialized => 2,
            ContractError::PeriodNotFound => 3,
            ContractError::PeriodNotEnded => 4,
            ContractError::NotBeneficiary => 5,
            ContractError::AlreadyClaimed => 6,
            ContractError::PeriodOverlap => 7,
            ContractError::InvalidInput => 8,
            ContractError::DepositFailed => 9,
            ContractError::Overflow => 10,
            ContractError::NoBeneficiaries => 11,
        }
    }
}

} // verus!
