//! The abstract state of the contract and what each operation does to it.

use vstd::prelude::*;
use crate::types::{ContractError, Period};

verus! {

/// One period together with the addresses registered for it and the
/// addresses that have claimed from it, in the order they claimed.
#[verifier::ext_equal]
pub struct PeriodRecord {
    pub period: Period,
    pub beneficiaries: Seq<Seq<u8>>,
    pub claimants: Seq<Seq<u8>>,
}

/// The whole contract state: the admin and token set at initialisation, and
/// the periods in the order of their ids (the record at index `i` is the
/// period with id `i`).
#[verifier::ext_equal]
pub struct DepositModel {
    pub admin: Option<Seq<u8>>,
    pub token: Option<Seq<u8>>,
    pub records: Seq<PeriodRecord>,
}

/// The state of a contract that has just been deployed.
pub open spec fn empty_model() -> DepositModel {
    DepositModel { admin: None, token: None, records: Seq::empty() }
}

pub open spec fn is_initialized(m: DepositModel) -> bool {
    m.admin is Some
}

/// Whether the inclusive ledger range `[start, end]` shares a ledger with
/// the range of `p`.
pub open spec fn ranges_overlap(p: Period, start: u32, end: u32) -> bool {
    !(end < p.start_ledger || start > p.end_ledger)
}

/// Whether `[start, end]` shares a ledger with some existing period.
pub open spec fn overlaps_existing(m: DepositModel, start: u32, end: u32) -> bool {
    exists|i: int| 0 <= i < m.records.len() && ranges_overlap(#[trigger] m.records[i].period, start, end)
}

/// What holds of every state that the operations can reach.
pub open spec fn model_wf(m: DepositModel) -> bool {
    &&& (m.admin is Some) == (m.token is Some)
    &&& m.admin is None ==> m.records.len() == 0
    &&& m.records.len() <= u32::MAX
    &&& forall|i: int| 0 <= i < m.records.len() ==> record_wf(#[trigger] m.records[i], i)
    &&& forall|i: int, j: int|
        0 <= i < m.records.len() && 0 <= j < m.records.len() && i != j
            ==> !ranges_overlap(#[trigger] m.records[i].period,
                m.records[j].period.start_ledger, #[trigger] m.records[j].period.end_ledger)
}

/// What holds of the record of the period with id `i`.
pub open spec fn record_wf(r: PeriodRecord, i: int) -> bool {
    &&& r.period.id == i
    &&& r.period.start_ledger < r.period.end_ledger
    &&& r.period.revenue_amount > 0
    &&& r.period.claimed_amount >= 0
    &&& r.beneficiaries.no_duplicates()
    &&& r.claimants.no_duplicates()
}

pub open spec fn with_record(m: DepositModel, pid: int, r: PeriodRecord) -> DepositModel {
    DepositModel { records: m.records.update(pid, r), ..m }
}

/// `initialize(admin, token)`: only the first call succeeds.
pub open spec fn initialize_outcome(m: DepositModel, admin: Seq<u8>, token: Seq<u8>)
    -> (Result<(), ContractError>, DepositModel)
{
    if m.admin is Some {
        (Err(ContractError::AlreadyInitialized), m)
    } else {
        (Ok(()), DepositModel { admin: Some(admin), token: Some(token), records: Seq::empty() })
    }
}

/// The period that `create_period` records under the next id.
pub open spec fn new_period_record(id: u32, start: u32, end: u32, amount: i128) -> PeriodRecord {
    PeriodRecord {
        period: Period {
            id,
            start_ledger: start,
            end_ledger: end,
            revenue_amount: amount,
            claimed_amount: 0,
        },
        beneficiaries: Seq::empty(),
        claimants: Seq::empty(),
    }
}

/// `create_period(start, end, amount)` at ledger `ledger`: the checks in
/// order, and on success the new period under the next id. The period may
/// not start before the current ledger. A success also moves `amount` tokens
/// from the admin to the contract.
pub open spec fn create_period_outcome(m: DepositModel, start: u32, end: u32, amount: i128, ledger: u32)
    -> (Result<u32, ContractError>, DepositModel)
{
    if amount <= 0 || start >= end {
        (Err(ContractError::InvalidInput), m)
    } else if start < ledger {
        (Err(ContractError::InvalidInput), m)
    } else if overlaps_existing(m, start, end) {
        (Err(ContractError::PeriodOverlap), m)
    } else if m.records.len() >= u32::MAX {
        (Err(ContractError::Overflow), m)
    } else {
        let id = m.records.len() as u32;
        (Ok(id), DepositModel {
            records: m.records.push(new_period_record(id, start, end, amount)),
            ..m
        })
    }
}

/// `add_beneficiary(pid, b)`: registers `b` unless it is registered already.
pub open spec fn add_beneficiary_outcome(m: DepositModel, pid: u32, b: Seq<u8>)
    -> (Result<(), ContractError>, DepositModel)
{
    if pid >= m.records.len() {
        (Err(ContractError::PeriodNotFound), m)
    } else {
        let r = m.records[pid as int];
        if r.beneficiaries.contains(b) {
            (Ok(()), m)
        } else {
            (Ok(()), with_record(m, pid as int,
                PeriodRecord { beneficiaries: r.beneficiaries.push(b), ..r }))
        }
    }
}

/// `remove_beneficiary(pid, b)`: takes `b` out of the list, keeping the order
/// of the others.
pub open spec fn remove_beneficiary_outcome(m: DepositModel, pid: u32, b: Seq<u8>)
    -> (Result<(), ContractError>, DepositModel)
{
    if pid >= m.records.len() {
        (Err(ContractError::PeriodNotFound), m)
    } else {
        let r = m.records[pid as int];
        if !r.beneficiaries.contains(b) {
            (Err(ContractError::NotBeneficiary), m)
        } else {
            (Ok(()), with_record(m, pid as int,
                PeriodRecord { beneficiaries: r.beneficiaries.remove(r.beneficiaries.index_of(b)), ..r }))
        }
    }
}

/// The pro-rata share of a period's revenue among `count` beneficiaries.
pub open spec fn share_of(revenue: i128, count: nat) -> int {
    revenue as int / count as int
}

/// `claim(pid, a)` at ledger `ledger`: the checks in order, and on success the
/// share paid out, recorded as claimed by `a`. A success also moves the share
/// from the contract to `a`.
pub open spec fn claim_outcome(m: DepositModel, pid: u32, a: Seq<u8>, ledger: u32)
    -> (Result<i128, ContractError>, DepositModel)
{
    if pid >= m.records.len() {
        (Err(ContractError::PeriodNotFound), m)
    } else {
        let r = m.records[pid as int];
        if ledger <= r.period.end_ledger {
            (Err(ContractError::PeriodNotEnded), m)
        } else if r.beneficiaries.len() == 0 {
            (Err(ContractError::NoBeneficiaries), m)
        } else if !r.beneficiaries.contains(a) {
            (Err(ContractError::NotBeneficiary), m)
        } else if r.claimants.contains(a) {
            (Err(ContractError::AlreadyClaimed), m)
        } else {
            let share = share_of(r.period.revenue_amount, r.beneficiaries.len());
            if share <= 0 {
                (Err(ContractError::InvalidInput), m)
            } else if r.period.claimed_amount + share > i128::MAX {
                (Err(ContractError::Overflow), m)
            } else {
                (Ok(share as i128), with_record(m, pid as int, PeriodRecord {
                    period: Period {
                        claimed_amount: (r.period.claimed_amount + share) as i128,
                        ..r.period
                    },
                    claimants: r.claimants.push(a),
                    ..r
                }))
            }
        }
    }
}

/// `get_period(pid)`.
pub open spec fn get_period_spec(m: DepositModel, pid: u32) -> Result<Period, ContractError> {
    if pid < m.records.len() {
        Ok(m.records[pid as int].period)
    } else {
        Err(ContractError::PeriodNotFound)
    }
}

/// `get_period_ids()`: every id assigned so far, in the order assigned.
pub open spec fn period_ids_spec(m: DepositModel) -> Seq<u32> {
    Seq::new(m.records.len(), |i: int| i as u32)
}

/// `get_beneficiaries(pid)`.
pub open spec fn beneficiaries_spec(m: DepositModel, pid: u32) -> Result<Seq<Seq<u8>>, ContractError> {
    if pid < m.records.len() {
        Ok(m.records[pid as int].beneficiaries)
    } else {
        Err(ContractError::PeriodNotFound)
    }
}

/// `has_claimed(pid, a)`.
pub open spec fn has_claimed_spec(m: DepositModel, pid: u32, a: Seq<u8>) -> bool {
    pid < m.records.len() && m.records[pid as int].claimants.contains(a)
}

/// `unclaimed_summary()`: for each period in id order, its id and the
/// deposited amount not yet claimed.
pub open spec fn unclaimed_summary_spec(m: DepositModel) -> Seq<(u32, i128)> {
    Seq::new(m.records.len(), |i: int|
        (i as u32, (m.records[i].period.revenue_amount - m.records[i].period.claimed_amount) as i128))
}

} // verus!
