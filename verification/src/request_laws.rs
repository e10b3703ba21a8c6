//! Which requests the contract grants, and what its readers report after
//! each operation, stated over the inputs and results of the operations.

use vstd::prelude::*;
use crate::types::{ContractError, Period};
use crate::model::{
    DepositModel, model_wf, record_wf, initialize_outcome, create_period_outcome, add_beneficiary_outcome,
    remove_beneficiary_outcome, claim_outcome, get_period_spec, beneficiaries_spec,
    has_claimed_spec, period_ids_spec, unclaimed_summary_spec,
};

verus! {

/// Every eligible claim is paid: when the period exists and has ended, the
/// claimant is registered and has not claimed yet, its share
/// `revenue / beneficiary_count` is positive and fits on top of what has been
/// claimed, the claim returns that share. It does not matter who claimed
/// before or in which order. Afterwards the claimant counts as having
/// claimed, the period reports the share added to its claimed amount, and
/// no other claim record changes.
pub proof fn law_claim_pays_every_eligible_beneficiary(m: DepositModel, pid: u32, a: Seq<u8>, ledger: u32)
    requires
        pid < m.records.len(),
        ledger > m.records[pid as int].period.end_ledger,
        m.records[pid as int].beneficiaries.contains(a),
        !m.records[pid as int].claimants.contains(a),
        m.records[pid as int].period.revenue_amount as int / m.records[pid as int].beneficiaries.len() as int > 0,
        m.records[pid as int].period.claimed_amount
            + m.records[pid as int].period.revenue_amount as int / m.records[pid as int].beneficiaries.len() as int
            <= i128::MAX,
    ensures
        ({
            let p = m.records[pid as int].period;
            let share = p.revenue_amount as int / m.records[pid as int].beneficiaries.len() as int;
            let after = claim_outcome(m, pid, a, ledger).1;
            &&& claim_outcome(m, pid, a, ledger).0 == Ok::<i128, ContractError>(share as i128)
            &&& has_claimed_spec(after, pid, a)
            &&& get_period_spec(after, pid) == Ok::<Period, ContractError>(
                    Period { claimed_amount: (p.claimed_amount + share) as i128, ..p })
            &&& forall|q: u32, x: Seq<u8>| !(q == pid && x == a) ==>
                    has_claimed_spec(after, q, x) == has_claimed_spec(m, q, x)
        }),
{
    let r = m.records[pid as int];
    let after = claim_outcome(m, pid, a, ledger).1;
    assert(after.records[pid as int].claimants == r.claimants.push(a));
    assert(after.records[pid as int].claimants[r.claimants.len() as int] == a);
    assert forall|q: u32, x: Seq<u8>| !(q == pid && x == a) implies
        has_claimed_spec(after, q, x) == has_claimed_spec(m, q, x) by {
        if q == pid {
            let c = r.claimants;
            let c2 = after.records[pid as int].claimants;
            if c.contains(x) {
                let i = choose|i: int| 0 <= i < c.len() && c[i] == x;
                assert(c2[i] == x);
            }
            if c2.contains(x) {
                let i = choose|i: int| 0 <= i < c2.len() && c2[i] == x;
                assert(i < c.len());
                assert(c[i] == x);
            }
        }
    }
}

/// A claim is refused exactly when some condition of eligibility fails.
pub proof fn law_claim_refused_only_when_ineligible(m: DepositModel, pid: u32, a: Seq<u8>, ledger: u32)
    requires
        claim_outcome(m, pid, a, ledger).0 is Err,
    ensures
        ({
            let r = m.records[pid as int];
            ||| pid >= m.records.len()
            ||| ledger <= r.period.end_ledger
            ||| !r.beneficiaries.contains(a)
            ||| r.claimants.contains(a)
            ||| r.period.revenue_amount as int / r.beneficiaries.len() as int <= 0
            ||| r.period.claimed_amount + r.period.revenue_amount as int / r.beneficiaries.len() as int > i128::MAX
        }),
        claim_outcome(m, pid, a, ledger).1 == m,
{
}

/// Every valid request for a period is granted: with a positive amount, a
/// start before the end and not before the current ledger, a range that
/// shares no ledger with any existing period, and room for another id, the
/// period is created under the next id. It then reads back with the given
/// range and amount and nothing claimed, with no beneficiaries and no
/// claims, and the id list gains it at the end.
pub proof fn law_create_period_grants_every_valid_request(
    m: DepositModel,
    start: u32,
    end: u32,
    amount: i128,
    ledger: u32,
)
    requires
        amount > 0,
        start < end,
        start >= ledger,
        forall|k: int| 0 <= k < m.records.len() ==>
            end < (#[trigger] m.records[k]).period.start_ledger || start > m.records[k].period.end_ledger,
        m.records.len() < u32::MAX,
    ensures
        ({
            let id = m.records.len() as u32;
            let after = create_period_outcome(m, start, end, amount, ledger).1;
            &&& create_period_outcome(m, start, end, amount, ledger).0 == Ok::<u32, ContractError>(id)
            &&& get_period_spec(after, id) == Ok::<Period, ContractError>(Period {
                    id, start_ledger: start, end_ledger: end, revenue_amount: amount, claimed_amount: 0 })
            &&& beneficiaries_spec(after, id) == Ok::<Seq<Seq<u8>>, ContractError>(Seq::empty())
            &&& forall|x: Seq<u8>| !has_claimed_spec(after, id, x)
            &&& period_ids_spec(after) == period_ids_spec(m).push(id)
            &&& forall|q: u32| q != id ==> get_period_spec(after, q) == get_period_spec(m, q)
            &&& forall|q: u32| q != id ==> beneficiaries_spec(after, q) == beneficiaries_spec(m, q)
        }),
{
    let after = create_period_outcome(m, start, end, amount, ledger).1;
    assert(period_ids_spec(after) =~= period_ids_spec(m).push(m.records.len() as u32));
}

/// A request for a range that shares a ledger with an existing period is
/// refused with `PeriodOverlap`, once the amount and the range are valid.
pub proof fn law_create_period_refuses_overlap(
    m: DepositModel,
    start: u32,
    end: u32,
    amount: i128,
    ledger: u32,
    k: int,
)
    requires
        amount > 0,
        start < end,
        start >= ledger,
        0 <= k < m.records.len(),
        end >= m.records[k].period.start_ledger,
        start <= m.records[k].period.end_ledger,
    ensures
        create_period_outcome(m, start, end, amount, ledger).0 == Err::<u32, ContractError>(ContractError::PeriodOverlap),
        create_period_outcome(m, start, end, amount, ledger).1 == m,
{
    assert(crate::model::ranges_overlap(m.records[k].period, start, end));
}

/// Registering for an existing period always succeeds: afterwards the
/// address is registered, a new address is appended at the end of the list
/// and an address already there leaves the list as it was. Nothing else
/// changes: no other period's list, no period's data, no claim record. For a
/// period that does not exist the answer is `PeriodNotFound` and nothing
/// changes.
pub proof fn law_add_beneficiary_always_registers(m: DepositModel, pid: u32, b: Seq<u8>)
    ensures
        pid >= m.records.len() ==> add_beneficiary_outcome(m, pid, b)
            == (Err::<(), ContractError>(ContractError::PeriodNotFound), m),
        pid < m.records.len() ==> ({
            let list = m.records[pid as int].beneficiaries;
            let after = add_beneficiary_outcome(m, pid, b).1;
            &&& add_beneficiary_outcome(m, pid, b).0 == Ok::<(), ContractError>(())
            &&& beneficiaries_spec(after, pid) == Ok::<Seq<Seq<u8>>, ContractError>(
                    if list.contains(b) { list } else { list.push(b) })
            &&& beneficiaries_spec(after, pid)->Ok_0.contains(b)
            &&& forall|q: u32| q != pid ==> beneficiaries_spec(after, q) == beneficiaries_spec(m, q)
            &&& forall|q: u32| get_period_spec(after, q) == get_period_spec(m, q)
            &&& forall|q: u32, x: Seq<u8>| has_claimed_spec(after, q, x) == has_claimed_spec(m, q, x)
        }),
{
    if pid < m.records.len() {
        let list = m.records[pid as int].beneficiaries;
        if !list.contains(b) {
            assert(list.push(b)[list.len() as int] == b);
        }
    }
}

/// Removing a registered address from an existing period always succeeds,
/// whether or not it has claimed: afterwards it is no longer registered, the
/// list is the old list without that one entry, in the same order, and
/// every other address keeps its registration. Claim records, period data
/// and other periods' lists do not change. An address that is not
/// registered is answered with `NotBeneficiary`, a missing period with
/// `PeriodNotFound`, and then nothing changes.
pub proof fn law_remove_beneficiary_unregisters(m: DepositModel, pid: u32, b: Seq<u8>)
    requires
        model_wf(m),
    ensures
        pid >= m.records.len() ==> remove_beneficiary_outcome(m, pid, b)
            == (Err::<(), ContractError>(ContractError::PeriodNotFound), m),
        pid < m.records.len() && !m.records[pid as int].beneficiaries.contains(b)
            ==> remove_beneficiary_outcome(m, pid, b)
                == (Err::<(), ContractError>(ContractError::NotBeneficiary), m),
        pid < m.records.len() && m.records[pid as int].beneficiaries.contains(b) ==> ({
            let list = m.records[pid as int].beneficiaries;
            let after = remove_beneficiary_outcome(m, pid, b).1;
            let new_list = beneficiaries_spec(after, pid)->Ok_0;
            &&& remove_beneficiary_outcome(m, pid, b).0 == Ok::<(), ContractError>(())
            &&& beneficiaries_spec(after, pid) is Ok
            &&& exists|i: int| 0 <= i < list.len() && list[i] == b && new_list == list.remove(i)
            &&& !new_list.contains(b)
            &&& new_list.len() + 1 == list.len()
            &&& forall|x: Seq<u8>| x != b ==> (new_list.contains(x) == list.contains(x))
            &&& forall|q: u32| q != pid ==> beneficiaries_spec(after, q) == beneficiaries_spec(m, q)
            &&& forall|q: u32| get_period_spec(after, q) == get_period_spec(m, q)
            &&& forall|q: u32, x: Seq<u8>| has_claimed_spec(after, q, x) == has_claimed_spec(m, q, x)
        }),
{
    if pid < m.records.len() && m.records[pid as int].beneficiaries.contains(b) {
        let list = m.records[pid as int].beneficiaries;
        assert(record_wf(m.records[pid as int], pid as int));
        let k = list.index_of(b);
        let t = list.remove(k);
        assert(list[k] == b);
        assert forall|x: Seq<u8>| x != b implies (t.contains(x) == list.contains(x)) by {
            if list.contains(x) {
                let j = choose|j: int| 0 <= j < list.len() && list[j] == x;
                assert(j != k);
                if j < k {
                    assert(t[j] == x);
                } else {
                    assert(t[j - 1] == x);
                }
            }
            if t.contains(x) {
                let j = choose|j: int| 0 <= j < t.len() && t[j] == x;
                if j < k {
                    assert(list[j] == x);
                } else {
                    assert(list[j + 1] == x);
                }
            }
        }
        if t.contains(b) {
            let j = choose|j: int| 0 <= j < t.len() && t[j] == b;
            let oj = if j < k { j } else { j + 1 };
            assert(list[oj] == b);
            assert(oj != k);
        }
    }
}

/// A claim changes nobody's registration.
pub proof fn law_claim_keeps_registrations(m: DepositModel, pid: u32, a: Seq<u8>, ledger: u32)
    ensures
        forall|q: u32| beneficiaries_spec(claim_outcome(m, pid, a, ledger).1, q) == beneficiaries_spec(m, q),
{
}

/// The readers agree with each other: a period id is listed exactly when
/// the period can be read, its beneficiary list can be read exactly then,
/// the summary reports for each listed id what its period has not paid out,
/// and only existing periods have claims.
pub proof fn law_readers_agree(m: DepositModel)
    requires
        model_wf(m),
    ensures
        forall|q: u32| (get_period_spec(m, q) is Ok) == period_ids_spec(m).contains(q),
        forall|q: u32| (beneficiaries_spec(m, q) is Ok) == (get_period_spec(m, q) is Ok),
        forall|q: u32| #[trigger] get_period_spec(m, q) is Ok ==> get_period_spec(m, q)->Ok_0.id == q,
        unclaimed_summary_spec(m).len() == period_ids_spec(m).len(),
        forall|k: int| 0 <= k < period_ids_spec(m).len() ==> ({
            let p = get_period_spec(m, period_ids_spec(m)[k])->Ok_0;
            #[trigger] unclaimed_summary_spec(m)[k]
                == (period_ids_spec(m)[k], (p.revenue_amount - p.claimed_amount) as i128)
        }),
        forall|q: u32, x: Seq<u8>| has_claimed_spec(m, q, x) ==> get_period_spec(m, q) is Ok,
{
    assert forall|q: u32| (get_period_spec(m, q) is Ok) == period_ids_spec(m).contains(q) by {
        if q < m.records.len() {
            assert(period_ids_spec(m)[q as int] == q);
        }
        if period_ids_spec(m).contains(q) {
            let i = choose|i: int| 0 <= i < period_ids_spec(m).len() && period_ids_spec(m)[i] == q;
            assert(i == q as int);
        }
    }
    assert forall|q: u32| #[trigger] get_period_spec(m, q) is Ok implies get_period_spec(m, q)->Ok_0.id == q by {
        assert(record_wf(m.records[q as int], q as int));
    }
}


/// The first initialisation of a deployed contract always succeeds and
/// records the given admin and token; periods start out empty.
pub proof fn law_initialize_grants_first_call(m: DepositModel, admin: Seq<u8>, token: Seq<u8>)
    requires
        model_wf(m),
        m.admin is None,
    ensures
        initialize_outcome(m, admin, token).0 == Ok::<(), ContractError>(()),
        initialize_outcome(m, admin, token).1.admin == Some(admin),
        initialize_outcome(m, admin, token).1.token == Some(token),
        period_ids_spec(initialize_outcome(m, admin, token).1) == Seq::<u32>::empty(),
{
    assert(period_ids_spec(initialize_outcome(m, admin, token).1) =~= Seq::<u32>::empty());
}

/// Which error a refused claim reports: a missing period is
/// `PeriodNotFound`; for an existing period, a ledger not past its end is
/// `PeriodNotEnded`; after the end, an empty list is `NoBeneficiaries`, an
/// unregistered claimant `NotBeneficiary`, a second claim `AlreadyClaimed`,
/// and a share below one token `InvalidInput`.
pub proof fn law_claim_reports_the_failed_condition(m: DepositModel, pid: u32, a: Seq<u8>, ledger: u32)
    ensures
        pid >= m.records.len() ==> claim_outcome(m, pid, a, ledger).0
            == Err::<i128, ContractError>(ContractError::PeriodNotFound),
        pid < m.records.len() ==> ({
            let r = m.records[pid as int];
            let res = claim_outcome(m, pid, a, ledger).0;
            &&& ledger <= r.period.end_ledger ==> res == Err::<i128, ContractError>(ContractError::PeriodNotEnded)
            &&& ledger > r.period.end_ledger && r.beneficiaries.len() == 0
                ==> res == Err::<i128, ContractError>(ContractError::NoBeneficiaries)
            &&& ledger > r.period.end_ledger && r.beneficiaries.len() > 0 && !r.beneficiaries.contains(a)
                ==> res == Err::<i128, ContractError>(ContractError::NotBeneficiary)
            &&& ledger > r.period.end_ledger && r.beneficiaries.contains(a) && r.claimants.contains(a)
                ==> res == Err::<i128, ContractError>(ContractError::AlreadyClaimed)
            &&& ledger > r.period.end_ledger && r.beneficiaries.contains(a) && !r.claimants.contains(a)
                && r.period.revenue_amount as int / r.beneficiaries.len() as int <= 0
                ==> res == Err::<i128, ContractError>(ContractError::InvalidInput)
        }),
{
    if pid < m.records.len() {
        let r = m.records[pid as int];
        if r.beneficiaries.contains(a) {
            assert(r.beneficiaries.len() > 0);
        }
    }
}

/// Which error a refused period request reports: a non-positive amount or a
/// start not before the end is `InvalidInput`, and so is, for a valid amount
/// and range, a start before the current ledger.
pub proof fn law_create_period_reports_invalid_input(m: DepositModel, start: u32, end: u32, amount: i128, ledger: u32)
    ensures
        amount <= 0 || start >= end || start < ledger ==>
            create_period_outcome(m, start, end, amount, ledger)
                == (Err::<u32, ContractError>(ContractError::InvalidInput), m),
{
}

} // verus!
