//! Properties of the contract that span operations, proved over the
//! abstract state that every operation's contract speaks of.

use vstd::prelude::*;
use crate::types::{ContractError, Period};
use crate::model::{
    DepositModel, PeriodRecord, model_wf, is_initialized, record_wf, ranges_overlap,
    new_period_record, initialize_outcome, create_period_outcome, add_beneficiary_outcome,
    remove_beneficiary_outcome, claim_outcome, share_of, period_ids_spec, has_claimed_spec,
    unclaimed_summary_spec, get_period_spec,
};

verus! {

/// Removing one element of a sequence without duplicates leaves a sequence
/// without duplicates.
pub(crate) proof fn lemma_remove_keeps_distinct(s: Seq<Seq<u8>>, k: int)
    requires
        s.no_duplicates(),
        0 <= k < s.len(),
    ensures
        s.remove(k).no_duplicates(),
{
    let t = s.remove(k);
    assert forall|x: int, y: int| 0 <= x < t.len() && 0 <= y < t.len() && x != y implies t[x] != t[y] by {
        let ox = if x < k { x } else { x + 1 };
        let oy = if y < k { y } else { y + 1 };
        assert(t[x] == s[ox]);
        assert(t[y] == s[oy]);
    }
}

/// Replacing the record of one period by a well-formed record with the same
/// ledger range keeps the state well formed.
proof fn lemma_replace_record_keeps_wf(m: DepositModel, pid: int, r: PeriodRecord)
    requires
        model_wf(m),
        0 <= pid < m.records.len(),
        record_wf(r, pid),
        r.period.start_ledger == m.records[pid].period.start_ledger,
        r.period.end_ledger == m.records[pid].period.end_ledger,
    ensures
        model_wf(DepositModel { records: m.records.update(pid, r), ..m }),
{
    let n = DepositModel { records: m.records.update(pid, r), ..m };
    assert forall|k: int| 0 <= k < n.records.len() implies record_wf(#[trigger] n.records[k], k) by {
        if k != pid {
            assert(n.records[k] == m.records[k]);
        }
    }
    assert forall|x: int, y: int|
        0 <= x < n.records.len() && 0 <= y < n.records.len() && x != y
            implies !ranges_overlap(#[trigger] n.records[x].period,
                n.records[y].period.start_ledger, #[trigger] n.records[y].period.end_ledger) by {
        assert(!ranges_overlap(m.records[x].period, m.records[y].period.start_ledger, m.records[y].period.end_ledger));
    }
}

/// Every operation takes a well-formed state to a well-formed state: in
/// particular no two periods ever share a ledger, period `i` always has id
/// `i`, every period holds a positive deposit, and nobody is registered or
/// recorded as a claimant twice for one period. (A period can only be
/// created once the contract is initialised.)
pub proof fn law_operations_preserve_wf(
    m: DepositModel,
    admin: Seq<u8>,
    token: Seq<u8>,
    start: u32,
    end: u32,
    amount: i128,
    pid: u32,
    who: Seq<u8>,
    ledger: u32,
)
    requires
        model_wf(m),
    ensures
        model_wf(initialize_outcome(m, admin, token).1),
        is_initialized(m) ==> model_wf(create_period_outcome(m, start, end, amount, ledger).1),
        model_wf(add_beneficiary_outcome(m, pid, who).1),
        model_wf(remove_beneficiary_outcome(m, pid, who).1),
        model_wf(claim_outcome(m, pid, who, ledger).1),
{
    // create_period
    let c = create_period_outcome(m, start, end, amount, ledger);
    if c.0 is Ok && is_initialized(m) {
        let n = c.1;
        let len = m.records.len();
        assert(n.records == m.records.push(new_period_record(len as u32, start, end, amount)));
        assert forall|k: int| 0 <= k < n.records.len() implies record_wf(#[trigger] n.records[k], k) by {
            if k < len {
                assert(n.records[k] == m.records[k]);
            }
        }
        assert forall|x: int, y: int|
            0 <= x < n.records.len() && 0 <= y < n.records.len() && x != y
                implies !ranges_overlap(#[trigger] n.records[x].period,
                    n.records[y].period.start_ledger, #[trigger] n.records[y].period.end_ledger) by {
            if x == len {
                assert(!ranges_overlap(m.records[y].period, start, end));
            } else if y == len {
                assert(!ranges_overlap(m.records[x].period, start, end));
            } else {
                assert(n.records[x] == m.records[x]);
                assert(n.records[y] == m.records[y]);
            }
        }
    }
    if pid < m.records.len() {
        let r = m.records[pid as int];
        assert(record_wf(r, pid as int));
        // add_beneficiary
        if !r.beneficiaries.contains(who) {
            let nr = PeriodRecord { beneficiaries: r.beneficiaries.push(who), ..r };
            assert(record_wf(nr, pid as int));
            lemma_replace_record_keeps_wf(m, pid as int, nr);
        }
        // remove_beneficiary
        if r.beneficiaries.contains(who) {
            let k = r.beneficiaries.index_of(who);
            lemma_remove_keeps_distinct(r.beneficiaries, k);
            let nr = PeriodRecord { beneficiaries: r.beneficiaries.remove(k), ..r };
            lemma_replace_record_keeps_wf(m, pid as int, nr);
        }
        // claim
        let cl = claim_outcome(m, pid, who, ledger);
        if cl.0 is Ok {
            let share = share_of(r.period.revenue_amount, r.beneficiaries.len());
            let nr = PeriodRecord {
                period: Period { claimed_amount: (r.period.claimed_amount + share) as i128, ..r.period },
                claimants: r.claimants.push(who),
                ..r
            };
            assert(record_wf(nr, pid as int));
            lemma_replace_record_keeps_wf(m, pid as int, nr);
        }
    }
}


/// What the floor division of a positive amount by a positive count leaves.
proof fn lemma_floor_share(rev: int, n: int)
    requires
        rev > 0,
        n > 0,
    ensures
        rev / n >= 0,
        (rev / n) * n <= rev,
        rev - (rev / n) * n < n,
{
    vstd::arithmetic::div_mod::lemma_fundamental_div_mod(rev, n);
    vstd::arithmetic::div_mod::lemma_mod_pos_bound(rev, n);
    vstd::arithmetic::mul::lemma_mul_is_commutative(n, rev / n);
    vstd::arithmetic::div_mod::lemma_div_pos_is_pos(rev, n);
}

/// A beneficiary can claim from a period at most once: after a successful
/// claim, every later claim by the same address for that period fails, with
/// `AlreadyClaimed` once the period has ended.
pub proof fn law_claim_at_most_once(m: DepositModel, pid: u32, a: Seq<u8>, first_ledger: u32, later_ledger: u32)
    requires
        claim_outcome(m, pid, a, first_ledger).0 is Ok,
    ensures
        has_claimed_spec(claim_outcome(m, pid, a, first_ledger).1, pid, a),
        !(claim_outcome(claim_outcome(m, pid, a, first_ledger).1, pid, a, later_ledger).0 is Ok),
        later_ledger > m.records[pid as int].period.end_ledger ==>
            claim_outcome(claim_outcome(m, pid, a, first_ledger).1, pid, a, later_ledger).0
                == Err::<i128, ContractError>(ContractError::AlreadyClaimed),
{
    let m2 = claim_outcome(m, pid, a, first_ledger).1;
    let r = m.records[pid as int];
    let r2 = m2.records[pid as int];
    assert(r2.claimants == r.claimants.push(a));
    assert(r2.claimants[r.claimants.len() as int] == a);
    assert(r2.beneficiaries == r.beneficiaries);
}

/// A claim succeeds only after the period's end ledger, for a registered
/// beneficiary that has not claimed before. It pays
/// `floor(revenue_amount / beneficiary_count)`, a positive amount whose
/// multiple by the count never exceeds the deposit (the remainder, smaller
/// than the count, stays in the contract); it adds exactly that amount to the
/// period's `claimed_amount`, records the claimant, and leaves everything
/// else as it was.
pub proof fn law_claim_pays_floor_share(m: DepositModel, pid: u32, a: Seq<u8>, ledger: u32)
    requires
        model_wf(m),
        claim_outcome(m, pid, a, ledger).0 is Ok,
    ensures
        ({
            let r = m.records[pid as int];
            let n = r.beneficiaries.len() as int;
            let share = share_of(r.period.revenue_amount, r.beneficiaries.len());
            let after = claim_outcome(m, pid, a, ledger);
            &&& pid < m.records.len()
            &&& ledger > r.period.end_ledger
            &&& r.beneficiaries.contains(a)
            &&& !r.claimants.contains(a)
            &&& after.0 == Ok::<i128, ContractError>(share as i128)
            &&& share > 0
            &&& share * n <= r.period.revenue_amount
            &&& r.period.revenue_amount - share * n < n
            &&& after.1.records.len() == m.records.len()
            &&& after.1.admin == m.admin
            &&& after.1.token == m.token
            &&& after.1.records[pid as int].period.claimed_amount == r.period.claimed_amount + share
            &&& after.1.records[pid as int].period == Period {
                    claimed_amount: after.1.records[pid as int].period.claimed_amount, ..r.period }
            &&& after.1.records[pid as int].beneficiaries == r.beneficiaries
            &&& after.1.records[pid as int].claimants == r.claimants.push(a)
            &&& forall|k: int| 0 <= k < m.records.len() && k != pid ==> after.1.records[k] == m.records[k]
        }),
{
    let r = m.records[pid as int];
    assert(record_wf(r, pid as int));
    lemma_floor_share(r.period.revenue_amount as int, r.beneficiaries.len() as int);
}

/// Registering the same beneficiary twice has the effect of registering it
/// once.
pub proof fn law_add_beneficiary_idempotent(m: DepositModel, pid: u32, b: Seq<u8>)
    ensures
        add_beneficiary_outcome(add_beneficiary_outcome(m, pid, b).1, pid, b)
            == add_beneficiary_outcome(m, pid, b),
{
    if pid < m.records.len() {
        let r = m.records[pid as int];
        if !r.beneficiaries.contains(b) {
            let m2 = add_beneficiary_outcome(m, pid, b).1;
            assert(m2.records[pid as int].beneficiaries[r.beneficiaries.len() as int] == b);
        }
    }
}

/// Registering a beneficiary that was not registered and then removing it
/// gives back the state before both calls.
pub proof fn law_add_then_remove_restores(m: DepositModel, pid: u32, b: Seq<u8>)
    requires
        pid < m.records.len(),
        !m.records[pid as int].beneficiaries.contains(b),
    ensures
        add_beneficiary_outcome(m, pid, b).0 is Ok,
        remove_beneficiary_outcome(add_beneficiary_outcome(m, pid, b).1, pid, b) == (Ok::<(), ContractError>(()), m),
{
    let r = m.records[pid as int];
    let list = r.beneficiaries;
    let m2 = add_beneficiary_outcome(m, pid, b).1;
    let l2 = m2.records[pid as int].beneficiaries;
    assert(l2 == list.push(b));
    assert(l2[list.len() as int] == b);
    let k = l2.index_of(b);
    assert(0 <= k < l2.len() && l2[k] == b);
    if k < list.len() {
        assert(list[k] == b);
    }
    assert(k == list.len());
    assert(l2.remove(k) =~= list);
    let m3 = remove_beneficiary_outcome(m2, pid, b).1;
    assert(m3.records =~~= m.records);
    assert(m3 =~~= m);
}

/// Once removed from a period, an address is no longer registered for it
/// and cannot claim from it.
pub proof fn law_removed_beneficiary_cannot_claim(m: DepositModel, pid: u32, b: Seq<u8>, ledger: u32)
    requires
        model_wf(m),
        remove_beneficiary_outcome(m, pid, b).0 is Ok,
    ensures
        !remove_beneficiary_outcome(m, pid, b).1.records[pid as int].beneficiaries.contains(b),
        !(claim_outcome(remove_beneficiary_outcome(m, pid, b).1, pid, b, ledger).0 is Ok),
{
    let r = m.records[pid as int];
    assert(record_wf(r, pid as int));
    let s = r.beneficiaries;
    let k = s.index_of(b);
    let t = s.remove(k);
    assert(remove_beneficiary_outcome(m, pid, b).1.records[pid as int].beneficiaries == t);
    if t.contains(b) {
        let x = choose|x: int| 0 <= x < t.len() && t[x] == b;
        let ox = if x < k { x } else { x + 1 };
        assert(s[ox] == b);
        assert(ox != k);
    }
}

/// How a later state keeps everything recorded in an earlier one: no period
/// disappears, a period's id, ledger range and deposit never change, its
/// claimed amount never decreases, its claimants are only ever appended to,
/// and once set the admin and token stay.
pub open spec fn keeps_history(before: DepositModel, after: DepositModel) -> bool {
    &&& before.records.len() <= after.records.len()
    &&& before.admin is Some ==> after.admin == before.admin && after.token == before.token
    &&& forall|k: int| 0 <= k < before.records.len() ==> {
        let p = before.records[k];
        let q = #[trigger] after.records[k];
        &&& q.period.id == p.period.id
        &&& q.period.start_ledger == p.period.start_ledger
        &&& q.period.end_ledger == p.period.end_ledger
        &&& q.period.revenue_amount == p.period.revenue_amount
        &&& q.period.claimed_amount >= p.period.claimed_amount
        &&& p.claimants.is_prefix_of(q.claimants)
    }
}

/// Contract state is never deleted: every operation keeps the history of the
/// state it starts from, so past periods stay auditable and a recorded claim
/// stays recorded.
pub proof fn law_operations_keep_history(
    m: DepositModel,
    admin: Seq<u8>,
    token: Seq<u8>,
    start: u32,
    end: u32,
    amount: i128,
    pid: u32,
    who: Seq<u8>,
    ledger: u32,
)
    requires
        model_wf(m),
    ensures
        keeps_history(m, initialize_outcome(m, admin, token).1),
        keeps_history(m, create_period_outcome(m, start, end, amount, ledger).1),
        keeps_history(m, add_beneficiary_outcome(m, pid, who).1),
        keeps_history(m, remove_beneficiary_outcome(m, pid, who).1),
        keeps_history(m, claim_outcome(m, pid, who, ledger).1),
{
    assert forall|k: int| 0 <= k < m.records.len() implies m.records[k].claimants.is_prefix_of(m.records[k].claimants) by {
        assert(m.records[k].claimants =~= m.records[k].claimants.subrange(0, m.records[k].claimants.len() as int));
    }
    let c = create_period_outcome(m, start, end, amount, ledger);
    if c.0 is Ok {
        assert forall|k: int| 0 <= k < m.records.len() implies #[trigger] c.1.records[k] == m.records[k] by {}
    }
    if pid < m.records.len() {
        let r = m.records[pid as int];
        assert(record_wf(r, pid as int));
        let cl = claim_outcome(m, pid, who, ledger);
        if cl.0 is Ok {
            lemma_floor_share(r.period.revenue_amount as int, r.beneficiaries.len() as int);
            assert(r.claimants =~= r.claimants.push(who).subrange(0, r.claimants.len() as int));
        }
    }
}

/// A recorded claim is permanent: whatever operation follows, the address
/// still counts as having claimed from the period.
pub proof fn law_has_claimed_is_permanent(
    m: DepositModel,
    claimed_pid: u32,
    claimant: Seq<u8>,
    admin: Seq<u8>,
    token: Seq<u8>,
    start: u32,
    end: u32,
    amount: i128,
    pid: u32,
    who: Seq<u8>,
    ledger: u32,
)
    requires
        model_wf(m),
        has_claimed_spec(m, claimed_pid, claimant),
    ensures
        has_claimed_spec(initialize_outcome(m, admin, token).1, claimed_pid, claimant),
        has_claimed_spec(create_period_outcome(m, start, end, amount, ledger).1, claimed_pid, claimant),
        has_claimed_spec(add_beneficiary_outcome(m, pid, who).1, claimed_pid, claimant),
        has_claimed_spec(remove_beneficiary_outcome(m, pid, who).1, claimed_pid, claimant),
        has_claimed_spec(claim_outcome(m, pid, who, ledger).1, claimed_pid, claimant),
{
    law_operations_keep_history(m, admin, token, start, end, amount, pid, who, ledger);
    lemma_history_keeps_claims(m, initialize_outcome(m, admin, token).1, claimed_pid, claimant);
    lemma_history_keeps_claims(m, create_period_outcome(m, start, end, amount, ledger).1, claimed_pid, claimant);
    lemma_history_keeps_claims(m, add_beneficiary_outcome(m, pid, who).1, claimed_pid, claimant);
    lemma_history_keeps_claims(m, remove_beneficiary_outcome(m, pid, who).1, claimed_pid, claimant);
    lemma_history_keeps_claims(m, claim_outcome(m, pid, who, ledger).1, claimed_pid, claimant);
}

/// A later state that keeps the history of an earlier one keeps its claims.
proof fn lemma_history_keeps_claims(before: DepositModel, after: DepositModel, pid: u32, a: Seq<u8>)
    requires
        keeps_history(before, after),
        has_claimed_spec(before, pid, a),
    ensures
        has_claimed_spec(after, pid, a),
{
    let c = before.records[pid as int].claimants;
    let q = after.records[pid as int].claimants;
    let i = choose|i: int| 0 <= i < c.len() && c[i] == a;
    assert(c.is_prefix_of(q));
    assert(q.subrange(0, c.len() as int)[i] == q[i]);
}

/// Period ids are assigned consecutively from zero: a created period gets
/// the number of periods created before it, and is appended to the id list.
pub proof fn law_period_ids_are_consecutive(m: DepositModel, start: u32, end: u32, amount: i128, ledger: u32)
    requires
        create_period_outcome(m, start, end, amount, ledger).0 is Ok,
    ensures
        create_period_outcome(m, start, end, amount, ledger).0 == Ok::<u32, ContractError>(m.records.len() as u32),
        period_ids_spec(create_period_outcome(m, start, end, amount, ledger).1)
            == period_ids_spec(m).push(m.records.len() as u32),
{
    assert(period_ids_spec(create_period_outcome(m, start, end, amount, ledger).1)
        =~= period_ids_spec(m).push(m.records.len() as u32));
}

/// A created period holds a positive deposit, starts no earlier than the
/// current ledger, ends after it starts, and shares no ledger with any
/// period created before it.
pub proof fn law_created_period_does_not_overlap(m: DepositModel, start: u32, end: u32, amount: i128, ledger: u32)
    requires
        create_period_outcome(m, start, end, amount, ledger).0 is Ok,
    ensures
        amount > 0,
        start < end,
        start >= ledger,
        forall|k: int| 0 <= k < m.records.len() ==> !ranges_overlap(#[trigger] m.records[k].period, start, end),
{
}

/// The contract can be initialised only once: after any call of
/// `initialize`, a further call fails with `AlreadyInitialized` and changes
/// nothing.
pub proof fn law_initialize_only_once(m: DepositModel, admin: Seq<u8>, token: Seq<u8>, admin2: Seq<u8>, token2: Seq<u8>)
    ensures
        initialize_outcome(initialize_outcome(m, admin, token).1, admin2, token2)
            == (Err::<(), ContractError>(ContractError::AlreadyInitialized), initialize_outcome(m, admin, token).1),
{
}

/// A call that fails changes nothing.
pub proof fn law_failed_operations_change_nothing(
    m: DepositModel,
    admin: Seq<u8>,
    token: Seq<u8>,
    start: u32,
    end: u32,
    amount: i128,
    pid: u32,
    who: Seq<u8>,
    ledger: u32,
)
    ensures
        initialize_outcome(m, admin, token).0 is Err ==> initialize_outcome(m, admin, token).1 == m,
        create_period_outcome(m, start, end, amount, ledger).0 is Err ==> create_period_outcome(m, start, end, amount, ledger).1 == m,
        add_beneficiary_outcome(m, pid, who).0 is Err ==> add_beneficiary_outcome(m, pid, who).1 == m,
        remove_beneficiary_outcome(m, pid, who).0 is Err ==> remove_beneficiary_outcome(m, pid, who).1 == m,
        claim_outcome(m, pid, who, ledger).0 is Err ==> claim_outcome(m, pid, who, ledger).1 == m,
{
}

/// Beneficiary changes and claims on one period leave every other period,
/// the admin and the token as they were.
pub proof fn law_periods_are_independent(m: DepositModel, pid: u32, who: Seq<u8>, ledger: u32, other: int)
    requires
        0 <= other < m.records.len(),
        other != pid,
    ensures
        add_beneficiary_outcome(m, pid, who).1.records[other] == m.records[other],
        remove_beneficiary_outcome(m, pid, who).1.records[other] == m.records[other],
        claim_outcome(m, pid, who, ledger).1.records[other] == m.records[other],
        add_beneficiary_outcome(m, pid, who).1.records.len() == m.records.len(),
        remove_beneficiary_outcome(m, pid, who).1.records.len() == m.records.len(),
        claim_outcome(m, pid, who, ledger).1.records.len() == m.records.len(),
{
}


/// The state after each address of `claimants`, in turn, claims from period
/// `pid` at ledger `ledger`.
pub open spec fn claims_in_turn(m: DepositModel, pid: u32, claimants: Seq<Seq<u8>>, ledger: u32) -> DepositModel
    decreases claimants.len(),
{
    if claimants.len() == 0 {
        m
    } else {
        claim_outcome(claims_in_turn(m, pid, claimants.drop_last(), ledger), pid, claimants.last(), ledger).1
    }
}

/// The state after the first `k` beneficiaries of a period that nobody has
/// claimed from yet have claimed in turn.
proof fn lemma_claims_in_turn(m: DepositModel, pid: u32, ledger: u32, k: nat)
    requires
        model_wf(m),
        pid < m.records.len(),
        m.records[pid as int].claimants.len() == 0,
        m.records[pid as int].period.claimed_amount == 0,
        ledger > m.records[pid as int].period.end_ledger,
        k <= m.records[pid as int].beneficiaries.len(),
        m.records[pid as int].beneficiaries.len() > 0,
    ensures
        ({
            let r = m.records[pid as int];
            let share = share_of(r.period.revenue_amount, r.beneficiaries.len());
            let after = claims_in_turn(m, pid, r.beneficiaries.take(k as int), ledger);
            let q = after.records[pid as int];
            &&& model_wf(after)
            &&& after.records.len() == m.records.len()
            &&& q.period == Period { claimed_amount: q.period.claimed_amount, ..r.period }
            &&& q.beneficiaries == r.beneficiaries
            &&& q.period.claimed_amount == k * share
            &&& share > 0 ==> q.claimants == r.beneficiaries.take(k as int)
            &&& share <= 0 ==> q.claimants.len() == 0
        }),
    decreases k,
{
    let r = m.records[pid as int];
    let n = r.beneficiaries.len();
    let share = share_of(r.period.revenue_amount, n);
    assert(record_wf(r, pid as int));
    lemma_floor_share(r.period.revenue_amount as int, n as int);
    if k == 0 {
        assert(r.beneficiaries.take(0) =~= Seq::<Seq<u8>>::empty());
        assert(r.claimants =~= Seq::<Seq<u8>>::empty());
    } else {
        let prev_list = r.beneficiaries.take(k - 1);
        assert(r.beneficiaries.take(k as int).drop_last() =~= prev_list);
        assert(r.beneficiaries.take(k as int).last() == r.beneficiaries[k - 1]);
        lemma_claims_in_turn(m, pid, ledger, (k - 1) as nat);
        let before = claims_in_turn(m, pid, prev_list, ledger);
        let q = before.records[pid as int];
        let a = r.beneficiaries[k - 1];
        assert(q.beneficiaries[k - 1] == a);
        assert(q.beneficiaries.contains(a));
        law_operations_preserve_wf(before, a, a, 0, 0, 0, pid, a, ledger);
        if share > 0 {
            if q.claimants.contains(a) {
                let x = choose|x: int| 0 <= x < q.claimants.len() && q.claimants[x] == a;
                assert(r.beneficiaries[x] == a);
                assert(x != k - 1);
            }
            vstd::arithmetic::mul::lemma_mul_inequality(k as int, n as int, share);
            vstd::arithmetic::mul::lemma_mul_is_distributive_add_other_way(share, (k - 1) as int, 1);
            assert(q.period.claimed_amount + share == k * share);
            assert(q.claimants.push(a) =~= r.beneficiaries.take(k as int));
        } else {
            assert(share == 0);
            assert(k * share == 0) by (nonlinear_arith) requires share == 0;
            assert((k - 1) * share == 0) by (nonlinear_arith) requires share == 0;
        }
    }
}

/// When every beneficiary of a period that nobody has claimed from yet
/// claims in turn after the period has ended, and the list does not change
/// meanwhile, the period pays out `count * floor(revenue / count)` in total:
/// never more than its deposit, and less than `count` tokens of dust stay in
/// the contract.
pub proof fn law_full_round_pays_at_most_the_deposit(m: DepositModel, pid: u32, ledger: u32)
    requires
        model_wf(m),
        pid < m.records.len(),
        m.records[pid as int].claimants.len() == 0,
        m.records[pid as int].period.claimed_amount == 0,
        ledger > m.records[pid as int].period.end_ledger,
        m.records[pid as int].beneficiaries.len() > 0,
    ensures
        ({
            let r = m.records[pid as int];
            let n = r.beneficiaries.len() as int;
            let paid = claims_in_turn(m, pid, r.beneficiaries, ledger).records[pid as int].period.claimed_amount;
            &&& paid == n * share_of(r.period.revenue_amount, r.beneficiaries.len())
            &&& paid <= r.period.revenue_amount
            &&& r.period.revenue_amount - paid < n
        }),
{
    let r = m.records[pid as int];
    let n = r.beneficiaries.len();
    assert(r.beneficiaries.take(n as int) =~= r.beneficiaries);
    lemma_claims_in_turn(m, pid, ledger, n);
    assert(record_wf(r, pid as int));
    lemma_floor_share(r.period.revenue_amount as int, n as int);
    vstd::arithmetic::mul::lemma_mul_is_commutative(n as int, share_of(r.period.revenue_amount, n));
}


/// Whether the payouts of a period match its claims under its current
/// beneficiary list: each claimant has been paid the share that the list
/// gives, and everyone who claimed is still registered.
pub open spec fn payout_matches_claims(r: PeriodRecord) -> bool {
    &&& r.period.claimed_amount
        == r.claimants.len() * share_of(r.period.revenue_amount, r.beneficiaries.len())
    &&& forall|i: int| 0 <= i < r.claimants.len() ==> r.beneficiaries.contains(#[trigger] r.claimants[i])
}

/// A newly created period pays out in line with its (empty) claims.
pub proof fn law_new_period_payout_matches(m: DepositModel, start: u32, end: u32, amount: i128, ledger: u32)
    requires
        create_period_outcome(m, start, end, amount, ledger).0 is Ok,
    ensures
        payout_matches_claims(create_period_outcome(m, start, end, amount, ledger).1.records[m.records.len() as int]),
{
    let r = create_period_outcome(m, start, end, amount, ledger).1.records[m.records.len() as int];
    assert(r.claimants.len() == 0);
    assert(0 * share_of(amount, 0) == 0) by (nonlinear_arith);
}

/// While a period's beneficiary list stays the same, claims keep its payouts
/// in line with its claims, in any order and whatever each claim returns.
pub proof fn law_claims_keep_payout_matching(m: DepositModel, pid: u32, who: Seq<u8>, ledger: u32)
    requires
        model_wf(m),
        pid < m.records.len(),
        payout_matches_claims(m.records[pid as int]),
    ensures
        payout_matches_claims(claim_outcome(m, pid, who, ledger).1.records[pid as int]),
        claim_outcome(m, pid, who, ledger).1.records[pid as int].beneficiaries
            == m.records[pid as int].beneficiaries,
{
    let r = m.records[pid as int];
    let after = claim_outcome(m, pid, who, ledger);
    if after.0 is Ok {
        let q = after.1.records[pid as int];
        let share = share_of(r.period.revenue_amount, r.beneficiaries.len());
        assert(q.claimants == r.claimants.push(who));
        vstd::arithmetic::mul::lemma_mul_is_distributive_add_other_way(share, r.claimants.len() as int, 1);
        assert forall|i: int| 0 <= i < q.claimants.len() implies q.beneficiaries.contains(#[trigger] q.claimants[i]) by {
            if i < r.claimants.len() {
                assert(q.claimants[i] == r.claimants[i]);
            }
        }
    }
}

/// A period whose payouts match its claims has paid
/// `claimants * floor(revenue / count)`: at most `count` shares, so never
/// more than its deposit; the remainder of the division is never paid out.
pub proof fn law_matching_payout_never_exceeds_deposit(m: DepositModel, pid: u32)
    requires
        model_wf(m),
        pid < m.records.len(),
        payout_matches_claims(m.records[pid as int]),
    ensures
        ({
            let r = m.records[pid as int];
            let n = r.beneficiaries.len() as int;
            let share = share_of(r.period.revenue_amount, r.beneficiaries.len());
            &&& r.claimants.len() <= n
            &&& 0 <= r.period.claimed_amount <= n * share
            &&& n > 0 ==> n * share <= r.period.revenue_amount
            &&& n > 0 ==> r.period.revenue_amount - n * share < n
        }),
{
    let r = m.records[pid as int];
    assert(record_wf(r, pid as int));
    let n = r.beneficiaries.len();
    let k = r.claimants.len();
    r.claimants.unique_seq_to_set();
    r.beneficiaries.unique_seq_to_set();
    assert(r.claimants.to_set().subset_of(r.beneficiaries.to_set())) by {
        assert forall|a: Seq<u8>| r.claimants.to_set().contains(a) implies r.beneficiaries.to_set().contains(a) by {
            let i = choose|i: int| 0 <= i < r.claimants.len() && r.claimants[i] == a;
            assert(r.beneficiaries.contains(r.claimants[i]));
        }
    }
    vstd::seq_lib::seq_to_set_is_finite(r.beneficiaries);
    vstd::set_lib::lemma_len_subset(r.claimants.to_set(), r.beneficiaries.to_set());
    if n > 0 {
        let share = share_of(r.period.revenue_amount, n);
        lemma_floor_share(r.period.revenue_amount as int, n as int);
        vstd::arithmetic::mul::lemma_mul_inequality(k as int, n as int, share);
        vstd::arithmetic::mul::lemma_mul_nonnegative(k as int, share);
        vstd::arithmetic::mul::lemma_mul_is_commutative(n as int, share);
    } else {
        assert(k == 0);
        assert(0 * share_of(r.period.revenue_amount, n) == 0) by (nonlinear_arith);
        assert(n * share_of(r.period.revenue_amount, n) == 0) by (nonlinear_arith) requires n == 0;
    }
}

/// A successful claim lowers the period's unclaimed amount in the summary by
/// the share paid, and leaves every other entry as it was.
pub proof fn law_claim_updates_unclaimed_summary(m: DepositModel, pid: u32, who: Seq<u8>, ledger: u32)
    requires
        model_wf(m),
        claim_outcome(m, pid, who, ledger).0 is Ok,
    ensures
        ({
            let before = unclaimed_summary_spec(m);
            let share = claim_outcome(m, pid, who, ledger).0->Ok_0;
            unclaimed_summary_spec(claim_outcome(m, pid, who, ledger).1)
                == before.update(pid as int, (pid, (before[pid as int].1 - share) as i128))
        }),
{
    let after = claim_outcome(m, pid, who, ledger).1;
    law_operations_preserve_wf(m, who, who, 0, 0, 0, pid, who, ledger);
    assert(record_wf(m.records[pid as int], pid as int));
    assert(record_wf(after.records[pid as int], pid as int));
    let before = unclaimed_summary_spec(m);
    let share = claim_outcome(m, pid, who, ledger).0->Ok_0;
    assert(unclaimed_summary_spec(after)
        =~= before.update(pid as int, (pid, (before[pid as int].1 - share) as i128)));
}

/// A created period enters the summary as a new last entry, under an id no
/// earlier entry has, with its whole deposit unclaimed; earlier entries stay.
pub proof fn law_create_extends_unclaimed_summary(m: DepositModel, start: u32, end: u32, amount: i128, ledger: u32)
    requires
        create_period_outcome(m, start, end, amount, ledger).0 is Ok,
    ensures
        unclaimed_summary_spec(create_period_outcome(m, start, end, amount, ledger).1)
            == unclaimed_summary_spec(m).push((m.records.len() as u32, amount)),
        forall|k: int| 0 <= k < m.records.len() ==> (#[trigger] unclaimed_summary_spec(m)[k]).0 != m.records.len() as u32,
{
    assert(unclaimed_summary_spec(create_period_outcome(m, start, end, amount, ledger).1)
        =~= unclaimed_summary_spec(m).push((m.records.len() as u32, amount)));
}

/// Beneficiary changes leave the summary as it was.
pub proof fn law_beneficiary_changes_keep_unclaimed_summary(m: DepositModel, pid: u32, who: Seq<u8>)
    ensures
        unclaimed_summary_spec(add_beneficiary_outcome(m, pid, who).1) == unclaimed_summary_spec(m),
        unclaimed_summary_spec(remove_beneficiary_outcome(m, pid, who).1) == unclaimed_summary_spec(m),
{
    assert(unclaimed_summary_spec(add_beneficiary_outcome(m, pid, who).1) =~= unclaimed_summary_spec(m));
    assert(unclaimed_summary_spec(remove_beneficiary_outcome(m, pid, who).1) =~= unclaimed_summary_spec(m));
}

/// One call of the contract, with its arguments.
pub enum Call {
    Initialize { admin: Seq<u8>, token: Seq<u8> },
    CreatePeriod { start: u32, end: u32, amount: i128, ledger: u32 },
    AddBeneficiary { pid: u32, who: Seq<u8> },
    RemoveBeneficiary { pid: u32, who: Seq<u8> },
    Claim { pid: u32, who: Seq<u8>, ledger: u32 },
}

/// Whether `c` may be made in state `m`: the admin operations need an
/// initialised contract.
pub open spec fn callable(m: DepositModel, c: Call) -> bool {
    match c {
        Call::CreatePeriod { .. } | Call::AddBeneficiary { .. } | Call::RemoveBeneficiary { .. } => is_initialized(m),
        _ => true,
    }
}

/// The state after call `c` in state `m`.
pub open spec fn step(m: DepositModel, c: Call) -> DepositModel {
    match c {
        Call::Initialize { admin, token } => initialize_outcome(m, admin, token).1,
        Call::CreatePeriod { start, end, amount, ledger } => create_period_outcome(m, start, end, amount, ledger).1,
        Call::AddBeneficiary { pid, who } => add_beneficiary_outcome(m, pid, who).1,
        Call::RemoveBeneficiary { pid, who } => remove_beneficiary_outcome(m, pid, who).1,
        Call::Claim { pid, who, ledger } => claim_outcome(m, pid, who, ledger).1,
    }
}

/// Whether call `c` in state `m` creates a period.
pub open spec fn creates_period(m: DepositModel, c: Call) -> bool {
    match c {
        Call::CreatePeriod { start, end, amount, ledger } => create_period_outcome(m, start, end, amount, ledger).0 is Ok,
        _ => false,
    }
}

/// The state after making `calls` in order, starting from `m`.
pub open spec fn run(m: DepositModel, calls: Seq<Call>) -> DepositModel
    decreases calls.len(),
{
    if calls.len() == 0 {
        m
    } else {
        step(run(m, calls.drop_last()), calls.last())
    }
}

/// Whether each of `calls` may be made in the state that the calls before
/// it lead to.
pub open spec fn run_callable(m: DepositModel, calls: Seq<Call>) -> bool
    decreases calls.len(),
{
    calls.len() == 0 || (run_callable(m, calls.drop_last()) && callable(run(m, calls.drop_last()), calls.last()))
}

/// How many of `calls`, made in order from `m`, create a period.
pub open spec fn periods_created(m: DepositModel, calls: Seq<Call>) -> nat
    decreases calls.len(),
{
    if calls.len() == 0 {
        0
    } else {
        periods_created(m, calls.drop_last()) + if creates_period(run(m, calls.drop_last()), calls.last()) { 1nat } else { 0nat }
    }
}

proof fn lemma_keeps_history_refl(m: DepositModel)
    ensures
        keeps_history(m, m),
{
    assert forall|k: int| 0 <= k < m.records.len() implies m.records[k].claimants.is_prefix_of(#[trigger] m.records[k].claimants) by {
        assert(m.records[k].claimants =~= m.records[k].claimants.subrange(0, m.records[k].claimants.len() as int));
    }
}

proof fn lemma_keeps_history_trans(a: DepositModel, b: DepositModel, c: DepositModel)
    requires
        keeps_history(a, b),
        keeps_history(b, c),
    ensures
        keeps_history(a, c),
{
    assert forall|k: int| 0 <= k < a.records.len() implies a.records[k].claimants.is_prefix_of(#[trigger] c.records[k].claimants) by {
        let x = a.records[k].claimants;
        let y = b.records[k].claimants;
        let z = c.records[k].claimants;
        assert(x.is_prefix_of(y));
        assert(y.is_prefix_of(z));
        assert(x =~= z.subrange(0, x.len() as int)) by {
            assert forall|i: int| 0 <= i < x.len() implies x[i] == z.subrange(0, x.len() as int)[i] by {
                assert(x[i] == y.subrange(0, x.len() as int)[i]);
                assert(y[i] == z.subrange(0, y.len() as int)[i]);
            }
        }
    }
    assert forall|k: int| 0 <= k < a.records.len() implies {
        let p = a.records[k];
        let q = #[trigger] c.records[k];
        &&& q.period.id == p.period.id
        &&& q.period.start_ledger == p.period.start_ledger
        &&& q.period.end_ledger == p.period.end_ledger
        &&& q.period.revenue_amount == p.period.revenue_amount
        &&& q.period.claimed_amount >= p.period.claimed_amount
        &&& p.claimants.is_prefix_of(q.claimants)
    } by {
        assert(b.records[k] == b.records[k]);
    }
}

/// Any sequence of calls that may be made keeps the state well formed and
/// keeps its history: no period is deleted, a period's id, ledger range and
/// deposit never change, its claimed amount never decreases, recorded claims
/// stay recorded, and once set the admin and token stay.
pub proof fn law_runs_keep_history(m: DepositModel, calls: Seq<Call>)
    requires
        model_wf(m),
        run_callable(m, calls),
    ensures
        model_wf(run(m, calls)),
        keeps_history(m, run(m, calls)),
    decreases calls.len(),
{
    if calls.len() == 0 {
        lemma_keeps_history_refl(m);
    } else {
        law_runs_keep_history(m, calls.drop_last());
        let mid = run(m, calls.drop_last());
        lemma_step_keeps_history(mid, calls.last());
        lemma_keeps_history_trans(m, mid, run(m, calls));
    }
}

proof fn lemma_step_keeps_history(m: DepositModel, c: Call)
    requires
        model_wf(m),
        callable(m, c),
    ensures
        model_wf(step(m, c)),
        keeps_history(m, step(m, c)),
        step(m, c).records.len() == m.records.len() + if creates_period(m, c) { 1int } else { 0int },
{
    match c {
        Call::Initialize { admin, token } => {
            law_operations_preserve_wf(m, admin, token, 0, 0, 0, 0, admin, 0);
            law_operations_keep_history(m, admin, token, 0, 0, 0, 0, admin, 0);
        },
        Call::CreatePeriod { start, end, amount, ledger } => {
            law_operations_preserve_wf(m, Seq::empty(), Seq::empty(), start, end, amount, 0, Seq::empty(), ledger);
            law_operations_keep_history(m, Seq::empty(), Seq::empty(), start, end, amount, 0, Seq::empty(), ledger);
        },
        Call::AddBeneficiary { pid, who } => {
            law_operations_preserve_wf(m, who, who, 0, 0, 0, pid, who, 0);
            law_operations_keep_history(m, who, who, 0, 0, 0, pid, who, 0);
        },
        Call::RemoveBeneficiary { pid, who } => {
            law_operations_preserve_wf(m, who, who, 0, 0, 0, pid, who, 0);
            law_operations_keep_history(m, who, who, 0, 0, 0, pid, who, 0);
        },
        Call::Claim { pid, who, ledger } => {
            law_operations_preserve_wf(m, who, who, 0, 0, 0, pid, who, ledger);
            law_operations_keep_history(m, who, who, 0, 0, 0, pid, who, ledger);
        },
    }
}

/// A period that exists keeps, over any sequence of calls that may be made,
/// its id, ledger range and deposit, and its claimed amount never decreases.
pub proof fn law_periods_are_never_lost(m: DepositModel, calls: Seq<Call>, id: u32)
    requires
        model_wf(m),
        run_callable(m, calls),
        get_period_spec(m, id) is Ok,
    ensures
        ({
            let p = get_period_spec(m, id)->Ok_0;
            &&& get_period_spec(run(m, calls), id) is Ok
            &&& get_period_spec(run(m, calls), id)->Ok_0 == Period {
                    claimed_amount: get_period_spec(run(m, calls), id)->Ok_0.claimed_amount, ..p }
            &&& get_period_spec(run(m, calls), id)->Ok_0.claimed_amount >= p.claimed_amount
        }),
{
    law_runs_keep_history(m, calls);
    let after = run(m, calls);
    assert(keeps_history(m, after));
    assert(after.records[id as int].period.id == m.records[id as int].period.id);
}

/// Only period creations add periods: over any sequence of calls that may be
/// made, the number of periods grows by the number of calls that create one.
/// From a freshly deployed contract, the period ids after the calls are
/// `0, 1, ..., k - 1` for the `k` periods created, in creation order.
pub proof fn law_period_ids_count_creations(m: DepositModel, calls: Seq<Call>)
    requires
        model_wf(m),
        run_callable(m, calls),
    ensures
        run(m, calls).records.len() == m.records.len() + periods_created(m, calls),
        m == crate::model::empty_model() ==>
            period_ids_spec(run(m, calls)) == Seq::new(periods_created(m, calls), |i: int| i as u32),
    decreases calls.len(),
{
    if calls.len() > 0 {
        law_period_ids_count_creations(m, calls.drop_last());
        law_runs_keep_history(m, calls.drop_last());
        lemma_step_keeps_history(run(m, calls.drop_last()), calls.last());
    }
}


/// Whether call `c` changes the beneficiary list of period `pid`.
pub open spec fn changes_list_of(c: Call, pid: u32) -> bool {
    match c {
        Call::AddBeneficiary { pid: p, .. } => p == pid,
        Call::RemoveBeneficiary { pid: p, .. } => p == pid,
        _ => false,
    }
}

/// As long as no call changes a period's beneficiary list, its payouts stay
/// in line with its claims over any sequence of calls that may be made: it
/// has paid exactly one share per claimant, in any claim order, and so never
/// more than its deposit.
pub proof fn law_runs_keep_payout_matching(m: DepositModel, calls: Seq<Call>, pid: u32)
    requires
        model_wf(m),
        run_callable(m, calls),
        pid < m.records.len(),
        payout_matches_claims(m.records[pid as int]),
        forall|i: int| 0 <= i < calls.len() ==> !changes_list_of(#[trigger] calls[i], pid),
    ensures
        pid < run(m, calls).records.len(),
        payout_matches_claims(run(m, calls).records[pid as int]),
    decreases calls.len(),
{
    if calls.len() > 0 {
        let prefix = calls.drop_last();
        assert forall|i: int| 0 <= i < prefix.len() implies !changes_list_of(#[trigger] prefix[i], pid) by {
            assert(prefix[i] == calls[i]);
        }
        law_runs_keep_payout_matching(m, prefix, pid);
        law_runs_keep_history(m, prefix);
        let mid = run(m, prefix);
        let c = calls.last();
        assert(!changes_list_of(calls[calls.len() - 1], pid));
        lemma_step_keeps_history(mid, c);
        match c {
            Call::Claim { pid: p, who, ledger } => {
                if p == pid {
                    law_claims_keep_payout_matching(mid, pid, who, ledger);
                } else {
                    law_periods_are_independent(mid, p, who, ledger, pid as int);
                }
            },
            Call::AddBeneficiary { pid: p, who } => {
                law_periods_are_independent(mid, p, who, 0, pid as int);
            },
            Call::RemoveBeneficiary { pid: p, who } => {
                law_periods_are_independent(mid, p, who, 0, pid as int);
            },
            Call::CreatePeriod { start, end, amount, ledger } => {
                assert(step(mid, c).records[pid as int] == mid.records[pid as int]);
            },
            Call::Initialize { admin, token } => {
                assert(step(mid, c) == mid);
            },
        }
    }
}

} // verus!
