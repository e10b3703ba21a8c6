//! The contract's state and its operations.

use vstd::prelude::*;
use crate::address::{Address, addr_views, position_of, copy_list, has_no_duplicates};
use crate::types::{ContractError, Period};
use crate::laws::law_operations_preserve_wf;
use crate::model::{
    DepositModel, PeriodRecord, model_wf, record_wf, empty_model, is_initialized, ranges_overlap,
    overlaps_existing, new_period_record, initialize_outcome, create_period_outcome,
    add_beneficiary_outcome, remove_beneficiary_outcome, claim_outcome, share_of,
    get_period_spec, period_ids_spec, beneficiaries_spec, has_claimed_spec,
    unclaimed_summary_spec,
};

verus! {

/// The state of a multi-period revenue deposit contract.
pub struct RevenueDepositContract {
    admin: Option<Address>,
    token: Option<Address>,
    period_counter: u32,
    periods: Vec<Period>,
    beneficiaries: Vec<Vec<Address>>,
    claimants: Vec<Vec<Address>>,
}

pub open spec fn opt_view(a: Option<Address>) -> Option<Seq<u8>> {
    match a {
        Some(x) => Some(x@),
        None => None,
    }
}

/// The abstract state that a set of stored parts describes.
pub open spec fn parts_model(
    admin: Option<Address>,
    token: Option<Address>,
    periods: Seq<Period>,
    beneficiaries: Seq<Vec<Address>>,
    claimants: Seq<Vec<Address>>,
) -> DepositModel {
    DepositModel {
        admin: opt_view(admin),
        token: opt_view(token),
        records: Seq::new(periods.len(), |i: int| PeriodRecord {
            period: periods[i],
            beneficiaries: addr_views(beneficiaries[i]@),
            claimants: addr_views(claimants[i]@),
        }),
    }
}

impl View for RevenueDepositContract {
    type V = DepositModel;

    closed spec fn view(&self) -> DepositModel {
        parts_model(self.admin, self.token, self.periods@, self.beneficiaries@, self.claimants@)
    }
}

impl RevenueDepositContract {
    /// The representation invariant: the abstract state is well formed and
    /// the parallel lists line up with the periods.
    pub closed spec fn wf(&self) -> bool {
        &&& model_wf(self@)
        &&& self.period_counter == self.periods@.len()
        &&& self.beneficiaries@.len() == self.periods@.len()
        &&& self.claimants@.len() == self.periods@.len()
    }

    /// The state of a contract value is well formed, so the laws about
    /// well-formed states apply to it.
    pub proof fn lemma_state_is_well_formed(&self)
        requires
            self.wf(),
        ensures
            model_wf(self@),
    {
    }

    /// A freshly deployed, uninitialised contract.
    pub fn new() -> (s: Self)
        ensures
            s.wf(),
            s@ == empty_model(),
    {
        let s = RevenueDepositContract {
            admin: None,
            token: None,
            period_counter: 0,
            periods: Vec::new(),
            beneficiaries: Vec::new(),
            claimants: Vec::new(),
        };
        assert(s@ =~= empty_model());
        s
    }

    /// Whether `initialize` has succeeded on this contract.
    pub fn is_initialized(&self) -> (r: bool)
        requires
            self.wf(),
        ensures
            r == is_initialized(self@),
    {
        self.admin.is_some()
    }

    /// Initialise the contract with its admin and the token used for all
    /// deposits and claims. Fails with `AlreadyInitialized` on every call
    /// after the first successful one.
    pub fn initialize(&mut self, admin: Address, token: Address) -> (r: Result<(), ContractError>)
        requires
            old(self).wf(),
        ensures
            final(self).wf(),
            (r, final(self)@) == initialize_outcome(old(self)@, admin@, token@),
    {
        if self.admin.is_some() {
            return Err(ContractError::AlreadyInitialized);
        }
        proof {
            assert(self.periods@.len() == 0);
        }
        self.admin = Some(admin);
        self.token = Some(token);
        self.period_counter = 0;
        assert(self@ =~= initialize_outcome(old(self)@, admin@, token@).1);
        Ok(())
    }

    /// `Ok` when a period with id `period_id` exists, else `PeriodNotFound`.
    fn assert_period_exists(&self, period_id: u32) -> (r: Result<(), ContractError>)
        requires
            self.wf(),
        ensures
            r is Ok <==> period_id < self@.records.len(),
            r is Err ==> r == Err::<(), ContractError>(ContractError::PeriodNotFound),
    {
        if period_id as usize >= self.periods.len() {
            return Err(ContractError::PeriodNotFound);
        }
        Ok(())
    }

    /// `Ok` when `[start_ledger, end_ledger]` shares no ledger with any
    /// existing period, else `PeriodOverlap`.
    fn assert_no_overlap(&self, start_ledger: u32, end_ledger: u32) -> (r: Result<(), ContractError>)
        requires
            self.wf(),
        ensures
            r is Ok <==> !overlaps_existing(self@, start_ledger, end_ledger),
            r is Err ==> r == Err::<(), ContractError>(ContractError::PeriodOverlap),
    {
        let n = self.periods.len();
        for k in 0..n
            invariant
                n == self.periods@.len(),
                n == self@.records.len(),
                forall|j: int| 0 <= j < self@.records.len() ==> (#[trigger] self@.records[j]).period == self.periods@[j],
                forall|j: int| 0 <= j < k ==> !ranges_overlap(#[trigger] self@.records[j].period, start_ledger, end_ledger),
        {
            let existing = self.periods[k];
            // Overlap: NOT (new_end < existing_start OR new_start > existing_end)
            if !(end_ledger < existing.start_ledger || start_ledger > existing.end_ledger) {
                assert(ranges_overlap(self@.records[k as int].period, start_ledger, end_ledger));
                return Err(ContractError::PeriodOverlap);
            }
        }
        Ok(())
    }

    /// Create a new revenue period over the inclusive ledger range
    /// `[start_ledger, end_ledger]` holding `revenue_amount` tokens, at ledger
    /// `current_ledger`, and return its id. The period may not start before
    /// the current ledger. On success the caller moves `revenue_amount` tokens
    /// from the admin to the contract.
    pub fn create_period(&mut self, start_ledger: u32, end_ledger: u32, revenue_amount: i128, current_ledger: u32)
        -> (r: Result<u32, ContractError>)
        requires
            old(self).wf(),
            is_initialized(old(self)@),
        ensures
            final(self).wf(),
            (r, final(self)@) == create_period_outcome(old(self)@, start_ledger, end_ledger, revenue_amount, current_ledger),
    {
        if revenue_amount <= 0 {
            return Err(ContractError::InvalidInput);
        }
        if start_ledger >= end_ledger {
            return Err(ContractError::InvalidInput);
        }
        if start_ledger < current_ledger {
            return Err(ContractError::InvalidInput);
        }
        match self.assert_no_overlap(start_ledger, end_ledger) {
            Ok(()) => {},
            Err(e) => return Err(e),
        }
        let period_id = self.period_counter;
        let counter = match self.period_counter.checked_add(1) {
            Some(c) => c,
            None => return Err(ContractError::Overflow),
        };
        let ghost old_model = self@;
        self.period_counter = counter;
        self.periods.push(Period {
            id: period_id,
            start_ledger,
            end_ledger,
            revenue_amount,
            claimed_amount: 0,
        });
        self.beneficiaries.push(Vec::new());
        self.claimants.push(Vec::new());
        proof {
            let rec = new_period_record(period_id, start_ledger, end_ledger, revenue_amount);
            assert(addr_views(Seq::<Address>::empty()) =~= Seq::<Seq<u8>>::empty());
            assert(self@.records =~~= old_model.records.push(rec));
            assert(self@ =~~= create_period_outcome(old_model, start_ledger, end_ledger, revenue_amount, current_ledger).1);
            law_operations_preserve_wf(old_model, Seq::empty(), Seq::empty(), start_ledger, end_ledger,
                revenue_amount, 0, Seq::empty(), current_ledger);
        }
        Ok(period_id)
    }

    /// Register `beneficiary` as eligible to claim from `period_id`. Adding a
    /// beneficiary that is already registered changes nothing.
    pub fn add_beneficiary(&mut self, period_id: u32, beneficiary: Address) -> (r: Result<(), ContractError>)
        requires
            old(self).wf(),
            is_initialized(old(self)@),
        ensures
            final(self).wf(),
            (r, final(self)@) == add_beneficiary_outcome(old(self)@, period_id, beneficiary@),
    {
        match self.assert_period_exists(period_id) {
            Ok(()) => {},
            Err(e) => return Err(e),
        }
        let i = period_id as usize;
        let ghost old_model = self@;
        let ghost old_list = self.beneficiaries@[i as int];
        assert(old_model.records[i as int].beneficiaries == addr_views(old_list@));
        // Idempotency guard
        let found = position_of(&self.beneficiaries[i], &beneficiary);
        if found.is_none() {
            let ghost b = beneficiary@;
            self.beneficiaries[i].push(beneficiary);
            proof {
                let r = old_model.records[i as int];
                let nr = PeriodRecord { beneficiaries: r.beneficiaries.push(b), ..r };
                assert(addr_views(self.beneficiaries@[i as int]@) =~= r.beneficiaries.push(b));
                assert(self@.records =~~= old_model.records.update(i as int, nr));
                assert(self@ =~~= add_beneficiary_outcome(old_model, period_id, b).1);
                law_operations_preserve_wf(old_model, b, b, 0, 0, 0, period_id, b, 0);
            }
        } else {
            let k = found.unwrap();
            assert(old_model.records[i as int].beneficiaries[k as int] == beneficiary@);
            assert(self@ =~~= old_model);
        }
        Ok(())
    }

    /// Remove `beneficiary` from `period_id`. An unclaimed share of a removed
    /// beneficiary stays in the contract.
    pub fn remove_beneficiary(&mut self, period_id: u32, beneficiary: Address) -> (r: Result<(), ContractError>)
        requires
            old(self).wf(),
            is_initialized(old(self)@),
        ensures
            final(self).wf(),
            (r, final(self)@) == remove_beneficiary_outcome(old(self)@, period_id, beneficiary@),
    {
        match self.assert_period_exists(period_id) {
            Ok(()) => {},
            Err(e) => return Err(e),
        }
        let i = period_id as usize;
        let ghost old_model = self@;
        let ghost old_list = self.beneficiaries@[i as int];
        assert(old_model.records[i as int].beneficiaries == addr_views(old_list@));
        assert(record_wf(old_model.records[i as int], i as int));
        let pos = match position_of(&self.beneficiaries[i], &beneficiary) {
            Some(p) => p,
            None => return Err(ContractError::NotBeneficiary),
        };
        let _ = self.beneficiaries[i].remove(pos);
        proof {
            let r = old_model.records[i as int];
            let bs = r.beneficiaries;
            let b = beneficiary@;
            assert(bs[pos as int] == b);
            assert(bs.contains(b));
            let k = bs.index_of(b);
            assert(0 <= k < bs.len() && bs[k] == b);
            assert(k == pos as int);
            let nr = PeriodRecord { beneficiaries: bs.remove(pos as int), ..r };
            assert(addr_views(self.beneficiaries@[i as int]@) =~= bs.remove(pos as int));
            assert(self@.records =~~= old_model.records.update(i as int, nr));
            assert(self@ =~~= remove_beneficiary_outcome(old_model, period_id, b).1);
            law_operations_preserve_wf(old_model, b, b, 0, 0, 0, period_id, b, 0);
        }
        Ok(())
    }

    /// Claim `claimant`'s pro-rata share of `period_id`'s revenue, at ledger
    /// `current_ledger`. The share is `floor(revenue_amount / beneficiary_count)`;
    /// the remainder of the division stays in the contract. On success the
    /// caller moves the returned share from the contract to `claimant`.
    pub fn claim(&mut self, period_id: u32, claimant: Address, current_ledger: u32)
        -> (r: Result<i128, ContractError>)
        requires
            old(self).wf(),
        ensures
            final(self).wf(),
            (r, final(self)@) == claim_outcome(old(self)@, period_id, claimant@, current_ledger),
    {
        // ── Load period ────────────────────────────────────────────────────
        if period_id as usize >= self.periods.len() {
            return Err(ContractError::PeriodNotFound);
        }
        let i = period_id as usize;
        let ghost old_model = self@;
        let ghost a = claimant@;
        let ghost rec = old_model.records[i as int];
        assert(rec.period == self.periods@[i as int]);
        assert(rec.beneficiaries == addr_views(self.beneficiaries@[i as int]@));
        assert(rec.claimants == addr_views(self.claimants@[i as int]@));
        assert(record_wf(rec, i as int));
        let mut period = self.periods[i];

        // ── Timing gate ────────────────────────────────────────────────────
        if current_ledger <= period.end_ledger {
            return Err(ContractError::PeriodNotEnded);
        }

        // ── Beneficiary check ──────────────────────────────────────────────
        if self.beneficiaries[i].len() == 0 {
            return Err(ContractError::NoBeneficiaries);
        }
        let found = position_of(&self.beneficiaries[i], &claimant);
        if found.is_none() {
            return Err(ContractError::NotBeneficiary);
        }
        proof {
            let k = found.unwrap();
            assert(rec.beneficiaries[k as int] == a);
        }

        // ── Double-claim guard ─────────────────────────────────────────────
        let prior = position_of(&self.claimants[i], &claimant);
        if prior.is_some() {
            proof {
                let k = prior.unwrap();
                assert(rec.claimants[k as int] == a);
            }
            return Err(ContractError::AlreadyClaimed);
        }

        // ── Compute share ──────────────────────────────────────────────────
        let count = self.beneficiaries[i].len() as i128;
        let share = match period.revenue_amount.checked_div(count) {
            Some(q) => q,
            None => return Err(ContractError::Overflow),
        };
        assert(share as int == share_of(rec.period.revenue_amount, rec.beneficiaries.len()));
        if share <= 0 {
            return Err(ContractError::InvalidInput);
        }

        // ── Update state ───────────────────────────────────────────────────
        period.claimed_amount = match period.claimed_amount.checked_add(share) {
            Some(c) => c,
            None => return Err(ContractError::Overflow),
        };
        self.periods.set(i, period);
        self.claimants[i].push(claimant);
        proof {
            let nr = PeriodRecord {
                period: Period { claimed_amount: period.claimed_amount, ..rec.period },
                claimants: rec.claimants.push(a),
                ..rec
            };
            assert(addr_views(self.claimants@[i as int]@) =~= rec.claimants.push(a));
            assert(self@.records =~~= old_model.records.update(i as int, nr));
            assert(self@ =~~= claim_outcome(old_model, period_id, a, current_ledger).1);
            law_operations_preserve_wf(old_model, a, a, 0, 0, 0, period_id, a, current_ledger);
        }
        Ok(share)
    }

    /// Metadata of period `period_id`.
    pub fn get_period(&self, period_id: u32) -> (r: Result<Period, ContractError>)
        requires
            self.wf(),
        ensures
            r == get_period_spec(self@, period_id),
    {
        if period_id as usize >= self.periods.len() {
            return Err(ContractError::PeriodNotFound);
        }
        Ok(self.periods[period_id as usize])
    }

    /// Every period id registered with this contract, in the order assigned.
    pub fn get_period_ids(&self) -> (r: Vec<u32>)
        requires
            self.wf(),
        ensures
            r@ == period_ids_spec(self@),
    {
        let mut ids: Vec<u32> = Vec::new();
        let n = self.period_counter;
        let mut id: u32 = 0;
        while id < n
            invariant
                n == self@.records.len(),
                id <= n,
                ids@ == Seq::new(id as nat, |k: int| k as u32),
            decreases n - id,
        {
            ids.push(id);
            id = id + 1;
            assert(ids@ =~= Seq::new(id as nat, |k: int| k as u32));
        }
        assert(ids@ =~= period_ids_spec(self@));
        ids
    }

    /// The beneficiary list of period `period_id`, in registration order.
    pub fn get_beneficiaries(&self, period_id: u32) -> (r: Result<Vec<Address>, ContractError>)
        requires
            self.wf(),
        ensures
            match r {
                Ok(v) => beneficiaries_spec(self@, period_id) == Ok::<Seq<Seq<u8>>, ContractError>(addr_views(v@)),
                Err(e) => beneficiaries_spec(self@, period_id) == Err::<Seq<Seq<u8>>, ContractError>(e),
            },
    {
        match self.assert_period_exists(period_id) {
            Ok(()) => {},
            Err(e) => return Err(e),
        }
        let list = copy_list(&self.beneficiaries[period_id as usize]);
        Ok(list)
    }

    /// Whether `address` has claimed from `period_id`.
    pub fn has_claimed(&self, period_id: u32, address: &Address) -> (r: bool)
        requires
            self.wf(),
        ensures
            r == has_claimed_spec(self@, period_id, address@),
    {
        if period_id as usize >= self.periods.len() {
            return false;
        }
        let i = period_id as usize;
        assert(self@.records[i as int].claimants == addr_views(self.claimants@[i as int]@));
        match position_of(&self.claimants[i], address) {
            Some(k) => {
                assert(self@.records[i as int].claimants[k as int] == address@);
                true
            },
            None => false,
        }
    }

    /// The admin address.
    pub fn get_admin(&self) -> (r: Address)
        requires
            self.wf(),
            is_initialized(self@),
        ensures
            Some(r@) == self@.admin,
    {
        self.admin.as_ref().unwrap().duplicate()
    }

    /// The token contract address.
    pub fn get_token(&self) -> (r: Address)
        requires
            self.wf(),
            is_initialized(self@),
        ensures
            Some(r@) == self@.token,
    {
        self.token.as_ref().unwrap().duplicate()
    }

    /// For each period in id order, its id and the deposited amount not yet
    /// claimed.
    pub fn unclaimed_summary(&self) -> (r: Vec<(u32, i128)>)
        requires
            self.wf(),
        ensures
            r@ == unclaimed_summary_spec(self@),
    {
        let mut summary: Vec<(u32, i128)> = Vec::new();
        let n = self.periods.len();
        for k in 0..n
            invariant
                n == self@.records.len(),
                model_wf(self@),
                forall|j: int| 0 <= j < n ==> (#[trigger] self@.records[j]).period == self.periods@[j],
                summary@ =~= unclaimed_summary_spec(self@).take(k as int),
        {
            let period = self.periods[k];
            assert(record_wf(self@.records[k as int], k as int));
            let unclaimed = period.revenue_amount - period.claimed_amount;
            summary.push((period.id, unclaimed));
            assert(summary@ =~= unclaimed_summary_spec(self@).take(k + 1));
        }
        assert(summary@ =~= unclaimed_summary_spec(self@));
        summary
    }

    /// The claimants of period `period_id`, in the order they claimed.
    pub fn get_claimants(&self, period_id: u32) -> (r: Result<Vec<Address>, ContractError>)
        requires
            self.wf(),
        ensures
            match r {
                Ok(v) => period_id < self@.records.len()
                    && addr_views(v@) == self@.records[period_id as int].claimants,
                Err(e) => period_id >= self@.records.len() && e == ContractError::PeriodNotFound,
            },
    {
        match self.assert_period_exists(period_id) {
            Ok(()) => {},
            Err(e) => return Err(e),
        }
        let list = copy_list(&self.claimants[period_id as usize]);
        Ok(list)
    }

    /// Rebuild a contract from stored parts: the admin, the token, the
    /// periods in id order and, per period, its beneficiaries and its
    /// claimants. `None` when the parts do not describe a reachable state.
    pub fn from_parts(
        admin: Option<Address>,
        token: Option<Address>,
        periods: Vec<Period>,
        beneficiaries: Vec<Vec<Address>>,
        claimants: Vec<Vec<Address>>,
    ) -> (r: Option<Self>)
        ensures
            r is Some <==> (
                beneficiaries@.len() == periods@.len()
                && claimants@.len() == periods@.len()
                && model_wf(parts_model(admin, token, periods@, beneficiaries@, claimants@))),
            r matches Some(s) ==> s.wf() && s@ == parts_model(admin, token, periods@, beneficiaries@, claimants@),
    {
        let ghost m = parts_model(admin, token, periods@, beneficiaries@, claimants@);
        let n = periods.len();
        if admin.is_some() != token.is_some() {
            return None;
        }
        if admin.is_none() && n != 0 {
            return None;
        }
        if beneficiaries.len() != n || claimants.len() != n {
            return None;
        }
        if n > u32::MAX as usize {
            return None;
        }
        assert(m.records.len() == n);
        for i in 0..n
            invariant
                n == periods@.len(),
                n == beneficiaries@.len(),
                n == claimants@.len(),
                m == parts_model(admin, token, periods@, beneficiaries@, claimants@),
                forall|k: int| 0 <= k < i ==> record_wf(#[trigger] m.records[k], k),
        {
            let p = periods[i];
            let ghost rec = m.records[i as int];
            assert(rec.period == p);
            assert(rec.beneficiaries == addr_views(beneficiaries@[i as int]@));
            assert(rec.claimants == addr_views(claimants@[i as int]@));
            if p.id as usize != i || p.start_ledger >= p.end_ledger || p.revenue_amount <= 0
                || p.claimed_amount < 0 {
                assert(!record_wf(rec, i as int));
                return None;
            }
            if !has_no_duplicates(&beneficiaries[i]) || !has_no_duplicates(&claimants[i]) {
                assert(!record_wf(rec, i as int));
                return None;
            }
        }
        for x in 0..n
            invariant
                n == periods@.len(),
                m == parts_model(admin, token, periods@, beneficiaries@, claimants@),
                forall|a: int, b: int| 0 <= a < x && 0 <= b < n && a != b
                    ==> !ranges_overlap(#[trigger] m.records[a].period,
                        m.records[b].period.start_ledger, #[trigger] m.records[b].period.end_ledger),
        {
            for y in 0..n
                invariant
                    n == periods@.len(),
                    0 <= x < n,
                    m == parts_model(admin, token, periods@, beneficiaries@, claimants@),
                    forall|a: int, b: int| 0 <= a < x && 0 <= b < n && a != b
                        ==> !ranges_overlap(#[trigger] m.records[a].period,
                            m.records[b].period.start_ledger, #[trigger] m.records[b].period.end_ledger),
                    forall|b: int| 0 <= b < y && x != b
                        ==> !ranges_overlap(m.records[x as int].period,
                            m.records[b].period.start_ledger, #[trigger] m.records[b].period.end_ledger),
            {
                let px = periods[x];
                let py = periods[y];
                assert(m.records[x as int].period == px);
                assert(m.records[y as int].period == py);
                if x != y && !(py.end_ledger < px.start_ledger || py.start_ledger > px.end_ledger) {
                    return None;
                }
            }
        }
        let s = RevenueDepositContract {
            admin,
            token,
            period_counter: n as u32,
            periods,
            beneficiaries,
            claimants,
        };
        Some(s)
    }
}

} // verus!
