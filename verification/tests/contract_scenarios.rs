use std::collections::HashMap;

use revora_contracts::{Address, ContractError, RevenueDepositContract};

/// A contract together with the token balances that its successful calls
/// move, and the ledger sequence the next claim sees.
struct TestContext {
    contract: RevenueDepositContract,
    balances: HashMap<Vec<u8>, i128>,
    contract_id: Address,
    token_id: Address,
    admin: Address,
    ledger: u32,
    next_address: u32,
}

impl TestContext {
    /// A fresh contract, initialised, whose admin holds 1_000_000 tokens.
    fn setup() -> TestContext {
        let mut ctx = TestContext {
            contract: RevenueDepositContract::new(),
            balances: HashMap::new(),
            contract_id: Address::new(b"CCONTRACT".to_vec()),
            token_id: Address::new(b"CTOKEN".to_vec()),
            admin: Address::new(b"GADMIN".to_vec()),
            ledger: 0,
            next_address: 0,
        };
        let admin = ctx.admin.duplicate();
        ctx.mint(&admin, 1_000_000);
        let r = ctx.contract.initialize(ctx.admin.duplicate(), ctx.token_id.duplicate());
        assert_eq!(r, Ok(()));
        ctx
    }

    /// A new address, different from every address used so far.
    fn generate(&mut self) -> Address {
        self.next_address += 1;
        Address::new(format!("GUSER{}", self.next_address).into_bytes())
    }

    fn mint(&mut self, to: &Address, amount: i128) {
        *self.balances.entry(to.to_bytes()).or_insert(0) += amount;
    }

    fn balance(&self, who: &Address) -> i128 {
        *self.balances.get(&who.to_bytes()).unwrap_or(&0)
    }

    fn transfer(&mut self, from: &Address, to: &Address, amount: i128) {
        let have = self.balance(from);
        assert!(have >= amount, "insufficient balance");
        self.balances.insert(from.to_bytes(), have - amount);
        self.mint(to, amount);
    }

    fn create_period(&mut self, start: u32, end: u32, amount: i128) -> Result<u32, ContractError> {
        let r = self.contract.create_period(start, end, amount, self.ledger);
        if r.is_ok() {
            let (admin, contract) = (self.admin.duplicate(), self.contract_id.duplicate());
            self.transfer(&admin, &contract, amount);
        }
        r
    }

    fn add_beneficiary(&mut self, period_id: u32, b: &Address) -> Result<(), ContractError> {
        self.contract.add_beneficiary(period_id, b.duplicate())
    }

    fn remove_beneficiary(&mut self, period_id: u32, b: &Address) -> Result<(), ContractError> {
        self.contract.remove_beneficiary(period_id, b.duplicate())
    }

    fn claim(&mut self, period_id: u32, claimant: &Address) -> Result<i128, ContractError> {
        let r = self.contract.claim(period_id, claimant.duplicate(), self.ledger);
        if let Ok(share) = r {
            let contract = self.contract_id.duplicate();
            self.transfer(&contract, claimant, share);
        }
        r
    }

    /// Move the ledger just past `ledger`.
    fn advance_past(&mut self, ledger: u32) {
        self.ledger = ledger + 1;
    }

    fn beneficiaries(&self, period_id: u32) -> Vec<Vec<u8>> {
        self.contract.get_beneficiaries(period_id).unwrap().iter().map(|a| a.to_bytes()).collect()
    }
}

// ─── 1. Initialisation ────────────────────────────────────────────────────────

#[test]
fn test_initialize_happy_path() {
    let ctx = TestContext::setup();
    assert_eq!(ctx.contract.get_admin().to_bytes(), ctx.admin.to_bytes());
    assert_eq!(ctx.contract.get_token().to_bytes(), ctx.token_id.to_bytes());
    assert_eq!(ctx.contract.get_period_ids(), Vec::<u32>::new());
}

#[test]
fn test_initialize_rejects_double_init() {
    let mut ctx = TestContext::setup();
    let result = ctx.contract.initialize(ctx.admin.duplicate(), ctx.token_id.duplicate());
    assert_eq!(result, Err(ContractError::AlreadyInitialized));
}

// ─── 2. Period creation ───────────────────────────────────────────────────────

#[test]
fn test_create_period_happy_path() {
    let mut ctx = TestContext::setup();
    let period_id = ctx.create_period(100, 200, 10_000).unwrap();
    assert_eq!(period_id, 0);

    let period = ctx.contract.get_period(period_id).unwrap();
    assert_eq!(period.start_ledger, 100);
    assert_eq!(period.end_ledger, 200);
    assert_eq!(period.revenue_amount, 10_000);
    assert_eq!(period.claimed_amount, 0);

    // Tokens should have moved from admin to contract
    assert_eq!(ctx.balance(&ctx.contract_id), 10_000);
    assert_eq!(ctx.balance(&ctx.admin), 1_000_000 - 10_000);
}

#[test]
fn test_create_period_increments_counter() {
    let mut ctx = TestContext::setup();
    let id0 = ctx.create_period(100, 199, 1_000).unwrap();
    let id1 = ctx.create_period(200, 299, 2_000).unwrap();
    let id2 = ctx.create_period(300, 399, 3_000).unwrap();

    assert_eq!(id0, 0);
    assert_eq!(id1, 1);
    assert_eq!(id2, 2);

    let ids = ctx.contract.get_period_ids();
    assert_eq!(ids.len(), 3);
}

#[test]
fn test_create_period_rejects_zero_amount() {
    let mut ctx = TestContext::setup();
    let result = ctx.create_period(100, 200, 0);
    assert_eq!(result, Err(ContractError::InvalidInput));
}

#[test]
fn test_create_period_rejects_negative_amount() {
    let mut ctx = TestContext::setup();
    let result = ctx.create_period(100, 200, -1);
    assert_eq!(result, Err(ContractError::InvalidInput));
}

#[test]
fn test_create_period_rejects_start_gte_end() {
    let mut ctx = TestContext::setup();
    assert_eq!(ctx.create_period(200, 200, 1_000), Err(ContractError::InvalidInput));
    assert_eq!(ctx.create_period(201, 200, 1_000), Err(ContractError::InvalidInput));
}

#[test]
fn create_period_rejects_start_before_current_ledger() {
    let mut ctx = TestContext::setup();
    ctx.ledger = 500;
    assert_eq!(ctx.create_period(100, 200, 1_000), Err(ContractError::InvalidInput));
    // nothing is stored and no tokens move
    assert_eq!(ctx.contract.get_period_ids(), Vec::<u32>::new());
    assert_eq!(ctx.balance(&ctx.contract_id), 0);
    assert_eq!(ctx.balance(&ctx.admin), 1_000_000);
}

#[test]
fn test_create_period_rejects_overlapping_exact() {
    let mut ctx = TestContext::setup();
    ctx.create_period(100, 200, 1_000).unwrap();

    // Exact duplicate
    assert_eq!(ctx.create_period(100, 200, 1_000), Err(ContractError::PeriodOverlap));
}

#[test]
fn test_create_period_rejects_overlapping_partial() {
    let mut ctx = TestContext::setup();
    ctx.create_period(100, 200, 1_000).unwrap();

    // Start inside existing period
    assert_eq!(ctx.create_period(150, 250, 1_000), Err(ContractError::PeriodOverlap));
    // End inside existing period
    assert_eq!(ctx.create_period(50, 150, 1_000), Err(ContractError::PeriodOverlap));
    // Superset
    assert_eq!(ctx.create_period(50, 250, 1_000), Err(ContractError::PeriodOverlap));
}

#[test]
fn test_create_period_accepts_adjacent_non_overlapping() {
    let mut ctx = TestContext::setup();
    ctx.create_period(100, 199, 1_000).unwrap();
    // Starts right after the first ends — should succeed
    let id = ctx.create_period(200, 299, 1_000).unwrap();
    assert_eq!(id, 1);
}

#[test]
fn test_create_period_unauthorized() {
    let mut ctx = TestContext::setup();
    // Authorisation is the host's to check; the stored admin is the one given
    // at initialisation and differs from any other address.
    let stranger = ctx.generate();
    assert!(ctx.contract.get_admin().to_bytes() != stranger.to_bytes());
}

// ─── 3. Beneficiary management ────────────────────────────────────────────────

#[test]
fn test_add_beneficiary_happy_path() {
    let mut ctx = TestContext::setup();
    let period_id = ctx.create_period(100, 200, 10_000).unwrap();
    let b1 = ctx.generate();
    let b2 = ctx.generate();

    ctx.add_beneficiary(period_id, &b1).unwrap();
    ctx.add_beneficiary(period_id, &b2).unwrap();

    let bens = ctx.beneficiaries(period_id);
    assert_eq!(bens.len(), 2);
    assert!(bens.contains(&b1.to_bytes()));
    assert!(bens.contains(&b2.to_bytes()));
}

#[test]
fn test_add_beneficiary_idempotent() {
    let mut ctx = TestContext::setup();
    let period_id = ctx.create_period(100, 200, 10_000).unwrap();
    let b1 = ctx.generate();

    ctx.add_beneficiary(period_id, &b1).unwrap();
    ctx.add_beneficiary(period_id, &b1).unwrap(); // second call is a no-op

    assert_eq!(ctx.beneficiaries(period_id).len(), 1);
}

#[test]
fn test_add_beneficiary_period_not_found() {
    let mut ctx = TestContext::setup();
    let b = ctx.generate();
    assert_eq!(ctx.add_beneficiary(99, &b), Err(ContractError::PeriodNotFound));
}

#[test]
fn test_remove_beneficiary_happy_path() {
    let mut ctx = TestContext::setup();
    let period_id = ctx.create_period(100, 200, 10_000).unwrap();
    let b1 = ctx.generate();
    let b2 = ctx.generate();

    ctx.add_beneficiary(period_id, &b1).unwrap();
    ctx.add_beneficiary(period_id, &b2).unwrap();
    ctx.remove_beneficiary(period_id, &b1).unwrap();

    let bens = ctx.beneficiaries(period_id);
    assert_eq!(bens.len(), 1);
    assert!(!bens.contains(&b1.to_bytes()));
    assert!(bens.contains(&b2.to_bytes()));
}

#[test]
fn test_remove_beneficiary_not_registered() {
    let mut ctx = TestContext::setup();
    let period_id = ctx.create_period(100, 200, 10_000).unwrap();
    let b = ctx.generate();
    assert_eq!(ctx.remove_beneficiary(period_id, &b), Err(ContractError::NotBeneficiary));
}

// ─── 4. Claims ────────────────────────────────────────────────────────────────

#[test]
fn test_claim_single_beneficiary() {
    let mut ctx = TestContext::setup();
    let period_id = ctx.create_period(100, 200, 10_000).unwrap();
    let b = ctx.generate();
    ctx.add_beneficiary(period_id, &b).unwrap();

    ctx.advance_past(200);

    let share = ctx.claim(period_id, &b).unwrap();
    assert_eq!(share, 10_000);
    assert_eq!(ctx.balance(&b), 10_000);

    // Verify period state updated
    let period = ctx.contract.get_period(period_id).unwrap();
    assert_eq!(period.claimed_amount, 10_000);
}

#[test]
fn test_claim_multiple_beneficiaries_equal_split() {
    let mut ctx = TestContext::setup();
    let period_id = ctx.create_period(100, 200, 9_000).unwrap();
    let b1 = ctx.generate();
    let b2 = ctx.generate();
    let b3 = ctx.generate();
    ctx.add_beneficiary(period_id, &b1).unwrap();
    ctx.add_beneficiary(period_id, &b2).unwrap();
    ctx.add_beneficiary(period_id, &b3).unwrap();

    ctx.advance_past(200);

    let share1 = ctx.claim(period_id, &b1).unwrap();
    let share2 = ctx.claim(period_id, &b2).unwrap();
    let share3 = ctx.claim(period_id, &b3).unwrap();

    assert_eq!(share1, 3_000);
    assert_eq!(share2, 3_000);
    assert_eq!(share3, 3_000);

    assert_eq!(ctx.balance(&b1), 3_000);
    assert_eq!(ctx.balance(&b2), 3_000);
    assert_eq!(ctx.balance(&b3), 3_000);
}

#[test]
fn test_claim_floor_division_remainder_stays_in_contract() {
    let mut ctx = TestContext::setup();
    // 10_001 / 3 = 3333 per beneficiary, remainder = 2
    let period_id = ctx.create_period(100, 200, 10_001).unwrap();
    let b1 = ctx.generate();
    let b2 = ctx.generate();
    let b3 = ctx.generate();
    ctx.add_beneficiary(period_id, &b1).unwrap();
    ctx.add_beneficiary(period_id, &b2).unwrap();
    ctx.add_beneficiary(period_id, &b3).unwrap();

    ctx.advance_past(200);

    assert_eq!(ctx.claim(period_id, &b1), Ok(3_333));
    assert_eq!(ctx.claim(period_id, &b2), Ok(3_333));
    assert_eq!(ctx.claim(period_id, &b3), Ok(3_333));

    // 2 tokens remain locked in contract
    assert_eq!(ctx.balance(&ctx.contract_id), 2);
}

#[test]
fn test_claim_period_not_ended() {
    let mut ctx = TestContext::setup();
    let period_id = ctx.create_period(100, 200, 10_000).unwrap();
    let b = ctx.generate();
    ctx.add_beneficiary(period_id, &b).unwrap();

    // Ledger is at default (0) — before period ends
    assert_eq!(ctx.claim(period_id, &b), Err(ContractError::PeriodNotEnded));
}

#[test]
fn test_claim_at_exact_end_ledger_rejected() {
    let mut ctx = TestContext::setup();
    let period_id = ctx.create_period(100, 200, 10_000).unwrap();
    let b = ctx.generate();
    ctx.add_beneficiary(period_id, &b).unwrap();

    // Set to exactly the end ledger — claim should still be rejected (requires *after*)
    ctx.ledger = 200;

    assert_eq!(ctx.claim(period_id, &b), Err(ContractError::PeriodNotEnded));
}

#[test]
fn test_claim_double_claim_rejected() {
    let mut ctx = TestContext::setup();
    let period_id = ctx.create_period(100, 200, 10_000).unwrap();
    let b = ctx.generate();
    ctx.add_beneficiary(period_id, &b).unwrap();
    ctx.advance_past(200);

    ctx.claim(period_id, &b).unwrap();

    assert_eq!(ctx.claim(period_id, &b), Err(ContractError::AlreadyClaimed));
}

#[test]
fn test_claim_non_beneficiary_rejected() {
    let mut ctx = TestContext::setup();
    let period_id = ctx.create_period(100, 200, 10_000).unwrap();
    let b = ctx.generate();
    ctx.add_beneficiary(period_id, &b).unwrap();

    ctx.advance_past(200);

    let stranger = ctx.generate();
    assert_eq!(ctx.claim(period_id, &stranger), Err(ContractError::NotBeneficiary));
}

#[test]
fn test_claim_period_not_found() {
    let mut ctx = TestContext::setup();
    let b = ctx.generate();
    assert_eq!(ctx.claim(99, &b), Err(ContractError::PeriodNotFound));
}

#[test]
fn test_claim_no_beneficiaries() {
    let mut ctx = TestContext::setup();
    let period_id = ctx.create_period(100, 200, 10_000).unwrap();
    let b = ctx.generate();

    ctx.advance_past(200);

    // No beneficiaries registered, but b tries to claim
    assert_eq!(ctx.claim(period_id, &b), Err(ContractError::NoBeneficiaries));
}

// ─── 5. Read helpers ──────────────────────────────────────────────────────────

#[test]
fn test_get_period_not_found() {
    let ctx = TestContext::setup();
    assert_eq!(ctx.contract.get_period(42), Err(ContractError::PeriodNotFound));
}

#[test]
fn test_has_claimed_returns_correct_values() {
    let mut ctx = TestContext::setup();
    let period_id = ctx.create_period(100, 200, 10_000).unwrap();
    let b = ctx.generate();
    ctx.add_beneficiary(period_id, &b).unwrap();

    assert!(!ctx.contract.has_claimed(period_id, &b));

    ctx.advance_past(200);
    ctx.claim(period_id, &b).unwrap();

    assert!(ctx.contract.has_claimed(period_id, &b));
}

#[test]
fn test_unclaimed_summary() {
    let mut ctx = TestContext::setup();
    let p0 = ctx.create_period(100, 199, 6_000).unwrap();
    let p1 = ctx.create_period(200, 299, 9_000).unwrap();

    let b = ctx.generate();
    ctx.add_beneficiary(p0, &b).unwrap();

    ctx.advance_past(299);
    ctx.claim(p0, &b).unwrap();

    let summary: HashMap<u32, i128> = ctx.contract.unclaimed_summary().into_iter().collect();
    // p0 had 6000 deposited, 6000 claimed → 0 unclaimed
    assert_eq!(*summary.get(&p0).unwrap(), 0);
    // p1 had 9000 deposited, none claimed → 9000 unclaimed
    assert_eq!(*summary.get(&p1).unwrap(), 9_000);
}

// ─── 6. Multi-period independence ─────────────────────────────────────────────

#[test]
fn test_claims_across_multiple_periods_independent() {
    let mut ctx = TestContext::setup();
    let p0 = ctx.create_period(100, 199, 4_000).unwrap();
    let p1 = ctx.create_period(200, 299, 8_000).unwrap();

    let b1 = ctx.generate();
    let b2 = ctx.generate();

    ctx.add_beneficiary(p0, &b1).unwrap();
    ctx.add_beneficiary(p0, &b2).unwrap();
    ctx.add_beneficiary(p1, &b1).unwrap();

    ctx.advance_past(299);

    // Period 0: 4000 / 2 = 2000 each
    assert_eq!(ctx.claim(p0, &b1), Ok(2_000));
    assert_eq!(ctx.claim(p0, &b2), Ok(2_000));

    // Period 1: 8000 / 1 = 8000 for b1
    assert_eq!(ctx.claim(p1, &b1), Ok(8_000));

    assert_eq!(ctx.balance(&b1), 10_000);
    assert_eq!(ctx.balance(&b2), 2_000);

    // b2 not in p1 — should be rejected
    assert_eq!(ctx.claim(p1, &b2), Err(ContractError::NotBeneficiary));
}

#[test]
fn test_removing_beneficiary_before_claim_excludes_them() {
    let mut ctx = TestContext::setup();
    let period_id = ctx.create_period(100, 200, 6_000).unwrap();
    let b1 = ctx.generate();
    let b2 = ctx.generate();

    ctx.add_beneficiary(period_id, &b1).unwrap();
    ctx.add_beneficiary(period_id, &b2).unwrap();
    ctx.remove_beneficiary(period_id, &b2).unwrap(); // remove before period ends

    ctx.advance_past(200);

    // b1 gets full share (only one beneficiary now)
    assert_eq!(ctx.claim(period_id, &b1), Ok(6_000));

    // b2 was removed — cannot claim
    assert_eq!(ctx.claim(period_id, &b2), Err(ContractError::NotBeneficiary));
}

#[test]
fn test_large_beneficiary_count() {
    let mut ctx = TestContext::setup();

    // Mint enough tokens
    let admin = ctx.admin.duplicate();
    ctx.mint(&admin, 100_000_000);

    let n: u32 = 50;
    let amount: i128 = n as i128 * 1_000; // perfectly divisible
    let period_id = ctx.create_period(100, 200, amount).unwrap();

    let beneficiaries: Vec<Address> = (0..n)
        .map(|_| {
            let b = ctx.generate();
            ctx.add_beneficiary(period_id, &b).unwrap();
            b
        })
        .collect();

    ctx.advance_past(200);

    for b in beneficiaries.iter() {
        let share = ctx.claim(period_id, b).unwrap();
        assert_eq!(share, 1_000);
    }
}
