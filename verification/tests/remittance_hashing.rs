use remitwise::address::Address;
use remitwise::remittance_split::state::{RemittanceSplit, MAX_DEADLINE_WINDOW_SECS};
use remitwise::remittance_split::types::{
    AccountGroup, DistributeUsdcRequest, RemittanceSplitError, RequestAddressBits, SplitAmounts,
};

fn addr(n: u64) -> Address {
    Address::account(n, 0, 0, 0)
}

/// Stand-in for the host handles of the addresses a request names: every
/// test address here is told apart by its first key word.
fn bits_of(r: &DistributeUsdcRequest) -> RequestAddressBits {
    RequestAddressBits {
        from: r.from.k0,
        usdc_contract: r.usdc_contract.k0,
        spending: r.accounts.spending.k0,
        savings: r.accounts.savings.k0,
        bills: r.accounts.bills.k0,
        insurance: r.accounts.insurance.k0,
    }
}

fn hash_of(r: &DistributeUsdcRequest) -> Vec<u8> {
    RemittanceSplit::get_request_hash(r, &bits_of(r)).unwrap()
}

fn hashed(
    c: &mut RemittanceSplit,
    r: &DistributeUsdcRequest,
    h: &Vec<u8>,
    now: u64,
) -> Result<SplitAmounts, RemittanceSplitError> {
    c.distribute_usdc_hashed(r, h, &bits_of(r), now)
}

fn accounts(base: u64) -> AccountGroup {
    AccountGroup {
        spending: addr(base),
        savings: addr(base + 1),
        bills: addr(base + 2),
        insurance: addr(base + 3),
    }
}

fn request(usdc: Address, from: Address, nonce: u64, total: i128, deadline: u64) -> DistributeUsdcRequest {
    DistributeUsdcRequest { usdc_contract: usdc, from, nonce, accounts: accounts(100), total_amount: total, deadline }
}

#[test]
fn test_request_hash_deterministic() {
    let req = request(addr(1), addr(2), 0, 1000, 2000);
    let hash1 = hash_of(&req);
    let hash2 = hash_of(&req);
    assert_eq!(hash1, hash2);
    assert_eq!(hash1.len(), 32);
}

#[test]
fn test_get_request_hash_passes_xdr_length_guard() {
    let req = request(addr(1), addr(2), 0, 1_000, 9_999);
    assert_eq!(hash_of(&req).len(), 32);
}

#[test]
fn test_request_hash_changes_with_parameters() {
    let other = addr(999);
    let base = request(addr(1), addr(2), 0, 1000, 2000);
    let base_hash = hash_of(&base);
    let mut req = base;
    req.usdc_contract = other;
    assert_ne!(hash_of(&req), base_hash);
    let mut req = base;
    req.from = other;
    assert_ne!(hash_of(&req), base_hash);
    let mut req = base;
    req.nonce = 1;
    assert_ne!(hash_of(&req), base_hash);
    let mut req = base;
    req.total_amount = 2000;
    assert_ne!(hash_of(&req), base_hash);
    let mut req = base;
    req.deadline = 3000;
    assert_ne!(hash_of(&req), base_hash);
    let mut req = base;
    req.accounts.spending = other;
    assert_ne!(hash_of(&req), base_hash);
}

/// A contract whose owner initialized the split at `now` with the given
/// whole percentages and trusted token.
fn split_contract(owner: Address, usdc: Address, p: (u32, u32, u32, u32), now: u64) -> RemittanceSplit {
    let mut c = RemittanceSplit::new();
    assert_eq!(c.initialize_split(owner, 0, usdc, p.0, p.1, p.2, p.3, now), Ok(true));
    c
}

#[test]
fn test_distribute_usdc_deadline_expired() {
    let (owner, usdc) = (addr(1), addr(2));
    let mut c = split_contract(owner, usdc, (50, 30, 15, 5), 1000);
    let req = request(usdc, owner, 0, 1000, 500);
    let h = hash_of(&req);
    assert_eq!(hashed(&mut c, &req, &h, 1000), Err(RemittanceSplitError::DeadlineExpired));
}

#[test]
fn test_distribute_usdc_deadline_too_far() {
    let (owner, usdc) = (addr(1), addr(2));
    let mut c = split_contract(owner, usdc, (50, 30, 15, 5), 1000);
    let req = request(usdc, owner, 0, 1000, 1000 + 3600 + 1);
    let h = hash_of(&req);
    assert_eq!(hashed(&mut c, &req, &h, 1000), Err(RemittanceSplitError::InvalidDeadline));
}

#[test]
fn test_distribute_usdc_deadline_zero() {
    let (owner, usdc) = (addr(1), addr(2));
    let mut c = split_contract(owner, usdc, (50, 30, 15, 5), 1000);
    let req = request(usdc, owner, 0, 1000, 0);
    let h = hash_of(&req);
    assert_eq!(hashed(&mut c, &req, &h, 1000), Err(RemittanceSplitError::InvalidDeadline));
}

#[test]
fn test_distribute_usdc_hash_mismatch() {
    let (owner, usdc) = (addr(1), addr(2));
    let mut c = split_contract(owner, usdc, (50, 30, 15, 5), 1000);
    let req = request(usdc, owner, 0, 1000, 2000);
    let _ = hash_of(&req);
    let wrong_hash = vec![0u8; 32];
    assert_eq!(hashed(&mut c, &req, &wrong_hash, 1000), Err(RemittanceSplitError::RequestHashMismatch));
}

#[test]
fn test_distribute_usdc_deadline_at_boundary() {
    let (owner, usdc) = (addr(1), addr(2));
    let mut c = split_contract(owner, usdc, (50, 30, 15, 5), 1000);
    let req = request(usdc, owner, 0, 1000, 1000 + 3600);
    let h = hash_of(&req);
    let result = hashed(&mut c, &req, &h, 1000);
    assert_ne!(result, Err(RemittanceSplitError::DeadlineExpired));
    assert_ne!(result, Err(RemittanceSplitError::InvalidDeadline));
}

#[test]
fn test_request_hash_cross_call_consistency() {
    let req = request(addr(1), addr(2), 42, 12345, 9999);
    let h0 = hash_of(&req);
    let h1 = hash_of(&req);
    let h2 = hash_of(&req);
    assert_eq!(h0, h1);
    assert_eq!(h1, h2);
}

fn base_request() -> DistributeUsdcRequest {
    request(addr(1), addr(2), 1, 1000, 1000 + 1800)
}

#[test]
fn test_request_hash_positive_control() {
    let mut c = RemittanceSplit::new();
    let req = base_request();
    let h = hash_of(&req);
    assert_ne!(hashed(&mut c, &req, &h, 1000), Err(RemittanceSplitError::RequestHashMismatch));
}

fn assert_tamper_rejected(mutate: impl FnOnce(&mut DistributeUsdcRequest)) {
    let mut c = RemittanceSplit::new();
    let original = base_request();
    let h = hash_of(&original);
    let mut tampered = original;
    mutate(&mut tampered);
    assert_eq!(hashed(&mut c, &tampered, &h, 1000), Err(RemittanceSplitError::RequestHashMismatch));
}

#[test]
fn test_request_hash_mismatch_on_from_tamper() {
    assert_tamper_rejected(|r| r.from = addr(77));
}

#[test]
fn test_request_hash_mismatch_on_usdc_contract_tamper() {
    assert_tamper_rejected(|r| r.usdc_contract = addr(77));
}

#[test]
fn test_request_hash_mismatch_on_amount_tamper() {
    assert_tamper_rejected(|r| r.total_amount += 1);
}

#[test]
fn test_request_hash_mismatch_on_nonce_tamper() {
    assert_tamper_rejected(|r| r.nonce = r.nonce.wrapping_add(1));
}

#[test]
fn test_request_hash_mismatch_on_deadline_tamper() {
    assert_tamper_rejected(|r| r.deadline += 60);
}

#[test]
fn test_request_hash_mismatch_on_domain_id_swap() {
    let mut c = RemittanceSplit::new();
    let req = base_request();
    let wrong_hash = vec![0u8; 32];
    assert_eq!(hashed(&mut c, &req, &wrong_hash, 1000), Err(RemittanceSplitError::RequestHashMismatch));
}

#[test]
fn test_request_hash_mismatch_nonce_reuse_new_deadline() {
    assert_tamper_rejected(|r| r.deadline += 300);
}

/// The owner (1) initialized 40/30/20/10 at 1000; token 2.
fn distribution_contract() -> RemittanceSplit {
    split_contract(addr(1), addr(2), (40, 30, 20, 10), 1_000)
}

fn assert_distribution_tamper_rejected(mutate: impl FnOnce(&mut DistributeUsdcRequest)) {
    let mut c = distribution_contract();
    let original = request(addr(2), addr(1), 1, 1_000, 1_000 + 1_800);
    let h = hash_of(&original);
    let mut tampered = original;
    mutate(&mut tampered);
    assert_eq!(hashed(&mut c, &tampered, &h, 1_000), Err(RemittanceSplitError::RequestHashMismatch));
}

#[test]
fn test_request_hash_mismatch_on_spending_account_tamper() {
    assert_distribution_tamper_rejected(|r| r.accounts.spending = addr(500));
}

#[test]
fn test_request_hash_mismatch_on_savings_account_tamper() {
    assert_distribution_tamper_rejected(|r| r.accounts.savings = addr(500));
}

#[test]
fn test_request_hash_mismatch_on_bills_account_tamper() {
    assert_distribution_tamper_rejected(|r| r.accounts.bills = addr(500));
}

#[test]
fn test_request_hash_mismatch_on_insurance_account_tamper() {
    assert_distribution_tamper_rejected(|r| r.accounts.insurance = addr(500));
}

#[test]
fn test_request_hash_mismatch_on_account_reordering() {
    assert_distribution_tamper_rejected(|r| {
        let spending = r.accounts.spending;
        r.accounts.spending = r.accounts.savings;
        r.accounts.savings = spending;
    });
}

#[test]
fn test_request_hash_hashed_path_rejects_expired_deadline() {
    let mut c = distribution_contract();
    let mut req = request(addr(2), addr(1), 1, 1_000, 0);
    req.deadline = 1_000 - 1;
    let h = hash_of(&req);
    assert_eq!(hashed(&mut c, &req, &h, 1_000), Err(RemittanceSplitError::DeadlineExpired));
}

#[test]
fn test_request_hash_hashed_path_rejects_invalid_deadline() {
    let mut c = distribution_contract();
    let mut req = request(addr(2), addr(1), 1, 1_000, 0);
    req.deadline = 1_000 + MAX_DEADLINE_WINDOW_SECS + 1;
    let h = hash_of(&req);
    assert_eq!(hashed(&mut c, &req, &h, 1_000), Err(RemittanceSplitError::InvalidDeadline));
}

/// Owner 1 initialized 40/30/20/10 at time 10 000.
fn signed_distribution() -> RemittanceSplit {
    split_contract(addr(1), addr(2), (40, 30, 20, 10), 10_000)
}

fn signed_result(deadline: u64) -> Result<SplitAmounts, RemittanceSplitError> {
    let mut c = signed_distribution();
    let req = request(addr(2), addr(1), 1, 1000, deadline);
    let h = hash_of(&req);
    hashed(&mut c, &req, &h, 10_000)
}

#[test]
fn test_deadline_zero_is_invalid() {
    assert_eq!(signed_result(0), Err(RemittanceSplitError::InvalidDeadline));
}

#[test]
fn test_deadline_equal_to_now_is_expired() {
    assert_eq!(signed_result(10_000), Err(RemittanceSplitError::DeadlineExpired));
}

#[test]
fn test_deadline_one_second_past_is_expired() {
    assert_eq!(signed_result(10_000 - 1), Err(RemittanceSplitError::DeadlineExpired));
}

#[test]
fn test_deadline_one_second_future_is_accepted() {
    let result = signed_result(10_000 + 1);
    assert!(
        result != Err(RemittanceSplitError::DeadlineExpired) && result != Err(RemittanceSplitError::InvalidDeadline)
    );
}

#[test]
fn test_deadline_at_max_window_is_accepted() {
    let result = signed_result(10_000 + MAX_DEADLINE_WINDOW_SECS);
    assert!(
        result != Err(RemittanceSplitError::DeadlineExpired) && result != Err(RemittanceSplitError::InvalidDeadline)
    );
}

#[test]
fn test_deadline_beyond_max_window_is_invalid() {
    assert_eq!(signed_result(10_000 + MAX_DEADLINE_WINDOW_SECS + 1), Err(RemittanceSplitError::InvalidDeadline));
}

#[test]
fn test_expired_deadline_does_not_advance_nonce() {
    let mut c = signed_distribution();
    let owner = addr(1);
    let nonce_before = c.get_nonce(owner);
    let req = request(addr(2), owner, 1, 1000, 10_000 - 1);
    let h = hash_of(&req);
    let _ = hashed(&mut c, &req, &h, 10_000);
    assert_eq!(nonce_before, c.get_nonce(owner));
}

#[test]
fn test_invalid_deadline_does_not_advance_nonce() {
    let mut c = signed_distribution();
    let owner = addr(1);
    let nonce_before = c.get_nonce(owner);
    let req = request(addr(2), owner, 1, 1000, 0);
    let h = hash_of(&req);
    let _ = hashed(&mut c, &req, &h, 10_000);
    assert_eq!(nonce_before, c.get_nonce(owner));
}

fn distribution_request(usdc: Address, from: Address, nonce: u64) -> DistributeUsdcRequest {
    request(usdc, from, nonce, 1_000, 1_000 + 1_800)
}

#[test]
fn test_request_hash_distribution_happy_path_succeeds() {
    let mut c = distribution_contract();
    let req = distribution_request(addr(2), addr(1), 1);
    let h = hash_of(&req);
    assert_eq!(
        hashed(&mut c, &req, &h, 1_000),
        Ok(SplitAmounts { spending: 400, savings: 300, bills: 200, insurance: 100 })
    );
}

#[test]
fn test_request_hash_hashed_path_rejects_used_nonce() {
    let mut c = distribution_contract();
    let req = distribution_request(addr(2), addr(1), 1);
    let h = hash_of(&req);
    assert!(hashed(&mut c, &req, &h, 1_000).is_ok());
    assert_eq!(hashed(&mut c, &req, &h, 1_000), Err(RemittanceSplitError::NonceAlreadyUsed));
}

#[test]
fn test_request_hash_hashed_path_rejects_self_transfer() {
    let mut c = distribution_contract();
    let mut req = distribution_request(addr(2), addr(1), 1);
    req.accounts.spending = addr(1);
    let h = hash_of(&req);
    assert_eq!(hashed(&mut c, &req, &h, 1_000), Err(RemittanceSplitError::SelfTransferNotAllowed));
}

#[test]
fn test_request_hash_hashed_path_rejects_untrusted_token_contract() {
    let mut c = distribution_contract();
    let req = distribution_request(addr(3), addr(1), 1);
    let h = hash_of(&req);
    assert_eq!(hashed(&mut c, &req, &h, 1_000), Err(RemittanceSplitError::UntrustedTokenContract));
}
