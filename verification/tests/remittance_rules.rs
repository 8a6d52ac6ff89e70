use remitwise::address::Address;
use remitwise::remittance_split::state::RemittanceSplit;
use remitwise::remittance_split::types::{
    AccountGroup, DistributeUsdcRequest, RemittanceSplitError, RequestAddressBits, SplitAmounts,
};

fn addr(n: u64) -> Address {
    Address::account(n, 0, 0, 0)
}

const NOW: u64 = 1_000;

fn owner() -> Address {
    addr(1)
}

fn token() -> Address {
    addr(2)
}

fn accounts() -> AccountGroup {
    AccountGroup { spending: addr(10), savings: addr(11), bills: addr(12), insurance: addr(13) }
}

fn init(s: u32, g: u32, b: u32, i: u32) -> RemittanceSplit {
    let mut c = RemittanceSplit::new();
    assert_eq!(c.initialize_split(owner(), 0, token(), s, g, b, i, NOW), Ok(true));
    c
}

fn distribute(c: &mut RemittanceSplit, nonce: u64, total: i128, deadline: u64) -> Result<SplitAmounts, RemittanceSplitError> {
    let h = RemittanceSplit::compute_request_hash("distrib", owner(), nonce, total, deadline);
    c.distribute_usdc(token(), owner(), nonce, deadline, h, accounts(), total, NOW)
}

fn bits_of(r: &DistributeUsdcRequest) -> RequestAddressBits {
    RequestAddressBits {
        from: r.from.k0,
        usdc_contract: r.usdc_contract.k0,
        spending: r.accounts.spending.k0,
        savings: r.accounts.savings.k0,
        bills: r.accounts.bills.k0,
        insurance: r.accounts.insurance.k0,
    }
}

fn hashed_request(nonce: u64) -> DistributeUsdcRequest {
    DistributeUsdcRequest {
        usdc_contract: token(),
        from: owner(),
        nonce,
        accounts: accounts(),
        total_amount: 1_000,
        deadline: NOW + 1_800,
    }
}

fn run_hashed(c: &mut RemittanceSplit, r: &DistributeUsdcRequest) -> Result<SplitAmounts, RemittanceSplitError> {
    let bits = bits_of(r);
    let h = RemittanceSplit::get_request_hash(r, &bits).unwrap();
    c.distribute_usdc_hashed(r, &h, &bits, NOW)
}

#[test]
fn fingerprint_depends_on_operation_and_nonce() {
    let a = RemittanceSplit::compute_request_hash("distrib", owner(), 1, 1000, 5000);
    assert_eq!(a, RemittanceSplit::compute_request_hash("distrib", addr(99), 1, 1000, 5000));
    assert_ne!(a, RemittanceSplit::compute_request_hash("init", owner(), 1, 1000, 5000));
    assert_ne!(a, RemittanceSplit::compute_request_hash("distrib", owner(), 2, 1000, 5000));
}

#[test]
fn request_hash_is_not_its_preimage() {
    let r = hashed_request(1);
    let bits = bits_of(&r);
    let pre = RemittanceSplit::request_preimage_bytes(&r, &bits, 7);
    assert_eq!(pre.len(), 18 + 7 * 8 + 16 + 8 + 8);
    assert_eq!(&pre[0..18], b"distribute_usdc_v1");
    assert_eq!(pre[18], 7);
    let h = RemittanceSplit::get_request_hash(&r, &bits).unwrap();
    assert_eq!(h.len(), 32);
    assert_ne!(h, pre);
}

#[test]
fn distribute_splits_and_consumes_nonce() {
    let mut c = init(40, 30, 20, 10);
    assert_eq!(c.get_nonce(owner()), 1);
    let r = distribute(&mut c, 1, 1_001, NOW + 100);
    assert_eq!(r, Ok(SplitAmounts { spending: 400, savings: 300, bills: 200, insurance: 101 }));
    assert_eq!(c.get_nonce(owner()), 2);
    assert!(c.is_nonce_used(owner(), 1));
    // Replaying the same request is refused and changes nothing.
    assert_eq!(distribute(&mut c, 1, 1_001, NOW + 100), Err(RemittanceSplitError::InvalidNonce));
    assert_eq!(c.get_nonce(owner()), 2);
}

#[test]
fn hashed_distribution_rejects_used_nonce() {
    let mut c = init(40, 30, 20, 10);
    let r = hashed_request(1);
    assert_eq!(run_hashed(&mut c, &r), Ok(SplitAmounts { spending: 400, savings: 300, bills: 200, insurance: 100 }));
    assert_eq!(run_hashed(&mut c, &r), Err(RemittanceSplitError::NonceAlreadyUsed));
}

#[test]
fn hashed_distribution_rejects_self_transfer_and_untrusted_token() {
    let mut c = init(40, 30, 20, 10);
    let mut r = hashed_request(1);
    r.accounts.spending = owner();
    assert_eq!(run_hashed(&mut c, &r), Err(RemittanceSplitError::SelfTransferNotAllowed));
    let mut r = hashed_request(1);
    r.usdc_contract = addr(3);
    assert_eq!(run_hashed(&mut c, &r), Err(RemittanceSplitError::UntrustedTokenContract));
    assert_eq!(c.get_nonce(owner()), 1);
}

#[test]
fn distribute_refusals() {
    let mut c = init(40, 30, 20, 10);
    let h = RemittanceSplit::compute_request_hash("distrib", owner(), 1, 100, NOW + 10);
    let go = |c: &mut RemittanceSplit, usdc: Address, from: Address, hash: u64, acc: AccountGroup, total: i128| {
        c.distribute_usdc(usdc, from, 1, NOW + 10, hash, acc, total, NOW)
    };
    assert_eq!(go(&mut c, token(), addr(5), h, accounts(), 100), Err(RemittanceSplitError::Unauthorized));
    assert_eq!(go(&mut c, addr(3), owner(), h, accounts(), 100), Err(RemittanceSplitError::UntrustedTokenContract));
    assert_eq!(go(&mut c, token(), owner(), h, accounts(), 0), Err(RemittanceSplitError::InvalidAmount));
    let mut selfish = accounts();
    selfish.bills = owner();
    assert_eq!(go(&mut c, token(), owner(), h, selfish, 100), Err(RemittanceSplitError::SelfTransferNotAllowed));
    assert_eq!(go(&mut c, token(), owner(), h + 1, accounts(), 100), Err(RemittanceSplitError::RequestHashMismatch));
    assert_eq!(go(&mut c, token(), owner(), h, accounts(), 100).map(|a| a.spending), Ok(40));
}

#[test]
fn split_amounts_overflow() {
    let c = init(50, 30, 15, 5);
    assert_eq!(c.calculate_split_amounts(i128::MAX), Err(RemittanceSplitError::Overflow));
    // The floor split works in two steps and does not overflow.
    let v = c.calculate_split(i128::MAX).unwrap();
    assert_eq!(v[0] + v[1] + v[2] + v[3], i128::MAX);
}

#[test]
fn calculate_split_exact_values() {
    let c = init(37, 33, 20, 10);
    assert_eq!(c.calculate_split(101), Ok(vec![37, 33, 20, 11]));
    assert_eq!(c.calculate_split(0), Err(RemittanceSplitError::InvalidAmount));
    let d = RemittanceSplit::new();
    assert_eq!(d.get_split(), vec![50, 30, 15, 5]);
    assert_eq!(d.calculate_split(7), Ok(vec![3, 2, 1, 1]));
}

#[test]
fn floor_percentage_values() {
    assert_eq!(RemittanceSplit::floor_percentage(1_001, 33), Ok(330));
    assert_eq!(RemittanceSplit::floor_percentage(i128::MAX, 100), Ok(i128::MAX));
}

#[test]
fn percentage_validation() {
    assert_eq!(RemittanceSplit::validate_percentages(50, 30, 15, 5), Ok(()));
    assert_eq!(RemittanceSplit::validate_percentages(101, 0, 0, 0), Err(RemittanceSplitError::PercentageOutOfRange));
    assert_eq!(RemittanceSplit::validate_percentages(50, 30, 15, 4), Err(RemittanceSplitError::PercentagesDoNotSumTo100));
}

#[test]
fn update_split_rules() {
    let mut c = init(50, 30, 15, 5);
    assert_eq!(c.update_split(owner(), 1, 60, 20, 10, 5), Err(RemittanceSplitError::InvalidPercentages));
    assert_eq!(c.update_split(owner(), 5, 60, 20, 10, 10), Err(RemittanceSplitError::InvalidNonce));
    assert_eq!(c.update_split(addr(5), 0, 60, 20, 10, 10), Err(RemittanceSplitError::Unauthorized));
    assert_eq!(c.update_split(owner(), 1, 60, 20, 10, 10), Ok(true));
    assert_eq!(c.get_split(), vec![60, 20, 10, 10]);
    assert_eq!(c.get_nonce(owner()), 2);
}

#[test]
fn schedule_refusals() {
    let mut c = init(50, 30, 15, 5);
    let o = owner();
    assert_eq!(c.create_remittance_schedule(o, 0, NOW + 10, 0, NOW), Err(RemittanceSplitError::InvalidAmount));
    assert_eq!(c.create_remittance_schedule(o, 10, NOW, 0, NOW), Err(RemittanceSplitError::InvalidDueDate));
    assert_eq!(c.create_remittance_schedule(o, 10, NOW + 10, 60, NOW), Err(RemittanceSplitError::ScheduleIntervalTooShort));
    assert_eq!(
        c.create_remittance_schedule(o, 10, NOW + 31_536_001, 0, NOW),
        Err(RemittanceSplitError::ScheduleLeadTimeTooLong)
    );
    for _ in 0..50 {
        c.create_remittance_schedule(o, 10, NOW + 10, 0, NOW).unwrap();
    }
    assert_eq!(c.create_remittance_schedule(o, 10, NOW + 10, 0, NOW), Err(RemittanceSplitError::ScheduleCapExceeded));
    assert_eq!(c.cancel_remittance_schedule(o, 999), Err(RemittanceSplitError::ScheduleNotFound));
    assert_eq!(c.cancel_remittance_schedule(o, 1), Ok(true));
    assert_eq!(c.cancel_remittance_schedule(o, 1), Err(RemittanceSplitError::InactiveSchedule));
    assert_eq!(c.modify_remittance_schedule(o, 2, 20, NOW + 100, 3_600, NOW), Ok(true));
    let s = c.get_remittance_schedule(2).unwrap();
    assert_eq!((s.amount, s.next_due, s.interval, s.recurring), (20, NOW + 100, 3_600, true));
}

#[test]
fn treasury_handover() {
    let mut c = init(50, 30, 15, 5);
    assert_eq!(c.accept_treasury(addr(7)), Err(RemittanceSplitError::NoPendingTreasury));
    c.propose_treasury(owner(), addr(7)).unwrap();
    assert_eq!(c.accept_treasury(addr(8)), Err(RemittanceSplitError::PendingTreasuryMismatch));
    assert_eq!(c.accept_treasury(addr(7)), Ok(()));
    assert_eq!(c.get_treasury_public(), Some(addr(7)));
    assert_eq!(c.get_pending_treasury_public(), None);
}

#[test]
fn exported_snapshot_verifies() {
    let mut c = init(50, 30, 15, 5);
    c.create_remittance_schedule(owner(), 10, NOW + 10, 0, NOW).unwrap();
    assert_eq!(c.export_snapshot(addr(5), NOW).err(), Some(RemittanceSplitError::Unauthorized));
    let snap = c.export_snapshot(owner(), NOW).unwrap().unwrap();
    assert_eq!(snap.schedules.len(), 1);
    assert_eq!(RemittanceSplit::verify_snapshot(&snap, NOW), Ok(true));
    assert_eq!(RemittanceSplit::verify_snapshot(&snap, NOW - 1), Err(RemittanceSplitError::InvalidAmount));
    let mut bad = c.export_snapshot(owner(), NOW).unwrap().unwrap();
    bad.checksum += 1;
    assert_eq!(RemittanceSplit::verify_snapshot(&bad, NOW), Err(RemittanceSplitError::ChecksumMismatch));
    let mut old_schema = c.export_snapshot(owner(), NOW).unwrap().unwrap();
    old_schema.schema_version = 99;
    assert_eq!(RemittanceSplit::verify_snapshot(&old_schema, NOW), Err(RemittanceSplitError::UnsupportedVersion));
}

#[test]
fn import_snapshot_replaces_config() {
    let mut c = init(50, 30, 15, 5);
    let mut snap = c.export_snapshot(owner(), NOW).unwrap().unwrap();
    snap.config.spending_percent = 40;
    snap.config.savings_percent = 40;
    snap.checksum = remitwise::remittance_split::snapshots::compute_checksum(
        snap.schema_version,
        &snap.config,
        snap.schedules.len(),
    );
    assert_eq!(c.import_snapshot(owner(), 1, &snap, NOW), Ok(true));
    assert_eq!(c.get_split(), vec![40, 40, 15, 5]);
    assert_eq!(c.get_nonce(owner()), 2);
}

#[test]
fn pre_upgrade_snapshot_restores() {
    let mut c = init(50, 30, 15, 5);
    let version = c.get_version();
    c.pre_upgrade(owner()).unwrap();
    c.set_version(owner(), 9).unwrap();
    assert_eq!(c.get_version(), 9);
    assert_eq!(c.restore_from_snapshot(owner(), NOW), Ok(()));
    assert_eq!(c.get_version(), version);
    assert_eq!(c.get_config().unwrap().spending_percent, 50);
}

#[test]
fn audit_log_pages() {
    let mut c = init(50, 30, 15, 5);
    c.update_split(owner(), 1, 25, 25, 25, 25).unwrap();
    // Only the initialization is audited; a successful update is not.
    let page = c.get_audit_log(0, 10);
    assert_eq!(page.count, 1);
    assert!(page.items[0].success && page.items[0].caller == owner() && page.items[0].timestamp == NOW);
    assert_eq!(c.get_audit_log(1, 10).count, 0);
}

#[test]
fn paused_contract_refuses_changes() {
    let mut c = init(50, 30, 15, 5);
    c.pause(owner()).unwrap();
    assert_eq!(c.update_split(owner(), 1, 25, 25, 25, 25), Err(RemittanceSplitError::Unauthorized));
    assert_eq!(c.pause(owner()), Err(RemittanceSplitError::Unauthorized));
    c.unpause(owner()).unwrap();
    assert_eq!(c.update_split(owner(), 1, 25, 25, 25, 25), Ok(true));
}

#[test]
fn import_restores_schedule_list_and_checks_owner() {
    let mut c = init(50, 30, 15, 5);
    c.create_remittance_schedule(owner(), 10, NOW + 10, 0, NOW).unwrap();
    c.create_remittance_schedule(owner(), 20, NOW + 20, 3_600, NOW).unwrap();
    let snap = c.export_snapshot(owner(), NOW).unwrap().unwrap();
    // A snapshot naming another owner is refused.
    let mut foreign = c.export_snapshot(owner(), NOW).unwrap().unwrap();
    foreign.config.owner = addr(9);
    assert_eq!(c.import_snapshot(owner(), 1, &foreign, NOW), Err(RemittanceSplitError::OwnerMismatch));
    // Future-dated and mis-summed configurations are refused too.
    let mut late = c.export_snapshot(owner(), NOW).unwrap().unwrap();
    late.config.timestamp = NOW + 1;
    assert_eq!(c.import_snapshot(owner(), 1, &late, NOW), Err(RemittanceSplitError::InvalidAmount));
    let mut uneven = c.export_snapshot(owner(), NOW).unwrap().unwrap();
    uneven.config.insurance_percent = 4;
    uneven.checksum = remitwise::remittance_split::snapshots::compute_checksum(
        uneven.schema_version,
        &uneven.config,
        uneven.schedules.len(),
    );
    assert_eq!(RemittanceSplit::verify_snapshot(&uneven, NOW), Err(RemittanceSplitError::InvalidPercentages));
    assert_eq!(c.get_nonce(owner()), 1);
    // Importing one's own export keeps the configuration and the schedule list.
    assert_eq!(c.import_snapshot(owner(), 1, &snap, NOW), Ok(true));
    let listed = c.get_remittance_schedules(owner());
    assert_eq!(listed, snap.schedules);
    assert_eq!(c.get_config(), Some(snap.config));
    assert_eq!(c.get_nonce(owner()), 2);
}

#[test]
fn fingerprint_exact_value() {
    // "distrib" packs 6 bits per character (d=41, i=46, s=56, t=57, r=55,
    // i=46, b=39) above the 8-bit small-symbol tag 14.
    let mut body: u64 = 0;
    for code in [41u64, 46, 56, 57, 55, 46, 39] {
        body = body * 64 + code;
    }
    let payload = body * 256 + 14;
    let (nonce, amount, deadline) = (3u64, 1_000i128, 5_000u64);
    let expected = payload
        .wrapping_add(nonce)
        .wrapping_add(amount as u64)
        .wrapping_add((amount >> 64) as u64)
        .wrapping_add(deadline)
        .wrapping_mul(1_000_000_007);
    assert_eq!(RemittanceSplit::compute_request_hash("distrib", owner(), nonce, amount, deadline), expected);
}
