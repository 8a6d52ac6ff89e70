use remitwise::address::Address;
use remitwise::bill_payments::state::BillPayments;
use remitwise::bill_payments::types::BillPaymentsError;

fn addr(n: u64) -> Address {
    Address::account(n, 0, 0, 0)
}

fn text(s: &str) -> Vec<u8> {
    s.as_bytes().to_vec()
}

fn create(
    c: &mut BillPayments,
    owner: Address,
    name: &str,
    amount: i128,
    due: u64,
    recurring: bool,
    freq: u32,
    now: u64,
) -> u32 {
    c.create_bill(owner, text(name), amount, due, recurring, freq, None, text("XLM"), None, true, now)
        .unwrap()
}

fn pay(c: &mut BillPayments, owner: Address, id: u32, now: u64) {
    c.pay_bill(owner, id, true, now).unwrap();
}

#[test]
fn test_get_overdue_bills_owner_scoped() {
    let mut c = BillPayments::new();
    let alice = addr(1);
    let bob = addr(2);
    let t0 = 1_000_000;
    create(&mut c, alice, "Alice Overdue1", 100, 1_500_000, false, 0, t0);
    create(&mut c, alice, "Alice Overdue2", 200, 1_600_000, false, 0, t0);
    create(&mut c, bob, "Bob Overdue", 300, 1_500_000, false, 0, t0);
    create(&mut c, alice, "Alice Future", 400, 3_000_000, false, 0, t0);
    let overdue = c.get_overdue_bills(0, 100, 2_000_000);
    assert_eq!(overdue.count, 3);
    let mut alice_count = 0u32;
    let mut bob_count = 0u32;
    for bill in overdue.items.iter() {
        assert!(bill.due_date < 2_000_000);
        if bill.owner == alice {
            alice_count += 1;
        } else if bill.owner == bob {
            bob_count += 1;
        }
    }
    assert_eq!(alice_count, 2);
    assert_eq!(bob_count, 1);
}

fn one_cycle(freq: u32, amount: i128, name: &str) -> BillPayments {
    let mut c = BillPayments::new();
    let owner = addr(1);
    let id = create(&mut c, owner, name, amount, 1_000_000, true, freq, 0);
    pay(&mut c, owner, id, 0);
    c
}

#[test]
fn test_recurring_date_math_frequency_1_day() {
    let c = one_cycle(1, 100, "Daily Bill");
    let next_bill = c.get_bill(2).unwrap();
    assert!(!next_bill.paid);
    assert_eq!(next_bill.due_date, 1_000_000 + 86400);
    assert_eq!(next_bill.frequency_days, 1);
}

#[test]
fn test_recurring_date_math_frequency_30_days() {
    let c = one_cycle(30, 500, "Monthly Bill");
    let next_bill = c.get_bill(2).unwrap();
    assert!(!next_bill.paid);
    assert_eq!(next_bill.due_date, 1_000_000 + (30u64 * 86400));
    assert_eq!(next_bill.frequency_days, 30);
}

#[test]
fn test_recurring_date_math_frequency_365_days() {
    let c = one_cycle(365, 1200, "Annual Bill");
    let next_bill = c.get_bill(2).unwrap();
    assert!(!next_bill.paid);
    assert_eq!(next_bill.due_date, 1_000_000 + (365u64 * 86400));
    assert_eq!(next_bill.frequency_days, 365);
}

#[test]
fn test_recurring_date_math_multiple_pay_cycles_3rd_bill() {
    let mut c = BillPayments::new();
    let owner = addr(1);
    let id = create(&mut c, owner, "Three-Cycle Bill", 150, 1_000_000, true, 30, 0);
    pay(&mut c, owner, id, 0);
    pay(&mut c, owner, 2, 0);
    pay(&mut c, owner, 3, 0);
    assert!(c.get_bill(3).unwrap().paid);
    let bill4 = c.get_bill(4).unwrap();
    assert_eq!(bill4.due_date, 1_000_000 + (90u64 * 86400));
    assert!(!bill4.paid);
}

#[test]
fn test_recurring_date_math_early_payment_does_not_affect_schedule() {
    let mut c = BillPayments::new();
    let owner = addr(1);
    let now = 500_000;
    let id = create(&mut c, owner, "Early Payment Test", 200, 1_000_000, true, 30, now);
    pay(&mut c, owner, id, now);
    let paid_bill = c.get_bill(id).unwrap();
    assert!(paid_bill.paid);
    assert_eq!(paid_bill.paid_at, Some(500_000));
    let next_bill = c.get_bill(2).unwrap();
    assert_eq!(next_bill.due_date, 1_000_000 + (30u64 * 86400));
}

fn two_cycles(freq: u32, amount: i128, name: &str) -> BillPayments {
    let mut c = BillPayments::new();
    let owner = addr(1);
    let id = create(&mut c, owner, name, amount, 1_000_000, true, freq, 0);
    pay(&mut c, owner, id, 0);
    pay(&mut c, owner, 2, 0);
    c
}

#[test]
fn test_recurring_date_math_preserves_frequency_across_cycles() {
    let c = two_cycles(7, 50, "Weekly Bill");
    for id in 1..=3 {
        assert_eq!(c.get_bill(id).unwrap().frequency_days, 7);
    }
}

#[test]
fn test_recurring_date_math_amount_preserved_across_cycles() {
    let c = two_cycles(30, 999, "Fixed Amount Bill");
    for id in 1..=3 {
        assert_eq!(c.get_bill(id).unwrap().amount, 999);
    }
}

#[test]
fn test_recurring_date_math_name_preserved_across_cycles() {
    let c = two_cycles(30, 1000, "Rent Payment");
    for id in 1..=3 {
        assert_eq!(c.get_bill(id).unwrap().name, text("Rent Payment"));
    }
}

#[test]
fn test_recurring_date_math_owner_preserved_across_cycles() {
    let c = two_cycles(30, 100, "Owner Test");
    for id in 1..=3 {
        assert_eq!(c.get_bill(id).unwrap().owner, addr(1));
    }
}

#[test]
fn test_recurring_date_math_exact_calculation_verification() {
    let c = one_cycle(14, 100, "Math Verification");
    let next_bill = c.get_bill(2).unwrap();
    assert_eq!(next_bill.due_date, 1_000_000u64 + (14u64 * 86400));
    assert_eq!(next_bill.due_date, 2_209_600);
}

#[test]
fn test_time_drift_bill_not_overdue_at_exact_due_date() {
    let due_date = 1_000_000u64;
    let mut c = BillPayments::new();
    create(&mut c, addr(1), "Power", 200, due_date, false, 0, due_date);
    let page = c.get_overdue_bills(0, 100, due_date);
    assert_eq!(page.count, 0);
}

#[test]
fn test_time_drift_bill_overdue_one_second_after_due_date() {
    let due_date = 1_000_000u64;
    let mut c = BillPayments::new();
    create(&mut c, addr(1), "Internet", 150, due_date, false, 0, due_date);
    assert_eq!(c.get_overdue_bills(0, 100, due_date).count, 0);
    assert_eq!(c.get_overdue_bills(0, 100, due_date + 1).count, 1);
}

#[test]
fn test_time_drift_overdue_full_day_boundary() {
    let day = 86400u64;
    let due_date = 1_000_000u64;
    let mut c = BillPayments::new();
    create(&mut c, addr(1), "Monthly Rent", 5000, due_date, false, 0, due_date);
    assert_eq!(c.get_overdue_bills(0, 100, due_date).count, 0);
    assert_eq!(c.get_overdue_bills(0, 100, due_date + day).count, 1);
}

#[test]
fn test_get_total_unpaid_no_bills_returns_zero() {
    let c = BillPayments::new();
    assert_eq!(c.get_total_unpaid(addr(1)), 0);
}

#[test]
fn test_get_total_unpaid_all_bills_paid_returns_zero() {
    let mut c = BillPayments::new();
    let owner = addr(1);
    let id1 = create(&mut c, owner, "Electricity", 400, 1_000_000, false, 0, 0);
    let id2 = create(&mut c, owner, "Water", 600, 1_000_000, false, 0, 0);
    pay(&mut c, owner, id1, 0);
    pay(&mut c, owner, id2, 0);
    assert_eq!(c.get_total_unpaid(owner), 0);
}

#[test]
fn test_get_total_unpaid_one_unpaid_bill() {
    let mut c = BillPayments::new();
    let owner = addr(1);
    create(&mut c, owner, "Rent", 1000, 1_000_000, false, 0, 0);
    assert_eq!(c.get_total_unpaid(owner), 1000);
}

#[test]
fn test_get_total_unpaid_multiple_unpaid_bills() {
    let mut c = BillPayments::new();
    let owner = addr(1);
    create(&mut c, owner, "Bill A", 100, 1_000_000, false, 0, 0);
    create(&mut c, owner, "Bill B", 200, 1_000_000, false, 0, 0);
    create(&mut c, owner, "Bill C", 300, 1_000_000, false, 0, 0);
    assert_eq!(c.get_total_unpaid(owner), 600);
}

#[test]
fn test_get_total_unpaid_decreases_after_pay() {
    let mut c = BillPayments::new();
    let owner = addr(1);
    create(&mut c, owner, "Bill A", 100, 1_000_000, false, 0, 0);
    let id_b = create(&mut c, owner, "Bill B", 200, 1_000_000, false, 0, 0);
    create(&mut c, owner, "Bill C", 300, 1_000_000, false, 0, 0);
    assert_eq!(c.get_total_unpaid(owner), 600);
    pay(&mut c, owner, id_b, 0);
    assert_eq!(c.get_total_unpaid(owner), 400);
}

#[test]
fn test_get_total_unpaid_reaches_zero_as_bills_paid_incrementally() {
    let mut c = BillPayments::new();
    let owner = addr(1);
    let id1 = create(&mut c, owner, "Bill 1", 100, 1_000_000, false, 0, 0);
    let id2 = create(&mut c, owner, "Bill 2", 200, 1_000_000, false, 0, 0);
    let id3 = create(&mut c, owner, "Bill 3", 300, 1_000_000, false, 0, 0);
    assert_eq!(c.get_total_unpaid(owner), 600);
    pay(&mut c, owner, id1, 0);
    assert_eq!(c.get_total_unpaid(owner), 500);
    pay(&mut c, owner, id2, 0);
    assert_eq!(c.get_total_unpaid(owner), 300);
    pay(&mut c, owner, id3, 0);
    assert_eq!(c.get_total_unpaid(owner), 0);
}

#[test]
fn test_get_total_unpaid_isolation_between_owners() {
    let mut c = BillPayments::new();
    let owner_a = addr(1);
    let owner_b = addr(2);
    create(&mut c, owner_a, "A - Rent", 300, 1_000_000, false, 0, 0);
    create(&mut c, owner_a, "A - Water", 200, 1_000_000, false, 0, 0);
    create(&mut c, owner_b, "B - Internet", 9999, 1_000_000, false, 0, 0);
    assert_eq!(c.get_total_unpaid(owner_a), 500);
    assert_eq!(c.get_total_unpaid(owner_b), 9999);
}

#[test]
fn test_get_total_unpaid_paying_other_owner_bill_has_no_effect() {
    let mut c = BillPayments::new();
    let owner_a = addr(1);
    let owner_b = addr(2);
    create(&mut c, owner_a, "A - Electricity", 750, 1_000_000, false, 0, 0);
    let id_b = create(&mut c, owner_b, "B - Gas", 1234, 1_000_000, false, 0, 0);
    pay(&mut c, owner_b, id_b, 0);
    assert_eq!(c.get_total_unpaid(owner_a), 750);
    assert_eq!(c.get_total_unpaid(owner_b), 0);
}

#[test]
fn test_get_total_unpaid_excludes_cancelled_bills() {
    let mut c = BillPayments::new();
    let owner = addr(1);
    let id_keep = create(&mut c, owner, "Keep", 500, 1_000_000, false, 0, 0);
    let id_cancel = create(&mut c, owner, "Cancel Me", 9000, 1_000_000, false, 0, 0);
    assert_eq!(c.get_total_unpaid(owner), 9500);
    c.cancel_bill(owner, id_cancel, true).unwrap();
    assert_eq!(c.get_total_unpaid(owner), 500);
    assert!(c.get_bill(id_keep).is_some());
}

#[test]
fn test_get_total_unpaid_minimum_amount() {
    let mut c = BillPayments::new();
    let owner = addr(1);
    create(&mut c, owner, "Tiny Bill", 1, 1_000_000, false, 0, 0);
    assert_eq!(c.get_total_unpaid(owner), 1);
}

#[test]
fn test_get_total_unpaid_large_amounts_no_overflow() {
    let mut c = BillPayments::new();
    let owner = addr(1);
    let big: i128 = i128::MAX / 4;
    create(&mut c, owner, "Big Bill 1", big, 1_000_000, false, 0, 0);
    create(&mut c, owner, "Big Bill 2", big, 1_000_000, false, 0, 0);
    assert_eq!(c.get_total_unpaid(owner), big * 2);
}

#[test]
fn test_get_total_unpaid_includes_new_recurring_bill_after_pay() {
    let mut c = BillPayments::new();
    let owner = addr(1);
    let id = create(&mut c, owner, "Monthly Subscription", 500, 1_000_000, true, 30, 0);
    assert_eq!(c.get_total_unpaid(owner), 500);
    pay(&mut c, owner, id, 0);
    assert_eq!(c.get_total_unpaid(owner), 500);
}

#[test]
fn test_batch_pay_bills_partial_success() {
    let mut c = BillPayments::new();
    let owner = addr(1);
    let id1 = create(&mut c, owner, "B", 100, 1000000, false, 0, 0);
    let id2 = create(&mut c, owner, "B", 200, 1000000, false, 0, 0);
    let id3 = create(&mut c, owner, "B", 300, 1000000, false, 0, 0);
    pay(&mut c, owner, id1, 0);
    let ids = vec![id1, id2, 999, id3];
    let success_count = c.batch_pay_bills(owner, &ids, 0).unwrap();
    assert_eq!(success_count, 2);
    assert!(c.get_bill(id1).unwrap().paid);
    assert!(c.get_bill(id2).unwrap().paid);
    assert!(c.get_bill(id3).unwrap().paid);
}

#[test]
fn test_batch_pay_bills_skips_unauthorized() {
    let mut c = BillPayments::new();
    let alice = addr(1);
    let bob = addr(2);
    let a1 = create(&mut c, alice, "Test", 100, 1000000, false, 0, 0);
    let b1 = create(&mut c, bob, "Test", 200, 1000000, false, 0, 0);
    let a2 = create(&mut c, alice, "Test", 300, 1000000, false, 0, 0);
    let ids = vec![a1, b1, a2];
    let success_count = c.batch_pay_bills(alice, &ids, 0).unwrap();
    assert_eq!(success_count, 2);
    assert!(c.get_bill(a1).unwrap().paid);
    assert!(!c.get_bill(b1).unwrap().paid);
    assert!(c.get_bill(a2).unwrap().paid);
}

#[test]
fn test_batch_pay_bills_recurring_atomicity() {
    let mut c = BillPayments::new();
    let owner = addr(1);
    let id1 = create(&mut c, owner, "R", 100, 1000000, true, 30, 0);
    let ids = vec![id1];
    let success_count = c.batch_pay_bills(owner, &ids, 0).unwrap();
    assert_eq!(success_count, 1);
    let next_bill = c.get_bill(2).unwrap();
    assert_eq!(next_bill.owner, owner);
    assert_eq!(next_bill.amount, 100);
    assert!(!next_bill.paid);
}

#[test]
fn test_timelock_bypass_rejection_schedule_unpause_past_timestamp() {
    let mut c = BillPayments::new();
    let admin = addr(9);
    c.set_pause_admin(admin, admin).unwrap();
    let now = 1000;
    assert_eq!(c.schedule_unpause(admin, 999, now), Err(BillPaymentsError::InvalidAmount));
    assert_eq!(c.schedule_unpause(admin, 1000, now), Err(BillPaymentsError::InvalidAmount));
    c.schedule_unpause(admin, 1001, now).unwrap();
}

#[test]
fn test_pause_cancels_schedule() {
    let mut c = BillPayments::new();
    let admin = addr(9);
    c.set_pause_admin(admin, admin).unwrap();
    c.pause(admin).unwrap();
    assert!(c.is_paused());
    let future = 3600;
    c.schedule_unpause(admin, future, 0).unwrap();
    c.pause(admin).unwrap();
    c.unpause(admin, future).unwrap();
    assert!(!c.is_paused());
}

#[test]
fn test_premature_unpause_rejection() {
    let mut c = BillPayments::new();
    let admin = addr(9);
    c.set_pause_admin(admin, admin).unwrap();
    c.pause(admin).unwrap();
    assert!(c.is_paused());
    let future = 3600;
    c.schedule_unpause(admin, future, 0).unwrap();
    assert_eq!(c.unpause(admin, future - 1), Err(BillPaymentsError::ContractPaused));
    assert!(c.is_paused());
    c.unpause(admin, future).unwrap();
    assert!(!c.is_paused());
}

#[test]
fn test_pre_upgrade_roundtrip() {
    let mut c = BillPayments::new();
    let admin = addr(9);
    c.set_upgrade_admin(admin, admin).unwrap();
    let version_before = c.get_version();
    assert!(c.pre_upgrade(admin).is_ok());
    c.set_version(admin, 42).unwrap();
    assert_eq!(c.get_version(), 42);
    assert!(c.restore_from_snapshot(admin).is_ok());
    assert_eq!(c.get_version(), version_before);
}

#[test]
fn test_pre_upgrade_unauthorized_fails() {
    let mut c = BillPayments::new();
    let admin = addr(9);
    let stranger = addr(10);
    c.set_upgrade_admin(admin, admin).unwrap();
    assert_eq!(c.pre_upgrade(stranger), Err(BillPaymentsError::Unauthorized));
}
