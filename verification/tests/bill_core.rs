use remitwise::address::Address;
use remitwise::bill_payments::state::BillPayments;
use remitwise::bill_payments::types::BillPaymentsError;

fn addr(n: u64) -> Address {
    Address::account(n, 0, 0, 0)
}

fn text(s: &str) -> Vec<u8> {
    s.as_bytes().to_vec()
}

fn create(
    c: &mut BillPayments,
    owner: Address,
    name: &str,
    amount: i128,
    due: u64,
    recurring: bool,
    freq: u32,
    now: u64,
) -> Result<u32, BillPaymentsError> {
    c.create_bill(owner, text(name), amount, due, recurring, freq, None, text("XLM"), None, true, now)
}

fn pay(c: &mut BillPayments, caller: Address, id: u32, now: u64) -> Result<(), BillPaymentsError> {
    c.pay_bill(caller, id, true, now)
}

#[test]
fn test_create_bill_succeeds() {
    let mut c = BillPayments::new();
    let owner = addr(1);
    let bill_id = create(&mut c, owner, "Electricity", 1000, 1000000, false, 0, 0).unwrap();
    assert_eq!(bill_id, 1);
    let bill = c.get_bill(1);
    assert!(bill.is_some());
    let bill = bill.unwrap();
    assert_eq!(bill.amount, 1000);
    assert!(!bill.paid);
    assert!(bill.external_ref.is_none());
}

#[test]
fn test_create_bill_invalid_amount_fails() {
    let mut c = BillPayments::new();
    let result = create(&mut c, addr(1), "Invalid", 0, 1000000, false, 0, 0);
    assert_eq!(result, Err(BillPaymentsError::InvalidAmount));
}

#[test]
fn test_create_recurring_bill_invalid_frequency() {
    let mut c = BillPayments::new();
    let result = create(&mut c, addr(1), "Monthly", 500, 1000000, true, 0, 0);
    assert_eq!(result, Err(BillPaymentsError::InvalidFrequency));
}

#[test]
fn test_create_bill_negative_amount() {
    let mut c = BillPayments::new();
    let result = create(&mut c, addr(1), "Invalid", -100, 1000000, false, 0, 0);
    assert_eq!(result, Err(BillPaymentsError::InvalidAmount));
}

#[test]
fn test_pay_bill() {
    let mut c = BillPayments::new();
    let owner = addr(1);
    let bill_id = create(&mut c, owner, "Water", 500, 1000000, false, 0, 0).unwrap();
    pay(&mut c, owner, bill_id, 0).unwrap();
    let bill = c.get_bill(bill_id).unwrap();
    assert!(bill.paid);
    assert!(bill.paid_at.is_some());
}

#[test]
fn test_recurring_bill() {
    let mut c = BillPayments::new();
    let owner = addr(1);
    let bill_id = create(&mut c, owner, "Rent", 10000, 1000000, true, 30, 0).unwrap();
    pay(&mut c, owner, bill_id, 0).unwrap();
    let bill = c.get_bill(bill_id).unwrap();
    assert!(bill.paid);
    let bill2 = c.get_bill(2).unwrap();
    assert!(!bill2.paid);
    assert_eq!(bill2.amount, 10000);
    assert_eq!(bill2.due_date, 1000000 + (30 * 86400));
}

#[test]
fn test_get_unpaid_bills() {
    let mut c = BillPayments::new();
    let owner = addr(1);
    create(&mut c, owner, "Bill1", 100, 1000000, false, 0, 0).unwrap();
    create(&mut c, owner, "Bill2", 200, 1000000, false, 0, 0).unwrap();
    create(&mut c, owner, "Bill3", 300, 1000000, false, 0, 0).unwrap();
    pay(&mut c, owner, 1, 0).unwrap();
    let unpaid = c.get_unpaid_bills(owner, 0, 100);
    assert_eq!(unpaid.items.len(), 2);
}

#[test]
fn test_get_bills_due_between_filters_boundaries_and_paginates() {
    let mut c = BillPayments::new();
    let owner = addr(1);
    let now = 1_000;
    for (name, due) in [
        ("Before", 1_099u64),
        ("Start", 1_100u64),
        ("Middle", 1_200u64),
        ("End", 1_300u64),
        ("After", 1_301u64),
    ] {
        create(&mut c, owner, name, 100, due, false, 0, now).unwrap();
    }
    pay(&mut c, owner, 3, now).unwrap();
    let first = c.get_bills_due_between(owner, 1_100, 1_300, 0, 1).unwrap();
    assert_eq!(first.count, 1);
    assert_eq!(first.items[0].id, 2);
    assert_eq!(first.next_cursor, 2);
    let second = c.get_bills_due_between(owner, 1_100, 1_300, first.next_cursor, 10).unwrap();
    assert_eq!(second.count, 1);
    assert_eq!(second.items[0].id, 4);
    assert_eq!(second.next_cursor, 0);
}

#[test]
fn test_get_bills_due_between_accepts_single_timestamp_and_rejects_inverted_range() {
    let mut c = BillPayments::new();
    let owner = addr(1);
    create(&mut c, owner, "Same day", 100, 1_500, false, 0, 1_000).unwrap();
    let page = c.get_bills_due_between(owner, 1_500, 1_500, 0, 10).unwrap();
    assert_eq!(page.count, 1);
    assert_eq!(page.items[0].due_date, 1_500);
    let result = c.get_bills_due_between(owner, 1_501, 1_500, 0, 10);
    assert!(matches!(result, Err(BillPaymentsError::InvalidDueDate)));
}

#[test]
fn test_get_total_unpaid() {
    let mut c = BillPayments::new();
    let owner = addr(1);
    create(&mut c, owner, "Bill1", 100, 1000000, false, 0, 0).unwrap();
    create(&mut c, owner, "Bill2", 200, 1000000, false, 0, 0).unwrap();
    create(&mut c, owner, "Bill3", 300, 1000000, false, 0, 0).unwrap();
    pay(&mut c, owner, 1, 0).unwrap();
    assert_eq!(c.get_total_unpaid(owner), 500);
}

#[test]
fn test_pay_nonexistent_bill() {
    let mut c = BillPayments::new();
    assert_eq!(pay(&mut c, addr(1), 999, 0), Err(BillPaymentsError::BillNotFound));
}

#[test]
fn test_pay_already_paid_bill() {
    let mut c = BillPayments::new();
    let owner = addr(1);
    let bill_id = create(&mut c, owner, "Test", 100, 1000000, false, 0, 0).unwrap();
    pay(&mut c, owner, bill_id, 0).unwrap();
    assert_eq!(pay(&mut c, owner, bill_id, 0), Err(BillPaymentsError::BillAlreadyPaid));
}

#[test]
fn test_get_overdue_bills_succeeds() {
    let mut c = BillPayments::new();
    let owner = addr(1);
    create(&mut c, owner, "Overdue1", 100, 1_500_000, false, 0, 1_000_000).unwrap();
    create(&mut c, owner, "Overdue2", 200, 1_800_000, false, 0, 1_000_000).unwrap();
    create(&mut c, owner, "Future", 300, 3_000_000, false, 0, 1_000_000).unwrap();
    let overdue = c.get_overdue_bills(0, 100, 2_000_000);
    assert_eq!(overdue.count, 2);
}

#[test]
fn test_cancel_bill() {
    let mut c = BillPayments::new();
    let owner = addr(1);
    let bill_id = create(&mut c, owner, "Test", 100, 1000000, false, 0, 0).unwrap();
    c.cancel_bill(owner, bill_id, true).unwrap();
    assert!(c.get_bill(bill_id).is_none(), "cancelled bill should return None");
    let new_bill_id = create(&mut c, owner, "New Bill", 200, 2000000, false, 0, 0).unwrap();
    assert_ne!(bill_id, new_bill_id, "new bill should have different ID");
    assert!(c.get_bill(new_bill_id).is_some(), "new bill should exist");
    assert!(c.get_bill(bill_id).is_none(), "cancelled bill should still return None");
    assert_eq!(c.cancel_bill(owner, bill_id, true), Err(BillPaymentsError::BillNotFound));
}

#[test]
fn test_cancel_bill_owner_succeeds() {
    let mut c = BillPayments::new();
    let owner = addr(1);
    let bill_id = create(&mut c, owner, "Test", 100, 1000000, false, 0, 0).unwrap();
    c.cancel_bill(owner, bill_id, true).unwrap();
    assert!(c.get_bill(bill_id).is_none(), "bill should be removed after owner cancellation");
    assert_eq!(c.cancel_bill(owner, bill_id, true), Err(BillPaymentsError::BillNotFound));
}

#[test]
fn test_cancel_bill_unauthorized_fails() {
    let mut c = BillPayments::new();
    let owner = addr(1);
    let other = addr(2);
    let bill_id = create(&mut c, owner, "Water", 500, 1000000, false, 0, 0).unwrap();
    assert_eq!(c.cancel_bill(other, bill_id, true), Err(BillPaymentsError::Unauthorized));
}

#[test]
fn test_cancel_nonexistent_bill() {
    let mut c = BillPayments::new();
    assert_eq!(c.cancel_bill(addr(1), 999, true), Err(BillPaymentsError::BillNotFound));
}

#[test]
fn test_set_external_ref_success() {
    let mut c = BillPayments::new();
    let owner = addr(1);
    let bill_id = create(&mut c, owner, "Internet", 150, 1000000, false, 0, 0).unwrap();
    let ref_id = Some(text("BILL-EXT-123"));
    c.set_external_ref(owner, bill_id, ref_id.clone()).unwrap();
    let bill = c.get_bill(bill_id).unwrap();
    assert_eq!(bill.external_ref, ref_id);
}

#[test]
fn test_set_external_ref_unauthorized() {
    let mut c = BillPayments::new();
    let owner = addr(1);
    let other = addr(2);
    let bill_id = create(&mut c, owner, "Internet", 150, 1000000, false, 0, 0).unwrap();
    let result = c.set_external_ref(other, bill_id, Some(text("BILL-EXT-123")));
    assert_eq!(result, Err(BillPaymentsError::Unauthorized));
}

#[test]
fn test_multiple_recurring_payments() {
    let mut c = BillPayments::new();
    let owner = addr(1);
    let bill_id = create(&mut c, owner, "Subscription", 999, 1000000, true, 30, 0).unwrap();
    pay(&mut c, owner, bill_id, 0).unwrap();
    let bill2 = c.get_bill(2).unwrap();
    assert!(!bill2.paid);
    assert_eq!(bill2.due_date, 1000000 + (30 * 86400));
    pay(&mut c, owner, 2, 0).unwrap();
    let bill3 = c.get_bill(3).unwrap();
    assert!(!bill3.paid);
    assert_eq!(bill3.due_date, 1000000 + (60 * 86400));
}

#[test]
fn test_get_all_bills_admin_only() {
    let mut c = BillPayments::new();
    let owner = addr(1);
    let admin = addr(9);
    c.set_pause_admin(admin, admin).unwrap();
    create(&mut c, owner, "Bill1", 100, 1000000, false, 0, 0).unwrap();
    create(&mut c, owner, "Bill2", 200, 1000000, false, 0, 0).unwrap();
    create(&mut c, owner, "Bill3", 300, 1000000, false, 0, 0).unwrap();
    pay(&mut c, owner, 1, 0).unwrap();
    let all = c.get_all_bills_page(admin, 0, 100).unwrap();
    assert_eq!(all.items.len(), 3);
}

#[test]
fn test_pay_bill_unauthorized() {
    let mut c = BillPayments::new();
    let owner = addr(1);
    let other = addr(2);
    let bill_id = create(&mut c, owner, "Water", 500, 1000000, false, 0, 0).unwrap();
    assert_eq!(pay(&mut c, other, bill_id, 0), Err(BillPaymentsError::Unauthorized));
}

#[test]
fn test_recurring_bill_cancellation() {
    let mut c = BillPayments::new();
    let owner = addr(1);
    let bill_id = create(&mut c, owner, "Rent", 1000, 1000000, true, 30, 0).unwrap();
    c.cancel_bill(owner, bill_id, true).unwrap();
    assert!(c.get_bill(bill_id).is_none());
    assert_eq!(pay(&mut c, owner, bill_id, 0), Err(BillPaymentsError::BillNotFound));
}

#[test]
fn test_pay_overdue_bill_succeeds() {
    let mut c = BillPayments::new();
    let owner = addr(1);
    let bill_id = create(&mut c, owner, "Late", 500, 1_500_000, false, 0, 1_000_000).unwrap();
    let overdue = c.get_overdue_bills(0, 100, 2_000_000);
    assert_eq!(overdue.count, 1);
    pay(&mut c, owner, bill_id, 2_000_000).unwrap();
    let overdue_after = c.get_overdue_bills(0, 100, 2_000_000);
    assert_eq!(overdue_after.count, 0);
}

#[test]
fn test_short_recurrence() {
    let mut c = BillPayments::new();
    let owner = addr(1);
    let bill_id = create(&mut c, owner, "Daily", 10, 1000000, true, 1, 0).unwrap();
    pay(&mut c, owner, bill_id, 0).unwrap();
    let next_bill = c.get_bill(2).unwrap();
    assert_eq!(next_bill.due_date, 1000000 + 86400);
}

#[test]
fn test_create_bill_invalid_due_dates() {
    let mut c = BillPayments::new();
    let owner = addr(1);
    let res = create(&mut c, owner, "Invalid", 100, 0, false, 0, 0);
    assert_eq!(res, Err(BillPaymentsError::InvalidDueDate));
    let res2 = create(&mut c, owner, "AtNow", 100, 1_000_000, false, 0, 1_000_000);
    assert!(res2.is_ok());
    let res3 = create(&mut c, owner, "Past", 100, 999_999, false, 0, 1_000_000);
    assert_eq!(res3, Err(BillPaymentsError::InvalidDueDate));
}

#[test]
fn test_recurring_generation_never_in_past() {
    let mut c = BillPayments::new();
    let owner = addr(1);
    let bill_id = create(&mut c, owner, "Rent", 1000, 1_000_010, true, 30, 1_000_000).unwrap();
    pay(&mut c, owner, bill_id, 2_000_000).unwrap();
    let next_bill = c.get_bill(2).unwrap();
    assert!(next_bill.due_date > 2_000_000);
}

#[test]
fn test_get_all_bills_for_owner_basic() {
    let mut c = BillPayments::new();
    let owner = addr(1);
    create(&mut c, owner, "Electricity", 100, 1000000, false, 0, 0).unwrap();
    create(&mut c, owner, "Water", 200, 1000000, false, 0, 0).unwrap();
    let bills = c.get_all_bills_for_owner(owner, 0, 100);
    assert_eq!(bills.items.len(), 2);
    for bill in bills.items.iter() {
        assert_eq!(bill.owner, owner);
    }
}

#[test]
fn test_get_all_bills_for_owner_isolation() {
    let mut c = BillPayments::new();
    let alice = addr(1);
    let bob = addr(2);
    create(&mut c, alice, "Alice Rent", 1000, 1000000, false, 0, 0).unwrap();
    create(&mut c, alice, "Alice Water", 200, 1000000, false, 0, 0).unwrap();
    create(&mut c, bob, "Bob Internet", 50, 1000000, false, 0, 0).unwrap();
    let alice_bills = c.get_all_bills_for_owner(alice, 0, 100);
    let bob_bills = c.get_all_bills_for_owner(bob, 0, 100);
    assert_eq!(alice_bills.items.len(), 2);
    for bill in alice_bills.items.iter() {
        assert_eq!(bill.owner, alice, "Alice received a bill she doesn't own");
    }
    assert_eq!(bob_bills.items.len(), 1);
    assert_eq!(bob_bills.items[0].owner, bob);
}

#[test]
fn test_get_all_bills_for_owner_empty() {
    let mut c = BillPayments::new();
    create(&mut c, addr(1), "Alice Bill", 500, 1000000, false, 0, 0).unwrap();
    let bob_bills = c.get_all_bills_for_owner(addr(2), 0, 100);
    assert_eq!(bob_bills.items.len(), 0);
}

#[test]
fn test_get_all_bills_for_owner_after_pay() {
    let mut c = BillPayments::new();
    let owner = addr(1);
    let bill_id = create(&mut c, owner, "Paid Bill", 300, 1000000, false, 0, 0).unwrap();
    pay(&mut c, owner, bill_id, 0).unwrap();
    let bills = c.get_all_bills_for_owner(owner, 0, 100);
    assert_eq!(bills.items.len(), 1);
    assert!(bills.items[0].paid);
}

#[test]
fn test_get_all_bills_for_owner_after_cancel() {
    let mut c = BillPayments::new();
    let owner = addr(1);
    let bill_id = create(&mut c, owner, "To Cancel", 100, 1000000, false, 0, 0).unwrap();
    create(&mut c, owner, "Keep", 200, 1000000, false, 0, 0).unwrap();
    c.cancel_bill(owner, bill_id, true).unwrap();
    let bills = c.get_all_bills_for_owner(owner, 0, 100);
    assert_eq!(bills.items.len(), 1);
    assert_eq!(bills.items[0].amount, 200);
}

#[test]
fn test_get_all_bills_non_admin_fails() {
    let mut c = BillPayments::new();
    let admin = addr(9);
    let alice = addr(1);
    c.set_pause_admin(admin, admin).unwrap();
    create(&mut c, alice, "Alice Bill", 100, 1000000, false, 0, 0).unwrap();
    let result = c.get_all_bills_page(alice, 0, 100);
    assert!(matches!(result, Err(BillPaymentsError::Unauthorized)));
}

#[test]
fn test_get_all_bills_no_admin_set_fails() {
    let c = BillPayments::new();
    let result = c.get_all_bills_page(addr(1), 0, 100);
    assert!(matches!(result, Err(BillPaymentsError::Unauthorized)));
}

fn create_n_bills(c: &mut BillPayments, owner: Address, n: u32) {
    for i in 0..n {
        let name = format!("Bill{}", i);
        create(c, owner, &name, 100 + i as i128, 1_000_000, false, 0, 0).unwrap();
    }
}

#[test]
fn test_get_all_bills_page_first_page_returns_limit_items() {
    let mut c = BillPayments::new();
    let admin = addr(9);
    c.set_pause_admin(admin, admin).unwrap();
    create_n_bills(&mut c, addr(1), 12);
    let page = c.get_all_bills_page(admin, 0, 5).unwrap();
    assert_eq!(page.items.len(), 5, "first page must have exactly 5 items");
    assert!(page.next_cursor > 0, "must have a non-zero next_cursor when more pages exist");
}

#[test]
fn test_get_all_bills_page_full_iteration_covers_all_bills() {
    let mut c = BillPayments::new();
    let admin = addr(9);
    c.set_pause_admin(admin, admin).unwrap();
    create_n_bills(&mut c, addr(1), 7);
    let mut cursor = 0u32;
    let mut total_seen = 0usize;
    for _ in 0..10 {
        let page = c.get_all_bills_page(admin, cursor, 3).unwrap();
        total_seen += page.items.len();
        if page.next_cursor == 0 {
            break;
        }
        cursor = page.next_cursor;
    }
    assert_eq!(total_seen, 7, "full pagination must cover all 7 bills");
}

#[test]
fn test_get_all_bills_page_includes_bills_from_all_owners() {
    let mut c = BillPayments::new();
    let admin = addr(9);
    c.set_pause_admin(admin, admin).unwrap();
    create_n_bills(&mut c, addr(1), 3);
    create_n_bills(&mut c, addr(2), 3);
    let page = c.get_all_bills_page(admin, 0, 100).unwrap();
    assert_eq!(page.items.len(), 6, "admin should see bills from all 6 owners combined");
}

#[test]
fn test_get_all_bills_page_empty_contract_returns_empty_page() {
    let mut c = BillPayments::new();
    let admin = addr(9);
    c.set_pause_admin(admin, admin).unwrap();
    let page = c.get_all_bills_page(admin, 0, 10).unwrap();
    assert_eq!(page.items.len(), 0, "empty contract must return 0 items");
    assert_eq!(page.next_cursor, 0, "empty page must have cursor 0");
}
