use remitwise::address::Address;
use remitwise::bill_payments::batch::compute_next_due;
use remitwise::bill_payments::state::BillPayments;
use remitwise::bill_payments::text::validate_and_normalize_currency;
use remitwise::bill_payments::types::{BillPaymentsError, PausableFunction};

fn addr(n: u64) -> Address {
    Address::account(n, 0, 0, 0)
}

fn text(s: &str) -> Vec<u8> {
    s.as_bytes().to_vec()
}

fn create_full(
    c: &mut BillPayments,
    owner: Address,
    amount: i128,
    due: u64,
    ext: Option<&str>,
    currency: &str,
    rate_ok: bool,
    now: u64,
) -> Result<u32, BillPaymentsError> {
    c.create_bill(owner, text("Bill"), amount, due, false, 0, ext.map(text), text(currency), None, rate_ok, now)
}

fn create(c: &mut BillPayments, owner: Address, amount: i128, due: u64, now: u64) -> u32 {
    create_full(c, owner, amount, due, None, "XLM", true, now).unwrap()
}

#[test]
fn currency_is_trimmed_and_upper_cased() {
    assert_eq!(validate_and_normalize_currency(&text(" usdc ")), Ok(text("USDC")));
    assert_eq!(validate_and_normalize_currency(&text("")), Ok(text("XLM")));
    assert_eq!(validate_and_normalize_currency(&text("US$")), Err(BillPaymentsError::InvalidCurrency));
    assert_eq!(validate_and_normalize_currency(&text("ABCDEFGHIJK")), Err(BillPaymentsError::InvalidCurrency));
}

#[test]
fn create_bill_stores_normalized_currency() {
    let mut c = BillPayments::new();
    let id = create_full(&mut c, addr(1), 10, 1_000, None, "eur", true, 0).unwrap();
    assert_eq!(c.get_bill(id).unwrap().currency, text("EUR"));
}

#[test]
fn create_bill_invalid_currency() {
    let mut c = BillPayments::new();
    let r = create_full(&mut c, addr(1), 10, 1_000, None, "E-U", true, 0);
    assert_eq!(r, Err(BillPaymentsError::InvalidCurrency));
}

#[test]
fn create_bill_invalid_external_ref() {
    let mut c = BillPayments::new();
    let r = create_full(&mut c, addr(1), 10, 1_000, Some("bad ref"), "XLM", true, 0);
    assert_eq!(r, Err(BillPaymentsError::InvalidExternalRef));
}

#[test]
fn create_bill_duplicate_external_ref() {
    let mut c = BillPayments::new();
    create_full(&mut c, addr(1), 10, 1_000, Some("INV-1"), "XLM", true, 0).unwrap();
    let r = create_full(&mut c, addr(1), 20, 1_000, Some("INV-1"), "XLM", true, 0);
    assert_eq!(r, Err(BillPaymentsError::DuplicateExternalRef));
    // Another owner may use the same reference.
    assert!(create_full(&mut c, addr(2), 20, 1_000, Some("INV-1"), "XLM", true, 0).is_ok());
}

#[test]
fn create_bill_rate_limited() {
    let mut c = BillPayments::new();
    let r = create_full(&mut c, addr(1), 10, 1_000, None, "XLM", false, 0);
    assert_eq!(r, Err(BillPaymentsError::RateLimitExceeded));
    assert!(c.get_bill(1).is_none());
}

#[test]
fn create_bill_function_paused() {
    let mut c = BillPayments::new();
    let admin = addr(9);
    c.set_pause_admin(admin, admin).unwrap();
    c.pause_function(admin, PausableFunction::CreateBill).unwrap();
    assert_eq!(create_full(&mut c, addr(1), 10, 1_000, None, "XLM", true, 0), Err(BillPaymentsError::FunctionPaused));
    c.unpause_function(admin, PausableFunction::CreateBill).unwrap();
    assert!(create_full(&mut c, addr(1), 10, 1_000, None, "XLM", true, 0).is_ok());
}

#[test]
fn pause_by_stranger_refused() {
    let mut c = BillPayments::new();
    c.set_pause_admin(addr(9), addr(9)).unwrap();
    assert_eq!(c.pause(addr(10)), Err(BillPaymentsError::UnauthorizedPause));
    assert!(!c.is_paused());
}

#[test]
fn owner_bill_cap() {
    let mut c = BillPayments::new();
    for _ in 0..1_000 {
        create(&mut c, addr(1), 1, 1_000, 0);
    }
    let r = create_full(&mut c, addr(1), 1, 1_000, None, "XLM", true, 0);
    assert_eq!(r, Err(BillPaymentsError::OwnerBillCapExceeded));
    assert_eq!(c.get_owner_bill_count(addr(1)), 1_000);
}

#[test]
fn batch_too_large() {
    let mut c = BillPayments::new();
    let ids: Vec<u32> = (1..=51).collect();
    assert_eq!(c.batch_pay_bills(addr(1), &ids, 0), Err(BillPaymentsError::BatchTooLarge));
}

#[test]
fn next_due_of_late_payment_skips_past_periods() {
    // Due at 1 000 000, paid 40 days late with a 30-day period: the next
    // due date moves past the payment time.
    let day = 86_400u64;
    let now = 1_000_000 + 40 * day;
    assert_eq!(compute_next_due(1_000_000, 30, now), Some(1_000_000 + 60 * day));
    assert_eq!(compute_next_due(1_000_000, 30, 0), Some(1_000_000 + 30 * day));
    assert_eq!(compute_next_due(u64::MAX - 10, 1, 0), None);
}

#[test]
fn schedule_errors() {
    let mut c = BillPayments::new();
    let o = addr(1);
    let now = 1_000;
    let sch = |c: &mut BillPayments, due: u64, interval: u64| {
        c.create_bill_schedule(o, text("Rent"), 100, text("XLM"), due, interval, now)
    };
    assert_eq!(sch(&mut c, now, 0), Err(BillPaymentsError::InvalidDueDate));
    assert_eq!(sch(&mut c, now + 10, 60), Err(BillPaymentsError::ScheduleIntervalTooShort));
    assert_eq!(sch(&mut c, now + 31_536_001, 0), Err(BillPaymentsError::ScheduleLeadTimeTooLong));
    for _ in 0..50 {
        sch(&mut c, now + 10, 0).unwrap();
    }
    assert_eq!(sch(&mut c, now + 10, 0), Err(BillPaymentsError::ScheduleCapExceeded));
    assert_eq!(c.cancel_bill_schedule(o, 999), Err(BillPaymentsError::ScheduleNotFound));
    assert_eq!(c.cancel_bill_schedule(addr(2), 1), Err(BillPaymentsError::Unauthorized));
    assert_eq!(c.cancel_bill_schedule(o, 1), Ok(true));
    assert_eq!(c.cancel_bill_schedule(o, 1), Err(BillPaymentsError::ScheduleNotActive));
}

#[test]
fn executing_bill_schedules_is_idempotent() {
    let mut c = BillPayments::new();
    let o = addr(1);
    let sid = c.create_bill_schedule(o, text("Gym"), 250, text("usd"), 5_000, 3_600, 1_000).unwrap();
    assert_eq!(c.execute_due_bill_schedules(4_999), Vec::<u32>::new());
    assert_eq!(c.execute_due_bill_schedules(5_000), vec![sid]);
    let bill = c.get_bill(1).unwrap();
    assert_eq!(bill.amount, 250);
    assert_eq!(bill.name, text("Gym"));
    assert_eq!(bill.currency, text("USD"));
    // The bill falls due at the schedule's following due time.
    assert_eq!(bill.due_date, 5_000 + 3_600);
    assert_eq!(bill.schedule_id, Some(sid));
    // A second run at the same time runs nothing and creates no bill.
    assert_eq!(c.execute_due_bill_schedules(5_000), Vec::<u32>::new());
    assert!(c.get_bill(2).is_none());
    let s = c.get_bill_schedule(sid).unwrap();
    assert_eq!(s.next_due, 5_000 + 3_600);
    assert_eq!(s.last_executed, Some(5_000));
}

#[test]
fn archiving_moves_only_paid_bills() {
    let mut c = BillPayments::new();
    let o = addr(1);
    let paid = create(&mut c, o, 100, 10_000, 0);
    let unpaid = create(&mut c, o, 200, 10_000, 0);
    c.pay_bill(o, paid, true, 100).unwrap();
    assert_eq!(c.archive_paid_bills(200, 300), Ok(1));
    assert!(c.get_bill(paid).is_none());
    assert!(c.get_bill(unpaid).is_some());
    let a = c.get_archived_bill(paid).unwrap();
    assert_eq!(a.amount, 100);
    assert_eq!(a.paid_at, 100);
    assert_eq!(a.archived_at, 300);
    assert!(c.get_archived_bill(unpaid).is_none());
    assert_eq!(c.get_archived_bills(o, 0, 10).items.len(), 1);
}

#[test]
fn restore_and_purge_archived_bills() {
    let mut c = BillPayments::new();
    let o = addr(1);
    let a = create(&mut c, o, 100, 10_000, 0);
    let b = create(&mut c, o, 300, 10_000, 0);
    c.pay_bill(o, a, true, 100).unwrap();
    c.pay_bill(o, b, true, 100).unwrap();
    assert_eq!(c.archive_paid_bills(200, 300), Ok(2));
    assert_eq!(c.restore_bill(addr(2), a, 400), Err(BillPaymentsError::Unauthorized));
    assert_eq!(c.restore_bill(o, 77, 400), Err(BillPaymentsError::BillNotFound));
    assert_eq!(c.restore_bill(o, a, 400), Ok(()));
    assert!(c.get_archived_bill(a).is_none());
    let restored = c.get_bill(a).unwrap();
    assert_eq!(restored.amount, 100);
    assert_eq!(c.bulk_cleanup_bills(301, 500), Ok(1));
    assert!(c.get_archived_bill(b).is_none());
}

#[test]
fn cancel_frees_external_ref_for_reuse() {
    let mut c = BillPayments::new();
    let o = addr(1);
    let id = create_full(&mut c, o, 10, 1_000, Some("REF-7"), "XLM", true, 0).unwrap();
    c.cancel_bill(o, id, true).unwrap();
    assert!(create_full(&mut c, o, 10, 1_000, Some("REF-7"), "XLM", true, 0).is_ok());
}

#[test]
fn error_codes_are_stable() {
    assert_eq!(BillPaymentsError::BillNotFound.code(), 1);
    assert_eq!(BillPaymentsError::BillAlreadyPaid.code(), 2);
    assert_eq!(BillPaymentsError::InvalidAmount.code(), 3);
}

#[test]
fn cancelling_a_negative_scheduled_bill_keeps_the_recorded_total() {
    // Schedules do not check their amount; the bill a schedule creates with a
    // negative amount lowers the recorded total, and cancelling it does not
    // raise the total back.
    let mut c = BillPayments::new();
    let o = addr(1);
    let sid = c.create_bill_schedule(o, text("Refund"), -5, text("XLM"), 5_000, 3_600, 1_000).unwrap();
    assert_eq!(c.execute_due_bill_schedules(5_000), vec![sid]);
    assert_eq!(c.get_bill(1).unwrap().amount, -5);
    assert_eq!(c.get_total_unpaid(o), -5);
    c.cancel_bill(o, 1, true).unwrap();
    assert_eq!(c.get_total_unpaid(o), -5);
}

#[test]
fn recorded_total_follows_create_pay_cancel() {
    let mut c = BillPayments::new();
    let o = addr(1);
    let a = create(&mut c, o, 100, 10_000, 0);
    let b = c.create_bill(o, text("R"), 40, 10_000, true, 30, None, text("XLM"), None, true, 0).unwrap();
    let d = create(&mut c, o, 7, 10_000, 0);
    assert_eq!(c.get_total_unpaid(o), 147);
    c.pay_bill(o, b, true, 0).unwrap();
    assert_eq!(c.get_total_unpaid(o), 147);
    c.cancel_bill(o, a, true).unwrap();
    assert_eq!(c.get_total_unpaid(o), 47);
    c.pay_bill(o, d, true, 0).unwrap();
    assert_eq!(c.get_total_unpaid(o), 40);
    let page = c.get_all_bills_for_owner(o, 0, 100);
    let sum: i128 = page.items.iter().filter(|x| !x.paid).map(|x| x.amount).sum();
    assert_eq!(sum, 40);
}

#[test]
fn a_long_schedule_interval_gives_a_bill_without_a_period() {
    // 2^32 days: the period in days does not fit in 32 bits and wraps to 0.
    let mut c = BillPayments::new();
    let o = addr(1);
    let interval = 86_400u64 << 32;
    let sid = c.create_bill_schedule(o, text("Far"), 10, text("XLM"), 5_000, interval, 1_000).unwrap();
    assert_eq!(c.execute_due_bill_schedules(5_000), vec![sid]);
    let b = c.get_bill(1).unwrap();
    assert!(b.recurring);
    assert_eq!(b.frequency_days, 0);
}
