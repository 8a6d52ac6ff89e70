//! Creating, paying, cancelling and annotating single bills.
use super::state::{
    adjust_totals, index_add, index_added, index_ids, index_remove, lists_ascending, sat_add,
    saturating_add_i128, BillPayments, MAX_BILLS_PER_OWNER, MAX_FREQUENCY_DAYS, SECONDS_PER_DAY,
};
use super::text::{
    spec_currency, valid_external_ref, validate_and_normalize_currency,
    validate_optional_external_ref,
};
use super::batch::compute_next_due;
use super::types::{
    copy_bytes, copy_opt_bytes, copy_texts, opt_view, texts_view, Bill, BillPaymentsError, BillView,
    PausableFunction,
};
use crate::address::Address;
use crate::maps::{list_of, AddrMap, KeyMap, MapKey};
use vstd::prelude::*;

verus! {

/// The first date after `now` reached from `d` in steps of `period`.
pub open spec fn advance_due(d: int, period: int, now: int) -> int
    decreases (if d > now { 0 } else { now - d + 1 }),
{
    if period <= 0 || d > now {
        d
    } else {
        advance_due(d + period, period, now)
    }
}

/// The due date of the bill that follows a paid recurring bill: one period
/// after the paid bill's due date, moved on by whole periods until it lies
/// after `now`; `None` when it does not fit in `u64`.
pub open spec fn next_recurring_due(due_date: u64, frequency_days: u32, now: u64) -> Option<u64> {
    let period = frequency_days * SECONDS_PER_DAY;
    let d = advance_due(due_date + period, period, now as int);
    if d > u64::MAX {
        None
    } else {
        Some(d as u64)
    }
}

/// `b` marked paid at `now`.
pub open spec fn paid_view(b: BillView, now: u64) -> BillView {
    BillView { paid: true, paid_at: Some(now), ..b }
}

/// The bill that follows the paid recurring bill `b`.
pub open spec fn child_view(b: BillView, id: u32, due: u64, now: u64) -> BillView {
    BillView {
        id,
        owner: b.owner,
        name: b.name,
        external_ref: None,
        amount: b.amount,
        due_date: due,
        recurring: true,
        frequency_days: b.frequency_days,
        paid: false,
        created_at: now,
        paid_at: None,
        schedule_id: b.schedule_id,
        tags: b.tags,
        currency: b.currency,
    }
}

pub proof fn lemma_advance_due(d: int, period: int, now: int)
    requires
        period > 0,
    ensures
        advance_due(d, period, now) >= d,
        advance_due(d, period, now) > now,
        d > now ==> advance_due(d, period, now) == d,
        advance_due(d, period, now) <= if d > now { d } else { now + period },
    decreases (if d > now { 0 } else { now - d + 1 }),
{
    if d <= now {
        lemma_advance_due(d + period, period, now);
    }
}

/// Advancing moves by whole periods to the first time after `now`:
/// `advance_due` from `d` lands on `d + j * period` for the least `j`
/// that passes `now`.
pub proof fn lemma_advance_due_least(d: int, period: int, now: int) -> (j: nat)
    requires
        period > 0,
    ensures
        advance_due(d, period, now) == d + j * period,
        d + j * period > now,
        j > 0 ==> d + (j - 1) * period <= now,
    decreases (if d > now { 0 } else { now - d + 1 }),
{
    if d > now {
        assert(d + 0 * period == d);
        0
    } else {
        let j1 = lemma_advance_due_least(d + period, period, now);
        assert(d + period + j1 * period == d + (j1 + 1) * period) by (nonlinear_arith);
        assert(d + period + (j1 - 1) * period == d + j1 * period) by (nonlinear_arith);
        assert(d + (j1 + 1 - 1) * period == d + j1 * period);
        j1 + 1
    }
}

/// The successor of a paid recurring bill falls due at the paid bill's due
/// date plus the least whole number `k >= 1` of periods that passes `now`,
/// however early or late the payment.
pub proof fn lemma_next_due_least(due_date: u64, frequency_days: u32, now: u64) -> (k: nat)
    requires
        frequency_days > 0,
        next_recurring_due(due_date, frequency_days, now) is Some,
    ensures
        k >= 1,
        next_recurring_due(due_date, frequency_days, now) == Some(
            (due_date + k * (frequency_days * SECONDS_PER_DAY)) as u64,
        ),
        due_date + k * (frequency_days * SECONDS_PER_DAY) > now,
        due_date + (k - 1) * (frequency_days * SECONDS_PER_DAY) <= now || k == 1,
{
    let p = frequency_days * SECONDS_PER_DAY;
    assert(p > 0) by (nonlinear_arith)
        requires
            frequency_days > 0,
            p == frequency_days * SECONDS_PER_DAY,
    ;
    let j = lemma_advance_due_least(due_date + p, p, now as int);
    assert(due_date + p + j * p == due_date + (j + 1) * p) by (nonlinear_arith);
    assert(due_date + (j + 1 - 1) * p == due_date + j * p);
    if j > 0 {
        assert(due_date + p + (j - 1) * p == due_date + j * p) by (nonlinear_arith);
    }
    j + 1
}

impl BillPayments {
    /// The active bill ids of `owner`.
    pub open spec fn owner_ids(&self, owner: Address) -> Seq<u32> {
        list_of(self.owner_index@, owner)
    }

    /// The bill id that holds `owner`'s reference `r`, if any.
    pub open spec fn ext_ref_holder(&self, owner: Address, r: Seq<u8>) -> Option<u32> {
        if self.ext_refs@.contains_key((owner, r)) {
            Some(self.ext_refs@[(owner, r)])
        } else {
            None
        }
    }

    /// Why `create_bill` refuses these inputs, if it does.
    pub open spec fn create_bill_error(
        &self,
        owner: Address,
        amount: i128,
        due_date: u64,
        recurring: bool,
        frequency_days: u32,
        external_ref: Option<Seq<u8>>,
        currency: Seq<u8>,
        within_rate_limit: bool,
        now: u64,
    ) -> Option<BillPaymentsError> {
        if self.pause_error(PausableFunction::CreateBill) is Some {
            self.pause_error(PausableFunction::CreateBill)
        } else if !within_rate_limit {
            Some(BillPaymentsError::RateLimitExceeded)
        } else if due_date == 0 || due_date < now {
            Some(BillPaymentsError::InvalidDueDate)
        } else if amount <= 0 {
            Some(BillPaymentsError::InvalidAmount)
        } else if recurring && (frequency_days == 0 || frequency_days > MAX_FREQUENCY_DAYS) {
            Some(BillPaymentsError::InvalidFrequency)
        } else if spec_currency(currency) is Err {
            Some(BillPaymentsError::InvalidCurrency)
        } else if external_ref matches Some(r) && !valid_external_ref(r) {
            Some(BillPaymentsError::InvalidExternalRef)
        } else if self.owner_ids(owner).len() >= MAX_BILLS_PER_OWNER {
            Some(BillPaymentsError::OwnerBillCapExceeded)
        } else if external_ref matches Some(r) && (self.ext_ref_holder(owner, r) matches Some(h)
            && h != self.next_id + 1) {
            Some(BillPaymentsError::DuplicateExternalRef)
        } else {
            None
        }
    }

    /// Add `delta` to `owner`'s running unpaid total.
    pub fn adjust_unpaid_total(&mut self, owner: Address, delta: i128)
        requires
            old(self).wf(),
        ensures
            final(self).wf(),
            final(self).totals() == adjust_totals(old(self).totals(), owner, delta),
            *final(self) == (BillPayments { unpaid_totals: final(self).unpaid_totals, ..*old(self) }),
    {
        if delta == 0 {
            return;
        }
        let mut totals = match self.unpaid_totals.take() {
            Some(t) => t,
            None => AddrMap::new(),
        };
        let cur: i128 = match totals.get(&owner) {
            Some(v) => *v,
            None => 0,
        };
        let next = saturating_add_i128(cur, delta);
        totals.set(owner, next);
        self.unpaid_totals = Some(totals);
    }

    /// The number of active bills `owner` holds.
    pub fn get_owner_bill_count(&self, owner: Address) -> (r: u32)
        requires
            self.wf(),
        ensures
            r == self.owner_ids(owner).len() as u32,
    {
        let ids = index_ids(&self.owner_index, &owner);
        ids.len() as u32
    }

    /// The bill stored under `bill_id`, if any.
    pub fn get_bill(&self, bill_id: u32) -> (r: Option<Bill>)
        requires
            self.wf(),
        ensures
            match r {
                Some(b) => self.bills@.contains_key(bill_id) && b@ == self.bills@[bill_id]@,
                None => !self.bills@.contains_key(bill_id),
            },
    {
        match self.bills.get(bill_id) {
            Some(b) => Some(b.copy()),
            None => None,
        }
    }

    /// Record that `owner`'s reference `r` belongs to `bill_id`; refused
    /// when another bill holds it.
    pub fn claim_external_ref(&mut self, owner: Address, r: &Vec<u8>, bill_id: u32) -> (res: Result<
        (),
        BillPaymentsError,
    >)
        requires
            old(self).wf(),
        ensures
            final(self).wf(),
            res is Err <==> (old(self).ext_ref_holder(owner, r@) matches Some(h) && h != bill_id),
            res is Err ==> res == Err::<(), BillPaymentsError>(BillPaymentsError::DuplicateExternalRef)
                && *final(self) == *old(self),
            res is Ok ==> final(self).ext_refs@ == old(self).ext_refs@.insert((owner, r@), bill_id)
                && *final(self) == (BillPayments { ext_refs: final(self).ext_refs, ..*old(self) }),
    {
        let key = (owner, copy_bytes(r));
        match self.ext_refs.get(&key) {
            Some(h) => {
                if *h != bill_id {
                    return Err(BillPaymentsError::DuplicateExternalRef);
                }
                assert(self.ext_refs@.insert((owner, r@), bill_id) =~= self.ext_refs@);
                Ok(())
            },
            None => {
                self.ext_refs.set(key, bill_id);
                Ok(())
            },
        }
    }

    /// Forget `owner`'s reference `r`.
    pub fn release_external_ref(&mut self, owner: Address, r: &Vec<u8>)
        requires
            old(self).wf(),
        ensures
            final(self).wf(),
            final(self).ext_refs@ == old(self).ext_refs@.remove((owner, r@)),
            *final(self) == (BillPayments { ext_refs: final(self).ext_refs, ..*old(self) }),
    {
        let key = (owner, copy_bytes(r));
        self.ext_refs.remove(&key);
    }

    /// Create a bill for `owner` at time `now` and return its id.
    ///
    /// `within_rate_limit` is the answer of the per-address daily rate
    /// limiter for bill creation.
    pub fn create_bill(
        &mut self,
        owner: Address,
        name: Vec<u8>,
        amount: i128,
        due_date: u64,
        recurring: bool,
        frequency_days: u32,
        external_ref: Option<Vec<u8>>,
        currency: Vec<u8>,
        schedule_id: Option<u32>,
        within_rate_limit: bool,
        now: u64,
    ) -> (r: Result<u32, BillPaymentsError>)
        requires
            old(self).wf(),
            old(self).next_id < u32::MAX,
        ensures
            final(self).wf(),
            match old(self).create_bill_error(
                owner,
                amount,
                due_date,
                recurring,
                frequency_days,
                opt_view(external_ref),
                currency@,
                within_rate_limit,
                now,
            ) {
                Some(e) => r == Err::<u32, BillPaymentsError>(e) && *final(self) == *old(self),
                None => {
                    let id = (old(self).next_id + 1) as u32;
                    &&& r == Ok::<u32, BillPaymentsError>(id)
                    &&& spec_currency(currency@) matches Ok(cur)
                    &&& final(self).bills@ == old(self).bills@.insert(id, final(self).bills@[id])
                    &&& final(self).bills@[id]@ == (BillView {
                        id,
                        owner,
                        name: name@,
                        external_ref: opt_view(external_ref),
                        amount,
                        due_date,
                        recurring,
                        frequency_days,
                        paid: false,
                        created_at: now,
                        paid_at: None,
                        schedule_id,
                        tags: Seq::empty(),
                        currency: cur,
                    })
                    &&& final(self).next_id == id
                    &&& index_added(old(self).owner_index@, final(self).owner_index@, owner, id)
                    &&& index_added(old(self).currency_index@, final(self).currency_index@, (owner, cur), id)
                    &&& final(self).totals() == adjust_totals(old(self).totals(), owner, amount)
                    &&& final(self).ext_refs@ == match opt_view(external_ref) {
                        Some(x) => old(self).ext_refs@.insert((owner, x), id),
                        None => old(self).ext_refs@,
                    }
                    &&& *final(self) == (BillPayments {
                        bills: final(self).bills,
                        next_id: id,
                        owner_index: final(self).owner_index,
                        currency_index: final(self).currency_index,
                        ext_refs: final(self).ext_refs,
                        unpaid_totals: final(self).unpaid_totals,
                        ..*old(self)
                    })
                },
            },
    {
        if let Err(e) = self.require_not_paused(PausableFunction::CreateBill) {
            return Err(e);
        }
        if !within_rate_limit {
            return Err(BillPaymentsError::RateLimitExceeded);
        }
        if due_date == 0 || due_date < now {
            return Err(BillPaymentsError::InvalidDueDate);
        }
        if amount <= 0 {
            return Err(BillPaymentsError::InvalidAmount);
        }
        if recurring && (frequency_days == 0 || frequency_days > MAX_FREQUENCY_DAYS) {
            return Err(BillPaymentsError::InvalidFrequency);
        }
        let resolved_currency = match validate_and_normalize_currency(&currency) {
            Ok(c) => c,
            Err(e) => {
                return Err(e);
            },
        };
        let validated_ext_ref = match validate_optional_external_ref(&external_ref) {
            Ok(v) => v,
            Err(e) => {
                return Err(e);
            },
        };
        let owner_count = index_ids(&self.owner_index, &owner).len();
        if owner_count >= MAX_BILLS_PER_OWNER as usize {
            return Err(BillPaymentsError::OwnerBillCapExceeded);
        }
        let next_id = self.next_id + 1;
        if let Some(rf) = &validated_ext_ref {
            if let Err(e) = self.claim_external_ref(owner, rf, next_id) {
                return Err(e);
            }
        }
        let ghost after_claim = *self;
        let bill = Bill {
            id: next_id,
            owner,
            name,
            external_ref: validated_ext_ref,
            amount,
            due_date,
            recurring,
            frequency_days,
            paid: false,
            created_at: now,
            paid_at: None,
            schedule_id,
            tags: Vec::new(),
            currency: copy_bytes(&resolved_currency),
        };
        proof {
            assert(texts_view(Seq::<Vec<u8>>::empty()) =~= Seq::<Seq<u8>>::empty());
        }
        self.bills.set(next_id, bill);
        self.next_id = next_id;
        index_add(&mut self.owner_index, owner, next_id);
        index_add(&mut self.currency_index, (owner, resolved_currency), next_id);
        self.adjust_unpaid_total(owner, amount);
        Ok(next_id)
    }

    /// Why `pay_bill` refuses these inputs, if it does.
    pub open spec fn pay_bill_error(&self, caller: Address, bill_id: u32, within_rate_limit: bool, now: u64) -> Option<
        BillPaymentsError,
    > {
        let b = self.bills@[bill_id];
        if self.pause_error(PausableFunction::PayBill) is Some {
            self.pause_error(PausableFunction::PayBill)
        } else if !within_rate_limit {
            Some(BillPaymentsError::RateLimitExceeded)
        } else if !self.bills@.contains_key(bill_id) {
            Some(BillPaymentsError::BillNotFound)
        } else if b.owner != caller {
            Some(BillPaymentsError::Unauthorized)
        } else if b.paid {
            Some(BillPaymentsError::BillAlreadyPaid)
        } else if b.recurring && self.owner_ids(b.owner).len() >= MAX_BILLS_PER_OWNER {
            Some(BillPaymentsError::OwnerBillCapExceeded)
        } else if b.recurring && next_recurring_due(b.due_date, b.frequency_days, now) is None {
            Some(BillPaymentsError::InvalidDueDate)
        } else {
            None
        }
    }

    /// Mark bill `bill_id` paid at time `now`. Paying a recurring bill also
    /// creates the next bill of the series, due one period after the paid
    /// bill's due date and never at or before `now`.
    ///
    /// `within_rate_limit` is the answer of the per-address daily rate
    /// limiter for payments.
    #[verifier::loop_isolation(false)]
    pub fn pay_bill(&mut self, caller: Address, bill_id: u32, within_rate_limit: bool, now: u64) -> (r: Result<
        (),
        BillPaymentsError,
    >)
        requires
            old(self).wf(),
            old(self).bills@.contains_key(bill_id) && old(self).bills@[bill_id].recurring ==> old(self).next_id
                < u32::MAX,
            old(self).bills@.contains_key(bill_id) ==> old(self).bills@[bill_id].amount != i128::MIN,
            old(self).bills@.contains_key(bill_id) && old(self).bills@[bill_id].recurring
                && old(self).bills@[bill_id].frequency_days == 0 ==> old(self).bills@[bill_id].due_date > now,
        ensures
            final(self).wf(),
            match old(self).pay_bill_error(caller, bill_id, within_rate_limit, now) {
                Some(e) => r == Err::<(), BillPaymentsError>(e) && *final(self) == *old(self),
                None => {
                    let b = old(self).bills@[bill_id]@;
                    &&& r is Ok
                    &&& final(self).bills@.contains_key(bill_id)
                    &&& final(self).bills@[bill_id]@ == paid_view(b, now)
                    &&& if b.recurring {
                        let child = (old(self).next_id + 1) as u32;
                        let due = next_recurring_due(b.due_date, b.frequency_days, now)->Some_0;
                        &&& final(self).bills@ == old(self).bills@.insert(child, final(self).bills@[child]).insert(
                            bill_id,
                            final(self).bills@[bill_id],
                        )
                        &&& child != bill_id ==> final(self).bills@[child]@ == child_view(b, child, due, now)
                        &&& final(self).next_id == child
                        &&& index_added(old(self).owner_index@, final(self).owner_index@, caller, child)
                        &&& index_added(
                            old(self).currency_index@,
                            final(self).currency_index@,
                            (caller, b.currency),
                            child,
                        )
                        &&& final(self).totals() == adjust_totals(
                            adjust_totals(old(self).totals(), caller, b.amount),
                            caller,
                            -b.amount as i128,
                        )
                        &&& *final(self) == (BillPayments {
                            bills: final(self).bills,
                            next_id: child,
                            owner_index: final(self).owner_index,
                            currency_index: final(self).currency_index,
                            unpaid_totals: final(self).unpaid_totals,
                            ..*old(self)
                        })
                    } else {
                        &&& final(self).bills@ == old(self).bills@.insert(bill_id, final(self).bills@[bill_id])
                        &&& final(self).totals() == adjust_totals(old(self).totals(), caller, -b.amount as i128)
                        &&& *final(self) == (BillPayments {
                            bills: final(self).bills,
                            unpaid_totals: final(self).unpaid_totals,
                            ..*old(self)
                        })
                    }
                },
            },
    {
        if let Err(e) = self.require_not_paused(PausableFunction::PayBill) {
            return Err(e);
        }
        if !within_rate_limit {
            return Err(BillPaymentsError::RateLimitExceeded);
        }
        let b = match self.bills.get(bill_id) {
            Some(b) => b.copy(),
            None => {
                return Err(BillPaymentsError::BillNotFound);
            },
        };
        if b.owner != caller {
            return Err(BillPaymentsError::Unauthorized);
        }
        if b.paid {
            return Err(BillPaymentsError::BillAlreadyPaid);
        }
        let ghost bv = b@;
        if b.recurring {
            let count = index_ids(&self.owner_index, &b.owner).len();
            if count >= MAX_BILLS_PER_OWNER as usize {
                return Err(BillPaymentsError::OwnerBillCapExceeded);
            }
            let nd: u64 = match compute_next_due(b.due_date, b.frequency_days, now) {
                Some(d) => d,
                None => {
                    return Err(BillPaymentsError::InvalidDueDate);
                },
            };
            let child_id = self.next_id + 1;
            let child = Bill {
                id: child_id,
                owner: b.owner,
                name: copy_bytes(&b.name),
                external_ref: None,
                amount: b.amount,
                due_date: nd,
                recurring: true,
                frequency_days: b.frequency_days,
                paid: false,
                created_at: now,
                paid_at: None,
                schedule_id: b.schedule_id,
                tags: copy_texts(&b.tags),
                currency: copy_bytes(&b.currency),
            };
            self.bills.set(child_id, child);
            self.next_id = child_id;
            index_add(&mut self.owner_index, caller, child_id);
            index_add(&mut self.currency_index, (caller, copy_bytes(&b.currency)), child_id);
            self.adjust_unpaid_total(caller, b.amount);
        }
        let amount = b.amount;
        let mut paid = b;
        paid.paid = true;
        paid.paid_at = Some(now);
        self.bills.set(bill_id, paid);
        self.adjust_unpaid_total(caller, -amount);
        Ok(())
    }

    /// Why `cancel_bill` refuses these inputs, if it does.
    pub open spec fn cancel_bill_error(&self, caller: Address, bill_id: u32, within_rate_limit: bool) -> Option<
        BillPaymentsError,
    > {
        if self.pause_error(PausableFunction::CancelBill) is Some {
            self.pause_error(PausableFunction::CancelBill)
        } else if !within_rate_limit {
            Some(BillPaymentsError::RateLimitExceeded)
        } else if !self.bills@.contains_key(bill_id) {
            Some(BillPaymentsError::BillNotFound)
        } else if self.bills@[bill_id].owner != caller {
            Some(BillPaymentsError::Unauthorized)
        } else {
            None
        }
    }

    /// Remove bill `bill_id`, paid or not, with its index entries and its
    /// external reference.
    ///
    /// `within_rate_limit` is the answer of the per-address daily rate
    /// limiter for cancellations.
    pub fn cancel_bill(&mut self, caller: Address, bill_id: u32, within_rate_limit: bool) -> (r: Result<
        (),
        BillPaymentsError,
    >)
        requires
            old(self).wf(),
        ensures
            final(self).wf(),
            match old(self).cancel_bill_error(caller, bill_id, within_rate_limit) {
                Some(e) => r == Err::<(), BillPaymentsError>(e) && *final(self) == *old(self),
                None => {
                    let b = old(self).bills@[bill_id]@;
                    let unpaid = if b.paid { 0 } else { b.amount };
                    &&& r is Ok
                    &&& final(self).bills@ == old(self).bills@.remove(bill_id)
                    &&& final(self).ext_refs@ == match b.external_ref {
                        Some(x) => old(self).ext_refs@.remove((caller, x)),
                        None => old(self).ext_refs@,
                    }
                    &&& final(self).totals() == if unpaid > 0 {
                        adjust_totals(old(self).totals(), caller, -unpaid as i128)
                    } else {
                        old(self).totals()
                    }
                    &&& (forall|o: Address| #![trigger list_of(final(self).owner_index@, o)]
                        list_of(final(self).owner_index@, o) == if o == caller {
                            list_of(old(self).owner_index@, o).filter(|y: u32| y != bill_id)
                        } else {
                            list_of(old(self).owner_index@, o)
                        })
                    &&& (forall|k: (Address, Seq<u8>)| #![trigger list_of(final(self).currency_index@, k)]
                        list_of(final(self).currency_index@, k) == if k == (caller, b.currency) {
                            list_of(old(self).currency_index@, k).filter(|y: u32| y != bill_id)
                        } else {
                            list_of(old(self).currency_index@, k)
                        })
                    &&& *final(self) == (BillPayments {
                        bills: final(self).bills,
                        owner_index: final(self).owner_index,
                        currency_index: final(self).currency_index,
                        ext_refs: final(self).ext_refs,
                        unpaid_totals: final(self).unpaid_totals,
                        ..*old(self)
                    })
                },
            },
    {
        if let Err(e) = self.require_not_paused(PausableFunction::CancelBill) {
            return Err(e);
        }
        if !within_rate_limit {
            return Err(BillPaymentsError::RateLimitExceeded);
        }
        let b = match self.bills.get(bill_id) {
            Some(b) => b.copy(),
            None => {
                return Err(BillPaymentsError::BillNotFound);
            },
        };
        if b.owner != caller {
            return Err(BillPaymentsError::Unauthorized);
        }
        if let Some(rf) = &b.external_ref {
            self.release_external_ref(caller, rf);
        }
        let unpaid: i128 = if b.paid { 0 } else { b.amount };
        self.bills.remove(bill_id);
        if unpaid > 0 {
            self.adjust_unpaid_total(caller, -unpaid);
        }
        index_remove(&mut self.owner_index, &caller, bill_id);
        index_remove(&mut self.currency_index, &(caller, copy_bytes(&b.currency)), bill_id);
        Ok(())
    }

    /// Why `set_external_ref` refuses these inputs, if it does.
    pub open spec fn set_external_ref_error(&self, caller: Address, bill_id: u32, external_ref: Option<Seq<u8>>) -> Option<
        BillPaymentsError,
    > {
        let b = self.bills@[bill_id]@;
        if self.pause_error(PausableFunction::SetExternalRef) is Some {
            self.pause_error(PausableFunction::SetExternalRef)
        } else if external_ref matches Some(x) && !valid_external_ref(x) {
            Some(BillPaymentsError::InvalidExternalRef)
        } else if !self.bills@.contains_key(bill_id) {
            Some(BillPaymentsError::BillNotFound)
        } else if b.owner != caller {
            Some(BillPaymentsError::Unauthorized)
        } else if b.external_ref != external_ref && (external_ref matches Some(x) && (self.ext_ref_holder(
            caller,
            x,
        ) matches Some(h) && h != bill_id)) {
            Some(BillPaymentsError::DuplicateExternalRef)
        } else {
            None
        }
    }

    /// Set or clear the external reference of bill `bill_id`.
    pub fn set_external_ref(&mut self, caller: Address, bill_id: u32, external_ref: Option<Vec<u8>>) -> (r: Result<
        (),
        BillPaymentsError,
    >)
        requires
            old(self).wf(),
        ensures
            final(self).wf(),
            match old(self).set_external_ref_error(caller, bill_id, opt_view(external_ref)) {
                Some(e) => r == Err::<(), BillPaymentsError>(e) && *final(self) == *old(self),
                None => {
                    let b = old(self).bills@[bill_id]@;
                    let x = opt_view(external_ref);
                    &&& r is Ok
                    &&& final(self).bills@ == old(self).bills@.insert(bill_id, final(self).bills@[bill_id])
                    &&& final(self).bills@[bill_id]@ == (BillView { external_ref: x, ..b })
                    &&& final(self).ext_refs@ == if b.external_ref == x {
                        old(self).ext_refs@
                    } else {
                        let released = match b.external_ref {
                            Some(o) => old(self).ext_refs@.remove((caller, o)),
                            None => old(self).ext_refs@,
                        };
                        match x {
                            Some(n) => released.insert((caller, n), bill_id),
                            None => released,
                        }
                    }
                    &&& *final(self) == (BillPayments {
                        bills: final(self).bills,
                        ext_refs: final(self).ext_refs,
                        ..*old(self)
                    })
                },
            },
    {
        if let Err(e) = self.require_not_paused(PausableFunction::SetExternalRef) {
            return Err(e);
        }
        let validated = match validate_optional_external_ref(&external_ref) {
            Ok(v) => v,
            Err(e) => {
                return Err(e);
            },
        };
        let mut b = match self.bills.get(bill_id) {
            Some(b) => b.copy(),
            None => {
                return Err(BillPaymentsError::BillNotFound);
            },
        };
        if b.owner != caller {
            return Err(BillPaymentsError::Unauthorized);
        }
        let same = match (&b.external_ref, &validated) {
            (None, None) => true,
            (Some(x), Some(y)) => crate::maps::bytes_eq(x, y),
            _ => false,
        };
        if !same {
            if let Some(n) = &validated {
                // a claim that would fail leaves everything unchanged
                let key = (caller, copy_bytes(n));
                if let Some(h) = self.ext_refs.get(&key) {
                    if *h != bill_id {
                        return Err(BillPaymentsError::DuplicateExternalRef);
                    }
                }
            }
            if let Some(o) = &b.external_ref {
                self.release_external_ref(caller, o);
            }
            if let Some(n) = &validated {
                let ghost before = self.ext_refs@;
                match self.claim_external_ref(caller, n, bill_id) {
                    Ok(()) => {},
                    Err(e) => {
                        // the key was checked to be free or held by this bill
                        proof {
                            if let Some(o) = opt_view(b.external_ref) {
                                assert(before == old(self).ext_refs@.remove((caller, o)));
                            }
                        }
                        assert(false);
                        return Err(e);
                    },
                }
            }
        }
        b.external_ref = validated;
        self.bills.set(bill_id, b);
        Ok(())
    }

    /// Append the already-normalized `tags` to bill `bill_id`'s tags.
    #[verifier::loop_isolation(false)]
    pub fn add_tags_to_bill(&mut self, caller: Address, bill_id: u32, tags: &Vec<Vec<u8>>)
        requires
            old(self).wf(),
            old(self).pause_error(PausableFunction::AddTags) is None,
            old(self).bills@.contains_key(bill_id),
            old(self).bills@[bill_id].owner == caller,
        ensures
            final(self).wf(),
            final(self).bills@ == old(self).bills@.insert(bill_id, final(self).bills@[bill_id]),
            final(self).bills@[bill_id]@ == (BillView {
                tags: old(self).bills@[bill_id]@.tags + texts_view(tags@),
                ..old(self).bills@[bill_id]@
            }),
            *final(self) == (BillPayments { bills: final(self).bills, ..*old(self) }),
    {
        let mut b = match self.bills.get(bill_id) {
            Some(b) => b.copy(),
            None => {
                return ;
            },
        };
        let mut new_tags = copy_texts(&b.tags);
        let ghost t0 = texts_view(b.tags@);
        let mut i: usize = 0;
        while i < tags.len()
            invariant
                i <= tags@.len(),
                texts_view(new_tags@) == t0 + texts_view(tags@.subrange(0, i as int)),
            decreases tags@.len() - i,
        {
            let ghost prev = new_tags@;
            new_tags.push(copy_bytes(&tags[i]));
            proof {
                assert(texts_view(new_tags@) =~= texts_view(prev).push(tags@[i as int]@));
                assert(texts_view(tags@.subrange(0, i as int + 1)) =~= texts_view(tags@.subrange(0, i as int)).push(
                    tags@[i as int]@,
                ));
                assert(texts_view(new_tags@) =~= t0 + texts_view(tags@.subrange(0, i as int + 1)));
            }
            i = i + 1;
        }
        b.tags = new_tags;
        assert(tags@.subrange(0, tags@.len() as int) == tags@);
        self.bills.set(bill_id, b);
    }

    /// Drop from bill `bill_id` every tag equal to one of the
    /// already-normalized `tags`; tags it does not carry are ignored.
    #[verifier::loop_isolation(false)]
    pub fn remove_tags_from_bill(&mut self, caller: Address, bill_id: u32, tags: &Vec<Vec<u8>>)
        requires
            old(self).wf(),
            old(self).pause_error(PausableFunction::RemoveTags) is None,
            old(self).bills@.contains_key(bill_id),
            old(self).bills@[bill_id].owner == caller,
        ensures
            final(self).wf(),
            final(self).bills@ == old(self).bills@.insert(bill_id, final(self).bills@[bill_id]),
            final(self).bills@[bill_id]@ == (BillView {
                tags: old(self).bills@[bill_id]@.tags.filter(|t: Seq<u8>| !texts_view(tags@).contains(t)),
                ..old(self).bills@[bill_id]@
            }),
            *final(self) == (BillPayments { bills: final(self).bills, ..*old(self) }),
    {
        let mut b = match self.bills.get(bill_id) {
            Some(b) => b.copy(),
            None => {
                return ;
            },
        };
        let ghost drop = texts_view(tags@);
        let ghost t0 = texts_view(b.tags@);
        let mut remaining: Vec<Vec<u8>> = Vec::new();
        let mut i: usize = 0;
        while i < b.tags.len()
            invariant
                i <= b.tags@.len(),
                t0 == texts_view(b.tags@),
                drop == texts_view(tags@),
                texts_view(remaining@) == t0.subrange(0, i as int).filter(|t: Seq<u8>| !drop.contains(t)),
            decreases b.tags@.len() - i,
        {
            let mut hit = false;
            let mut j: usize = 0;
            while j < tags.len()
                invariant
                    j <= tags@.len(),
                    drop == texts_view(tags@),
                    hit == exists|k: int| 0 <= k < j && tags@[k]@ == b.tags@[i as int]@,
                decreases tags@.len() - j,
            {
                if crate::maps::bytes_eq(&b.tags[i], &tags[j]) {
                    hit = true;
                }
                j = j + 1;
            }
            proof {
                let x = t0[i as int];
                assert(x == b.tags@[i as int]@);
                assert(hit == drop.contains(x)) by {
                    if hit {
                        let k = choose|k: int| 0 <= k < tags@.len() && tags@[k]@ == b.tags@[i as int]@;
                        assert(drop[k] == x);
                    }
                    if drop.contains(x) {
                        let k = choose|k: int| 0 <= k < drop.len() && drop[k] == x;
                        assert(tags@[k]@ == x);
                    }
                }
                assert(t0.subrange(0, i as int + 1) == t0.subrange(0, i as int).push(x));
                crate::ids::lemma_filter_push(t0.subrange(0, i as int), |t: Seq<u8>| !drop.contains(t), x);
            }
            if !hit {
                remaining.push(copy_bytes(&b.tags[i]));
                assert(texts_view(remaining@) =~= texts_view(remaining@.drop_last()).push(b.tags@[i as int]@));
            }
            i = i + 1;
        }
        assert(t0.subrange(0, t0.len() as int) == t0);
        b.tags = remaining;
        self.bills.set(bill_id, b);
    }
}

} // verus!
