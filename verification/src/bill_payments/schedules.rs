//! Bill schedules: creating, changing and cancelling them, and listing them.
use super::state::{
    index_ids, index_push, index_remove, BillPayments, MAX_BILL_SCHEDULES_PER_OWNER,
    MAX_SCHEDULE_LEAD_TIME, MIN_SCHEDULE_INTERVAL,
};
use super::text::{spec_currency, validate_and_normalize_currency};
use super::types::{BillPaymentsError, BillSchedule, BillScheduleView, PausableFunction};
use crate::address::Address;
use crate::maps::list_of;
use vstd::prelude::*;

verus! {

/// `next_due - now`, or 0 when `next_due` is not later than `now`.
pub open spec fn lead_time(next_due: u64, now: u64) -> int {
    if next_due > now {
        next_due - now
    } else {
        0
    }
}

/// The schedules, by id, as their contents.
pub open spec fn schedule_views(m: Map<u32, BillSchedule>) -> Map<u32, BillScheduleView> {
    m.map_values(|s: BillSchedule| s@)
}

/// The schedules of `ids` that `m` holds, in the order of `ids`.
pub open spec fn schedules_listed(ids: Seq<u32>, m: Map<u32, BillSchedule>) -> Seq<BillScheduleView>
    decreases ids.len(),
{
    if ids.len() == 0 {
        Seq::empty()
    } else {
        let rest = schedules_listed(ids.drop_last(), m);
        if m.contains_key(ids.last()) {
            rest.push(m[ids.last()]@)
        } else {
            rest
        }
    }
}

impl BillPayments {
    /// The live schedule ids of `owner`, in creation order.
    pub open spec fn schedule_ids(&self, owner: Address) -> Seq<u32> {
        list_of(self.schedule_index@, owner)
    }

    /// Why `create_bill_schedule` refuses these inputs, if it does.
    pub open spec fn create_schedule_error(
        &self,
        owner: Address,
        currency: Seq<u8>,
        next_due: u64,
        interval: u64,
        now: u64,
    ) -> Option<BillPaymentsError> {
        if self.pause_error(PausableFunction::CreateBillSchedule) is Some {
            self.pause_error(PausableFunction::CreateBillSchedule)
        } else if next_due <= now {
            Some(BillPaymentsError::InvalidDueDate)
        } else if spec_currency(currency) is Err {
            Some(BillPaymentsError::InvalidCurrency)
        } else if interval > 0 && interval < MIN_SCHEDULE_INTERVAL {
            Some(BillPaymentsError::ScheduleIntervalTooShort)
        } else if lead_time(next_due, now) > MAX_SCHEDULE_LEAD_TIME {
            Some(BillPaymentsError::ScheduleLeadTimeTooLong)
        } else if self.schedule_ids(owner).len() >= MAX_BILL_SCHEDULES_PER_OWNER {
            Some(BillPaymentsError::ScheduleCapExceeded)
        } else {
            None
        }
    }

    /// Create a schedule for `owner` at time `now` that first falls due at
    /// `next_due` and then every `interval` seconds (`0`: only once);
    /// returns its id.
    pub fn create_bill_schedule(
        &mut self,
        owner: Address,
        name: Vec<u8>,
        amount: i128,
        currency: Vec<u8>,
        next_due: u64,
        interval: u64,
        now: u64,
    ) -> (r: Result<u32, BillPaymentsError>)
        requires
            old(self).wf(),
            old(self).next_schedule_id < u32::MAX,
        ensures
            final(self).wf(),
            match old(self).create_schedule_error(owner, currency@, next_due, interval, now) {
                Some(e) => r == Err::<u32, BillPaymentsError>(e) && *final(self) == *old(self),
                None => {
                    let id = (old(self).next_schedule_id + 1) as u32;
                    &&& r == Ok::<u32, BillPaymentsError>(id)
                    &&& spec_currency(currency@) matches Ok(cur)
                    &&& final(self).schedules@ == old(self).schedules@.insert(id, final(self).schedules@[id])
                    &&& final(self).schedules@[id]@ == (BillScheduleView {
                        id,
                        owner,
                        name: name@,
                        amount,
                        currency: cur,
                        next_due,
                        interval,
                        recurring: interval > 0,
                        active: true,
                        created_at: now,
                        last_executed: None,
                        missed_count: 0,
                    })
                    &&& final(self).next_schedule_id == id
                    &&& final(self).schedule_index@ == old(self).schedule_index@.insert(
                        owner,
                        final(self).schedule_index@[owner],
                    )
                    &&& final(self).schedule_ids(owner) == old(self).schedule_ids(owner).push(id)
                    &&& *final(self) == (BillPayments {
                        schedules: final(self).schedules,
                        next_schedule_id: id,
                        schedule_index: final(self).schedule_index,
                        ..*old(self)
                    })
                },
            },
    {
        if let Err(e) = self.require_not_paused(PausableFunction::CreateBillSchedule) {
            return Err(e);
        }
        if next_due <= now {
            return Err(BillPaymentsError::InvalidDueDate);
        }
        let resolved_currency = match validate_and_normalize_currency(&currency) {
            Ok(c) => c,
            Err(e) => {
                return Err(e);
            },
        };
        if interval > 0 && interval < MIN_SCHEDULE_INTERVAL {
            return Err(BillPaymentsError::ScheduleIntervalTooShort);
        }
        if next_due.saturating_sub(now) > MAX_SCHEDULE_LEAD_TIME {
            return Err(BillPaymentsError::ScheduleLeadTimeTooLong);
        }
        let count = index_ids(&self.schedule_index, &owner).len();
        if count >= MAX_BILL_SCHEDULES_PER_OWNER as usize {
            return Err(BillPaymentsError::ScheduleCapExceeded);
        }
        let id = self.next_schedule_id + 1;
        let schedule = BillSchedule {
            id,
            owner,
            name,
            amount,
            currency: resolved_currency,
            next_due,
            interval,
            recurring: interval > 0,
            active: true,
            created_at: now,
            last_executed: None,
            missed_count: 0,
        };
        self.schedules.set(id, schedule);
        self.next_schedule_id = id;
        index_push(&mut self.schedule_index, owner, id);
        Ok(id)
    }

    /// Why `modify_bill_schedule` refuses these inputs, if it does.
    pub open spec fn modify_schedule_error(
        &self,
        caller: Address,
        schedule_id: u32,
        amount: i128,
        next_due: u64,
        interval: u64,
        now: u64,
    ) -> Option<BillPaymentsError> {
        let s = self.schedules@[schedule_id];
        if self.pause_error(PausableFunction::ModifyBillSchedule) is Some {
            self.pause_error(PausableFunction::ModifyBillSchedule)
        } else if amount <= 0 {
            Some(BillPaymentsError::InvalidAmount)
        } else if next_due <= now {
            Some(BillPaymentsError::InvalidDueDate)
        } else if interval > 0 && interval < MIN_SCHEDULE_INTERVAL {
            Some(BillPaymentsError::ScheduleIntervalTooShort)
        } else if lead_time(next_due, now) > MAX_SCHEDULE_LEAD_TIME {
            Some(BillPaymentsError::ScheduleLeadTimeTooLong)
        } else if !self.schedules@.contains_key(schedule_id) {
            Some(BillPaymentsError::ScheduleNotFound)
        } else if !s.active {
            Some(BillPaymentsError::ScheduleNotActive)
        } else if s.owner != caller {
            Some(BillPaymentsError::Unauthorized)
        } else {
            None
        }
    }

    /// Change the amount, next due time and interval of `caller`'s active
    /// schedule `schedule_id`.
    pub fn modify_bill_schedule(
        &mut self,
        caller: Address,
        schedule_id: u32,
        amount: i128,
        next_due: u64,
        interval: u64,
        now: u64,
    ) -> (r: Result<bool, BillPaymentsError>)
        requires
            old(self).wf(),
        ensures
            final(self).wf(),
            match old(self).modify_schedule_error(caller, schedule_id, amount, next_due, interval, now) {
                Some(e) => r == Err::<bool, BillPaymentsError>(e) && *final(self) == *old(self),
                None => {
                    &&& r == Ok::<bool, BillPaymentsError>(true)
                    &&& final(self).schedules@ == old(self).schedules@.insert(
                        schedule_id,
                        final(self).schedules@[schedule_id],
                    )
                    &&& final(self).schedules@[schedule_id]@ == (BillScheduleView {
                        amount,
                        next_due,
                        interval,
                        recurring: interval > 0,
                        ..old(self).schedules@[schedule_id]@
                    })
                    &&& *final(self) == (BillPayments { schedules: final(self).schedules, ..*old(self) })
                },
            },
    {
        if let Err(e) = self.require_not_paused(PausableFunction::ModifyBillSchedule) {
            return Err(e);
        }
        if amount <= 0 {
            return Err(BillPaymentsError::InvalidAmount);
        }
        if next_due <= now {
            return Err(BillPaymentsError::InvalidDueDate);
        }
        if interval > 0 && interval < MIN_SCHEDULE_INTERVAL {
            return Err(BillPaymentsError::ScheduleIntervalTooShort);
        }
        if next_due.saturating_sub(now) > MAX_SCHEDULE_LEAD_TIME {
            return Err(BillPaymentsError::ScheduleLeadTimeTooLong);
        }
        let mut s = match self.schedules.get(schedule_id) {
            Some(s) => s.copy(),
            None => {
                return Err(BillPaymentsError::ScheduleNotFound);
            },
        };
        if !s.active {
            return Err(BillPaymentsError::ScheduleNotActive);
        }
        if s.owner != caller {
            return Err(BillPaymentsError::Unauthorized);
        }
        s.amount = amount;
        s.next_due = next_due;
        s.interval = interval;
        s.recurring = interval > 0;
        self.schedules.set(schedule_id, s);
        Ok(true)
    }

    /// Why `cancel_bill_schedule` refuses these inputs, if it does.
    pub open spec fn cancel_schedule_error(&self, caller: Address, schedule_id: u32) -> Option<BillPaymentsError> {
        let s = self.schedules@[schedule_id];
        if self.pause_error(PausableFunction::CancelBillSchedule) is Some {
            self.pause_error(PausableFunction::CancelBillSchedule)
        } else if !self.schedules@.contains_key(schedule_id) {
            Some(BillPaymentsError::ScheduleNotFound)
        } else if !s.active {
            Some(BillPaymentsError::ScheduleNotActive)
        } else if s.owner != caller {
            Some(BillPaymentsError::Unauthorized)
        } else {
            None
        }
    }

    /// Deactivate `caller`'s active schedule `schedule_id` and drop it from
    /// `caller`'s schedule list.
    pub fn cancel_bill_schedule(&mut self, caller: Address, schedule_id: u32) -> (r: Result<bool, BillPaymentsError>)
        requires
            old(self).wf(),
        ensures
            final(self).wf(),
            match old(self).cancel_schedule_error(caller, schedule_id) {
                Some(e) => r == Err::<bool, BillPaymentsError>(e) && *final(self) == *old(self),
                None => {
                    &&& r == Ok::<bool, BillPaymentsError>(true)
                    &&& final(self).schedules@ == old(self).schedules@.insert(
                        schedule_id,
                        final(self).schedules@[schedule_id],
                    )
                    &&& final(self).schedules@[schedule_id]@ == (BillScheduleView {
                        active: false,
                        ..old(self).schedules@[schedule_id]@
                    })
                    &&& (forall|o: Address| #![trigger list_of(final(self).schedule_index@, o)]
                        list_of(final(self).schedule_index@, o) == if o == caller {
                            list_of(old(self).schedule_index@, o).filter(|y: u32| y != schedule_id)
                        } else {
                            list_of(old(self).schedule_index@, o)
                        })
                    &&& *final(self) == (BillPayments {
                        schedules: final(self).schedules,
                        schedule_index: final(self).schedule_index,
                        ..*old(self)
                    })
                },
            },
    {
        if let Err(e) = self.require_not_paused(PausableFunction::CancelBillSchedule) {
            return Err(e);
        }
        let mut s = match self.schedules.get(schedule_id) {
            Some(s) => s.copy(),
            None => {
                return Err(BillPaymentsError::ScheduleNotFound);
            },
        };
        if !s.active {
            return Err(BillPaymentsError::ScheduleNotActive);
        }
        if s.owner != caller {
            return Err(BillPaymentsError::Unauthorized);
        }
        s.active = false;
        self.schedules.set(schedule_id, s);
        index_remove(&mut self.schedule_index, &caller, schedule_id);
        Ok(true)
    }

    /// The schedules on `owner`'s schedule list, in creation order.
    pub fn get_bill_schedules(&self, owner: Address) -> (r: Vec<BillSchedule>)
        requires
            self.wf(),
        ensures
            r@.map_values(|s: BillSchedule| s@) == schedules_listed(self.schedule_ids(owner), self.schedules@),
    {
        let ids = index_ids(&self.schedule_index, &owner);
        let mut out: Vec<BillSchedule> = Vec::new();
        let mut i: usize = 0;
        while i < ids.len()
            invariant
                self.wf(),
                ids@ == self.schedule_ids(owner),
                i <= ids@.len(),
                out@.map_values(|s: BillSchedule| s@) == schedules_listed(ids@.subrange(0, i as int), self.schedules@),
            decreases ids@.len() - i,
        {
            proof {
                assert(ids@.subrange(0, i as int + 1).drop_last() =~= ids@.subrange(0, i as int));
            }
            match self.schedules.get(ids[i]) {
                Some(s) => {
                    out.push(s.copy());
                },
                None => {},
            }
            assert(out@.map_values(|s: BillSchedule| s@) =~= schedules_listed(
                ids@.subrange(0, i as int + 1),
                self.schedules@,
            ));
            i = i + 1;
        }
        assert(ids@.subrange(0, i as int) =~= ids@);
        out
    }

    /// The schedule stored under `schedule_id`, if any.
    pub fn get_bill_schedule(&self, schedule_id: u32) -> (r: Option<BillSchedule>)
        requires
            self.wf(),
        ensures
            match r {
                Some(s) => self.schedules@.contains_key(schedule_id) && s@ == self.schedules@[schedule_id]@,
                None => !self.schedules@.contains_key(schedule_id),
            },
    {
        match self.schedules.get(schedule_id) {
            Some(s) => Some(s.copy()),
            None => None,
        }
    }
}

} // verus!
