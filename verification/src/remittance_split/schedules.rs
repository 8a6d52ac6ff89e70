//! Remittance schedules: creating, changing, cancelling, running and
//! listing them.
use super::state::{
    RemittanceSplit, MAX_SCHEDULES_PER_OWNER, MAX_SCHEDULE_LEAD_TIME, MIN_SCHEDULE_INTERVAL,
};
use super::types::{RemittanceSchedule, RemittanceSchedulePage, RemittanceSplitError, SchedulePage};
use crate::address::Address;
use crate::bill_payments::execution::{catch_up, sat_u32};
use crate::bill_payments::schedules::lead_time;
use crate::common::{clamp_limit, spec_clamp_limit};
use crate::maps::list_of;
use vstd::prelude::*;

verus! {

/// The schedules of `ids` that `m` holds, in the order of `ids`.
pub open spec fn listed(ids: Seq<u32>, m: Map<u32, RemittanceSchedule>) -> Seq<RemittanceSchedule>
    decreases ids.len(),
{
    if ids.len() == 0 {
        Seq::empty()
    } else {
        let rest = listed(ids.drop_last(), m);
        if m.contains_key(ids.last()) {
            rest.push(m[ids.last()])
        } else {
            rest
        }
    }
}

/// The end of the index window starting at `from` of at most `cap` ids
/// out of `len`.
pub open spec fn window_end(from: u32, cap: u32, len: nat) -> int {
    if from + cap > len {
        len as int
    } else {
        from + cap
    }
}

/// The schedules after `cursor` in `ids` that a page of `cap` shows, and
/// whether another id after `cursor` was left for a later page.
pub open spec fn after_cursor(ids: Seq<u32>, cursor: u32, m: Map<u32, RemittanceSchedule>, cap: u32) -> (
    Seq<RemittanceSchedule>,
    bool,
)
    decreases ids.len(),
{
    if ids.len() == 0 {
        (Seq::empty(), false)
    } else {
        let r = after_cursor(ids.drop_last(), cursor, m, cap);
        let id = ids.last();
        if r.1 || id <= cursor {
            r
        } else if r.0.len() >= cap {
            (r.0, true)
        } else if m.contains_key(id) {
            (r.0.push(m[id]), false)
        } else {
            r
        }
    }
}

/// Schedule `s` runs at `now`: active, due, and not yet run for this due time.
pub open spec fn runs(s: RemittanceSchedule, now: u64) -> bool {
    &&& s.active
    &&& s.next_due <= now
    &&& !(s.last_executed matches Some(l) && l >= s.next_due)
}

/// Schedule `s` after running at `now`: a recurring one moves past `now`
/// counting the intervals it skipped, a one-off one is deactivated.
pub open spec fn ran(s: RemittanceSchedule, now: u64) -> RemittanceSchedule {
    if s.recurring && s.interval > 0 {
        let c = catch_up(s.next_due + s.interval, s.interval as int, now as int);
        RemittanceSchedule {
            last_executed: Some(now),
            missed_count: sat_u32(s.missed_count + sat_u32(c.0 as int)),
            next_due: c.1 as u64,
            ..s
        }
    } else {
        RemittanceSchedule { last_executed: Some(now), active: false, ..s }
    }
}

/// Running schedules `1..=n` at `now`: the schedules afterwards and the
/// ids run, in order.
pub open spec fn run_all(m: Map<u32, RemittanceSchedule>, n: nat, now: u64) -> (Map<u32, RemittanceSchedule>, Seq<
    u32,
>)
    decreases n,
{
    if n == 0 {
        (m, Seq::empty())
    } else {
        let r = run_all(m, (n - 1) as nat, now);
        let id = n as u32;
        if r.0.contains_key(id) && runs(r.0[id], now) {
            (r.0.insert(id, ran(r.0[id], now)), r.1.push(id))
        } else {
            r
        }
    }
}

/// Running schedules up to `k` leaves schedule `id > k` as it was.
pub proof fn lemma_run_all_untouched(m: Map<u32, RemittanceSchedule>, k: nat, id: u32, now: u64)
    requires
        k < id || (id == 0 && k <= u32::MAX),
    ensures
        run_all(m, k, now).0.contains_key(id) == m.contains_key(id),
        m.contains_key(id) ==> run_all(m, k, now).0[id] == m[id],
    decreases k,
{
    if k > 0 {
        lemma_run_all_untouched(m, (k - 1) as nat, id, now);
    }
}

impl RemittanceSplit {
    /// The schedule ids of `owner`, in creation order.
    pub open spec fn owner_schedule_ids(&self, owner: Address) -> Seq<u32> {
        list_of(self.owner_schedules@, owner)
    }

    /// A due schedule can be run at `now` without overflow.
    pub open spec fn runs_safely(&self, now: u64) -> bool {
        forall|id: u32|
            #![trigger self.schedules@[id]]
            self.schedules@.contains_key(id) && runs(self.schedules@[id], now) && self.schedules@[id].recurring
                && self.schedules@[id].interval > 0 ==> self.schedules@[id].next_due + self.schedules@[id].interval
                <= u64::MAX && now < u64::MAX
    }

    /// Why `create_remittance_schedule` refuses these inputs, if it does.
    pub open spec fn create_schedule_error(
        &self,
        owner: Address,
        amount: i128,
        next_due: u64,
        interval: u64,
        now: u64,
    ) -> Option<RemittanceSplitError> {
        if self.paused {
            Some(RemittanceSplitError::Unauthorized)
        } else if self.config is None {
            Some(RemittanceSplitError::NotInitialized)
        } else if self.config->Some_0.owner != owner {
            Some(RemittanceSplitError::Unauthorized)
        } else if amount <= 0 {
            Some(RemittanceSplitError::InvalidAmount)
        } else if next_due <= now {
            Some(RemittanceSplitError::InvalidDueDate)
        } else if interval > 0 && interval < MIN_SCHEDULE_INTERVAL {
            Some(RemittanceSplitError::ScheduleIntervalTooShort)
        } else if lead_time(next_due, now) > MAX_SCHEDULE_LEAD_TIME {
            Some(RemittanceSplitError::ScheduleLeadTimeTooLong)
        } else if self.owner_schedule_ids(owner).len() >= MAX_SCHEDULES_PER_OWNER {
            Some(RemittanceSplitError::ScheduleCapExceeded)
        } else if self.next_schedule_id == u32::MAX || self.schedules@.contains_key(
            (self.next_schedule_id + 1) as u32,
        ) {
            Some(RemittanceSplitError::Overflow)
        } else {
            None
        }
    }

    /// The owner creates a schedule at `now` that first falls due at
    /// `next_due` and then every `interval` seconds (`0`: only once);
    /// returns its id.
    pub fn create_remittance_schedule(&mut self, owner: Address, amount: i128, next_due: u64, interval: u64, now: u64) -> (r:
        Result<u32, RemittanceSplitError>)
        requires
            old(self).wf(),
        ensures
            final(self).wf(),
            match old(self).create_schedule_error(owner, amount, next_due, interval, now) {
                Some(e) => r == Err::<u32, RemittanceSplitError>(e) && *final(self) == *old(self),
                None => {
                    let id = (old(self).next_schedule_id + 1) as u32;
                    &&& r == Ok::<u32, RemittanceSplitError>(id)
                    &&& final(self).schedules@ == old(self).schedules@.insert(
                        id,
                        RemittanceSchedule {
                            id,
                            owner,
                            amount,
                            next_due,
                            interval,
                            recurring: interval > 0,
                            active: true,
                            created_at: now,
                            last_executed: None,
                            missed_count: 0,
                        },
                    )
                    &&& final(self).owner_schedules@ == old(self).owner_schedules@.insert(
                        owner,
                        final(self).owner_schedules@[owner],
                    )
                    &&& final(self).owner_schedule_ids(owner) == old(self).owner_schedule_ids(owner).push(id)
                    &&& final(self).next_schedule_id == id
                    &&& *final(self) == (RemittanceSplit {
                        schedules: final(self).schedules,
                        owner_schedules: final(self).owner_schedules,
                        next_schedule_id: id,
                        ..*old(self)
                    })
                },
            },
    {
        if let Err(e) = self.require_not_paused() {
            return Err(e);
        }
        let config = match self.config {
            Some(c) => c,
            None => {
                return Err(RemittanceSplitError::NotInitialized);
            },
        };
        if config.owner != owner {
            return Err(RemittanceSplitError::Unauthorized);
        }
        if amount <= 0 {
            return Err(RemittanceSplitError::InvalidAmount);
        }
        if next_due <= now {
            return Err(RemittanceSplitError::InvalidDueDate);
        }
        if interval > 0 && interval < MIN_SCHEDULE_INTERVAL {
            return Err(RemittanceSplitError::ScheduleIntervalTooShort);
        }
        if next_due.saturating_sub(now) > MAX_SCHEDULE_LEAD_TIME {
            return Err(RemittanceSplitError::ScheduleLeadTimeTooLong);
        }
        let mut ids: Vec<u32> = match self.owner_schedules.get(&owner) {
            Some(v) => v.clone(),
            None => Vec::new(),
        };
        assert(ids@ == self.owner_schedule_ids(owner));
        if ids.len() >= MAX_SCHEDULES_PER_OWNER as usize {
            return Err(RemittanceSplitError::ScheduleCapExceeded);
        }
        let id = match self.next_schedule_id.checked_add(1) {
            Some(v) => v,
            None => {
                return Err(RemittanceSplitError::Overflow);
            },
        };
        if self.schedules.contains(id) {
            return Err(RemittanceSplitError::Overflow);
        }
        let schedule = RemittanceSchedule {
            id,
            owner,
            amount,
            next_due,
            interval,
            recurring: interval > 0,
            active: true,
            created_at: now,
            last_executed: None,
            missed_count: 0,
        };
        self.schedules.set(id, schedule);
        ids.push(id);
        self.owner_schedules.set(owner, ids);
        self.next_schedule_id = id;
        proof {
            assert forall|a: Address| #[trigger] self.owner_schedules@.contains_key(a) implies self.owner_schedules@[
                a
            ]@.len() <= MAX_SCHEDULES_PER_OWNER by {
                if a != owner {
                    assert(old(self).owner_schedules@.contains_key(a));
                }
            }
        }
        Ok(id)
    }

    /// Why `modify_remittance_schedule` refuses these inputs, if it does.
    pub open spec fn modify_schedule_error(
        &self,
        caller: Address,
        schedule_id: u32,
        amount: i128,
        next_due: u64,
        interval: u64,
        now: u64,
    ) -> Option<RemittanceSplitError> {
        let s = self.schedules@[schedule_id];
        if self.paused {
            Some(RemittanceSplitError::Unauthorized)
        } else if self.config is None {
            Some(RemittanceSplitError::NotInitialized)
        } else if self.config->Some_0.owner != caller {
            Some(RemittanceSplitError::Unauthorized)
        } else if amount <= 0 {
            Some(RemittanceSplitError::InvalidAmount)
        } else if next_due <= now {
            Some(RemittanceSplitError::InvalidDueDate)
        } else if interval > 0 && interval < MIN_SCHEDULE_INTERVAL {
            Some(RemittanceSplitError::ScheduleIntervalTooShort)
        } else if lead_time(next_due, now) > MAX_SCHEDULE_LEAD_TIME {
            Some(RemittanceSplitError::ScheduleLeadTimeTooLong)
        } else if !self.schedules@.contains_key(schedule_id) {
            Some(RemittanceSplitError::ScheduleNotFound)
        } else if !s.active {
            Some(RemittanceSplitError::InactiveSchedule)
        } else if s.owner != caller {
            Some(RemittanceSplitError::Unauthorized)
        } else {
            None
        }
    }

    /// The owner changes the amount, next due time and interval of an
    /// active schedule of theirs.
    pub fn modify_remittance_schedule(
        &mut self,
        caller: Address,
        schedule_id: u32,
        amount: i128,
        next_due: u64,
        interval: u64,
        now: u64,
    ) -> (r: Result<bool, RemittanceSplitError>)
        requires
            old(self).wf(),
        ensures
            final(self).wf(),
            match old(self).modify_schedule_error(caller, schedule_id, amount, next_due, interval, now) {
                Some(e) => r == Err::<bool, RemittanceSplitError>(e) && *final(self) == *old(self),
                None => {
                    &&& r == Ok::<bool, RemittanceSplitError>(true)
                    &&& final(self).schedules@ == old(self).schedules@.insert(
                        schedule_id,
                        RemittanceSchedule {
                            amount,
                            next_due,
                            interval,
                            recurring: interval > 0,
                            ..old(self).schedules@[schedule_id]
                        },
                    )
                    &&& *final(self) == (RemittanceSplit { schedules: final(self).schedules, ..*old(self) })
                },
            },
    {
        if let Err(e) = self.require_not_paused() {
            return Err(e);
        }
        let config = match self.config {
            Some(c) => c,
            None => {
                return Err(RemittanceSplitError::NotInitialized);
            },
        };
        if config.owner != caller {
            return Err(RemittanceSplitError::Unauthorized);
        }
        if amount <= 0 {
            return Err(RemittanceSplitError::InvalidAmount);
        }
        if next_due <= now {
            return Err(RemittanceSplitError::InvalidDueDate);
        }
        if interval > 0 && interval < MIN_SCHEDULE_INTERVAL {
            return Err(RemittanceSplitError::ScheduleIntervalTooShort);
        }
        if next_due.saturating_sub(now) > MAX_SCHEDULE_LEAD_TIME {
            return Err(RemittanceSplitError::ScheduleLeadTimeTooLong);
        }
        let mut s = match self.schedules.get(schedule_id) {
            Some(s) => *s,
            None => {
                return Err(RemittanceSplitError::ScheduleNotFound);
            },
        };
        if !s.active {
            return Err(RemittanceSplitError::InactiveSchedule);
        }
        if s.owner != caller {
            return Err(RemittanceSplitError::Unauthorized);
        }
        s.amount = amount;
        s.next_due = next_due;
        s.interval = interval;
        s.recurring = interval > 0;
        self.schedules.set(schedule_id, s);
        Ok(true)
    }

    /// Why `cancel_remittance_schedule` refuses these inputs, if it does.
    pub open spec fn cancel_schedule_error(&self, caller: Address, schedule_id: u32) -> Option<RemittanceSplitError> {
        let s = self.schedules@[schedule_id];
        if self.paused {
            Some(RemittanceSplitError::Unauthorized)
        } else if !self.schedules@.contains_key(schedule_id) {
            Some(RemittanceSplitError::ScheduleNotFound)
        } else if !s.active {
            Some(RemittanceSplitError::InactiveSchedule)
        } else if s.owner != caller {
            Some(RemittanceSplitError::Unauthorized)
        } else {
            None
        }
    }

    /// The owner deactivates an active schedule of theirs.
    pub fn cancel_remittance_schedule(&mut self, caller: Address, schedule_id: u32) -> (r: Result<
        bool,
        RemittanceSplitError,
    >)
        requires
            old(self).wf(),
        ensures
            final(self).wf(),
            match old(self).cancel_schedule_error(caller, schedule_id) {
                Some(e) => r == Err::<bool, RemittanceSplitError>(e) && *final(self) == *old(self),
                None => {
                    &&& r == Ok::<bool, RemittanceSplitError>(true)
                    &&& final(self).schedules@ == old(self).schedules@.insert(
                        schedule_id,
                        RemittanceSchedule { active: false, ..old(self).schedules@[schedule_id] },
                    )
                    &&& *final(self) == (RemittanceSplit { schedules: final(self).schedules, ..*old(self) })
                },
            },
    {
        if let Err(e) = self.require_not_paused() {
            return Err(e);
        }
        let mut s = match self.schedules.get(schedule_id) {
            Some(s) => *s,
            None => {
                return Err(RemittanceSplitError::ScheduleNotFound);
            },
        };
        if !s.active {
            return Err(RemittanceSplitError::InactiveSchedule);
        }
        if s.owner != caller {
            return Err(RemittanceSplitError::Unauthorized);
        }
        s.active = false;
        self.schedules.set(schedule_id, s);
        Ok(true)
    }

    /// Run every due schedule at `now`, in id order, and return the ids of
    /// those run. Nothing runs while paused or before initialization.
    pub fn execute_due_remittance_schedules(&mut self, now: u64) -> (r: Vec<u32>)
        requires
            old(self).wf(),
            old(self).runs_safely(now),
        ensures
            final(self).wf(),
            final(self).runs_safely(now),
            old(self).paused || old(self).config is None ==> r@ == Seq::<u32>::empty() && *final(self) == *old(self),
            !old(self).paused && old(self).config is Some ==> {
                let res = run_all(old(self).schedules@, old(self).next_schedule_id as nat, now);
                &&& r@ == res.1
                &&& final(self).schedules@ == res.0
                &&& *final(self) == (RemittanceSplit { schedules: final(self).schedules, ..*old(self) })
            },
    {
        let mut executed: Vec<u32> = Vec::new();
        if self.paused || self.config.is_none() {
            return executed;
        }
        let n = self.next_schedule_id;
        let ghost m0 = old(self).schedules@;
        let mut sid: u64 = 1;
        while sid <= n as u64
            invariant
                self.wf(),
                1 <= sid <= n as u64 + 1,
                n == old(self).next_schedule_id,
                m0 == old(self).schedules@,
                old(self).runs_safely(now),
                (self.schedules@, executed@) == run_all(m0, (sid - 1) as nat, now),
                *self == (RemittanceSplit { schedules: self.schedules, ..*old(self) }),
            decreases n as u64 + 1 - sid,
        {
            let id = sid as u32;
            proof {
                lemma_run_all_untouched(m0, (sid - 1) as nat, id, now);
            }
            let found = match self.schedules.get(id) {
                Some(s) => Some(*s),
                None => None,
            };
            if let Some(s0) = found {
                let mut due = s0.active && s0.next_due <= now;
                if let Some(l) = s0.last_executed {
                    if l >= s0.next_due {
                        due = false;
                    }
                }
                if due {
                    assert(m0.contains_key(id) && m0[id] == s0);
                    let mut s = s0;
                    s.last_executed = Some(now);
                    if s.recurring && s.interval > 0 {
                        let mut missed: u32 = 0;
                        let mut next: u64 = s.next_due + s.interval;
                        let ghost target = catch_up(next as int, s.interval as int, now as int);
                        let ghost mut k: nat = 0;
                        while next <= now
                            invariant
                                now < u64::MAX,
                                s.interval > 0,
                                catch_up(next as int, s.interval as int, now as int).1 == target.1,
                                catch_up(next as int, s.interval as int, now as int).0 + k == target.0,
                                missed == sat_u32(k as int),
                            decreases (if next > now { 0 } else { now - next + 1 }),
                        {
                            proof {
                                crate::bill_payments::execution::lemma_catch_up_step(next, s.interval, now);
                                k = k + 1;
                            }
                            missed = missed.saturating_add(1);
                            next = next.saturating_add(s.interval);
                        }
                        s.missed_count = s.missed_count.saturating_add(missed);
                        s.next_due = next;
                    } else {
                        s.active = false;
                    }
                    assert(s == ran(s0, now));
                    self.schedules.set(id, s);
                    executed.push(id);
                }
            }
            sid = sid + 1;
        }
        proof {
            super::laws::lemma_run_all_leaves_none_due(m0, n as nat, now);
            assert forall|id: u32| #![trigger self.schedules@[id]]
                self.schedules@.contains_key(id) && runs(self.schedules@[id], now) && self.schedules@[id].recurring
                    && self.schedules@[id].interval > 0 implies self.schedules@[id].next_due
                    + self.schedules@[id].interval <= u64::MAX && now < u64::MAX by {
                if !(1 <= id <= n) {
                    lemma_run_all_untouched(m0, n as nat, id, now);
                    assert(m0.contains_key(id) && m0[id] == self.schedules@[id]);
                }
            }
        }
        executed
    }

    /// The schedules on `owner`'s list, in creation order.
    pub fn get_remittance_schedules(&self, owner: Address) -> (r: Vec<RemittanceSchedule>)
        requires
            self.wf(),
        ensures
            r@ == listed(self.owner_schedule_ids(owner), self.schedules@),
    {
        let ids: Vec<u32> = match self.owner_schedules.get(&owner) {
            Some(v) => v.clone(),
            None => Vec::new(),
        };
        assert(ids@ == self.owner_schedule_ids(owner));
        let mut out: Vec<RemittanceSchedule> = Vec::new();
        let mut i: usize = 0;
        while i < ids.len()
            invariant
                self.wf(),
                i <= ids@.len(),
                out@ == listed(ids@.subrange(0, i as int), self.schedules@),
            decreases ids@.len() - i,
        {
            proof {
                assert(ids@.subrange(0, i as int + 1).drop_last() =~= ids@.subrange(0, i as int));
            }
            match self.schedules.get(ids[i]) {
                Some(s) => {
                    out.push(*s);
                },
                None => {},
            }
            i = i + 1;
        }
        assert(ids@.subrange(0, i as int) =~= ids@);
        out
    }

    /// The schedule stored under `schedule_id`, if any.
    pub fn get_remittance_schedule(&self, schedule_id: u32) -> (r: Option<RemittanceSchedule>)
        requires
            self.wf(),
        ensures
            match r {
                Some(s) => self.schedules@.contains_key(schedule_id) && s == self.schedules@[schedule_id],
                None => !self.schedules@.contains_key(schedule_id),
            },
    {
        match self.schedules.get(schedule_id) {
            Some(s) => Some(*s),
            None => None,
        }
    }

    /// A page of `owner`'s schedules by position: the ids at positions
    /// `from_index ..` (at most `limit`, clamped) that are stored.
    pub fn get_schedules_paginated(&self, owner: Address, from_index: u32, limit: u32) -> (r: SchedulePage)
        requires
            self.wf(),
        ensures
            ({
                let ids = self.owner_schedule_ids(owner);
                let cap = spec_clamp_limit(limit);
                if from_index >= ids.len() {
                    r.items@ == Seq::<RemittanceSchedule>::empty() && r.next_cursor == 0 && r.count == 0
                } else {
                    let end = window_end(from_index, cap, ids.len());
                    &&& r.items@ == listed(ids.subrange(from_index as int, end), self.schedules@)
                    &&& r.next_cursor == if end < ids.len() { end as u32 } else { 0 }
                    &&& r.count == r.items@.len()
                }
            }),
    {
        self.schedule_window(owner, from_index, limit)
    }

    /// A page of `owner`'s schedules by position, as `get_schedules_paginated`.
    pub fn get_remittance_schedules_page(&self, owner: Address, cursor: u32, limit: u32) -> (r: SchedulePage)
        requires
            self.wf(),
        ensures
            ({
                let ids = self.owner_schedule_ids(owner);
                let cap = spec_clamp_limit(limit);
                if cursor >= ids.len() {
                    r.items@ == Seq::<RemittanceSchedule>::empty() && r.next_cursor == 0 && r.count == 0
                } else {
                    let end = window_end(cursor, cap, ids.len());
                    &&& r.items@ == listed(ids.subrange(cursor as int, end), self.schedules@)
                    &&& r.next_cursor == if end < ids.len() { end as u32 } else { 0 }
                    &&& r.count == r.items@.len()
                }
            }),
    {
        self.schedule_window(owner, cursor, limit)
    }

    /// The schedules at positions `from ..` of `owner`'s list, at most
    /// `limit` (clamped) positions.
    fn schedule_window(&self, owner: Address, from: u32, limit: u32) -> (r: SchedulePage)
        requires
            self.wf(),
        ensures
            ({
                let ids = self.owner_schedule_ids(owner);
                let cap = spec_clamp_limit(limit);
                if from >= ids.len() {
                    r.items@ == Seq::<RemittanceSchedule>::empty() && r.next_cursor == 0 && r.count == 0
                } else {
                    let end = window_end(from, cap, ids.len());
                    &&& r.items@ == listed(ids.subrange(from as int, end), self.schedules@)
                    &&& r.next_cursor == if end < ids.len() { end as u32 } else { 0 }
                    &&& r.count == r.items@.len()
                }
            }),
    {
        let ids: Vec<u32> = match self.owner_schedules.get(&owner) {
            Some(v) => v.clone(),
            None => Vec::new(),
        };
        assert(ids@ == self.owner_schedule_ids(owner));
        let cap = clamp_limit(limit);
        if from as usize >= ids.len() {
            return SchedulePage { items: Vec::new(), next_cursor: 0, count: 0 };
        }
        let len = ids.len() as u32;
        let sum = from.saturating_add(cap);
        let end = if sum < len {
            sum
        } else {
            len
        };
        let mut items: Vec<RemittanceSchedule> = Vec::new();
        let mut i: u32 = from;
        assert(ids@.subrange(from as int, from as int) =~= Seq::<u32>::empty());
        while i < end
            invariant
                self.wf(),
                from <= i <= end <= len == ids@.len(),
                items@ == listed(ids@.subrange(from as int, i as int), self.schedules@),
                items@.len() <= i - from,
            decreases end - i,
        {
            proof {
                assert(ids@.subrange(from as int, i as int + 1).drop_last() =~= ids@.subrange(from as int, i as int));
            }
            match self.schedules.get(ids[i as usize]) {
                Some(s) => {
                    items.push(*s);
                },
                None => {},
            }
            i = i + 1;
        }
        let count = items.len() as u32;
        let next_cursor = if end < len {
            end
        } else {
            0
        };
        SchedulePage { items, next_cursor, count }
    }

    /// A page of `owner`'s schedules with ids after `cursor`, in list
    /// order; the next cursor is the last returned id when another id
    /// after `cursor` was left over, else `None`.
    pub fn get_remittance_schedules_paginated(&self, owner: Address, cursor: u32, limit: u32) -> (r:
        RemittanceSchedulePage)
        requires
            self.wf(),
        ensures
            ({
                let res = after_cursor(self.owner_schedule_ids(owner), cursor, self.schedules@, spec_clamp_limit(limit));
                &&& r.items@ == res.0
                &&& r.count == res.0.len()
                &&& r.next_cursor == if res.1 && res.0.len() > 0 {
                    Some(res.0.last().id)
                } else {
                    None::<u32>
                }
            }),
    {
        let ids: Vec<u32> = match self.owner_schedules.get(&owner) {
            Some(v) => v.clone(),
            None => Vec::new(),
        };
        assert(ids@ == self.owner_schedule_ids(owner));
        let cap = clamp_limit(limit);
        let mut items: Vec<RemittanceSchedule> = Vec::new();
        let mut has_more = false;
        let mut i: usize = 0;
        assert(ids@.subrange(0, 0) =~= Seq::<u32>::empty());
        while i < ids.len() && !has_more
            invariant
                self.wf(),
                i <= ids@.len(),
                1 <= cap <= 50,
                items@.len() <= cap,
                (items@, has_more) == after_cursor(ids@.subrange(0, i as int), cursor, self.schedules@, cap),
            decreases ids@.len() - i,
        {
            proof {
                assert(ids@.subrange(0, i as int + 1).drop_last() =~= ids@.subrange(0, i as int));
            }
            let id = ids[i];
            if id > cursor {
                if items.len() >= cap as usize {
                    has_more = true;
                } else {
                    match self.schedules.get(id) {
                        Some(s) => {
                            items.push(*s);
                        },
                        None => {},
                    }
                }
            }
            i = i + 1;
        }
        proof {
            let res = after_cursor(ids@.subrange(0, i as int), cursor, self.schedules@, cap);
            assert(has_more == res.1 && items@ == res.0);
            lemma_after_cursor_stops(ids@, i as int, cursor, self.schedules@, cap);
        }
        let count = items.len() as u32;
        let next_cursor = if has_more && count > 0 {
            Some(items[items.len() - 1].id)
        } else {
            None
        };
        RemittanceSchedulePage { items, next_cursor, count }
    }
}

/// Once a page has found an id left over, walking further ids changes
/// nothing.
pub proof fn lemma_after_cursor_stops(
    ids: Seq<u32>,
    i: int,
    cursor: u32,
    m: Map<u32, RemittanceSchedule>,
    cap: u32,
)
    requires
        0 <= i <= ids.len(),
        i == ids.len() || after_cursor(ids.subrange(0, i), cursor, m, cap).1,
    ensures
        after_cursor(ids, cursor, m, cap) == after_cursor(ids.subrange(0, i), cursor, m, cap),
    decreases ids.len() - i,
{
    if i == ids.len() {
        assert(ids.subrange(0, i) =~= ids);
    } else {
        assert(ids.drop_last().subrange(0, i) =~= ids.subrange(0, i));
        lemma_after_cursor_stops(ids.drop_last(), i, cursor, m, cap);
        if i < ids.len() - 1 {
        } else {
            assert(ids.drop_last() =~= ids.subrange(0, i));
        }
    }
}

} // verus!
