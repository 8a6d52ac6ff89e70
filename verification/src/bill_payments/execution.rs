//! Running the bill schedules that have fallen due.
use super::batch::views_of;
use super::schedules::schedule_views;
use super::state::{
    adjust_totals, index_add, index_added, index_ids, lists_ascending, sets_of, BillPayments,
    MAX_BILLS_PER_OWNER, SECONDS_PER_DAY,
};
use super::types::{copy_bytes, texts_view, Bill, BillSchedule, BillScheduleView, BillView};
use crate::address::Address;
use crate::ids::{ascending, lemma_ascending_set_len};
use crate::maps::list_of;
use vstd::prelude::*;

verus! {

/// What running the due schedules has produced so far.
pub struct RunAcc {
    pub schedules: Map<u32, BillScheduleView>,
    pub bills: Map<u32, BillView>,
    pub next_id: u32,
    /// Active bill ids per owner.
    pub owners: Map<Address, Set<u32>>,
    /// Active bill ids per owner and currency.
    pub currencies: Map<(Address, Seq<u8>), Set<u32>>,
    pub totals: Option<Map<Address, i128>>,
    /// The schedules run, in order.
    pub executed: Seq<u32>,
}

/// `x` clamped to the range of `u32`.
pub open spec fn sat_u32(x: int) -> u32 {
    if x > u32::MAX {
        u32::MAX
    } else if x < 0 {
        0
    } else {
        x as u32
    }
}

/// Moving a recurring schedule past `now`: starting one interval after its
/// due time, the number of further intervals skipped and the first due time
/// after `now` (sums clamped at `u64::MAX`).
pub open spec fn catch_up(next: int, interval: int, now: int) -> (nat, int)
    decreases (if next > now { 0 } else { now - next + 1 }),
{
    if next > now || interval <= 0 || next >= u64::MAX {
        (0, next)
    } else {
        let step = if next + interval > u64::MAX { u64::MAX as int } else { next + interval };
        let r = catch_up(step, interval, now);
        (r.0 + 1, r.1)
    }
}

/// The recurrence, in days, of the bills a schedule with `interval` creates.
pub open spec fn child_frequency(interval: u64) -> u32 {
    if interval / SECONDS_PER_DAY > 1 {
        (interval / SECONDS_PER_DAY) as u32
    } else {
        1
    }
}

/// The bill created by running schedule `s` (already moved on) at `now`.
pub open spec fn scheduled_bill(s: BillScheduleView, id: u32, now: u64) -> BillView {
    BillView {
        id,
        owner: s.owner,
        name: s.name,
        external_ref: None,
        amount: s.amount,
        due_date: s.next_due,
        recurring: true,
        frequency_days: child_frequency(s.interval),
        paid: false,
        created_at: now,
        paid_at: None,
        schedule_id: Some(s.id),
        tags: Seq::empty(),
        currency: s.currency,
    }
}

/// Schedule `s` is run at `now`: it is active, due, and not yet run for
/// this due time.
pub open spec fn is_due(s: BillScheduleView, now: u64) -> bool {
    &&& s.active
    &&& s.next_due <= now
    &&& !(s.last_executed matches Some(l) && l >= s.next_due)
}

/// Running schedule `id` at `now` stays within `u64`: a due recurring
/// schedule's next due time does not overflow, and `now` is not the last
/// representable time.
pub open spec fn step_safe(m: Map<u32, BillScheduleView>, id: u32, now: u64) -> bool {
    let s = m[id];
    m.contains_key(id) && is_due(s, now) && s.recurring && s.interval > 0 ==> s.next_due + s.interval
        <= u64::MAX && now < u64::MAX
}

/// Running schedule `id` at `now`. A due recurring schedule moves past
/// `now` and, unless its owner is at the bill cap, creates a bill due at its
/// new due time; a due one-off schedule is deactivated.
pub open spec fn run_step(acc: RunAcc, id: u32, now: u64) -> RunAcc {
    let s = acc.schedules[id];
    if !acc.schedules.contains_key(id) || !is_due(s, now) {
        acc
    } else if s.recurring && s.interval > 0 {
        let c = catch_up(s.next_due + s.interval, s.interval as int, now as int);
        let moved = BillScheduleView {
            last_executed: Some(now),
            missed_count: sat_u32(s.missed_count + sat_u32(c.0 as int)),
            next_due: c.1 as u64,
            ..s
        };
        let base = RunAcc { schedules: acc.schedules.insert(id, moved), executed: acc.executed.push(id), ..acc };
        if acc.owners[s.owner].len() < MAX_BILLS_PER_OWNER {
            let nid = sat_u32(acc.next_id + 1);
            let key = (s.owner, s.currency);
            RunAcc {
                bills: acc.bills.insert(nid, scheduled_bill(moved, nid, now)),
                next_id: nid,
                owners: acc.owners.insert(s.owner, acc.owners[s.owner].insert(nid)),
                currencies: acc.currencies.insert(key, acc.currencies[key].insert(nid)),
                totals: adjust_totals(acc.totals, s.owner, s.amount),
                ..base
            }
        } else {
            base
        }
    } else {
        RunAcc {
            schedules: acc.schedules.insert(id, BillScheduleView { last_executed: Some(now), active: false, ..s }),
            executed: acc.executed.push(id),
            ..acc
        }
    }
}

/// Running schedules `1..=n` in order.
pub open spec fn run_fold(init: RunAcc, n: nat, now: u64) -> RunAcc
    decreases n,
{
    if n == 0 {
        init
    } else {
        run_step(run_fold(init, (n - 1) as nat, now), n as u32, now)
    }
}

/// Catching up moves by whole intervals to the first time after `now`: as
/// long as one interval past `now` fits in `u64`, `catch_up` from `next`
/// takes the least `k` with `next + k * interval > now` and lands there.
pub proof fn lemma_catch_up_least(next: int, interval: int, now: int) -> (k: nat)
    requires
        interval > 0,
        next <= u64::MAX,
        now + interval <= u64::MAX,
    ensures
        catch_up(next, interval, now) == (k, next + k * interval),
        next + k * interval > now,
        k > 0 ==> next + (k - 1) * interval <= now,
    decreases (if next > now { 0 } else { now - next + 1 }),
{
    if next > now {
        assert(next + 0 * interval == next);
        0
    } else {
        let k1 = lemma_catch_up_least(next + interval, interval, now);
        assert(next + interval + k1 * interval == next + (k1 + 1) * interval) by (nonlinear_arith);
        assert(next + interval + (k1 - 1) * interval == next + k1 * interval) by (nonlinear_arith);
        assert(next + (k1 + 1 - 1) * interval == next + k1 * interval);
        k1 + 1
    }
}

/// Running a due recurring schedule catches it up: its next due time
/// becomes its old one plus the least whole number `k >= 1` of intervals
/// that passes `now`, the `k - 1` intervals skipped are added to its missed
/// count, and it records `now` as its last run.
pub proof fn lemma_run_step_catches_up(acc: RunAcc, id: u32, now: u64) -> (k: nat)
    requires
        acc.schedules.contains_key(id),
        is_due(acc.schedules[id], now),
        acc.schedules[id].recurring,
        acc.schedules[id].interval > 0,
        now + acc.schedules[id].interval <= u64::MAX,
    ensures
        ({
            let s = acc.schedules[id];
            let t = run_step(acc, id, now).schedules[id];
            &&& k >= 1
            &&& t.next_due == s.next_due + k * s.interval
            &&& t.next_due > now
            &&& s.next_due + (k - 1) * s.interval <= now
            &&& t.missed_count == sat_u32(s.missed_count + (k - 1))
            &&& t.last_executed == Some(now)
            &&& t.active == s.active
            &&& run_step(acc, id, now).executed == acc.executed.push(id)
        }),
{
    let s = acc.schedules[id];
    let j = lemma_catch_up_least(s.next_due + s.interval, s.interval as int, now as int);
    assert(s.next_due + s.interval + j * s.interval == s.next_due + (j + 1) * s.interval) by (nonlinear_arith);
    assert(s.next_due + (j + 1 - 1) * s.interval == s.next_due + j * s.interval);
    if j > 0 {
        assert(s.next_due + s.interval + (j - 1) * s.interval == s.next_due + j * s.interval) by (nonlinear_arith);
    }
    assert(s.next_due + (j + 1) * s.interval <= now + s.interval);
    let c = catch_up(s.next_due + s.interval, s.interval as int, now as int);
    assert(c.1 == s.next_due + (j + 1) * s.interval);
    assert(c.1 as u64 == c.1);
    j + 1
}

/// A step for one id leaves every other schedule as it was and at most
/// adds its own id to those run.
proof fn lemma_run_step_other(acc: RunAcc, k: u32, id: u32, now: u64)
    requires
        k != id,
    ensures
        run_step(acc, k, now).schedules.contains_key(id) == acc.schedules.contains_key(id),
        acc.schedules.contains_key(id) ==> run_step(acc, k, now).schedules[id] == acc.schedules[id],
        acc.executed.contains(id) ==> run_step(acc, k, now).executed.contains(id),
{
    if acc.executed.contains(id) {
        let i = choose|i: int| 0 <= i < acc.executed.len() && acc.executed[i] == id;
        assert(acc.executed.push(k)[i] == id);
    }
}

/// In a run over ids `1..=n`, schedule `id` ends as its own step left it,
/// applied to the schedule as it was before the run.
proof fn lemma_run_fold_at(init: RunAcc, n: nat, id: u32, now: u64)
    requires
        1 <= id <= n <= u32::MAX,
    ensures
        run_fold(init, n, now).schedules.contains_key(id) == run_step(
            run_fold(init, (id - 1) as nat, now),
            id,
            now,
        ).schedules.contains_key(id),
        run_fold(init, n, now).schedules[id] == run_step(run_fold(init, (id - 1) as nat, now), id, now).schedules[id],
        run_step(run_fold(init, (id - 1) as nat, now), id, now).executed.contains(id) ==> run_fold(
            init,
            n,
            now,
        ).executed.contains(id),
    decreases n,
{
    if n > id {
        lemma_run_fold_at(init, (n - 1) as nat, id, now);
        lemma_run_step_other(run_fold(init, (n - 1) as nat, now), n as u32, id, now);
    }
}

/// Every due schedule among the ids run is run: it is among those run and
/// records `now` as its last run. A recurring one is caught up: its next
/// due time becomes its old one plus the least whole number `k >= 1` of
/// intervals that passes `now`, the `k - 1` skipped are added to its missed
/// count, and it stays as active as it was. Any other is deactivated.
pub proof fn lemma_run_fold_schedule(init: RunAcc, n: nat, id: u32, now: u64) -> (k: nat)
    requires
        1 <= id <= n <= u32::MAX,
        init.schedules.contains_key(id),
        is_due(init.schedules[id], now),
        init.schedules[id].recurring && init.schedules[id].interval > 0 ==> now + init.schedules[id].interval
            <= u64::MAX,
    ensures
        ({
            let s = init.schedules[id];
            let fin = run_fold(init, n, now);
            let t = fin.schedules[id];
            &&& fin.executed.contains(id)
            &&& fin.schedules.contains_key(id)
            &&& t.last_executed == Some(now)
            &&& if s.recurring && s.interval > 0 {
                &&& k >= 1
                &&& t.next_due == s.next_due + k * s.interval
                &&& t.next_due > now
                &&& s.next_due + (k - 1) * s.interval <= now
                &&& t.missed_count == sat_u32(s.missed_count + (k - 1))
                &&& t.active == s.active
            } else {
                !t.active
            }
        }),
{
    let before = run_fold(init, (id - 1) as nat, now);
    lemma_run_untouched(init, (id - 1) as nat, id, now);
    lemma_run_fold_at(init, n, id, now);
    let after = run_step(before, id, now);
    assert(after.executed[after.executed.len() - 1] == id);
    let s = init.schedules[id];
    if s.recurring && s.interval > 0 {
        lemma_run_step_catches_up(before, id, now)
    } else {
        0
    }
}

/// Running schedules up to `k` leaves schedule `id > k` as it was.
pub proof fn lemma_run_untouched(init: RunAcc, k: nat, id: u32, now: u64)
    requires
        k < id || (id == 0 && k <= u32::MAX),
    ensures
        run_fold(init, k, now).schedules.contains_key(id) == init.schedules.contains_key(id),
        init.schedules.contains_key(id) ==> run_fold(init, k, now).schedules[id] == init.schedules[id],
    decreases k,
{
    if k > 0 {
        lemma_run_untouched(init, (k - 1) as nat, id, now);
    }
}

/// The first step of `catch_up` when it moves on.
pub proof fn lemma_catch_up_step(next: u64, interval: u64, now: u64)
    requires
        next <= now < u64::MAX,
        interval > 0,
    ensures
        ({
            let step = if next + interval > u64::MAX { u64::MAX as int } else { next + interval };
            let r = catch_up(step, interval as int, now as int);
            catch_up(next as int, interval as int, now as int) == (r.0 + 1, r.1)
        }),
{
}

impl BillPayments {
    /// The state as seen by a run of the schedules, with `executed` run so far.
    pub open spec fn run_view(&self, executed: Seq<u32>) -> RunAcc {
        RunAcc {
            schedules: schedule_views(self.schedules@),
            bills: views_of(self.bills@),
            next_id: self.next_id,
            owners: sets_of(self.owner_index@),
            currencies: sets_of(self.currency_index@),
            totals: self.totals(),
            executed,
        }
    }

    /// Every due schedule can be run at `now` without overflow.
    pub open spec fn run_safe(&self, now: u64) -> bool {
        forall|id: u32| #[trigger] step_safe(schedule_views(self.schedules@), id, now)
    }

    /// Run schedule `id` at `now`, recording it in `executed` when it ran.
    fn run_one(&mut self, id: u32, now: u64, executed: &mut Vec<u32>)
        requires
            old(self).wf(),
            step_safe(schedule_views(old(self).schedules@), id, now),
        ensures
            final(self).wf(),
            final(self).run_view(final(executed)@) == run_step(old(self).run_view(old(executed)@), id, now),
            *final(self) == (BillPayments {
                schedules: final(self).schedules,
                bills: final(self).bills,
                next_id: final(self).next_id,
                owner_index: final(self).owner_index,
                currency_index: final(self).currency_index,
                unpaid_totals: final(self).unpaid_totals,
                ..*old(self)
            }),
    {
        let ghost acc = old(self).run_view(old(executed)@);
        let mut s = match self.schedules.get(id) {
            Some(s) => s.copy(),
            None => {
                return;
            },
        };
        assert(acc.schedules[id] == s@);
        if !s.active || s.next_due > now {
            return;
        }
        if let Some(l) = s.last_executed {
            if l >= s.next_due {
                return;
            }
        }
        let ghost s0 = s@;
        s.last_executed = Some(now);
        if s.recurring && s.interval > 0 {
            let mut missed: u32 = 0;
            let mut next: u64 = s.next_due + s.interval;
            let ghost target = catch_up(next as int, s.interval as int, now as int);
            let ghost mut k: nat = 0;
            while next <= now
                invariant
                    now < u64::MAX,
                    s.interval > 0,
                    catch_up(next as int, s.interval as int, now as int).1 == target.1,
                    catch_up(next as int, s.interval as int, now as int).0 + k == target.0,
                    missed == sat_u32(k as int),
                decreases (if next > now { 0 } else { now - next + 1 }),
            {
                proof {
                    lemma_catch_up_step(next, s.interval, now);
                    k = k + 1;
                }
                missed = missed.saturating_add(1);
                next = next.saturating_add(s.interval);
            }
            s.missed_count = s.missed_count.saturating_add(missed);
            s.next_due = next;
            let ghost moved = s@;
            assert(moved == BillScheduleView {
                last_executed: Some(now),
                missed_count: sat_u32(s0.missed_count + sat_u32(target.0 as int)),
                next_due: target.1 as u64,
                ..s0
            });
            let q: u64 = s.interval / SECONDS_PER_DAY;
            let freq: u32 = if q > 1 {
                #[verifier::truncate]
                (q as u32)
            } else {
                1
            };
            let owned = index_ids(&self.owner_index, &s.owner);
            proof {
                lemma_ascending_set_len(list_of(self.owner_index@, s.owner));
            }
            if owned.len() < MAX_BILLS_PER_OWNER as usize {
                let nid = self.next_id.saturating_add(1);
                let child = Bill {
                    id: nid,
                    owner: s.owner,
                    name: copy_bytes(&s.name),
                    external_ref: None,
                    amount: s.amount,
                    due_date: s.next_due,
                    recurring: true,
                    frequency_days: freq,
                    paid: false,
                    created_at: now,
                    paid_at: None,
                    schedule_id: Some(s.id),
                    tags: Vec::new(),
                    currency: copy_bytes(&s.currency),
                };
                proof {
                    assert(texts_view(Seq::<Vec<u8>>::empty()) =~= Seq::<Seq<u8>>::empty());
                }
                assert(child@ == scheduled_bill(moved, nid, now));
                let ghost oi0 = self.owner_index@;
                let ghost ci0 = self.currency_index@;
                let ghost key = (s.owner, s.currency@);
                let ghost b0 = self.bills@;
                self.bills.set(nid, child);
                assert(views_of(self.bills@) =~= views_of(b0).insert(nid, scheduled_bill(moved, nid, now)));
                self.next_id = nid;
                index_add(&mut self.owner_index, s.owner, nid);
                index_add(&mut self.currency_index, (s.owner, copy_bytes(&s.currency)), nid);
                self.adjust_unpaid_total(s.owner, s.amount);
                proof {
                    assert(sets_of(self.owner_index@) =~= sets_of(oi0).insert(s.owner, sets_of(oi0)[s.owner].insert(nid)))
                        by {
                        assert forall|o: Address| #[trigger] sets_of(self.owner_index@)[o] == sets_of(oi0).insert(
                            s.owner,
                            sets_of(oi0)[s.owner].insert(nid),
                        )[o] by {
                            if o != s.owner {
                                assert(list_of(self.owner_index@, o) == list_of(oi0, o));
                            }
                        }
                    }
                    assert(sets_of(self.currency_index@) =~= sets_of(ci0).insert(key, sets_of(ci0)[key].insert(nid)))
                        by {
                        assert forall|x: (Address, Seq<u8>)| #[trigger] sets_of(self.currency_index@)[x] == sets_of(
                            ci0,
                        ).insert(key, sets_of(ci0)[key].insert(nid))[x] by {
                            if x != key {
                                assert(list_of(self.currency_index@, x) == list_of(ci0, x));
                            }
                        }
                    }
                }
            }
        } else {
            s.active = false;
        }
        let ghost sv = s@;
        let ghost pre = *self;
        self.schedules.set(id, s);
        executed.push(id);
        assert(schedule_views(self.schedules@) =~= schedule_views(pre.schedules@).insert(id, sv));
        assert(self.run_view(executed@) =~= run_step(acc, id, now));
    }

    /// Run every due schedule at `now`, in id order, and return the ids of
    /// those run. Nothing runs while the contract is paused.
    pub fn execute_due_bill_schedules(&mut self, now: u64) -> (r: Vec<u32>)
        requires
            old(self).wf(),
            old(self).run_safe(now),
        ensures
            final(self).wf(),
            final(self).run_safe(now),
            old(self).paused ==> r@ == Seq::<u32>::empty() && *final(self) == *old(self),
            !old(self).paused ==> {
                let acc = run_fold(old(self).run_view(Seq::empty()), old(self).next_schedule_id as nat, now);
                &&& r@ == acc.executed
                &&& final(self).run_view(r@) == acc
                &&& *final(self) == (BillPayments {
                    schedules: final(self).schedules,
                    bills: final(self).bills,
                    next_id: final(self).next_id,
                    owner_index: final(self).owner_index,
                    currency_index: final(self).currency_index,
                    unpaid_totals: final(self).unpaid_totals,
                    ..*old(self)
                })
            },
    {
        let mut executed: Vec<u32> = Vec::new();
        if self.paused {
            return executed;
        }
        let n = self.next_schedule_id;
        let ghost init = old(self).run_view(Seq::empty());
        let mut sid: u64 = 1;
        while sid <= n as u64
            invariant
                self.wf(),
                1 <= sid <= n as u64 + 1,
                n == old(self).next_schedule_id,
                init == old(self).run_view(Seq::empty()),
                old(self).run_safe(now),
                self.run_view(executed@) == run_fold(init, (sid - 1) as nat, now),
                *self == (BillPayments {
                    schedules: self.schedules,
                    bills: self.bills,
                    next_id: self.next_id,
                    owner_index: self.owner_index,
                    currency_index: self.currency_index,
                    unpaid_totals: self.unpaid_totals,
                    ..*old(self)
                }),
            decreases n as u64 + 1 - sid,
        {
            let id = sid as u32;
            proof {
                lemma_run_untouched(init, (sid - 1) as nat, id, now);
                assert(step_safe(schedule_views(old(self).schedules@), id, now));
                assert(step_safe(schedule_views(self.schedules@), id, now));
            }
            self.run_one(id, now, &mut executed);
            assert(run_fold(init, sid as nat, now) == run_step(run_fold(init, (sid - 1) as nat, now), id, now));
            sid = sid + 1;
        }
        proof {
            super::laws::lemma_run_leaves_none_due(init, n as nat, now);
            assert forall|id: u32| #[trigger] step_safe(schedule_views(self.schedules@), id, now) by {
                if !(1 <= id <= n) {
                    lemma_run_untouched(init, n as nat, id, now);
                    assert(step_safe(schedule_views(old(self).schedules@), id, now));
                }
            }
        }
        executed
    }
}

} // verus!
