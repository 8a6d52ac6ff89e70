//! Storage statistics and paying several bills in one call.
use super::bills::{child_view, next_recurring_due, paid_view};
use super::state::{
    adjust_totals, index_add, index_added, lists_ascending, sat_add, saturating_add_i128,
    BillPayments, MAX_BATCH_SIZE, SECONDS_PER_DAY,
};
use super::types::{
    copy_bytes, copy_texts, ArchivedBill, Bill, BillPaymentsError, BillView, PausableFunction,
    StorageStats,
};
use crate::address::Address;
use crate::ids::{ascending, copy_ids};
use crate::maps::{
    id_map_of, id_pos, key_map_of, key_pos, lemma_id_map_at, lemma_id_map_has, lemma_key_map_at, list_of,
    IdMap, KeyMap, MapKey,
};
use vstd::prelude::*;

verus! {

/// Sum of the unpaid amounts along `s`, clamped at every step.
pub open spec fn unpaid_sum(s: Seq<(u32, Bill)>) -> i128
    decreases s.len(),
{
    if s.len() == 0 {
        0
    } else {
        let r = unpaid_sum(s.drop_last());
        if !s.last().1.paid {
            sat_add(r, s.last().1.amount)
        } else {
            r
        }
    }
}

/// Sum of the archived amounts along `s`, clamped at every step.
pub open spec fn archived_sum(s: Seq<(u32, ArchivedBill)>) -> i128
    decreases s.len(),
{
    if s.len() == 0 {
        0
    } else {
        sat_add(archived_sum(s.drop_last()), s.last().1.amount)
    }
}

/// The contents of every stored bill.
pub open spec fn views_of(m: Map<u32, Bill>) -> Map<u32, BillView> {
    m.map_values(|b: Bill| b@)
}

/// `i128` subtraction clamped to the type's range.
pub open spec fn sat_sub(a: i128, b: i128) -> i128 {
    if a - b > i128::MAX {
        i128::MAX
    } else if a - b < i128::MIN {
        i128::MIN
    } else {
        (a - b) as i128
    }
}

/// What a batch payment has done after some of its ids.
pub struct BatchAcc {
    pub bills: Map<u32, BillView>,
    pub next_id: u32,
    pub count: nat,
    pub delta: i128,
    /// The bills created for paid recurring bills: id and currency.
    pub children: Seq<(u32, Seq<u8>)>,
    pub failed: bool,
}

/// One id of a batch payment: bills that are missing, owned by someone
/// else or already paid are skipped; a recurring bill gets its successor.
pub open spec fn batch_step(acc: BatchAcc, caller: Address, id: u32, now: u64) -> BatchAcc {
    let b = acc.bills[id];
    if acc.failed || !acc.bills.contains_key(id) || b.owner != caller || b.paid {
        acc
    } else if b.recurring {
        let child = if acc.next_id == u32::MAX { u32::MAX } else { (acc.next_id + 1) as u32 };
        match next_recurring_due(b.due_date, b.frequency_days, now) {
            None => BatchAcc { failed: true, ..acc },
            Some(due) => BatchAcc {
                bills: acc.bills.insert(child, child_view(b, child, due, now)).insert(id, paid_view(b, now)),
                next_id: child,
                count: acc.count + 1,
                children: acc.children.push((child, b.currency)),
                ..acc
            },
        }
    } else {
        BatchAcc {
            bills: acc.bills.insert(id, paid_view(b, now)),
            count: acc.count + 1,
            delta: sat_sub(acc.delta, b.amount),
            ..acc
        }
    }
}

/// A batch payment of `ids`, one after another.
pub open spec fn batch_fold(init: BatchAcc, caller: Address, ids: Seq<u32>, now: u64) -> BatchAcc
    decreases ids.len(),
{
    if ids.len() == 0 {
        init
    } else {
        batch_step(batch_fold(init, caller, ids.drop_last(), now), caller, ids.last(), now)
    }
}

/// The ids of the created bills whose currency is `cur`.
pub open spec fn child_ids_in(children: Seq<(u32, Seq<u8>)>, cur: Seq<u8>) -> Set<u32> {
    Set::new(|id: u32| exists|i: int| 0 <= i < children.len() && children[i] == (id, cur))
}

/// The ids of all created bills.
pub open spec fn child_ids(children: Seq<(u32, Seq<u8>)>) -> Set<u32> {
    Set::new(|id: u32| exists|i: int| 0 <= i < children.len() && children[i].0 == id)
}

/// A copy of the bill store.
pub fn copy_bills(m: &IdMap<Bill>) -> (r: IdMap<Bill>)
    requires
        m.wf(),
    ensures
        r.wf(),
        views_of(r@) == views_of(m@),
        r.entries@.len() == m.entries@.len(),
{
    let mut out: Vec<(u32, Bill)> = Vec::new();
    let mut i: usize = 0;
    while i < m.entries.len()
        invariant
            m.wf(),
            i <= m.entries@.len(),
            out@.len() == i,
            forall|k: int| 0 <= k < i ==> (#[trigger] out@[k]).0 == m.entries@[k].0 && out@[k].1@ == m.entries@[k].1@,
        decreases m.entries@.len() - i,
    {
        out.push((m.entries[i].0, m.entries[i].1.copy()));
        i = i + 1;
    }
    let r = IdMap { entries: out };
    assert(r.wf()) by {
        assert forall|a: int, b: int| 0 <= a < b < r.entries@.len() implies r.entries@[a].0 < r.entries@[b].0 by {
            assert(m.entries@[a].0 < m.entries@[b].0);
        }
    }
    assert(views_of(r@) =~= views_of(m@)) by {
        assert forall|k: u32| #[trigger] r@.contains_key(k) == m@.contains_key(k) by {
            if r@.contains_key(k) {
                lemma_id_map_has(r.entries@, k);
                lemma_id_map_at(m.entries@, id_pos(r.entries@, k));
            }
            if m@.contains_key(k) {
                lemma_id_map_has(m.entries@, k);
                lemma_id_map_at(r.entries@, id_pos(m.entries@, k));
            }
        }
        assert forall|k: u32| #[trigger] r@.contains_key(k) implies r@[k]@ == m@[k]@ by {
            lemma_id_map_has(r.entries@, k);
            let q = id_pos(r.entries@, k);
            lemma_id_map_at(r.entries@, q);
            lemma_id_map_at(m.entries@, q);
        }
    }
    r
}

/// A copy of a list-valued index.
pub fn copy_index<K: MapKey>(m: &KeyMap<K, Vec<u32>>) -> (r: KeyMap<K, Vec<u32>>)
    requires
        m.wf(),
        lists_ascending(m@),
    ensures
        r.wf(),
        lists_ascending(r@),
        forall|x: K::KeyView| #![trigger list_of(r@, x)] list_of(r@, x) == list_of(m@, x),
{
    let mut out: Vec<(K, Vec<u32>)> = Vec::new();
    let mut i: usize = 0;
    while i < m.entries.len()
        invariant
            m.wf(),
            i <= m.entries@.len(),
            out@.len() == i,
            forall|k: int|
                0 <= k < i ==> (#[trigger] out@[k]).0.key_view() == m.entries@[k].0.key_view() && out@[k].1@
                    == m.entries@[k].1@,
        decreases m.entries@.len() - i,
    {
        out.push((m.entries[i].0.key_clone(), copy_ids(&m.entries[i].1)));
        i = i + 1;
    }
    let r = KeyMap { entries: out };
    assert(r.wf()) by {
        assert forall|a: int, b: int|
            0 <= a < r.entries@.len() && 0 <= b < r.entries@.len() && a != b implies r.entries@[a].0.key_view()
            != r.entries@[b].0.key_view() by {
            assert(m.entries@[a].0.key_view() != m.entries@[b].0.key_view());
        }
    }
    assert forall|x: K::KeyView| #![trigger list_of(r@, x)] list_of(r@, x) == list_of(m@, x) by {
        if r@.contains_key(x) {
            let q = key_pos(r.entries@, x);
            lemma_key_map_at(r.entries@, q);
            lemma_key_map_at(m.entries@, q);
        }
        if m@.contains_key(x) {
            let q = key_pos(m.entries@, x);
            lemma_key_map_at(m.entries@, q);
            lemma_key_map_at(r.entries@, q);
        }
    }
    assert(lists_ascending(r@)) by {
        assert forall|x: K::KeyView| r@.contains_key(x) implies ascending(#[trigger] r@[x]@) by {
            assert(list_of(r@, x) == list_of(m@, x));
        }
    }
    r
}

/// Subtraction clamped to the `i128` range.
pub fn saturating_sub_i128(a: i128, b: i128) -> (r: i128)
    ensures
        r == sat_sub(a, b),
{
    match a.checked_sub(b) {
        Some(v) => v,
        None => if b < 0 {
            i128::MAX
        } else {
            i128::MIN
        },
    }
}

/// The due date of the successor of a paid recurring bill, when it fits.
#[verifier::loop_isolation(false)]
pub fn compute_next_due(due_date: u64, frequency_days: u32, now: u64) -> (r: Option<u64>)
    requires
        frequency_days > 0 || due_date > now,
    ensures
        r == next_recurring_due(due_date, frequency_days, now),
        r matches Some(d) ==> d > now,
{
    let period: u64 = frequency_days as u64 * SECONDS_PER_DAY;
    let ghost target = super::bills::advance_due(due_date + period, period as int, now as int);
    proof {
        if period > 0 {
            super::bills::lemma_advance_due(due_date + period, period as int, now as int);
        }
    }
    let mut nd: u64 = match due_date.checked_add(period) {
        Some(d) => d,
        None => {
            return None;
        },
    };
    while nd <= now
        invariant
            period > 0 || nd > now,
            period > 0 || target == nd,
            super::bills::advance_due(nd as int, period as int, now as int) == target,
        decreases (if nd > now { 0 } else { now - nd + 1 }),
    {
        proof {
            super::bills::lemma_advance_due(nd + period, period as int, now as int);
        }
        nd = match nd.checked_add(period) {
            Some(d) => d,
            None => {
                return None;
            },
        };
    }
    Some(nd)
}

/// The id sets of the created bills after one more is created.
pub proof fn lemma_children_push(children: Seq<(u32, Seq<u8>)>, x: (u32, Seq<u8>))
    ensures
        child_ids(children.push(x)) == child_ids(children).insert(x.0),
        forall|c: Seq<u8>|
            #![trigger child_ids_in(children.push(x), c)]
            child_ids_in(children.push(x), c) == if c == x.1 {
                child_ids_in(children, c).insert(x.0)
            } else {
                child_ids_in(children, c)
            },
{
    let post = children.push(x);
    assert forall|v: u32| child_ids(post).contains(v) implies child_ids(children).insert(x.0).contains(v) by {
        let q = choose|q: int| 0 <= q < post.len() && post[q].0 == v;
        if q < children.len() {
            assert(post[q] == children[q]);
        }
    }
    assert forall|v: u32| child_ids(children).insert(x.0).contains(v) implies child_ids(post).contains(v) by {
        if v == x.0 {
            assert(post[children.len() as int].0 == v);
        } else {
            let q = choose|q: int| 0 <= q < children.len() && children[q].0 == v;
            assert(post[q] == children[q]);
        }
    }
    assert(child_ids(post) =~= child_ids(children).insert(x.0));
    assert forall|c: Seq<u8>| #![trigger child_ids_in(post, c)]
        child_ids_in(post, c) == if c == x.1 {
            child_ids_in(children, c).insert(x.0)
        } else {
            child_ids_in(children, c)
        } by {
        let rhs = if c == x.1 {
            child_ids_in(children, c).insert(x.0)
        } else {
            child_ids_in(children, c)
        };
        assert forall|v: u32| child_ids_in(post, c).contains(v) implies rhs.contains(v) by {
            let q = choose|q: int| 0 <= q < post.len() && post[q] == (v, c);
            if q < children.len() {
                assert(post[q] == children[q]);
            }
        }
        assert forall|v: u32| rhs.contains(v) implies child_ids_in(post, c).contains(v) by {
            if c == x.1 && v == x.0 {
                assert(post[children.len() as int] == (v, c));
            } else {
                let q = choose|q: int| 0 <= q < children.len() && children[q] == (v, c);
                assert(post[q] == children[q]);
            }
        }
        assert(child_ids_in(post, c) =~= rhs);
    }
}

/// A batch that failed stays failed as more ids follow.
pub proof fn lemma_batch_failed_sticky(init: BatchAcc, caller: Address, ids: Seq<u32>, k: int, now: u64)
    requires
        0 <= k <= ids.len(),
        batch_fold(init, caller, ids.subrange(0, k), now).failed,
    ensures
        batch_fold(init, caller, ids, now).failed,
    decreases ids.len() - k,
{
    if k == ids.len() {
        assert(ids.subrange(0, k) == ids);
    } else {
        assert(ids.subrange(0, k + 1).drop_last() =~= ids.subrange(0, k));
        lemma_batch_failed_sticky(init, caller, ids, k + 1, now);
    }
}

impl BillPayments {
    /// The statistics `update_storage_stats` records at `now`.
    pub open spec fn stats_at(&self, now: u64) -> StorageStats {
        StorageStats {
            active_bills: self.bills.entries@.len() as u32,
            archived_bills: self.archived.entries@.len() as u32,
            total_unpaid_amount: unpaid_sum(self.bills.entries@),
            total_archived_amount: archived_sum(self.archived.entries@),
            last_updated: now,
        }
    }

    /// Recount the active and archived bills and their amounts.
    pub fn update_storage_stats(&mut self, now: u64)
        requires
            old(self).bills.entries@.len() <= u32::MAX,
            old(self).archived.entries@.len() <= u32::MAX,
        ensures
            *final(self) == (BillPayments { stats: Some(old(self).stats_at(now)), ..*old(self) }),
    {
        let mut active: u32 = 0;
        let mut unpaid: i128 = 0;
        let mut i: usize = 0;
        while i < self.bills.entries.len()
            invariant
                i <= self.bills.entries@.len() <= u32::MAX,
                active == i,
                unpaid == unpaid_sum(self.bills.entries@.subrange(0, i as int)),
            decreases self.bills.entries@.len() - i,
        {
            proof {
                assert(self.bills.entries@.subrange(0, i as int + 1).drop_last() =~= self.bills.entries@.subrange(
                    0,
                    i as int,
                ));
            }
            active = active + 1;
            if !self.bills.entries[i].1.paid {
                unpaid = saturating_add_i128(unpaid, self.bills.entries[i].1.amount);
            }
            i = i + 1;
        }
        assert(self.bills.entries@.subrange(0, i as int) == self.bills.entries@);
        let mut archived_count: u32 = 0;
        let mut archived_amount: i128 = 0;
        let mut j: usize = 0;
        while j < self.archived.entries.len()
            invariant
                j <= self.archived.entries@.len() <= u32::MAX,
                archived_count == j,
                archived_amount == archived_sum(self.archived.entries@.subrange(0, j as int)),
            decreases self.archived.entries@.len() - j,
        {
            proof {
                assert(self.archived.entries@.subrange(0, j as int + 1).drop_last()
                    =~= self.archived.entries@.subrange(0, j as int));
            }
            archived_count = archived_count + 1;
            archived_amount = saturating_add_i128(archived_amount, self.archived.entries[j].1.amount);
            j = j + 1;
        }
        assert(self.archived.entries@.subrange(0, j as int) == self.archived.entries@);
        self.stats = Some(
            StorageStats {
                active_bills: active,
                archived_bills: archived_count,
                total_unpaid_amount: unpaid,
                total_archived_amount: archived_amount,
                last_updated: now,
            },
        );
    }

    /// What a batch payment starts from.
    pub open spec fn batch_init(&self) -> BatchAcc {
        BatchAcc {
            bills: views_of(self.bills@),
            next_id: self.next_id,
            count: 0,
            delta: 0,
            children: Seq::empty(),
            failed: false,
        }
    }

    /// Pay each bill of `bill_ids` that exists, belongs to `caller` and is
    /// unpaid, at time `now`; the others are skipped. Returns how many were
    /// paid. A paid recurring bill gets its successor, as with `pay_bill`.
    pub fn batch_pay_bills(&mut self, caller: Address, bill_ids: &Vec<u32>, now: u64) -> (r: Result<
        u32,
        BillPaymentsError,
    >)
        requires
            old(self).wf(),
            old(self).bills.entries@.len() + bill_ids@.len() <= u32::MAX,
            old(self).archived.entries@.len() <= u32::MAX,
            forall|id: u32| #![trigger old(self).bills@[id]]
                old(self).bills@.contains_key(id) && old(self).bills@[id].recurring
                    && old(self).bills@[id].frequency_days == 0 && !old(self).bills@[id].paid
                    && old(self).bills@[id].owner == caller && bill_ids@.contains(id)
                    ==> old(self).bills@[id].due_date > now,
        ensures
            final(self).wf(),
            old(self).pause_error(PausableFunction::PayBill) matches Some(e) ==> r == Err::<u32, BillPaymentsError>(e)
                && *final(self) == *old(self),
            old(self).pause_error(PausableFunction::PayBill) is None && bill_ids@.len() > MAX_BATCH_SIZE ==> r
                == Err::<u32, BillPaymentsError>(BillPaymentsError::BatchTooLarge) && *final(self) == *old(self),
            old(self).pause_error(PausableFunction::PayBill) is None && bill_ids@.len() <= MAX_BATCH_SIZE ==> {
                let acc = batch_fold(old(self).batch_init(), caller, bill_ids@, now);
                if acc.failed {
                    r == Err::<u32, BillPaymentsError>(BillPaymentsError::InvalidDueDate) && *final(self) == *old(self)
                } else {
                    &&& r == Ok::<u32, BillPaymentsError>(acc.count as u32)
                    &&& views_of(final(self).bills@) == acc.bills
                    &&& final(self).next_id == acc.next_id
                    &&& (forall|o: Address| #![trigger list_of(final(self).owner_index@, o)]
                        o != caller ==> list_of(final(self).owner_index@, o) == list_of(old(self).owner_index@, o))
                    &&& list_of(final(self).owner_index@, caller).to_set() == list_of(old(self).owner_index@, caller).to_set()
                        + child_ids(acc.children)
                    &&& (forall|k: (Address, Seq<u8>)| #![trigger list_of(final(self).currency_index@, k)]
                        list_of(final(self).currency_index@, k).to_set() == if k.0 == caller {
                            list_of(old(self).currency_index@, k).to_set() + child_ids_in(acc.children, k.1)
                        } else {
                            list_of(old(self).currency_index@, k).to_set()
                        })
                    &&& final(self).totals() == adjust_totals(old(self).totals(), caller, acc.delta)
                    &&& final(self).stats == Some(final(self).stats_at(now))
                    &&& *final(self) == (BillPayments {
                        bills: final(self).bills,
                        next_id: final(self).next_id,
                        owner_index: final(self).owner_index,
                        currency_index: final(self).currency_index,
                        unpaid_totals: final(self).unpaid_totals,
                        stats: final(self).stats,
                        ..*old(self)
                    })
                }
            },
    {
        if let Err(e) = self.require_not_paused(PausableFunction::PayBill) {
            return Err(e);
        }
        if bill_ids.len() > MAX_BATCH_SIZE as usize {
            return Err(BillPaymentsError::BatchTooLarge);
        }
        let mut bills = copy_bills(&self.bills);
        let mut owner_index = copy_index(&self.owner_index);
        let mut currency_index = copy_index(&self.currency_index);
        let mut next_id = self.next_id;
        let mut count: u32 = 0;
        let mut delta: i128 = 0;
        let ghost init = self.batch_init();
        assert(child_ids(Seq::<(u32, Seq<u8>)>::empty()) =~= Set::<u32>::empty());
        assert forall|c: Seq<u8>| #[trigger] child_ids_in(Seq::<(u32, Seq<u8>)>::empty(), c) =~= Set::<u32>::empty() by {}
        assert(bill_ids@.subrange(0, 0) =~= Seq::<u32>::empty());
        assert forall|id: u32| #![trigger bills@[id]]
            bills@.contains_key(id) && bills@[id].recurring && bills@[id].frequency_days == 0
                && !bills@[id].paid && bills@[id].owner == caller && bill_ids@.contains(id)
                implies bills@[id].due_date > now by {
            assert(views_of(bills@).contains_key(id));
            assert(old(self).bills@.contains_key(id));
            assert(views_of(bills@)[id] == views_of(old(self).bills@)[id]);
        }
        let mut i: usize = 0;
        while i < bill_ids.len()
            invariant
                self.wf(),
                *self == *old(self),
                old(self).pause_error(PausableFunction::PayBill) is None,
                init == old(self).batch_init(),
                i <= bill_ids@.len() <= MAX_BATCH_SIZE,
                bills.wf(),
                owner_index.wf(),
                lists_ascending(owner_index@),
                currency_index.wf(),
                lists_ascending(currency_index@),
                bills.entries@.len() <= old(self).bills.entries@.len() + i,
                count <= i,
                ({
                    let acc = batch_fold(init, caller, bill_ids@.subrange(0, i as int), now);
                    &&& !acc.failed
                    &&& views_of(bills@) == acc.bills
                    &&& next_id == acc.next_id
                    &&& count == acc.count
                    &&& delta == acc.delta
                    &&& (forall|o: Address| #![trigger list_of(owner_index@, o)]
                        o != caller ==> list_of(owner_index@, o) == list_of(old(self).owner_index@, o))
                    &&& list_of(owner_index@, caller).to_set() == list_of(old(self).owner_index@, caller).to_set()
                        + child_ids(acc.children)
                    &&& (forall|k: (Address, Seq<u8>)| #![trigger list_of(currency_index@, k)]
                        list_of(currency_index@, k).to_set() == if k.0 == caller {
                            list_of(old(self).currency_index@, k).to_set() + child_ids_in(acc.children, k.1)
                        } else {
                            list_of(old(self).currency_index@, k).to_set()
                        })
                }),
                forall|id: u32| #![trigger bills@[id]]
                    bills@.contains_key(id) && bills@[id].recurring && bills@[id].frequency_days == 0
                        && !bills@[id].paid && bills@[id].owner == caller && bill_ids@.contains(id)
                        ==> bills@[id].due_date > now,
            decreases bill_ids@.len() - i,
        {
            let id = bill_ids[i];
            let ghost pre = batch_fold(init, caller, bill_ids@.subrange(0, i as int), now);
            proof {
                assert(bill_ids@.subrange(0, i as int + 1).drop_last() =~= bill_ids@.subrange(0, i as int));
                assert(bill_ids@.subrange(0, i as int + 1).last() == id);
            }
            let found: Option<Bill> = match bills.get(id) {
                Some(b) => if b.owner == caller && !b.paid {
                    Some(b.copy())
                } else {
                    None
                },
                None => None,
            };
            match found {
                None => {},
                Some(b) => {
                    let ghost bv = b@;
                    assert(bv == pre.bills[id]);
                    if b.recurring {
                        let child_id = next_id.saturating_add(1);
                        let nd = match compute_next_due(b.due_date, b.frequency_days, now) {
                            Some(d) => d,
                            None => {
                                proof {
                                    lemma_batch_failed_sticky(init, caller, bill_ids@, i as int + 1, now);
                                }
                                return Err(BillPaymentsError::InvalidDueDate);
                            },
                        };
                        let child = Bill {
                            id: child_id,
                            owner: b.owner,
                            name: copy_bytes(&b.name),
                            external_ref: None,
                            amount: b.amount,
                            due_date: nd,
                            recurring: true,
                            frequency_days: b.frequency_days,
                            paid: false,
                            created_at: now,
                            paid_at: None,
                            schedule_id: b.schedule_id,
                            tags: copy_texts(&b.tags),
                            currency: copy_bytes(&b.currency),
                        };
                        let ghost cur = b.currency@;
                        let ghost chv = child@;
                        assert(chv == child_view(bv, child_id, nd, now));
                        let ghost oidx0 = owner_index@;
                        let ghost cidx0 = currency_index@;
                        bills.set(child_id, child);
                        index_add(&mut owner_index, caller, child_id);
                        index_add(&mut currency_index, (caller, copy_bytes(&b.currency)), child_id);
                        let mut paid = b;
                        paid.paid = true;
                        paid.paid_at = Some(now);
                        let ghost pv = paid@;
                        assert(pv == paid_view(bv, now));
                        bills.set(id, paid);
                        next_id = child_id;
                        proof {
                            let post = batch_fold(init, caller, bill_ids@.subrange(0, i as int + 1), now);
                            assert(post.children == pre.children.push((child_id, cur)));
                            lemma_children_push(pre.children, (child_id, cur));
                            assert(views_of(bills@) =~= pre.bills.insert(child_id, chv).insert(id, pv));
                            assert(list_of(oidx0, caller) == list_of(owner_index@, caller) || true);
                            assert(list_of(owner_index@, caller).to_set() =~= list_of(old(self).owner_index@, caller).to_set()
                                + child_ids(post.children));
                            assert forall|o: Address| #![trigger list_of(owner_index@, o)]
                                o != caller implies list_of(owner_index@, o) == list_of(old(self).owner_index@, o) by {
                                assert(list_of(oidx0, o) == list_of(old(self).owner_index@, o));
                            }
                            assert forall|k: (Address, Seq<u8>)| #![trigger list_of(currency_index@, k)]
                                list_of(currency_index@, k).to_set() == if k.0 == caller {
                                    list_of(old(self).currency_index@, k).to_set() + child_ids_in(post.children, k.1)
                                } else {
                                    list_of(old(self).currency_index@, k).to_set()
                                } by {
                                assert(list_of(cidx0, k).to_set() == if k.0 == caller {
                                    list_of(old(self).currency_index@, k).to_set() + child_ids_in(pre.children, k.1)
                                } else {
                                    list_of(old(self).currency_index@, k).to_set()
                                });
                                assert(child_ids_in(post.children, k.1) == if k.1 == cur {
                                    child_ids_in(pre.children, k.1).insert(child_id)
                                } else {
                                    child_ids_in(pre.children, k.1)
                                });
                                if k == (caller, cur) {
                                    assert(list_of(currency_index@, k).to_set() =~= list_of(
                                        old(self).currency_index@,
                                        k,
                                    ).to_set() + child_ids_in(post.children, k.1));
                                } else {
                                    assert(list_of(currency_index@, k) == list_of(cidx0, k));
                                }
                            }
                        }
                    } else {
                        delta = saturating_sub_i128(delta, b.amount);
                        let mut paid = b;
                        paid.paid = true;
                        paid.paid_at = Some(now);
                        let ghost pv = paid@;
                        bills.set(id, paid);
                        proof {
                            assert(views_of(bills@) =~= pre.bills.insert(id, pv));
                        }
                    }
                    count = count + 1;
                },
            }
            proof {
                let post = batch_fold(init, caller, bill_ids@.subrange(0, i as int + 1), now);
            }
            i = i + 1;
        }
        assert(bill_ids@.subrange(0, i as int) == bill_ids@);
        self.bills = bills;
        self.owner_index = owner_index;
        self.currency_index = currency_index;
        self.next_id = next_id;
        self.adjust_unpaid_total(caller, delta);
        self.update_storage_stats(now);
        Ok(count)
    }
}

} // verus!
