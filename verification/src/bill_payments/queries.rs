//! Read-only queries: pages of bills, archived bills and unpaid totals.
use super::state::{index_ids, sat_add, saturating_add_i128, BillPayments};
use super::text::{normalize_currency, spec_filter_currency};
use super::types::{
    bills_view, ArchivedBill, ArchivedBillPage, ArchivedBillView, Bill, BillPage, BillPaymentsError,
    BillView,
};
use crate::address::Address;
use crate::common::{clamp_limit, spec_clamp_limit};
use crate::maps::{list_of, IdMap};
use vstd::prelude::*;

verus! {

/// Which bills a listing keeps.
#[derive(Clone, Copy)]
pub enum BillFilter {
    /// Every bill.
    All,
    /// Unpaid bills.
    Unpaid,
    /// Unpaid bills due within the inclusive range.
    DueBetween(u64, u64),
    /// Unpaid bills due strictly before the given time.
    OverdueAt(u64),
    /// Unpaid bills of the given owner.
    UnpaidOf(Address),
}

impl BillFilter {
    /// Whether the listing keeps bill `b`.
    pub open spec fn keeps(self, b: BillView) -> bool {
        match self {
            BillFilter::All => true,
            BillFilter::Unpaid => !b.paid,
            BillFilter::DueBetween(start, end) => !b.paid && start <= b.due_date && b.due_date <= end,
            BillFilter::OverdueAt(now) => !b.paid && b.due_date < now,
            BillFilter::UnpaidOf(owner) => !b.paid && b.owner == owner,
        }
    }

    /// Whether the listing keeps bill `b`.
    pub fn check(&self, b: &Bill) -> (r: bool)
        ensures
            r == self.keeps(b@),
    {
        match self {
            BillFilter::All => true,
            BillFilter::Unpaid => !b.paid,
            BillFilter::DueBetween(start, end) => !b.paid && *start <= b.due_date && b.due_date <= *end,
            BillFilter::OverdueAt(now) => !b.paid && b.due_date < *now,
            BillFilter::UnpaidOf(owner) => !b.paid && b.owner == *owner,
        }
    }
}

/// The bills, with their ids, that a listing over `ids` returns: in the
/// order of `ids`, after `cursor`, stored in `m`, and kept by `f`.
pub open spec fn matching(ids: Seq<u32>, cursor: u32, m: Map<u32, Bill>, f: BillFilter) -> Seq<(u32, BillView)>
    decreases ids.len(),
{
    if ids.len() == 0 {
        Seq::empty()
    } else {
        let rest = matching(ids.drop_last(), cursor, m, f);
        let id = ids.last();
        if id > cursor && m.contains_key(id) && f.keeps(m[id]@) {
            rest.push((id, m[id]@))
        } else {
            rest
        }
    }
}

/// The archived bills, with their ids, that a listing over `ids` returns.
pub open spec fn matching_archived(ids: Seq<u32>, cursor: u32, m: Map<u32, ArchivedBill>) -> Seq<
    (u32, ArchivedBillView),
>
    decreases ids.len(),
{
    if ids.len() == 0 {
        Seq::empty()
    } else {
        let rest = matching_archived(ids.drop_last(), cursor, m);
        let id = ids.last();
        if id > cursor && m.contains_key(id) {
            rest.push((id, m[id]@))
        } else {
            rest
        }
    }
}

/// The ids `lo..=hi`, in ascending order.
pub open spec fn id_range(lo: u32, hi: u32) -> Seq<u32> {
    Seq::new(if hi >= lo { (hi - lo + 1) as nat } else { 0 }, |i: int| (lo + i) as u32)
}

/// How many of `n` matches a page of `limit` items shows.
pub open spec fn shown(n: nat, limit: u32) -> int {
    if n > limit {
        limit as int
    } else {
        n as int
    }
}

/// The bills a page of `limit` items over the matches `ms` shows.
pub open spec fn page_items(ms: Seq<(u32, BillView)>, limit: u32) -> Seq<BillView> {
    ms.take(shown(ms.len(), limit)).map_values(|p: (u32, BillView)| p.1)
}

/// The cursor a page of `limit` items over `ms` hands on: the id of its
/// last item when more follow, else 0.
pub open spec fn page_cursor(ms: Seq<(u32, BillView)>, limit: u32) -> u32 {
    if ms.len() > limit {
        ms[limit - 1].0
    } else {
        0
    }
}

/// `page` is the page of `limit` items over the matches `ms`.
pub open spec fn is_page(page: BillPage, ms: Seq<(u32, BillView)>, limit: u32) -> bool {
    &&& bills_view(page.items@) == page_items(ms, limit)
    &&& page.next_cursor == page_cursor(ms, limit)
    &&& page.count == page.items@.len()
}

/// The archived bills a page of `limit` items over `ms` shows.
pub open spec fn archived_page_items(ms: Seq<(u32, ArchivedBillView)>, limit: u32) -> Seq<ArchivedBillView> {
    ms.take(shown(ms.len(), limit)).map_values(|p: (u32, ArchivedBillView)| p.1)
}

/// The stored bills paired with their ids, as contents.
pub open spec fn staged(s: Seq<(u32, Bill)>) -> Seq<(u32, BillView)> {
    s.map_values(|p: (u32, Bill)| (p.0, p.1@))
}

/// The stored archived bills paired with their ids, as contents.
pub open spec fn staged_archived(s: Seq<(u32, ArchivedBill)>) -> Seq<(u32, ArchivedBillView)> {
    s.map_values(|p: (u32, ArchivedBill)| (p.0, p.1@))
}

/// Sum of the unpaid amounts of `owner`'s bills along `s`, clamped at
/// every step; only bills in `currency` when one is given.
pub open spec fn unpaid_total_in(s: Seq<(u32, Bill)>, owner: Address, currency: Option<Seq<u8>>) -> i128
    decreases s.len(),
{
    if s.len() == 0 {
        0
    } else {
        let r = unpaid_total_in(s.drop_last(), owner, currency);
        let b = s.last().1;
        if !b.paid && b.owner == owner && (currency matches Some(c) ==> b.currency@ == c) {
            sat_add(r, b.amount)
        } else {
            r
        }
    }
}

/// The matches over a prefix of `ids` begin the matches over `ids`.
pub proof fn lemma_matching_prefix(ids: Seq<u32>, k: int, cursor: u32, m: Map<u32, Bill>, f: BillFilter)
    requires
        0 <= k <= ids.len(),
    ensures
        matching(ids.take(k), cursor, m, f).len() <= matching(ids, cursor, m, f).len(),
        matching(ids, cursor, m, f).take(matching(ids.take(k), cursor, m, f).len() as int) == matching(
            ids.take(k),
            cursor,
            m,
            f,
        ),
    decreases ids.len(),
{
    if k < ids.len() {
        assert(ids.take(k) =~= ids.drop_last().take(k));
        lemma_matching_prefix(ids.drop_last(), k, cursor, m, f);
    } else {
        assert(ids.take(k) =~= ids);
    }
}

/// The archived matches over a prefix of `ids` begin those over `ids`.
pub proof fn lemma_matching_archived_prefix(ids: Seq<u32>, k: int, cursor: u32, m: Map<u32, ArchivedBill>)
    requires
        0 <= k <= ids.len(),
    ensures
        matching_archived(ids.take(k), cursor, m).len() <= matching_archived(ids, cursor, m).len(),
        matching_archived(ids, cursor, m).take(matching_archived(ids.take(k), cursor, m).len() as int)
            == matching_archived(ids.take(k), cursor, m),
    decreases ids.len(),
{
    if k < ids.len() {
        assert(ids.take(k) =~= ids.drop_last().take(k));
        lemma_matching_archived_prefix(ids.drop_last(), k, cursor, m);
    } else {
        assert(ids.take(k) =~= ids);
    }
}

/// A page over a staging buffer of the first matches, at most one more
/// than `limit`; the buffer's extra item only signals that more follow.
fn build_page(staging: Vec<(u32, Bill)>, limit: u32) -> (r: BillPage)
    requires
        limit >= 1,
        staging@.len() <= limit + 1,
    ensures
        bills_view(r.items@) == staged(staging@).take(shown(staging@.len(), limit)).map_values(
            |p: (u32, BillView)| p.1,
        ),
        r.next_cursor == if staging@.len() > limit {
            staging@[limit - 1].0
        } else {
            0
        },
        r.count == r.items@.len(),
{
    let n = staging.len();
    let has_next = n > limit as usize;
    let take = if has_next {
        n - 1
    } else {
        n
    };
    let mut items: Vec<Bill> = Vec::new();
    let mut i: usize = 0;
    while i < take
        invariant
            take <= n == staging@.len() <= limit + 1,
            take == shown(n as nat, limit),
            i <= take,
            bills_view(items@) == staged(staging@).take(i as int).map_values(|p: (u32, BillView)| p.1),
        decreases take - i,
    {
        let ghost prev = items@;
        let c = staging[i].1.copy();
        items.push(c);
        proof {
            let want = staged(staging@).take(i as int + 1).map_values(|p: (u32, BillView)| p.1);
            let was = staged(staging@).take(i as int).map_values(|p: (u32, BillView)| p.1);
            assert(bills_view(prev) == was);
            assert(staged(staging@).len() == staging@.len());
            assert(was.len() == i);
            assert(bills_view(prev).len() == prev.len());
            assert(prev.len() == i);
            assert(items@ == prev.push(c));
            assert forall|j: int| 0 <= j < i + 1 implies bills_view(items@)[j] == want[j] by {
                if j < i {
                    assert(items@[j] == prev[j]);
                    assert(bills_view(prev)[j] == was[j]);
                } else {
                    assert(items@[j] == c);
                }
            }
            assert(bills_view(items@) =~= want);
        }
        i = i + 1;
    }
    let mut next_cursor: u32 = 0;
    if has_next {
        next_cursor = staging[take - 1].0;
    }
    let count = items.len() as u32;
    BillPage { items, next_cursor, count }
}

/// The first matches over `ids`, at most `limit + 1` of them.
fn stage(ids: &Vec<u32>, cursor: u32, bills: &IdMap<Bill>, f: BillFilter, limit: u32) -> (s: Vec<(u32, Bill)>)
    requires
        bills.wf(),
        1 <= limit < u32::MAX,
    ensures
        ({
            let ms = matching(ids@, cursor, bills@, f);
            staged(s@) == ms.take(if ms.len() > limit + 1 { limit + 1 } else { ms.len() as int })
        }),
        s@.len() <= limit + 1,
{
    let mut staging: Vec<(u32, Bill)> = Vec::new();
    let mut i: usize = 0;
    assert(ids@.take(0) =~= Seq::<u32>::empty());
    while i < ids.len() && staging.len() <= limit as usize
        invariant
            bills.wf(),
            i <= ids@.len(),
            staging@.len() <= limit + 1,
            staged(staging@) == matching(ids@.take(i as int), cursor, bills@, f),
        decreases ids@.len() - i,
    {
        let id = ids[i];
        proof {
            assert(ids@.take(i as int + 1).drop_last() =~= ids@.take(i as int));
        }
        if id > cursor {
            match bills.get(id) {
                Some(b) => {
                    if f.check(b) {
                        staging.push((id, b.copy()));
                        assert(staged(staging@) =~= matching(ids@.take(i as int + 1), cursor, bills@, f));
                    }
                },
                None => {},
            }
        }
        i = i + 1;
    }
    proof {
        lemma_matching_prefix(ids@, i as int, cursor, bills@, f);
        if i == ids@.len() {
            assert(ids@.take(i as int) =~= ids@);
        }
    }
    staging
}

/// The first archived matches over `ids`, at most `limit + 1` of them.
fn stage_archived(ids: &Vec<u32>, cursor: u32, archived: &IdMap<ArchivedBill>, limit: u32) -> (s: Vec<
    (u32, ArchivedBill),
>)
    requires
        archived.wf(),
        1 <= limit < u32::MAX,
    ensures
        ({
            let ms = matching_archived(ids@, cursor, archived@);
            staged_archived(s@) == ms.take(if ms.len() > limit + 1 { limit + 1 } else { ms.len() as int })
        }),
        s@.len() <= limit + 1,
{
    let mut staging: Vec<(u32, ArchivedBill)> = Vec::new();
    let mut i: usize = 0;
    assert(ids@.take(0) =~= Seq::<u32>::empty());
    while i < ids.len() && staging.len() <= limit as usize
        invariant
            archived.wf(),
            i <= ids@.len(),
            staging@.len() <= limit + 1,
            staged_archived(staging@) == matching_archived(ids@.take(i as int), cursor, archived@),
        decreases ids@.len() - i,
    {
        let id = ids[i];
        proof {
            assert(ids@.take(i as int + 1).drop_last() =~= ids@.take(i as int));
        }
        if id > cursor {
            match archived.get(id) {
                Some(b) => {
                    staging.push((id, b.copy()));
                    assert(staged_archived(staging@) =~= matching_archived(ids@.take(i as int + 1), cursor, archived@));
                },
                None => {},
            }
        }
        i = i + 1;
    }
    proof {
        lemma_matching_archived_prefix(ids@, i as int, cursor, archived@);
        if i == ids@.len() {
            assert(ids@.take(i as int) =~= ids@);
        }
    }
    staging
}

impl BillPayments {
    /// The page of `limit` (clamped) bills over `ids` after `cursor` kept by `f`.
    fn bill_page(&self, ids: &Vec<u32>, cursor: u32, limit: u32, f: BillFilter) -> (r: BillPage)
        requires
            self.wf(),
        ensures
            is_page(r, matching(ids@, cursor, self.bills@, f), spec_clamp_limit(limit)),
    {
        let lim = clamp_limit(limit);
        let staging = stage(ids, cursor, &self.bills, f, lim);
        let ghost ms = matching(ids@, cursor, self.bills@, f);
        let r = build_page(staging, lim);
        proof {
            assert(staged(staging@).len() == staging@.len());
            if ms.len() > lim {
                assert(staged(staging@).take(shown(staging@.len(), lim)) =~= ms.take(lim as int));
                assert(staging@[lim - 1].0 == staged(staging@)[lim - 1].0);
            } else {
                assert(ms.take(ms.len() as int) =~= ms);
            }
            assert(page_items(ms, lim) =~= staged(staging@).take(shown(staging@.len(), lim)).map_values(
                |p: (u32, BillView)| p.1,
            ));
        }
        r
    }

    /// A page of `owner`'s unpaid bills after `cursor`, in id order.
    pub fn get_unpaid_bills(&self, owner: Address, cursor: u32, limit: u32) -> (r: BillPage)
        requires
            self.wf(),
        ensures
            is_page(r, matching(self.owner_ids(owner), cursor, self.bills@, BillFilter::Unpaid), spec_clamp_limit(limit)),
    {
        let ids = index_ids(&self.owner_index, &owner);
        self.bill_page(&ids, cursor, limit, BillFilter::Unpaid)
    }

    /// A page of `owner`'s unpaid bills due within `start..=end`, after
    /// `cursor`, in id order; refused when `start > end`.
    pub fn get_bills_due_between(&self, owner: Address, start: u64, end: u64, cursor: u32, limit: u32) -> (r: Result<
        BillPage,
        BillPaymentsError,
    >)
        requires
            self.wf(),
        ensures
            start > end ==> r == Err::<BillPage, BillPaymentsError>(BillPaymentsError::InvalidDueDate),
            start <= end ==> (r matches Ok(p) && is_page(
                p,
                matching(self.owner_ids(owner), cursor, self.bills@, BillFilter::DueBetween(start, end)),
                spec_clamp_limit(limit),
            )),
    {
        if start > end {
            return Err(BillPaymentsError::InvalidDueDate);
        }
        let ids = index_ids(&self.owner_index, &owner);
        Ok(self.bill_page(&ids, cursor, limit, BillFilter::DueBetween(start, end)))
    }

    /// A page of all of `owner`'s bills after `cursor`, in id order.
    pub fn get_all_bills_for_owner(&self, owner: Address, cursor: u32, limit: u32) -> (r: BillPage)
        requires
            self.wf(),
        ensures
            is_page(r, matching(self.owner_ids(owner), cursor, self.bills@, BillFilter::All), spec_clamp_limit(limit)),
    {
        let ids = index_ids(&self.owner_index, &owner);
        self.bill_page(&ids, cursor, limit, BillFilter::All)
    }

    /// A page of `owner`'s bills overdue at `now` (unpaid, due before
    /// `now`), after `cursor`, in id order.
    pub fn get_overdue_bills_for_owner(&self, owner: Address, cursor: u32, limit: u32, now: u64) -> (r: BillPage)
        requires
            self.wf(),
        ensures
            is_page(
                r,
                matching(self.owner_ids(owner), cursor, self.bills@, BillFilter::OverdueAt(now)),
                spec_clamp_limit(limit),
            ),
    {
        let ids = index_ids(&self.owner_index, &owner);
        self.bill_page(&ids, cursor, limit, BillFilter::OverdueAt(now))
    }

    /// A page of `owner`'s bills in `currency` (read as a filter) after
    /// `cursor`, in id order.
    pub fn get_bills_by_currency(&self, owner: Address, currency: &Vec<u8>, cursor: u32, limit: u32) -> (r: BillPage)
        requires
            self.wf(),
        ensures
            is_page(
                r,
                matching(
                    list_of(self.currency_index@, (owner, spec_filter_currency(currency@))),
                    cursor,
                    self.bills@,
                    BillFilter::All,
                ),
                spec_clamp_limit(limit),
            ),
    {
        let cur = normalize_currency(currency);
        let ids = index_ids(&self.currency_index, &(owner, cur));
        self.bill_page(&ids, cursor, limit, BillFilter::All)
    }

    /// A page of `owner`'s unpaid bills in `currency` (read as a filter)
    /// after `cursor`, in id order.
    pub fn get_unpaid_bills_by_currency(&self, owner: Address, currency: &Vec<u8>, cursor: u32, limit: u32) -> (r:
        BillPage)
        requires
            self.wf(),
        ensures
            is_page(
                r,
                matching(
                    list_of(self.currency_index@, (owner, spec_filter_currency(currency@))),
                    cursor,
                    self.bills@,
                    BillFilter::Unpaid,
                ),
                spec_clamp_limit(limit),
            ),
    {
        let cur = normalize_currency(currency);
        let ids = index_ids(&self.currency_index, &(owner, cur));
        self.bill_page(&ids, cursor, limit, BillFilter::Unpaid)
    }

    /// For the pause admin: a page of every bill with an id in
    /// `cursor + 1 ..= next_id`, in id order.
    pub fn get_all_bills_page(&self, caller: Address, cursor: u32, limit: u32) -> (r: Result<BillPage, BillPaymentsError>)
        requires
            self.wf(),
        ensures
            !self.is_pause_admin(caller) ==> r == Err::<BillPage, BillPaymentsError>(BillPaymentsError::Unauthorized),
            self.is_pause_admin(caller) ==> (r matches Ok(p) && is_page(
                p,
                matching(
                    id_range(if cursor == u32::MAX { u32::MAX } else { (cursor + 1) as u32 }, self.next_id),
                    0,
                    self.bills@,
                    BillFilter::All,
                ),
                spec_clamp_limit(limit),
            )),
    {
        match self.pause_admin {
            Some(a) => {
                if a != caller {
                    return Err(BillPaymentsError::Unauthorized);
                }
            },
            None => {
                return Err(BillPaymentsError::Unauthorized);
            },
        }
        let lim = clamp_limit(limit);
        let lo = cursor.saturating_add(1);
        let hi = self.next_id;
        let ghost ids = id_range(lo, hi);
        let mut staging: Vec<(u32, Bill)> = Vec::new();
        let mut id: u64 = lo as u64;
        assert(ids.take(0) =~= Seq::<u32>::empty());
        while id <= hi as u64 && staging.len() <= lim as usize
            invariant
                self.wf(),
                1 <= lo,
                lo <= id,
                id <= hi + 1 || id == lo,
                ids == id_range(lo, hi),
                1 <= lim <= 50,
                staging@.len() <= lim + 1,
                staged(staging@) == matching(ids.take(if id <= hi + 1 { id - lo } else { 0 }), 0, self.bills@, BillFilter::All),
            decreases hi + 1 - id,
        {
            let k: u32 = id as u32;
            proof {
                assert(ids[id - lo] == k);
                assert(ids.take(id - lo + 1).drop_last() =~= ids.take(id - lo));
                assert(ids.take(id - lo + 1).last() == k);
            }
            match self.bills.get(k) {
                Some(b) => {
                    staging.push((k, b.copy()));
                },
                None => {},
            }
            assert(staged(staging@) =~= matching(ids.take(id - lo + 1), 0, self.bills@, BillFilter::All));
            id = id + 1;
        }
        let ghost taken: int = if id <= hi + 1 { id - lo } else { 0 };
        proof {
            lemma_matching_prefix(ids, taken, 0, self.bills@, BillFilter::All);
            if id > hi as u64 {
                assert(ids.take(taken) =~= ids);
            }
        }
        let ghost ms = matching(ids, 0, self.bills@, BillFilter::All);
        let r = build_page(staging, lim);
        proof {
            assert(staged(staging@).len() == staging@.len());
            if ms.len() > lim {
                assert(staged(staging@).take(shown(staging@.len(), lim)) =~= ms.take(lim as int));
                assert(staging@[lim - 1].0 == staged(staging@)[lim - 1].0);
            } else {
                assert(ms.take(ms.len() as int) =~= ms);
            }
            assert(page_items(ms, lim) =~= staged(staging@).take(shown(staging@.len(), lim)).map_values(
                |p: (u32, BillView)| p.1,
            ));
        }
        Ok(r)
    }

    /// Every unpaid bill of `owner` with an id in `1..=next_id`, in id order.
    pub fn get_all_unpaid_bills_legacy(&self, owner: Address) -> (r: Vec<Bill>)
        requires
            self.wf(),
        ensures
            staged_ids(r@) == matching(id_range(1, self.next_id), 0, self.bills@, BillFilter::UnpaidOf(owner)).map_values(
                |p: (u32, BillView)| p.1,
            ),
    {
        let hi = self.next_id;
        let ghost ids = id_range(1, hi);
        let f = BillFilter::UnpaidOf(owner);
        let mut out: Vec<Bill> = Vec::new();
        let mut id: u64 = 1;
        assert(ids.take(0) =~= Seq::<u32>::empty());
        while id <= hi as u64
            invariant
                self.wf(),
                1 <= id <= hi + 1,
                ids == id_range(1, hi),
                staged_ids(out@) == matching(ids.take(id - 1), 0, self.bills@, f).map_values(|p: (u32, BillView)| p.1),
            decreases hi + 1 - id,
        {
            let k: u32 = id as u32;
            proof {
                assert(ids[id - 1] == k);
                assert(ids.take(id as int).drop_last() =~= ids.take(id - 1));
            }
            let ghost prev = out@;
            let ghost m0 = matching(ids.take(id - 1), 0, self.bills@, f);
            let ghost m1 = matching(ids.take(id as int), 0, self.bills@, f);
            let keep: Option<Bill> = match self.bills.get(k) {
                Some(b) => if f.check(b) {
                    Some(b.copy())
                } else {
                    None
                },
                None => None,
            };
            proof {
                let was = m0.map_values(|p: (u32, BillView)| p.1);
                assert(staged_ids(prev) == was);
                assert(was.len() == m0.len());
                assert(bills_view(prev).len() == prev.len());
            }
            match keep {
                Some(c) => {
                    out.push(c);
                    proof {
                        assert(m1 == m0.push((k, self.bills@[k]@)));
                        let want = m1.map_values(|p: (u32, BillView)| p.1);
                        let was = m0.map_values(|p: (u32, BillView)| p.1);
                        assert(out@ == prev.push(c));
                        assert forall|j: int| 0 <= j < out@.len() implies staged_ids(out@)[j] == want[j] by {
                            if j < prev.len() {
                                assert(out@[j] == prev[j]);
                                assert(staged_ids(prev)[j] == was[j]);
                            } else {
                                assert(out@[j] == c);
                            }
                        }
                        assert(staged_ids(out@) =~= want);
                    }
                },
                None => {
                    assert(m1 == m0);
                },
            }
            id = id + 1;
        }
        assert(ids.take(id - 1) =~= ids);
        out
    }

    /// A page of `owner`'s archived bills after `cursor`, in id order; the
    /// next cursor is the id under which the page's last bill is stored.
    pub fn get_archived_bills(&self, owner: Address, cursor: u32, limit: u32) -> (r: ArchivedBillPage)
        requires
            self.wf(),
        ensures
            ({
                let ms = matching_archived(list_of(self.archive_index@, owner), cursor, self.archived@);
                let lim = spec_clamp_limit(limit);
                &&& r.items@.map_values(|a: ArchivedBill| a@) == archived_page_items(ms, lim)
                &&& r.next_cursor == if ms.len() > lim { ms[lim - 1].0 } else { 0 }
                &&& r.count == r.items@.len()
            }),
    {
        let lim = clamp_limit(limit);
        let ids = index_ids(&self.archive_index, &owner);
        let staging = stage_archived(&ids, cursor, &self.archived, lim);
        let ghost ms = matching_archived(ids@, cursor, self.archived@);
        let n = staging.len();
        let has_next = n > lim as usize;
        let take = if has_next {
            n - 1
        } else {
            n
        };
        let mut items: Vec<ArchivedBill> = Vec::new();
        let mut i: usize = 0;
        while i < take
            invariant
                take <= n == staging@.len() <= lim + 1,
                take == shown(n as nat, lim),
                i <= take,
                items@.map_values(|a: ArchivedBill| a@) == staged_archived(staging@).take(i as int).map_values(
                    |p: (u32, ArchivedBillView)| p.1,
                ),
            decreases take - i,
        {
            let ghost prev = items@;
            let c = staging[i].1.copy();
            items.push(c);
            proof {
                let want = staged_archived(staging@).take(i as int + 1).map_values(|p: (u32, ArchivedBillView)| p.1);
                let was = staged_archived(staging@).take(i as int).map_values(|p: (u32, ArchivedBillView)| p.1);
                let got = items@.map_values(|a: ArchivedBill| a@);
                assert(prev.map_values(|a: ArchivedBill| a@) == was);
                assert(staged_archived(staging@).len() == staging@.len());
                assert(was.len() == i);
                assert(prev.map_values(|a: ArchivedBill| a@).len() == prev.len());
                assert(prev.len() == i);
                assert(items@ == prev.push(c));
                assert forall|j: int| 0 <= j < i + 1 implies got[j] == want[j] by {
                    if j < i {
                        assert(items@[j] == prev[j]);
                        assert(prev.map_values(|a: ArchivedBill| a@)[j] == was[j]);
                    } else {
                        assert(items@[j] == c);
                    }
                }
                assert(got =~= want);
            }
            i = i + 1;
        }
        let mut next_cursor: u32 = 0;
        if has_next {
            next_cursor = staging[take - 1].0;
        }
        proof {
            if ms.len() > lim {
                assert(staged_archived(staging@).take(take as int) =~= ms.take(lim as int));
                assert(staging@[lim - 1].0 == staged_archived(staging@)[lim - 1].0);
            } else {
                assert(ms.take(ms.len() as int) =~= ms);
            }
            assert(archived_page_items(ms, lim) =~= staged_archived(staging@).take(take as int).map_values(
                |p: (u32, ArchivedBillView)| p.1,
            ));
        }
        let count = items.len() as u32;
        ArchivedBillPage { items, next_cursor, count }
    }

    /// A page of `owner`'s archived bills after `cursor`, in id order; the
    /// next cursor is the recorded id of the page's last bill.
    pub fn get_archived_bills_page(&self, owner: Address, cursor: u32, limit: u32) -> (r: ArchivedBillPage)
        requires
            self.wf(),
        ensures
            ({
                let ms = matching_archived(list_of(self.archive_index@, owner), cursor, self.archived@);
                let lim = spec_clamp_limit(limit);
                &&& r.items@.map_values(|a: ArchivedBill| a@) == archived_page_items(ms, lim)
                &&& r.next_cursor == if ms.len() > lim { ms[lim - 1].1.id } else { 0 }
                &&& r.count == r.items@.len()
            }),
    {
        let lim = clamp_limit(limit);
        let ids = index_ids(&self.archive_index, &owner);
        let staging = stage_archived(&ids, cursor, &self.archived, lim);
        let ghost ms = matching_archived(ids@, cursor, self.archived@);
        let n = staging.len();
        let take = if n > lim as usize {
            lim as usize
        } else {
            n
        };
        let mut items: Vec<ArchivedBill> = Vec::new();
        let mut i: usize = 0;
        while i < take
            invariant
                take <= n == staging@.len() <= lim + 1,
                take == shown(n as nat, lim),
                i <= take,
                items@.map_values(|a: ArchivedBill| a@) == staged_archived(staging@).take(i as int).map_values(
                    |p: (u32, ArchivedBillView)| p.1,
                ),
            decreases take - i,
        {
            let ghost prev = items@;
            let c = staging[i].1.copy();
            items.push(c);
            proof {
                let want = staged_archived(staging@).take(i as int + 1).map_values(|p: (u32, ArchivedBillView)| p.1);
                let was = staged_archived(staging@).take(i as int).map_values(|p: (u32, ArchivedBillView)| p.1);
                let got = items@.map_values(|a: ArchivedBill| a@);
                assert(prev.map_values(|a: ArchivedBill| a@) == was);
                assert(staged_archived(staging@).len() == staging@.len());
                assert(was.len() == i);
                assert(prev.map_values(|a: ArchivedBill| a@).len() == prev.len());
                assert(prev.len() == i);
                assert(items@ == prev.push(c));
                assert forall|j: int| 0 <= j < i + 1 implies got[j] == want[j] by {
                    if j < i {
                        assert(items@[j] == prev[j]);
                        assert(prev.map_values(|a: ArchivedBill| a@)[j] == was[j]);
                    } else {
                        assert(items@[j] == c);
                    }
                }
                assert(got =~= want);
            }
            i = i + 1;
        }
        let mut next_cursor: u32 = 0;
        if n > lim as usize {
            next_cursor = staging[lim as usize - 1].1.id;
        }
        proof {
            if ms.len() > lim {
                assert(staged_archived(staging@).take(take as int) =~= ms.take(lim as int));
                assert(staging@[lim - 1].1@.id == staged_archived(staging@)[lim - 1].1.id);
            } else {
                assert(ms.take(ms.len() as int) =~= ms);
            }
            assert(archived_page_items(ms, lim) =~= staged_archived(staging@).take(take as int).map_values(
                |p: (u32, ArchivedBillView)| p.1,
            ));
        }
        let count = items.len() as u32;
        ArchivedBillPage { items, next_cursor, count }
    }

    /// The archived bill stored under `bill_id`, if any.
    pub fn get_archived_bill(&self, bill_id: u32) -> (r: Option<ArchivedBill>)
        requires
            self.wf(),
        ensures
            match r {
                Some(a) => self.archived@.contains_key(bill_id) && a@ == self.archived@[bill_id]@,
                None => !self.archived@.contains_key(bill_id),
            },
    {
        match self.archived.get(bill_id) {
            Some(a) => Some(a.copy()),
            None => None,
        }
    }

    /// The sum, clamped at every step, of `owner`'s unpaid bills (in
    /// `currency`, when one is given) in id order.
    fn unpaid_total(&self, owner: Address, by_currency: bool, currency: &Vec<u8>) -> (r: i128)
        requires
            self.wf(),
        ensures
            r == unpaid_total_in(self.bills.entries@, owner, if by_currency { Some(currency@) } else { None }),
    {
        let ghost cv = if by_currency {
            Some(currency@)
        } else {
            None::<Seq<u8>>
        };
        let mut total: i128 = 0;
        let mut i: usize = 0;
        while i < self.bills.entries.len()
            invariant
                i <= self.bills.entries@.len(),
                total == unpaid_total_in(self.bills.entries@.take(i as int), owner, cv),
                cv == if by_currency { Some(currency@) } else { None::<Seq<u8>> },
            decreases self.bills.entries@.len() - i,
        {
            proof {
                assert(self.bills.entries@.take(i as int + 1).drop_last() =~= self.bills.entries@.take(i as int));
                assert(self.bills.entries@.take(i as int + 1).last() == self.bills.entries@[i as int]);
            }
            let b = &self.bills.entries[i].1;
            let in_currency = if by_currency {
                crate::maps::bytes_eq(&b.currency, currency)
            } else {
                true
            };
            proof {
                let s1 = self.bills.entries@.take(i as int + 1);
                assert(in_currency == (cv matches Some(c) ==> b.currency@ == c));
                assert(unpaid_total_in(s1, owner, cv) == if !b.paid && b.owner == owner && in_currency {
                    sat_add(unpaid_total_in(self.bills.entries@.take(i as int), owner, cv), b.amount)
                } else {
                    unpaid_total_in(self.bills.entries@.take(i as int), owner, cv)
                });
            }
            if !b.paid && b.owner == owner && in_currency {
                total = saturating_add_i128(total, b.amount);
            }
            i = i + 1;
        }
        assert(self.bills.entries@.take(i as int) =~= self.bills.entries@);
        total
    }

    /// `owner`'s unpaid total: the recorded running total when there is
    /// one, else the clamped sum of the unpaid bills in id order.
    pub fn get_total_unpaid(&self, owner: Address) -> (r: i128)
        requires
            self.wf(),
        ensures
            r == match self.totals() {
                Some(t) if t.contains_key(owner) => t[owner],
                _ => unpaid_total_in(self.bills.entries@, owner, None),
            },
    {
        if let Some(t) = &self.unpaid_totals {
            if let Some(v) = t.get(&owner) {
                return *v;
            }
        }
        self.unpaid_total(owner, false, &Vec::new())
    }

    /// The clamped sum of `owner`'s unpaid bills in `currency` (read as a
    /// filter), in id order.
    pub fn get_total_unpaid_by_currency(&self, owner: Address, currency: &Vec<u8>) -> (r: i128)
        requires
            self.wf(),
        ensures
            r == unpaid_total_in(self.bills.entries@, owner, Some(spec_filter_currency(currency@))),
    {
        let cur = normalize_currency(currency);
        self.unpaid_total(owner, true, &cur)
    }
}

/// The contents of a list of bills.
pub open spec fn staged_ids(v: Seq<Bill>) -> Seq<BillView> {
    bills_view(v)
}

/// At most the first `n` items of `s`.
pub open spec fn first_n<A>(s: Seq<A>, n: int) -> Seq<A> {
    if s.len() > n {
        s.take(n)
    } else {
        s
    }
}

/// The position of the first entry of `s` with an id greater than `id`,
/// or the length of `s` when there is none.
pub open spec fn first_greater(s: Seq<(u32, BillView)>, id: u32) -> nat
    decreases s.len(),
{
    if s.len() == 0 {
        0
    } else if id < s[0].0 {
        0
    } else {
        1 + first_greater(s.drop_first(), id)
    }
}

/// `s` with `x` inserted before the first entry with a greater id.
pub open spec fn insert_sorted(s: Seq<(u32, BillView)>, x: (u32, BillView)) -> Seq<(u32, BillView)> {
    let p = first_greater(s, x.0) as int;
    s.take(p).push(x) + s.skip(p)
}

/// The items of `c` sorted by id, ties in their order in `c`.
pub open spec fn sort_by_id(c: Seq<(u32, BillView)>) -> Seq<(u32, BillView)>
    decreases c.len(),
{
    if c.len() == 0 {
        Seq::empty()
    } else {
        insert_sorted(sort_by_id(c.drop_last()), c.last())
    }
}

/// Ids do not decrease along `s`.
pub open spec fn ids_nondecreasing(s: Seq<(u32, BillView)>) -> bool {
    forall|i: int, j: int| 0 <= i < j < s.len() ==> s[i].0 <= s[j].0
}

/// The overdue bills the owner lists in `es` name, list after list.
pub open spec fn overdue_candidates(es: Seq<(Address, Vec<u32>)>, cursor: u32, m: Map<u32, Bill>, now: u64) -> Seq<
    (u32, BillView),
>
    decreases es.len(),
{
    if es.len() == 0 {
        Seq::empty()
    } else {
        overdue_candidates(es.drop_last(), cursor, m, now) + matching(es.last().1@, cursor, m, BillFilter::OverdueAt(now))
    }
}

/// What `first_greater` finds.
pub proof fn lemma_first_greater(s: Seq<(u32, BillView)>, id: u32)
    ensures
        first_greater(s, id) <= s.len(),
        forall|i: int| 0 <= i < first_greater(s, id) ==> s[i].0 <= id,
        first_greater(s, id) < s.len() ==> id < s[first_greater(s, id) as int].0,
    decreases s.len(),
{
    if s.len() > 0 && id >= s[0].0 {
        lemma_first_greater(s.drop_first(), id);
        assert forall|i: int| 0 <= i < first_greater(s, id) implies s[i].0 <= id by {
            if i > 0 {
                assert(s[i] == s.drop_first()[i - 1]);
            }
        }
    }
}

/// `first_greater` is the only position with its two properties.
pub proof fn lemma_first_greater_unique(s: Seq<(u32, BillView)>, id: u32, p: int)
    requires
        0 <= p <= s.len(),
        forall|i: int| 0 <= i < p ==> s[i].0 <= id,
        p < s.len() ==> id < s[p].0,
    ensures
        first_greater(s, id) == p,
{
    lemma_first_greater(s, id);
    let q = first_greater(s, id) as int;
    if q < p {
        assert(s[q].0 <= id);
    } else if p < q {
        assert(s[p].0 <= id);
    }
}

/// Inserting keeps ids non-decreasing and adds one item.
pub proof fn lemma_insert_sorted(s: Seq<(u32, BillView)>, x: (u32, BillView))
    requires
        ids_nondecreasing(s),
    ensures
        ids_nondecreasing(insert_sorted(s, x)),
        insert_sorted(s, x).len() == s.len() + 1,
{
    lemma_first_greater(s, x.0);
    let p = first_greater(s, x.0) as int;
    let r = insert_sorted(s, x);
    assert forall|i: int, j: int| 0 <= i < j < r.len() implies r[i].0 <= r[j].0 by {
        if j < p {
            assert(r[i] == s[i] && r[j] == s[j]);
        } else if j == p {
            assert(r[j] == x);
            assert(r[i] == s[i]);
        } else if i < p {
            assert(r[i] == s[i] && r[j] == s[j - 1]);
        } else if i == p {
            assert(r[i] == x && r[j] == s[j - 1]);
        } else {
            assert(r[i] == s[i - 1] && r[j] == s[j - 1]);
        }
    }
}

/// Keeping only the first `n` items before an insertion changes none of
/// the first `n` items after it.
pub proof fn lemma_insert_first_n(s: Seq<(u32, BillView)>, x: (u32, BillView), n: int)
    requires
        n >= 1,
    ensures
        first_n(insert_sorted(first_n(s, n), x), n) == first_n(insert_sorted(s, x), n),
{
    let t = first_n(s, n);
    lemma_first_greater(s, x.0);
    let ps = first_greater(s, x.0) as int;
    let pt = if ps < t.len() { ps } else { t.len() as int };
    assert forall|i: int| 0 <= i < pt implies t[i].0 <= x.0 by {
        assert(t[i] == s[i]);
    }
    if pt < t.len() {
        assert(t[pt] == s[pt]);
    }
    lemma_first_greater_unique(t, x.0, pt);
    let a = insert_sorted(t, x);
    let b = insert_sorted(s, x);
    let fa = first_n(a, n);
    let fb = first_n(b, n);
    assert(fa.len() == fb.len());
    assert forall|j: int| 0 <= j < fa.len() implies fa[j] == fb[j] by {
        if j < pt {
            assert(fa[j] == t[j] && t[j] == s[j] && fb[j] == s[j]);
        } else if j == pt {
            if ps < t.len() {
                assert(fa[j] == x && fb[j] == x);
            } else {
                assert(fa[j] == x);
                assert(t.len() < n || ps >= n);
                if ps == t.len() {
                    assert(fb[j] == x);
                } else {
                    assert(fb[j] == s[j]);
                    assert(false);
                }
            }
        } else {
            assert(fa[j] == t[j - 1] && t[j - 1] == s[j - 1] && fb[j] == s[j - 1]);
        }
    }
    assert(fa =~= fb);
}

/// Insert `(id, bill)` into the id-sorted `staging`, keeping only the `cap`
/// smallest ids.
fn staging_insert_bounded(staging: &mut Vec<(u32, Bill)>, id: u32, bill: Bill, cap: u32)
    requires
        cap >= 1,
        old(staging)@.len() <= cap,
        ids_nondecreasing(staged(old(staging)@)),
    ensures
        staged(final(staging)@) == first_n(insert_sorted(staged(old(staging)@), (id, bill@)), cap as int),
        ids_nondecreasing(staged(final(staging)@)),
        final(staging)@.len() <= cap,
{
    let ghost s0 = staged(staging@);
    let ghost x = (id, bill@);
    proof {
        lemma_insert_sorted(s0, x);
        lemma_first_greater(s0, id);
    }
    let len = staging.len();
    if len >= cap as usize && len > 0 {
        if id >= staging[len - 1].0 {
            proof {
                assert forall|i: int| 0 <= i < len implies s0[i].0 <= id by {
                    assert(s0[i].0 <= s0[len - 1].0);
                }
                lemma_first_greater_unique(s0, id, len as int);
                assert(first_n(insert_sorted(s0, x), cap as int) =~= s0);
            }
            return;
        }
    }
    let mut i: usize = 0;
    while i < len && staging[i].0 <= id
        invariant
            len == staging@.len(),
            s0 == staged(staging@),
            i <= len,
            forall|k: int| 0 <= k < i ==> staging@[k].0 <= id,
        decreases len - i,
    {
        i = i + 1;
    }
    proof {
        assert forall|k: int| 0 <= k < i implies s0[k].0 <= id by {
            assert(s0[k].0 == staging@[k].0);
        }
        if i < len {
            assert(s0[i as int].0 == staging@[i as int].0);
        }
        lemma_first_greater_unique(s0, id, i as int);
    }
    let ghost p = i as int;
    staging.insert(i, (id, bill));
    assert(staged(staging@) =~= insert_sorted(s0, x));
    if staging.len() > cap as usize {
        let last = staging.len() - 1;
        staging.remove(last);
        assert(staged(staging@) =~= first_n(insert_sorted(s0, x), cap as int));
    } else {
        assert(first_n(insert_sorted(s0, x), cap as int) =~= insert_sorted(s0, x));
    }
    proof {
        assert(ids_nondecreasing(staged(staging@))) by {
            assert forall|a: int, b: int| 0 <= a < b < staged(staging@).len() implies staged(staging@)[a].0
                <= staged(staging@)[b].0 by {
                assert(staged(staging@)[a] == insert_sorted(s0, x)[a]);
                assert(staged(staging@)[b] == insert_sorted(s0, x)[b]);
            }
        }
    }
}

impl BillPayments {
    /// A page of every owner's bills overdue at `now` (unpaid, due before
    /// `now`) after `cursor`, in id order.
    pub fn get_overdue_bills(&self, cursor: u32, limit: u32, now: u64) -> (r: BillPage)
        requires
            self.wf(),
        ensures
            is_page(
                r,
                sort_by_id(overdue_candidates(self.owner_index.entries@, cursor, self.bills@, now)),
                spec_clamp_limit(limit),
            ),
    {
        let lim = clamp_limit(limit);
        let cap = lim + 1;
        let ghost es = self.owner_index.entries@;
        let ghost f = BillFilter::OverdueAt(now);
        let mut staging: Vec<(u32, Bill)> = Vec::new();
        let mut k: usize = 0;
        assert(es.take(0) =~= Seq::<(Address, Vec<u32>)>::empty());
        while k < self.owner_index.entries.len()
            invariant
                self.wf(),
                es == self.owner_index.entries@,
                f == BillFilter::OverdueAt(now),
                cap == lim + 1,
                1 <= lim <= 50,
                k <= es.len(),
                staging@.len() <= cap,
                ids_nondecreasing(staged(staging@)),
                staged(staging@) == first_n(sort_by_id(overdue_candidates(es.take(k as int), cursor, self.bills@, now)), cap as int),
            decreases es.len() - k,
        {
            let ids = &self.owner_index.entries[k].1;
            let ghost base = overdue_candidates(es.take(k as int), cursor, self.bills@, now);
            proof {
                assert(es.take(k as int + 1).drop_last() =~= es.take(k as int));
                assert(es.take(k as int + 1).last() == es[k as int]);
                assert(ids@.take(0) =~= Seq::<u32>::empty());
                assert(base + matching(ids@.take(0), cursor, self.bills@, f) =~= base);
            }
            let mut j: usize = 0;
            while j < ids.len()
                invariant
                    self.wf(),
                    f == BillFilter::OverdueAt(now),
                    cap == lim + 1,
                    1 <= lim <= 50,
                    j <= ids@.len(),
                    staging@.len() <= cap,
                    ids_nondecreasing(staged(staging@)),
                    staged(staging@) == first_n(sort_by_id(base + matching(ids@.take(j as int), cursor, self.bills@, f)), cap as int),
                decreases ids@.len() - j,
            {
                let id = ids[j];
                let ghost before_c = base + matching(ids@.take(j as int), cursor, self.bills@, f);
                proof {
                    assert(ids@.take(j as int + 1).drop_last() =~= ids@.take(j as int));
                    assert(ids@.take(j as int + 1).last() == id);
                }
                if id > cursor {
                    match self.bills.get(id) {
                        Some(b) => {
                            if !b.paid && b.due_date < now {
                                let ghost x = (id, b@);
                                proof {
                                    assert(base + matching(ids@.take(j as int + 1), cursor, self.bills@, f) =~= before_c.push(x));
                                    assert(sort_by_id(before_c.push(x)) == insert_sorted(sort_by_id(before_c), x)) by {
                                        assert(before_c.push(x).drop_last() =~= before_c);
                                    }
                                    lemma_insert_first_n(sort_by_id(before_c), x, cap as int);
                                }
                                staging_insert_bounded(&mut staging, id, b.copy(), cap);
                            }
                        },
                        None => {},
                    }
                }
                j = j + 1;
            }
            proof {
                assert(ids@.take(j as int) =~= ids@);
            }
            k = k + 1;
        }
        proof {
            assert(es.take(k as int) =~= es);
        }
        let ghost ms = sort_by_id(overdue_candidates(es, cursor, self.bills@, now));
        let r = build_page(staging, lim);
        proof {
            assert(staged(staging@).len() == staging@.len());
            if ms.len() > lim {
                assert(staged(staging@).take(shown(staging@.len(), lim)) =~= ms.take(lim as int));
                assert(staging@[lim - 1].0 == staged(staging@)[lim - 1].0);
            } else {
                assert(ms.take(ms.len() as int) =~= ms);
            }
            assert(page_items(ms, lim) =~= staged(staging@).take(shown(staging@.len(), lim)).map_values(
                |p: (u32, BillView)| p.1,
            ));
        }
        r
    }
}

} // verus!
