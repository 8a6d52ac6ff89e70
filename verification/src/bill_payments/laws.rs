//! Properties of the bill-payment contract that span several calls.
use super::archive::archivable;
use super::execution::{is_due, run_fold, run_step, RunAcc};
use super::queries::{matching, page_cursor, unpaid_total_in, BillFilter};
use super::state::{adjust_totals, BillPayments, SNAPSHOT_VERSION};
use super::batch::{batch_fold, batch_step, views_of, BatchAcc};
use super::bills::{child_view, next_recurring_due, paid_view};
use super::types::{Bill, BillView};
use crate::address::Address;
use crate::maps::{id_map_of, ids_sorted, lemma_id_map_at, lemma_id_map_has};
use crate::sums::{
    insert_entry, lemma_insert_entry, lemma_replace_entry, lemma_sorted_unique, lemma_sum_insert, lemma_sum_nonneg,
    lemma_sum_remove, lemma_sum_update, replace_entry, sum_values,
};
use crate::ids::{ascending, lemma_filter_push};
use vstd::prelude::*;

verus! {

/// Ids strictly increase along `s`.
pub open spec fn ids_increasing<V>(s: Seq<(u32, V)>) -> bool {
    forall|i: int, j: int| 0 <= i < j < s.len() ==> s[i].0 < s[j].0
}

/// Raising the cursor keeps exactly the matches after the new cursor.
proof fn lemma_matching_cursor(ids: Seq<u32>, c1: u32, c2: u32, m: Map<u32, Bill>, f: BillFilter)
    requires
        c1 <= c2,
    ensures
        matching(ids, c2, m, f) == matching(ids, c1, m, f).filter(|p: (u32, super::types::BillView)| p.0 > c2),
    decreases ids.len(),
{
    if ids.len() > 0 {
        lemma_matching_cursor(ids.drop_last(), c1, c2, m, f);
        lemma_filter_push(
            matching(ids.drop_last(), c1, m, f),
            |p: (u32, super::types::BillView)| p.0 > c2,
            (ids.last(), m[ids.last()]@),
        );
    }
}

/// Over ascending ids, the matches come in strictly increasing id order,
/// every one of them after the cursor and taken from `ids`.
proof fn lemma_matching_sorted(ids: Seq<u32>, c: u32, m: Map<u32, Bill>, f: BillFilter)
    requires
        ascending(ids),
    ensures
        ids_increasing(matching(ids, c, m, f)),
        forall|i: int|
            0 <= i < matching(ids, c, m, f).len() ==> matching(ids, c, m, f)[i].0 > c && ids.contains(
                #[trigger] matching(ids, c, m, f)[i].0,
            ),
    decreases ids.len(),
{
    if ids.len() > 0 {
        let t = ids.drop_last();
        assert(ascending(t));
        lemma_matching_sorted(t, c, m, f);
        let r = matching(t, c, m, f);
        assert forall|i: int| 0 <= i < r.len() implies r[i].0 < ids.last() by {
            assert(t.contains(r[i].0));
            let k = choose|k: int| 0 <= k < t.len() && t[k] == r[i].0;
            assert(ids[k] < ids[ids.len() - 1]);
        }
        assert forall|i: int| 0 <= i < matching(ids, c, m, f).len() implies ids.contains(
            #[trigger] matching(ids, c, m, f)[i].0,
        ) by {
            if i < r.len() {
                assert(matching(ids, c, m, f)[i] == r[i]);
                let k = choose|k: int| 0 <= k < t.len() && t[k] == r[i].0;
                assert(ids[k] == t[k]);
            } else {
                assert(ids[ids.len() - 1] == ids.last());
            }
        }
    }
}

/// A filter no item passes leaves nothing.
proof fn lemma_filter_none<A>(s: Seq<A>, p: spec_fn(A) -> bool)
    requires
        forall|i: int| 0 <= i < s.len() ==> !p(s[i]),
    ensures
        s.filter(p) == Seq::<A>::empty(),
    decreases s.len(),
{
    if s.len() > 0 {
        lemma_filter_none(s.drop_last(), p);
        lemma_filter_push(s.drop_last(), p, s.last());
        assert(s.drop_last().push(s.last()) =~= s);
    }
}

/// In a strictly increasing sequence, the items with an id above the
/// `lim`-th item's id are those after the first `lim`.
proof fn lemma_filter_after(s: Seq<(u32, super::types::BillView)>, lim: int)
    requires
        1 <= lim <= s.len(),
        ids_increasing(s),
    ensures
        s.filter(|p: (u32, super::types::BillView)| p.0 > s[lim - 1].0) == s.skip(lim),
    decreases s.len(),
{
    let k = s[lim - 1].0;
    let p = |q: (u32, super::types::BillView)| q.0 > k;
    if s.len() == lim {
        assert forall|i: int| 0 <= i < s.len() implies !p(s[i]) by {
            if i < lim - 1 {
                assert(s[i].0 < s[lim - 1].0);
            }
        }
        lemma_filter_none(s, p);
        assert(s.skip(lim) =~= Seq::<(u32, super::types::BillView)>::empty());
    } else {
        let t = s.drop_last();
        assert(t[lim - 1] == s[lim - 1]);
        lemma_filter_after(t, lim);
        lemma_filter_push(t, p, s.last());
        assert(s.last().0 > k) by {
            assert(s[lim - 1].0 < s[s.len() - 1].0);
        }
        assert(t.push(s.last()) =~= s);
        assert(t.skip(lim).push(s.last()) =~= s.skip(lim));
    }
}

/// Paging is stable: over ascending ids, the page after a full page — the
/// one its cursor asks for — holds exactly the matches that followed that
/// page, so successive pages cover every match once and in order.
pub proof fn lemma_pagination_continues(ids: Seq<u32>, cursor: u32, m: Map<u32, Bill>, f: BillFilter, limit: u32)
    requires
        ascending(ids),
        limit >= 1,
        matching(ids, cursor, m, f).len() > limit,
    ensures
        matching(ids, page_cursor(matching(ids, cursor, m, f), limit), m, f) == matching(ids, cursor, m, f).skip(
            limit as int,
        ),
{
    let ms = matching(ids, cursor, m, f);
    lemma_matching_sorted(ids, cursor, m, f);
    let next = page_cursor(ms, limit);
    assert(next == ms[limit - 1].0);
    assert(next > cursor);
    lemma_matching_cursor(ids, cursor, next, m, f);
    lemma_filter_after(ms, limit as int);
}

/// After one run, a schedule that ran is not due again at the same time.
pub proof fn lemma_ran_not_due(acc: RunAcc, id: u32, now: u64)
    requires
        acc.schedules.contains_key(id) && is_due(acc.schedules[id], now),
    ensures
        !is_due(run_step(acc, id, now).schedules[id], now),
{
}

/// Running schedules `1..=n` leaves none of them due at the same time.
pub(crate) proof fn lemma_run_leaves_none_due(init: RunAcc, n: nat, now: u64)
    requires
        n <= u32::MAX,
    ensures
        forall|id: u32|
            1 <= id <= n && #[trigger] run_fold(init, n, now).schedules.contains_key(id) ==> !is_due(
                run_fold(init, n, now).schedules[id],
                now,
            ),
    decreases n,
{
    if n > 0 {
        lemma_run_leaves_none_due(init, (n - 1) as nat, now);
    }
}

/// A run over schedules none of which is due changes nothing.
proof fn lemma_run_nothing_due(acc: RunAcc, k: nat, n: nat, now: u64)
    requires
        k <= n <= u32::MAX,
        forall|id: u32| 1 <= id <= n && #[trigger] acc.schedules.contains_key(id) ==> !is_due(acc.schedules[id], now),
    ensures
        run_fold(acc, k, now) == acc,
    decreases k,
{
    if k > 0 {
        lemma_run_nothing_due(acc, (k - 1) as nat, n, now);
        assert(acc.schedules.contains_key(k as u32) ==> !is_due(acc.schedules[k as u32], now));
    }
}

/// Running the due schedules is idempotent: a second run at the same time
/// over the same ids runs nothing and changes nothing.
pub proof fn lemma_execution_idempotent(init: RunAcc, n: nat, now: u64)
    requires
        n <= u32::MAX,
    ensures
        ({
            let first = run_fold(init, n, now);
            let again = RunAcc { executed: Seq::empty(), ..first };
            run_fold(again, n, now) == again
        }),
{
    let first = run_fold(init, n, now);
    let again = RunAcc { executed: Seq::empty(), ..first };
    lemma_run_leaves_none_due(init, n, now);
    lemma_run_nothing_due(again, n, n, now);
}

/// Archiving never moves an unpaid bill.
pub proof fn lemma_archive_only_paid(b: super::types::BillView, before: u64)
    requires
        archivable(b, before),
    ensures
        b.paid,
        b.paid_at matches Some(p) && p < before,
{
}

/// What a bill adds to `owner`'s unpaid total: its amount when it is
/// `owner`'s and unpaid, else nothing.
pub open spec fn owed_by(owner: Address) -> spec_fn(Bill) -> int {
    |b: Bill| if !b.paid && b.owner == owner { b.amount as int } else { 0 }
}

/// The exact sum of `owner`'s unpaid bill amounts along `s`.
pub open spec fn unpaid_sum(s: Seq<(u32, Bill)>, owner: Address) -> int {
    sum_values(s, owed_by(owner))
}

/// The unpaid total recorded for `owner`; zero when none is.
pub open spec fn recorded_unpaid(t: Option<Map<Address, i128>>, owner: Address) -> int {
    match t {
        Some(m) if m.contains_key(owner) => m[owner] as int,
        _ => 0,
    }
}

impl BillPayments {
    /// Every owner's recorded unpaid total is the sum of their unpaid bills.
    pub open spec fn totals_consistent(&self) -> bool {
        forall|o: Address| #[trigger] recorded_unpaid(self.totals(), o) == unpaid_sum(self.bills.entries@, o)
    }
}

/// Adjusting `owner`'s recorded total by `delta`, without leaving `i128`,
/// adds `delta` to that owner's total and leaves the others alone.
proof fn lemma_adjust_totals(t: Option<Map<Address, i128>>, owner: Address, delta: i128, o: Address)
    requires
        i128::MIN <= recorded_unpaid(t, owner) + delta <= i128::MAX,
    ensures
        recorded_unpaid(adjust_totals(t, owner, delta), o) == recorded_unpaid(t, o) + if o == owner {
            delta as int
        } else {
            0
        },
{
}

/// A fresh contract records no totals and holds no bills.
pub proof fn lemma_new_totals_consistent(c: BillPayments)
    requires
        c.totals() is None,
        c.bills.entries@.len() == 0,
    ensures
        c.totals_consistent(),
{
}

/// Creating a bill keeps every owner's recorded unpaid total equal to the
/// sum of their unpaid bills, as long as the creator's total stays within
/// `i128`.
pub proof fn lemma_create_keeps_totals(before: BillPayments, after: BillPayments, id: u32)
    requires
        before.wf(),
        after.wf(),
        before.totals_consistent(),
        !before.bills@.contains_key(id),
        after.bills@ == before.bills@.insert(id, after.bills@[id]),
        !after.bills@[id].paid,
        after.totals() == adjust_totals(before.totals(), after.bills@[id].owner, after.bills@[id].amount),
        i128::MIN <= unpaid_sum(before.bills.entries@, after.bills@[id].owner) + after.bills@[id].amount
            <= i128::MAX,
    ensures
        after.totals_consistent(),
{
    let b = after.bills@[id];
    assert forall|o: Address| #[trigger] recorded_unpaid(after.totals(), o) == unpaid_sum(after.bills.entries@, o) by {
        lemma_sum_insert(before.bills.entries@, after.bills.entries@, id, b, owed_by(o));
        assert(recorded_unpaid(before.totals(), o) == unpaid_sum(before.bills.entries@, o));
        assert(recorded_unpaid(before.totals(), b.owner) == unpaid_sum(before.bills.entries@, b.owner));
        lemma_adjust_totals(before.totals(), b.owner, b.amount, o);
    }
}

/// Paying an unpaid bill, and for a recurring one creating its successor
/// `child` for the same owner and amount, keeps every owner's recorded
/// unpaid total equal to the sum of their unpaid bills, as long as the
/// payer's total stays within `i128`.
pub proof fn lemma_pay_keeps_totals(before: BillPayments, after: BillPayments, id: u32, child: Option<u32>)
    requires
        before.wf(),
        after.wf(),
        before.totals_consistent(),
        before.bills@.contains_key(id),
        !before.bills@[id].paid,
        after.bills@[id].paid,
        after.bills@[id].owner == before.bills@[id].owner,
        match child {
            None => {
                &&& after.bills@ == before.bills@.insert(id, after.bills@[id])
                &&& after.totals() == adjust_totals(
                    before.totals(),
                    before.bills@[id].owner,
                    -before.bills@[id].amount as i128,
                )
            },
            Some(c) => {
                &&& c != id
                &&& !before.bills@.contains_key(c)
                &&& after.bills@ == before.bills@.insert(c, after.bills@[c]).insert(id, after.bills@[id])
                &&& !after.bills@[c].paid
                &&& after.bills@[c].owner == before.bills@[id].owner
                &&& after.bills@[c].amount == before.bills@[id].amount
                &&& after.totals() == adjust_totals(
                    adjust_totals(before.totals(), before.bills@[id].owner, before.bills@[id].amount),
                    before.bills@[id].owner,
                    -before.bills@[id].amount as i128,
                )
            },
        },
        before.bills@[id].amount != i128::MIN,
        i128::MIN <= unpaid_sum(before.bills.entries@, before.bills@[id].owner) + before.bills@[id].amount
            <= i128::MAX,
        i128::MIN <= unpaid_sum(before.bills.entries@, before.bills@[id].owner) - before.bills@[id].amount
            <= i128::MAX,
    ensures
        after.totals_consistent(),
{
    let b = before.bills@[id];
    let p = after.bills@[id];
    let s = before.bills.entries@;
    let t = after.bills.entries@;
    match child {
        None => {
            assert forall|o: Address| #[trigger] recorded_unpaid(after.totals(), o) == unpaid_sum(t, o) by {
                lemma_sum_update(s, t, id, p, owed_by(o));
                assert(recorded_unpaid(before.totals(), o) == unpaid_sum(s, o));
                assert(recorded_unpaid(before.totals(), b.owner) == unpaid_sum(s, b.owner));
                lemma_adjust_totals(before.totals(), b.owner, -b.amount as i128, o);
            }
        },
        Some(c) => {
            let cb = after.bills@[c];
            let mid = insert_entry(s, c, cb);
            let t1 = adjust_totals(before.totals(), b.owner, b.amount);
            assert forall|o: Address| #[trigger] recorded_unpaid(after.totals(), o) == unpaid_sum(t, o) by {
                lemma_insert_entry(s, c, cb, owed_by(o));
                assert(id_map_of(mid).contains_key(id));
                assert(id_map_of(t) =~= id_map_of(mid).insert(id, p));
                lemma_sum_update(mid, t, id, p, owed_by(o));
                assert(recorded_unpaid(before.totals(), o) == unpaid_sum(s, o));
                assert(recorded_unpaid(before.totals(), b.owner) == unpaid_sum(s, b.owner));
                lemma_adjust_totals(before.totals(), b.owner, b.amount, o);
                lemma_adjust_totals(before.totals(), b.owner, b.amount, b.owner);
                lemma_adjust_totals(t1, b.owner, -b.amount as i128, o);
            }
        },
    }
}

/// Cancelling a bill keeps every owner's recorded unpaid total equal to the
/// sum of their unpaid bills, as long as the owner's total stays within
/// `i128` and the bill, if unpaid, is not of a negative amount (cancelling
/// such a bill leaves the recorded total as it was).
pub proof fn lemma_cancel_keeps_totals(before: BillPayments, after: BillPayments, id: u32)
    requires
        before.wf(),
        after.wf(),
        before.totals_consistent(),
        before.bills@.contains_key(id),
        after.bills@ == before.bills@.remove(id),
        ({
            let b = before.bills@[id];
            let unpaid = if b.paid { 0 } else { b.amount };
            after.totals() == if unpaid > 0 {
                adjust_totals(before.totals(), b.owner, -unpaid as i128)
            } else {
                before.totals()
            }
        }),
        !before.bills@[id].paid ==> before.bills@[id].amount >= 0,
        i128::MIN <= unpaid_sum(before.bills.entries@, before.bills@[id].owner) - before.bills@[id].amount
            <= i128::MAX,
    ensures
        after.totals_consistent(),
{
    let b = before.bills@[id];
    let s = before.bills.entries@;
    let t = after.bills.entries@;
    assert forall|o: Address| #[trigger] recorded_unpaid(after.totals(), o) == unpaid_sum(t, o) by {
        lemma_sum_remove(s, t, id, owed_by(o));
        assert(recorded_unpaid(before.totals(), o) == unpaid_sum(s, o));
        assert(recorded_unpaid(before.totals(), b.owner) == unpaid_sum(s, b.owner));
        if !b.paid && b.amount > 0 {
            lemma_adjust_totals(before.totals(), b.owner, -b.amount as i128, o);
        }
    }
}

/// An upgrade rolls back to what was saved: once the upgrade admin has
/// taken the pre-upgrade snapshot, a restore by that admin succeeds, and
/// whatever changed in between it puts back the id counter, the version in
/// force, both admins and the pause state as they were.
pub proof fn lemma_upgrade_roundtrip(s: BillPayments, u: BillPayments, admin: Address)
    requires
        s.is_upgrade_admin(admin),
        u.snapshot == Some(s.snapshot_of()),
        u.is_upgrade_admin(admin),
    ensures
        u.snapshot matches Some(snap) && snap.schema_version == SNAPSHOT_VERSION && {
            let r = BillPayments {
                next_id: snap.next_id,
                version: Some(snap.version),
                upgrade_admin: snap.upgrade_admin,
                paused: snap.paused,
                pause_admin: snap.pause_admin,
                snapshot: None,
                ..u
            };
            &&& r.next_id == s.next_id
            &&& r.spec_version() == s.spec_version()
            &&& r.upgrade_admin == s.upgrade_admin
            &&& r.pause_admin == s.pause_admin
            &&& r.paused == s.paused
        },
{
}

/// Archiving selects exactly the stored bills that are paid with a payment
/// time before the cutoff, recurring or one-off alike.
pub proof fn lemma_archive_selection_exact(c: BillPayments, before: u64, id: u32)
    ensures
        c.archive_selection(before).contains(id) <==> (c.bills@.contains_key(id) && c.bills@[id].paid && (
        c.bills@[id].paid_at matches Some(p) && p < before)),
{
}

/// The unpaid total in one currency is the unpaid total over the bills in
/// that currency alone: a bill in another currency adds nothing.
pub proof fn lemma_unpaid_total_in_currency(s: Seq<(u32, Bill)>, owner: Address, c: Seq<u8>)
    ensures
        unpaid_total_in(s, owner, Some(c)) == unpaid_total_in(
            s.filter(|e: (u32, Bill)| e.1.currency@ == c),
            owner,
            None,
        ),
    decreases s.len(),
{
    let p = |e: (u32, Bill)| e.1.currency@ == c;
    if s.len() > 0 {
        lemma_unpaid_total_in_currency(s.drop_last(), owner, c);
        lemma_filter_push(s.drop_last(), p, s.last());
        assert(s.drop_last().push(s.last()) =~= s);
        let f = s.filter(p);
        if p(s.last()) {
            assert(f.drop_last() =~= s.drop_last().filter(p));
        }
    } else {
        assert(s.filter(p) =~= Seq::<(u32, Bill)>::empty());
    }
}

/// A run of the due schedules lists every bill it creates under the bill's
/// owner and under its owner and currency: each bill present after the run
/// and absent before is among those ids, and no id listed before is
/// dropped.
pub proof fn lemma_run_indexes_new_bills(init: RunAcc, n: nat, now: u64)
    ensures
        forall|id: u32|
            #![trigger run_fold(init, n, now).bills[id]]
            run_fold(init, n, now).bills.contains_key(id) && !init.bills.contains_key(id) ==> run_fold(
                init,
                n,
                now,
            ).owners[run_fold(init, n, now).bills[id].owner].contains(id),
        forall|o: Address, id: u32|
            #![trigger run_fold(init, n, now).owners[o].contains(id)]
            init.owners[o].contains(id) ==> run_fold(init, n, now).owners[o].contains(id),
        forall|id: u32|
            #![trigger run_fold(init, n, now).bills[id]]
            run_fold(init, n, now).bills.contains_key(id) && !init.bills.contains_key(id) ==> run_fold(
                init,
                n,
                now,
            ).currencies[(run_fold(init, n, now).bills[id].owner, run_fold(init, n, now).bills[id].currency)].contains(
                id,
            ),
        forall|k: (Address, Seq<u8>), id: u32|
            #![trigger run_fold(init, n, now).currencies[k].contains(id)]
            init.currencies[k].contains(id) ==> run_fold(init, n, now).currencies[k].contains(id),
    decreases n,
{
    if n > 0 {
        let prev = run_fold(init, (n - 1) as nat, now);
        lemma_run_indexes_new_bills(init, (n - 1) as nat, now);
        let cur = run_fold(init, n, now);
        assert(cur == run_step(prev, n as u32, now));
        assert forall|o: Address, id: u32| prev.owners[o].contains(id) implies #[trigger] cur.owners[o].contains(id) by {
        }
        assert forall|k: (Address, Seq<u8>), id: u32| prev.currencies[k].contains(id) implies
            #[trigger] cur.currencies[k].contains(id) by {
        }
        assert forall|id: u32|
            #![trigger cur.bills[id]]
            cur.bills.contains_key(id) && !init.bills.contains_key(id) implies cur.owners[cur.bills[id].owner].contains(
                id,
            ) by {
            if prev.bills.contains_key(id) && cur.bills[id] == prev.bills[id] {
                assert(prev.owners[prev.bills[id].owner].contains(id));
            }
        }
        assert forall|id: u32|
            #![trigger cur.bills[id]]
            cur.bills.contains_key(id) && !init.bills.contains_key(id) implies cur.currencies[(
                cur.bills[id].owner,
                cur.bills[id].currency,
            )].contains(id) by {
            if prev.bills.contains_key(id) && cur.bills[id] == prev.bills[id] {
                assert(prev.currencies[(prev.bills[id].owner, prev.bills[id].currency)].contains(id));
            }
        }
    }
}

/// What a bill adds to `owner`'s unpaid total, read from its contents.
pub open spec fn owed_view(owner: Address) -> spec_fn(BillView) -> int {
    |b: BillView| if !b.paid && b.owner == owner { b.amount as int } else { 0 }
}

/// The contents of the entries of a bill store.
pub open spec fn bill_views(s: Seq<(u32, Bill)>) -> Seq<(u32, BillView)> {
    s.map_values(|e: (u32, Bill)| (e.0, e.1@))
}

/// The contents of sorted bill entries are sorted, stand for the contents
/// of the store, and carry the same unpaid sums.
proof fn lemma_bill_views(s: Seq<(u32, Bill)>)
    requires
        ids_sorted(s),
    ensures
        ids_sorted(bill_views(s)),
        id_map_of(bill_views(s)) == views_of(id_map_of(s)),
        forall|o: Address| #[trigger] unpaid_sum(s, o) == sum_values(bill_views(s), owed_view(o)),
    decreases s.len(),
{
    let v = bill_views(s);
    assert(ids_sorted(v)) by {
        assert forall|i: int, j: int| 0 <= i < j < v.len() implies v[i].0 < v[j].0 by {
            assert(v[i].0 == s[i].0 && v[j].0 == s[j].0);
        }
    }
    assert forall|x: u32| #[trigger] id_map_of(v).contains_key(x) implies views_of(id_map_of(s)).contains_key(x)
        && id_map_of(v)[x] == views_of(id_map_of(s))[x] by {
        lemma_id_map_has(v, x);
        let i = crate::maps::id_pos(v, x);
        assert(s[i].0 == x);
        lemma_id_map_at(s, i);
        lemma_id_map_at(v, i);
    }
    assert forall|x: u32| #[trigger] views_of(id_map_of(s)).contains_key(x) implies id_map_of(v).contains_key(x) by {
        lemma_id_map_has(s, x);
        let i = crate::maps::id_pos(s, x);
        assert(v[i].0 == x);
        lemma_id_map_at(v, i);
    }
    assert(id_map_of(v) =~= views_of(id_map_of(s)));
    if s.len() > 0 {
        let d = s.drop_last();
        assert(ids_sorted(d));
        lemma_bill_views(d);
        assert(bill_views(d) =~= v.drop_last());
        assert forall|o: Address| #[trigger] unpaid_sum(s, o) == sum_values(v, owed_view(o)) by {
            assert(unpaid_sum(s, o) == unpaid_sum(d, o) + owed_by(o)(s.last().1));
            assert(sum_values(v, owed_view(o)) == sum_values(v.drop_last(), owed_view(o)) + owed_view(o)(v.last().1));
        }
    }
}

/// A batch payment's sums: following it over sorted contents, each
/// owner's unpaid sum moves by the batch's running delta for the caller
/// and not at all for anyone else.
proof fn lemma_batch_fold_sums(init: BatchAcc, caller: Address, ids: Seq<u32>, now: u64, t0: Seq<(u32, BillView)>) -> (t:
    Seq<(u32, BillView)>)
    requires
        ids_sorted(t0),
        id_map_of(t0) == init.bills,
        init.delta == 0,
        !batch_fold(init, caller, ids, now).failed,
        forall|id: u32| #[trigger] init.bills.contains_key(id) ==> id <= init.next_id,
        init.next_id + ids.len() <= u32::MAX,
        forall|id: u32|
            #[trigger] init.bills.contains_key(id) && init.bills[id].owner == caller && !init.bills[id].paid
                ==> init.bills[id].amount >= 0,
        sum_values(t0, owed_view(caller)) <= i128::MAX,
    ensures
        ({
            let acc = batch_fold(init, caller, ids, now);
            &&& ids_sorted(t)
            &&& id_map_of(t) == acc.bills
            &&& acc.delta <= 0
            &&& sum_values(t, owed_view(caller)) >= 0
            &&& forall|o: Address| #[trigger] sum_values(t, owed_view(o)) == sum_values(t0, owed_view(o)) + if o
                == caller {
                acc.delta as int
            } else {
                0
            }
            &&& forall|id: u32| #[trigger] acc.bills.contains_key(id) ==> id <= acc.next_id
            &&& acc.next_id <= init.next_id + ids.len()
            &&& forall|id: u32|
                #[trigger] acc.bills.contains_key(id) && acc.bills[id].owner == caller && !acc.bills[id].paid
                    ==> acc.bills[id].amount >= 0
        }),
    decreases ids.len(),
{
    let acc = batch_fold(init, caller, ids, now);
    if ids.len() == 0 {
        assert forall|i: int| 0 <= i < t0.len() implies owed_view(caller)(#[trigger] t0[i].1) >= 0 by {
            lemma_id_map_at(t0, i);
        }
        lemma_sum_nonneg(t0, owed_view(caller));
        t0
    } else {
        let prev = batch_fold(init, caller, ids.drop_last(), now);
        assert(!prev.failed);
        let tp = lemma_batch_fold_sums(init, caller, ids.drop_last(), now, t0);
        let id = ids.last();
        let b = prev.bills[id];
        assert(acc == batch_step(prev, caller, id, now));
        let t = if prev.failed || !prev.bills.contains_key(id) || b.owner != caller || b.paid {
            tp
        } else if b.recurring {
            let child = (prev.next_id + 1) as u32;
            let due = next_recurring_due(b.due_date, b.frequency_days, now)->Some_0;
            let cv = child_view(b, child, due, now);
            let pv = paid_view(b, now);
            assert(!prev.bills.contains_key(child));
            let mid = insert_entry(tp, child, cv);
            lemma_insert_entry(tp, child, cv, owed_view(caller));
            lemma_replace_entry(mid, id, pv);
            let t = replace_entry(mid, id, pv);
            assert forall|o: Address| #[trigger] sum_values(t, owed_view(o)) == sum_values(tp, owed_view(o)) by {
                lemma_insert_entry(tp, child, cv, owed_view(o));
                lemma_sum_update(mid, t, id, pv, owed_view(o));
            }
            assert(id_map_of(t) =~= acc.bills);
            t
        } else {
            let pv = paid_view(b, now);
            lemma_replace_entry(tp, id, pv);
            let t = replace_entry(tp, id, pv);
            assert forall|o: Address| #[trigger] sum_values(t, owed_view(o)) == sum_values(tp, owed_view(o)) - if o
                == caller {
                b.amount as int
            } else {
                0
            } by {
                lemma_sum_update(tp, t, id, pv, owed_view(o));
            }
            t
        };
        assert forall|i: int| 0 <= i < t.len() implies owed_view(caller)(#[trigger] t[i].1) >= 0 by {
            lemma_id_map_at(t, i);
        }
        lemma_sum_nonneg(t, owed_view(caller));
        t
    }
}

/// A batch payment takes the amount of every one-off bill it pays off its
/// owner's recorded unpaid total, and a paid recurring bill's successor
/// puts it back: if every owner's recorded unpaid total was the sum of
/// their unpaid bills before, it still is after. This holds for a store
/// whose bill ids do not exceed the last id handed out, with room for the
/// batch's new ids, and whose caller's unpaid bills are not of negative
/// amounts.
pub proof fn lemma_batch_keeps_totals(before: BillPayments, after: BillPayments, caller: Address, ids: Seq<u32>, now: u64)
    requires
        before.wf(),
        after.wf(),
        before.totals_consistent(),
        forall|id: u32| #[trigger] before.bills@.contains_key(id) ==> id <= before.next_id,
        before.next_id + ids.len() <= u32::MAX,
        forall|id: u32|
            #[trigger] before.bills@.contains_key(id) && before.bills@[id].owner == caller && !before.bills@[id].paid
                ==> before.bills@[id].amount >= 0,
        !batch_fold(before.batch_init(), caller, ids, now).failed,
        views_of(after.bills@) == batch_fold(before.batch_init(), caller, ids, now).bills,
        after.totals() == adjust_totals(before.totals(), caller, batch_fold(before.batch_init(), caller, ids, now).delta),
    ensures
        after.totals_consistent(),
{
    let init = before.batch_init();
    let acc = batch_fold(init, caller, ids, now);
    let t0 = bill_views(before.bills.entries@);
    lemma_bill_views(before.bills.entries@);
    lemma_bill_views(after.bills.entries@);
    assert(recorded_unpaid(before.totals(), caller) == unpaid_sum(before.bills.entries@, caller));
    assert(unpaid_sum(before.bills.entries@, caller) == sum_values(t0, owed_view(caller)));
    let t = lemma_batch_fold_sums(init, caller, ids, now, t0);
    lemma_sorted_unique(bill_views(after.bills.entries@), t);
    assert forall|o: Address| #[trigger] recorded_unpaid(after.totals(), o) == unpaid_sum(after.bills.entries@, o) by {
        assert(recorded_unpaid(before.totals(), o) == unpaid_sum(before.bills.entries@, o));
        assert(unpaid_sum(before.bills.entries@, o) == sum_values(t0, owed_view(o)));
        assert(unpaid_sum(after.bills.entries@, o) == sum_values(t, owed_view(o)));
        assert(sum_values(t, owed_view(caller)) == sum_values(t0, owed_view(caller)) + acc.delta);
        lemma_adjust_totals(before.totals(), caller, acc.delta, o);
    }
}

} // verus!
