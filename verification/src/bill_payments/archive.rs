//! Moving paid bills into the archive, back out of it, and purging old
//! archived bills.
use super::state::{
    index_add, index_added, index_ids, index_remove, lists_ascending, BillPayments, SECONDS_PER_DAY,
};
use super::types::{
    copy_bytes, copy_opt_bytes, copy_texts, opt_view, ArchivedBill, ArchivedBillView, Bill,
    BillPaymentsError, BillView, PausableFunction,
};
use crate::address::Address;
use crate::ids::{ascending, lemma_ascending_set_len, lemma_filter_ne_to_set};
use crate::maps::{id_map_of, ids_sorted, lemma_id_map_at, lemma_id_map_has, list_of};
use vstd::prelude::*;

verus! {

/// A bill that an archive run with `before` moves: paid, at a time before `before`.
pub open spec fn archivable(b: BillView, before: u64) -> bool {
    b.paid && (b.paid_at matches Some(p) && p < before)
}

/// The archived record of bill `b`, archived at `now`.
pub open spec fn archived_record(b: BillView, now: u64) -> ArchivedBillView {
    ArchivedBillView {
        id: b.id,
        owner: b.owner,
        name: b.name,
        external_ref: b.external_ref,
        amount: b.amount,
        paid_at: b.paid_at->Some_0,
        archived_at: now,
        tags: b.tags,
        currency: b.currency,
    }
}

/// The contents of every archived bill.
pub open spec fn archived_views(m: Map<u32, ArchivedBill>) -> Map<u32, ArchivedBillView> {
    m.map_values(|a: ArchivedBill| a@)
}

/// The ids among `sel` of bills owned by `o`.
pub open spec fn owned_by(bills: Map<u32, Bill>, sel: Set<u32>, o: Address) -> Set<u32> {
    sel.filter(|x: u32| bills[x].owner == o)
}

/// The ids among `sel` of bills owned by `k.0` in currency `k.1`.
pub open spec fn owned_in_currency(bills: Map<u32, Bill>, sel: Set<u32>, k: (Address, Seq<u8>)) -> Set<u32> {
    sel.filter(|x: u32| bills[x].owner == k.0 && bills[x].currency@ == k.1)
}

/// The external references held by the bills of `sel`.
pub open spec fn released_refs(bills: Map<u32, Bill>, sel: Set<u32>) -> Set<(Address, Seq<u8>)> {
    Set::new(
        |k: (Address, Seq<u8>)|
            exists|x: u32| #[trigger] sel.contains(x) && bills[x].owner == k.0 && opt_view(bills[x].external_ref) == Some(k.1),
    )
}

/// `old` with the bills of `sel` archived at `now`.
pub open spec fn archived_with(
    old: Map<u32, ArchivedBillView>,
    bills: Map<u32, Bill>,
    sel: Set<u32>,
    now: u64,
) -> Map<u32, ArchivedBillView> {
    old.union_prefer_right(Map::new(|x: u32| sel.contains(x), |x: u32| archived_record(bills[x]@, now)))
}

/// The ids of the archivable entries of `s`.
pub open spec fn archivable_in(s: Seq<(u32, Bill)>, before: u64) -> Set<u32> {
    Set::new(|id: u32| exists|j: int| 0 <= j < s.len() && s[j].0 == id && archivable(s[j].1@, before))
}

impl BillPayments {
    /// The bills an archive run with `before` moves.
    pub open spec fn archive_selection(&self, before: u64) -> Set<u32> {
        Set::new(|id: u32| self.bills@.contains_key(id) && archivable(self.bills@[id]@, before))
    }

    /// Archive the paid bill `b`, stored under `id`, at `now`.
    fn archive_one(&mut self, id: u32, b: &Bill, now: u64)
        requires
            old(self).wf(),
            b.paid_at is Some,
        ensures
            final(self).wf(),
            final(self).ext_refs@ == match opt_view(b.external_ref) {
                Some(r) => old(self).ext_refs@.remove((b.owner, r)),
                None => old(self).ext_refs@,
            },
            archived_views(final(self).archived@) == archived_views(old(self).archived@).insert(
                id,
                archived_record(b@, now),
            ),
            final(self).archived.entries@.len() <= old(self).archived.entries@.len() + 1,
            forall|o: Address| #![trigger list_of(final(self).owner_index@, o)]
                list_of(final(self).owner_index@, o).to_set() == if o == b.owner {
                    list_of(old(self).owner_index@, o).to_set().remove(id)
                } else {
                    list_of(old(self).owner_index@, o).to_set()
                },
            forall|o: Address| #![trigger list_of(final(self).archive_index@, o)]
                list_of(final(self).archive_index@, o).to_set() == if o == b.owner {
                    list_of(old(self).archive_index@, o).to_set().insert(id)
                } else {
                    list_of(old(self).archive_index@, o).to_set()
                },
            forall|k: (Address, Seq<u8>)| #![trigger list_of(final(self).currency_index@, k)]
                list_of(final(self).currency_index@, k).to_set() == if k == (b.owner, b.currency@) {
                    list_of(old(self).currency_index@, k).to_set().remove(id)
                } else {
                    list_of(old(self).currency_index@, k).to_set()
                },
            *final(self) == (BillPayments {
                ext_refs: final(self).ext_refs,
                archived: final(self).archived,
                owner_index: final(self).owner_index,
                archive_index: final(self).archive_index,
                currency_index: final(self).currency_index,
                ..*old(self)
            }),
    {
        if let Some(r) = &b.external_ref {
            self.release_external_ref(b.owner, r);
        }
        let paid_at = match b.paid_at {
            Some(p) => p,
            None => 0,
        };
        let record = ArchivedBill {
            id: b.id,
            owner: b.owner,
            name: copy_bytes(&b.name),
            external_ref: copy_opt_bytes(&b.external_ref),
            amount: b.amount,
            paid_at,
            archived_at: now,
            tags: copy_texts(&b.tags),
            currency: copy_bytes(&b.currency),
        };
        let ghost a0 = self.archived@;
        self.archived.set(id, record);
        assert(archived_views(self.archived@) =~= archived_views(a0).insert(id, archived_record(b@, now)));
        let ghost oi0 = self.owner_index@;
        let ghost ai0 = self.archive_index@;
        let ghost ci0 = self.currency_index@;
        index_remove(&mut self.owner_index, &b.owner, id);
        index_add(&mut self.archive_index, b.owner, id);
        index_remove(&mut self.currency_index, &(b.owner, copy_bytes(&b.currency)), id);
        proof {
            lemma_filter_ne_to_set(list_of(oi0, b.owner), id);
            lemma_filter_ne_to_set(list_of(ci0, (b.owner, b.currency@)), id);
            assert forall|o: Address| #![trigger list_of(self.archive_index@, o)]
                o != b.owner implies list_of(self.archive_index@, o) == list_of(ai0, o) by {}
        }
    }

    /// Archive, at `now`, every paid bill whose payment time is before
    /// `before`; returns how many were archived.
    #[verifier::rlimit(40)]
    pub fn archive_paid_bills(&mut self, before: u64, now: u64) -> (r: Result<u32, BillPaymentsError>)
        requires
            old(self).wf(),
            old(self).bills.entries@.len() + old(self).archived.entries@.len() <= u32::MAX,
        ensures
            final(self).wf(),
            match old(self).pause_error(PausableFunction::Archive) {
                Some(e) => r == Err::<u32, BillPaymentsError>(e) && *final(self) == *old(self),
                None => {
                    let sel = old(self).archive_selection(before);
                    let bills = old(self).bills@;
                    &&& r == Ok::<u32, BillPaymentsError>(sel.len() as u32)
                    &&& final(self).bills@ == bills.remove_keys(sel)
                    &&& archived_views(final(self).archived@) == archived_with(
                        archived_views(old(self).archived@),
                        bills,
                        sel,
                        now,
                    )
                    &&& final(self).ext_refs@ == old(self).ext_refs@.remove_keys(released_refs(bills, sel))
                    &&& (forall|o: Address| #![trigger list_of(final(self).owner_index@, o)]
                        list_of(final(self).owner_index@, o).to_set() == list_of(old(self).owner_index@, o).to_set()
                            - owned_by(bills, sel, o))
                    &&& (forall|o: Address| #![trigger list_of(final(self).archive_index@, o)]
                        list_of(final(self).archive_index@, o).to_set() == list_of(
                            old(self).archive_index@,
                            o,
                        ).to_set() + owned_by(bills, sel, o))
                    &&& (forall|k: (Address, Seq<u8>)| #![trigger list_of(final(self).currency_index@, k)]
                        list_of(final(self).currency_index@, k).to_set() == list_of(
                            old(self).currency_index@,
                            k,
                        ).to_set() - owned_in_currency(bills, sel, k))
                    &&& final(self).stats == Some(final(self).stats_at(now))
                    &&& *final(self) == (BillPayments {
                        bills: final(self).bills,
                        archived: final(self).archived,
                        ext_refs: final(self).ext_refs,
                        owner_index: final(self).owner_index,
                        archive_index: final(self).archive_index,
                        currency_index: final(self).currency_index,
                        stats: final(self).stats,
                        ..*old(self)
                    })
                },
            },
    {
        if let Err(e) = self.require_not_paused(PausableFunction::Archive) {
            return Err(e);
        }
        let ghost bills = old(self).bills@;
        let ghost es = old(self).bills.entries@;
        let n = self.bills.entries.len();
        let mut sel: Vec<u32> = Vec::new();
        let mut i: usize = 0;
        assert(es.subrange(0, 0) =~= Seq::<(u32, Bill)>::empty());
        assert(archivable_in(Seq::<(u32, Bill)>::empty(), before) =~= Set::<u32>::empty());
        assert(old(self).ext_refs@.remove_keys(released_refs(bills, Set::empty())) =~= old(self).ext_refs@);
        assert(archived_with(archived_views(old(self).archived@), bills, Set::empty(), now) =~= archived_views(
            old(self).archived@,
        ));
        while i < n
            invariant
                self.wf(),
                self.bills == old(self).bills,
                es == old(self).bills.entries@,
                ids_sorted(es),
                bills == id_map_of(es),
                n == es.len(),
                i <= n,
                self.archived.entries@.len() <= old(self).archived.entries@.len() + i,
                ({
                    let si = archivable_in(es.subrange(0, i as int), before);
                    &&& sel@.to_set() == si
                    &&& ascending(sel@)
                    &&& sel@.len() <= i
                    &&& (forall|k: int, j: int| 0 <= k < sel@.len() && i <= j < n ==> sel@[k] < es[j].0)
                    &&& (forall|x: u32| si.contains(x) ==> bills.contains_key(x) && archivable(bills[x]@, before))
                    &&& self.ext_refs@ == old(self).ext_refs@.remove_keys(released_refs(bills, si))
                    &&& archived_views(self.archived@) == archived_with(archived_views(old(self).archived@), bills, si, now)
                    &&& (forall|o: Address| #![trigger list_of(self.owner_index@, o)]
                        list_of(self.owner_index@, o).to_set() == list_of(old(self).owner_index@, o).to_set()
                            - owned_by(bills, si, o))
                    &&& (forall|o: Address| #![trigger list_of(self.archive_index@, o)]
                        list_of(self.archive_index@, o).to_set() == list_of(old(self).archive_index@, o).to_set()
                            + owned_by(bills, si, o))
                    &&& (forall|k: (Address, Seq<u8>)| #![trigger list_of(self.currency_index@, k)]
                        list_of(self.currency_index@, k).to_set() == list_of(old(self).currency_index@, k).to_set()
                            - owned_in_currency(bills, si, k))
                }),
                *self == (BillPayments {
                    archived: self.archived,
                    ext_refs: self.ext_refs,
                    owner_index: self.owner_index,
                    archive_index: self.archive_index,
                    currency_index: self.currency_index,
                    ..*old(self)
                }),
            decreases n - i,
        {
            let ghost p0 = es.subrange(0, i as int);
            let ghost p1 = es.subrange(0, i as int + 1);
            let ghost si = archivable_in(p0, before);
            let id = self.bills.entries[i].0;
            let b = self.bills.entries[i].1.copy();
            proof {
                lemma_id_map_at(es, i as int);
                assert(p1 =~= p0.push(es[i as int]));
            }
            let take = match b.paid_at {
                Some(p) => b.paid && p < before,
                None => false,
            };
            if take {
                let ghost s1 = si.insert(id);
                assert(archivable_in(p1, before) =~= s1) by {
                    assert forall|x: u32| #[trigger] s1.contains(x) implies archivable_in(
                        p1,
                        before,
                    ).contains(x) by {
                        if x == id {
                            assert(p1[i as int] == es[i as int]);
                        } else {
                            let j = choose|j: int| 0 <= j < i && p0[j].0 == x && archivable(
                                p0[j].1@,
                                before,
                            );
                            assert(p1[j] == p0[j]);
                        }
                    }
                    assert forall|x: u32| #[trigger] archivable_in(p1, before).contains(x)
                        implies s1.contains(x) by {
                        let j = choose|j: int| 0 <= j < i + 1 && p1[j].0 == x
                            && archivable(p1[j].1@, before);
                        if j < i {
                            assert(p0[j] == p1[j]);
                        }
                    }
                }
                let ghost er0 = self.ext_refs@;
                let ghost ar0 = archived_views(self.archived@);
                let ghost oi0 = self.owner_index@;
                let ghost ai0 = self.archive_index@;
                let ghost ci0 = self.currency_index@;
                self.archive_one(id, &b, now);
                proof {
                    assert(self.ext_refs@ =~= old(self).ext_refs@.remove_keys(released_refs(bills, s1))) by {
                        assert forall|k: (Address, Seq<u8>)| #![trigger released_refs(bills, s1).contains(k)]
                            released_refs(bills, s1).contains(k) == (
                        released_refs(bills, si).contains(k) || (b.owner == k.0 && opt_view(b.external_ref) == Some(
                            k.1,
                        ))) by {
                            if released_refs(bills, s1).contains(k) {
                                let x = choose|x: u32| #[trigger] s1.contains(x) && bills[x].owner == k.0 && opt_view(
                                    bills[x].external_ref,
                                ) == Some(k.1);
                                if x != id {
                                    assert(si.contains(x));
                                }
                            }
                            if b.owner == k.0 && opt_view(b.external_ref) == Some(k.1) {
                                assert(s1.contains(id));
                            }
                            if released_refs(bills, si).contains(k) {
                                let x = choose|x: u32| #[trigger] si.contains(x) && bills[x].owner == k.0 && opt_view(
                                    bills[x].external_ref,
                                ) == Some(k.1);
                                assert(s1.contains(x));
                            }
                        }
                    }
                    assert(archived_views(self.archived@) =~= archived_with(
                        archived_views(old(self).archived@),
                        bills,
                        s1,
                        now,
                    ));
                    assert forall|o: Address| #![trigger list_of(self.owner_index@, o)]
                        list_of(self.owner_index@, o).to_set() == list_of(old(self).owner_index@, o).to_set()
                            - owned_by(bills, s1, o) by {
                        assert(list_of(oi0, o).to_set() == list_of(old(self).owner_index@, o).to_set() - owned_by(
                            bills,
                            si,
                            o,
                        ));
                        if o == b.owner {
                            assert(owned_by(bills, s1, o) =~= owned_by(bills, si, o).insert(id));
                        } else {
                            assert(owned_by(bills, s1, o) =~= owned_by(bills, si, o));
                        }
                        assert(list_of(self.owner_index@, o).to_set() =~= list_of(old(self).owner_index@, o).to_set()
                            - owned_by(bills, s1, o));
                    }
                    assert forall|o: Address| #![trigger list_of(self.archive_index@, o)]
                        list_of(self.archive_index@, o).to_set() == list_of(old(self).archive_index@, o).to_set()
                            + owned_by(bills, s1, o) by {
                        assert(list_of(ai0, o).to_set() == list_of(old(self).archive_index@, o).to_set() + owned_by(
                            bills,
                            si,
                            o,
                        ));
                        if o == b.owner {
                            assert(owned_by(bills, s1, o) =~= owned_by(bills, si, o).insert(id));
                        } else {
                            assert(owned_by(bills, s1, o) =~= owned_by(bills, si, o));
                        }
                        assert(list_of(self.archive_index@, o).to_set() =~= list_of(old(self).archive_index@, o).to_set()
                            + owned_by(bills, s1, o));
                    }
                    assert forall|k: (Address, Seq<u8>)| #![trigger list_of(self.currency_index@, k)]
                        list_of(self.currency_index@, k).to_set() == list_of(old(self).currency_index@, k).to_set()
                            - owned_in_currency(bills, s1, k) by {
                        assert(list_of(ci0, k).to_set() == list_of(old(self).currency_index@, k).to_set()
                            - owned_in_currency(bills, si, k));
                        if k == (b.owner, b.currency@) {
                            assert(owned_in_currency(bills, s1, k) =~= owned_in_currency(bills, si, k).insert(id));
                        } else {
                            assert(owned_in_currency(bills, s1, k) =~= owned_in_currency(bills, si, k));
                        }
                        assert(list_of(self.currency_index@, k).to_set() =~= list_of(old(self).currency_index@, k).to_set()
                            - owned_in_currency(bills, s1, k));
                    }
                    assert forall|k: int, j: int| 0 <= k < sel@.len() && i + 1 <= j < n implies sel@[k] < es[j].0 by {
                        assert(sel@[k] < es[j].0);
                    }
                }
                let ghost sel0 = sel@;
                sel.push(id);
                proof {
                    crate::ids::lemma_push_to_set(sel0, id);
                    assert(sel@.to_set() =~= s1);
                    assert forall|k: int, j: int| 0 <= k < sel@.len() && i + 1 <= j < n implies sel@[k] < es[j].0 by {
                        if k == sel@.len() - 1 {
                            assert(es[i as int].0 < es[j].0);
                        }
                    }
                }
            } else {
                assert(archivable_in(p1, before) =~= si) by {
                    assert forall|x: u32| #[trigger] archivable_in(p1, before).contains(x)
                        implies si.contains(x) by {
                        let j = choose|j: int| 0 <= j < i + 1 && p1[j].0 == x
                            && archivable(p1[j].1@, before);
                        if j < i {
                            assert(p0[j] == p1[j]);
                        }
                    }
                    assert forall|x: u32| #[trigger] si.contains(x) implies archivable_in(
                        p1,
                        before,
                    ).contains(x) by {
                        let j = choose|j: int| 0 <= j < i && p0[j].0 == x && archivable(
                            p0[j].1@,
                            before,
                        );
                        assert(p1[j] == p0[j]);
                    }
                }
            }
            i = i + 1;
        }
        let ghost sfin = archivable_in(es.subrange(0, n as int), before);
        assert(sfin =~= old(self).archive_selection(before)) by {
            assert(es.subrange(0, n as int) =~= es);
            assert forall|x: u32| #[trigger] old(self).archive_selection(before).contains(x) implies sfin.contains(x) by {
                lemma_id_map_has(es, x);
                let j = crate::maps::id_pos(es, x);
                lemma_id_map_at(es, j);
                assert(es.subrange(0, n as int)[j] == es[j]);
            }
        }
        proof {
            lemma_ascending_set_len(sel@);
        }
        let count = sel.len() as u32;
        let ghost mid = *self;
        let mut j: usize = 0;
        while j < sel.len()
            invariant
                self.wf(),
                j <= sel@.len(),
                self.bills@ == bills.remove_keys(sel@.subrange(0, j as int).to_set()),
                self.bills.entries@.len() <= es.len(),
                self.archived.entries@.len() <= old(self).archived.entries@.len() + n,
                *self == (BillPayments { bills: self.bills, ..mid }),
            decreases sel@.len() - j,
        {
            proof {
                crate::ids::lemma_push_to_set(sel@.subrange(0, j as int), sel@[j as int]);
                assert(sel@.subrange(0, j as int + 1) =~= sel@.subrange(0, j as int).push(sel@[j as int]));
            }
            self.bills.remove(sel[j]);
            assert(self.bills@ =~= bills.remove_keys(sel@.subrange(0, j as int + 1).to_set()));
            j = j + 1;
        }
        assert(sel@.subrange(0, j as int) =~= sel@);
        self.update_storage_stats(now);
        Ok(count)
    }

    /// Why `restore_bill` refuses these inputs, if it does.
    pub open spec fn restore_error(&self, caller: Address, bill_id: u32) -> Option<BillPaymentsError> {
        let a = self.archived@[bill_id]@;
        if self.pause_error(PausableFunction::Restore) is Some {
            self.pause_error(PausableFunction::Restore)
        } else if !self.archived@.contains_key(bill_id) {
            Some(BillPaymentsError::BillNotFound)
        } else if a.owner != caller {
            Some(BillPaymentsError::Unauthorized)
        } else if a.external_ref matches Some(r) && (self.ext_ref_holder(caller, r) matches Some(h) && h != bill_id) {
            Some(BillPaymentsError::DuplicateExternalRef)
        } else {
            None
        }
    }

    /// Bring `caller`'s archived bill `bill_id` back as an active, paid,
    /// one-off bill due a day after `now`.
    pub fn restore_bill(&mut self, caller: Address, bill_id: u32, now: u64) -> (r: Result<(), BillPaymentsError>)
        requires
            old(self).wf(),
            now + SECONDS_PER_DAY <= u64::MAX,
            old(self).bills.entries@.len() < u32::MAX,
            old(self).archived.entries@.len() <= u32::MAX,
        ensures
            final(self).wf(),
            match old(self).restore_error(caller, bill_id) {
                Some(e) => r == Err::<(), BillPaymentsError>(e) && *final(self) == *old(self),
                None => {
                    let a = old(self).archived@[bill_id]@;
                    &&& r is Ok
                    &&& final(self).bills@ == old(self).bills@.insert(bill_id, final(self).bills@[bill_id])
                    &&& final(self).bills@[bill_id]@ == restored_view(a, now)
                    &&& final(self).archived@ == old(self).archived@.remove(bill_id)
                    &&& final(self).ext_refs@ == match a.external_ref {
                        Some(x) => old(self).ext_refs@.insert((caller, x), bill_id),
                        None => old(self).ext_refs@,
                    }
                    &&& (forall|o: Address| #![trigger list_of(final(self).archive_index@, o)]
                        list_of(final(self).archive_index@, o) == if o == caller {
                            list_of(old(self).archive_index@, o).filter(|y: u32| y != bill_id)
                        } else {
                            list_of(old(self).archive_index@, o)
                        })
                    &&& index_added(old(self).owner_index@, final(self).owner_index@, caller, bill_id)
                    &&& index_added(old(self).currency_index@, final(self).currency_index@, (caller, a.currency), bill_id)
                    &&& final(self).stats == Some(final(self).stats_at(now))
                    &&& *final(self) == (BillPayments {
                        bills: final(self).bills,
                        archived: final(self).archived,
                        ext_refs: final(self).ext_refs,
                        owner_index: final(self).owner_index,
                        archive_index: final(self).archive_index,
                        currency_index: final(self).currency_index,
                        stats: final(self).stats,
                        ..*old(self)
                    })
                },
            },
    {
        if let Err(e) = self.require_not_paused(PausableFunction::Restore) {
            return Err(e);
        }
        let a = match self.archived.get(bill_id) {
            Some(a) => a.copy(),
            None => {
                return Err(BillPaymentsError::BillNotFound);
            },
        };
        if a.owner != caller {
            return Err(BillPaymentsError::Unauthorized);
        }
        if let Some(x) = &a.external_ref {
            if let Err(e) = self.claim_external_ref(caller, x, bill_id) {
                return Err(e);
            }
        }
        let restored = Bill {
            id: a.id,
            owner: a.owner,
            name: copy_bytes(&a.name),
            external_ref: copy_opt_bytes(&a.external_ref),
            amount: a.amount,
            due_date: now + SECONDS_PER_DAY,
            recurring: false,
            frequency_days: 0,
            paid: true,
            created_at: now,
            paid_at: Some(a.paid_at),
            schedule_id: None,
            tags: copy_texts(&a.tags),
            currency: copy_bytes(&a.currency),
        };
        self.bills.set(bill_id, restored);
        self.archived.remove(bill_id);
        index_remove(&mut self.archive_index, &caller, bill_id);
        index_add(&mut self.owner_index, caller, bill_id);
        index_add(&mut self.currency_index, (caller, copy_bytes(&a.currency)), bill_id);
        self.update_storage_stats(now);
        Ok(())
    }

    /// The archived bills a purge with `before` deletes.
    pub open spec fn purge_selection(&self, before: u64) -> Set<u32> {
        Set::new(|id: u32| self.archived@.contains_key(id) && self.archived@[id].archived_at < before)
    }

    /// Delete, at `now`, every archived bill archived before `before`;
    /// returns how many were deleted.
    #[verifier::rlimit(40)]
    pub fn bulk_cleanup_bills(&mut self, before: u64, now: u64) -> (r: Result<u32, BillPaymentsError>)
        requires
            old(self).wf(),
            old(self).bills.entries@.len() <= u32::MAX,
            old(self).archived.entries@.len() <= u32::MAX,
        ensures
            final(self).wf(),
            match old(self).pause_error(PausableFunction::Archive) {
                Some(e) => r == Err::<u32, BillPaymentsError>(e) && *final(self) == *old(self),
                None => {
                    let sel = old(self).purge_selection(before);
                    let arch = old(self).archived@;
                    &&& r == Ok::<u32, BillPaymentsError>(sel.len() as u32)
                    &&& final(self).archived@ == arch.remove_keys(sel)
                    &&& final(self).ext_refs@ == old(self).ext_refs@.remove_keys(purged_refs(arch, sel))
                    &&& (forall|o: Address| #![trigger list_of(final(self).archive_index@, o)]
                        list_of(final(self).archive_index@, o).to_set() == list_of(
                            old(self).archive_index@,
                            o,
                        ).to_set() - sel.filter(|x: u32| arch[x].owner == o))
                    &&& final(self).stats == Some(final(self).stats_at(now))
                    &&& *final(self) == (BillPayments {
                        archived: final(self).archived,
                        ext_refs: final(self).ext_refs,
                        archive_index: final(self).archive_index,
                        stats: final(self).stats,
                        ..*old(self)
                    })
                },
            },
    {
        if let Err(e) = self.require_not_paused(PausableFunction::Archive) {
            return Err(e);
        }
        let ghost arch = old(self).archived@;
        let ghost es = old(self).archived.entries@;
        let n = self.archived.entries.len();
        let mut sel: Vec<u32> = Vec::new();
        let mut i: usize = 0;
        assert(purgeable_in(es.subrange(0, 0), before) =~= Set::<u32>::empty());
        assert(old(self).ext_refs@.remove_keys(purged_refs(arch, Set::empty())) =~= old(self).ext_refs@);
        while i < n
            invariant
                self.wf(),
                self.archived == old(self).archived,
                es == old(self).archived.entries@,
                ids_sorted(es),
                arch == id_map_of(es),
                n == es.len(),
                i <= n,
                ({
                    let si = purgeable_in(es.subrange(0, i as int), before);
                    &&& sel@.to_set() == si
                    &&& ascending(sel@)
                    &&& sel@.len() <= i
                    &&& (forall|k: int, j: int| 0 <= k < sel@.len() && i <= j < n ==> sel@[k] < es[j].0)
                    &&& (forall|x: u32| si.contains(x) ==> arch.contains_key(x) && arch[x].archived_at < before)
                    &&& self.ext_refs@ == old(self).ext_refs@.remove_keys(purged_refs(arch, si))
                    &&& (forall|o: Address| #![trigger list_of(self.archive_index@, o)]
                        list_of(self.archive_index@, o).to_set() == list_of(old(self).archive_index@, o).to_set()
                            - si.filter(|x: u32| arch[x].owner == o))
                }),
                *self == (BillPayments {
                    ext_refs: self.ext_refs,
                    archive_index: self.archive_index,
                    ..*old(self)
                }),
            decreases n - i,
        {
            let ghost p0 = es.subrange(0, i as int);
            let ghost p1 = es.subrange(0, i as int + 1);
            let ghost si = purgeable_in(p0, before);
            let id = self.archived.entries[i].0;
            let a = self.archived.entries[i].1.copy();
            proof {
                lemma_id_map_at(es, i as int);
                assert(p1 =~= p0.push(es[i as int]));
            }
            if a.archived_at < before {
                let ghost s1 = si.insert(id);
                assert(purgeable_in(p1, before) =~= s1) by {
                    assert forall|x: u32| #[trigger] s1.contains(x) implies purgeable_in(p1, before).contains(x) by {
                        if x == id {
                            assert(p1[i as int] == es[i as int]);
                        } else {
                            let j = choose|j: int| 0 <= j < i && p0[j].0 == x && p0[j].1.archived_at < before;
                            assert(p1[j] == p0[j]);
                        }
                    }
                    assert forall|x: u32| #[trigger] purgeable_in(p1, before).contains(x) implies s1.contains(x) by {
                        let j = choose|j: int| 0 <= j < i + 1 && p1[j].0 == x && p1[j].1.archived_at < before;
                        if j < i {
                            assert(p0[j] == p1[j]);
                        }
                    }
                }
                let ghost ai0 = self.archive_index@;
                if let Some(x) = &a.external_ref {
                    self.release_external_ref(a.owner, x);
                }
                index_remove(&mut self.archive_index, &a.owner, id);
                proof {
                    lemma_filter_ne_to_set(list_of(ai0, a.owner), id);
                    assert(self.ext_refs@ =~= old(self).ext_refs@.remove_keys(purged_refs(arch, s1))) by {
                        assert forall|k: (Address, Seq<u8>)| #![trigger purged_refs(arch, s1).contains(k)]
                            purged_refs(arch, s1).contains(k) == (purged_refs(arch, si).contains(k) || (a.owner == k.0
                                && opt_view(a.external_ref) == Some(k.1))) by {
                            if purged_refs(arch, s1).contains(k) {
                                let x = choose|x: u32| #[trigger] s1.contains(x) && arch[x].owner == k.0 && opt_view(
                                    arch[x].external_ref,
                                ) == Some(k.1);
                                if x != id {
                                    assert(si.contains(x));
                                }
                            }
                            if a.owner == k.0 && opt_view(a.external_ref) == Some(k.1) {
                                assert(s1.contains(id));
                            }
                            if purged_refs(arch, si).contains(k) {
                                let x = choose|x: u32| #[trigger] si.contains(x) && arch[x].owner == k.0 && opt_view(
                                    arch[x].external_ref,
                                ) == Some(k.1);
                                assert(s1.contains(x));
                            }
                        }
                    }
                    assert forall|o: Address| #![trigger list_of(self.archive_index@, o)]
                        list_of(self.archive_index@, o).to_set() == list_of(old(self).archive_index@, o).to_set()
                            - s1.filter(|x: u32| arch[x].owner == o) by {
                        assert(list_of(ai0, o).to_set() == list_of(old(self).archive_index@, o).to_set() - si.filter(
                            |x: u32| arch[x].owner == o,
                        ));
                        if o == a.owner {
                            assert(s1.filter(|x: u32| arch[x].owner == o) =~= si.filter(|x: u32| arch[x].owner == o).insert(
                                id,
                            ));
                        } else {
                            assert(s1.filter(|x: u32| arch[x].owner == o) =~= si.filter(|x: u32| arch[x].owner == o));
                        }
                        assert(list_of(self.archive_index@, o).to_set() =~= list_of(old(self).archive_index@, o).to_set()
                            - s1.filter(|x: u32| arch[x].owner == o));
                    }
                }
                let ghost sel0 = sel@;
                sel.push(id);
                proof {
                    crate::ids::lemma_push_to_set(sel0, id);
                    assert(sel@.to_set() =~= s1);
                    assert forall|k: int, j: int| 0 <= k < sel@.len() && i + 1 <= j < n implies sel@[k] < es[j].0 by {
                        if k == sel@.len() - 1 {
                            assert(es[i as int].0 < es[j].0);
                        } else {
                            assert(sel0[k] < es[j].0);
                        }
                    }
                }
            } else {
                assert(purgeable_in(p1, before) =~= si) by {
                    assert forall|x: u32| #[trigger] purgeable_in(p1, before).contains(x) implies si.contains(x) by {
                        let j = choose|j: int| 0 <= j < i + 1 && p1[j].0 == x && p1[j].1.archived_at < before;
                        if j < i {
                            assert(p0[j] == p1[j]);
                        }
                    }
                    assert forall|x: u32| #[trigger] si.contains(x) implies purgeable_in(p1, before).contains(x) by {
                        let j = choose|j: int| 0 <= j < i && p0[j].0 == x && p0[j].1.archived_at < before;
                        assert(p1[j] == p0[j]);
                    }
                }
            }
            i = i + 1;
        }
        let ghost sfin = purgeable_in(es.subrange(0, n as int), before);
        assert(sfin =~= old(self).purge_selection(before)) by {
            assert(es.subrange(0, n as int) =~= es);
            assert forall|x: u32| #[trigger] old(self).purge_selection(before).contains(x) implies sfin.contains(x) by {
                lemma_id_map_has(es, x);
                let j = crate::maps::id_pos(es, x);
                lemma_id_map_at(es, j);
                assert(es.subrange(0, n as int)[j] == es[j]);
            }
        }
        proof {
            lemma_ascending_set_len(sel@);
        }
        let count = sel.len() as u32;
        let ghost mid = *self;
        let mut j: usize = 0;
        while j < sel.len()
            invariant
                self.wf(),
                j <= sel@.len(),
                self.archived@ == arch.remove_keys(sel@.subrange(0, j as int).to_set()),
                self.archived.entries@.len() <= es.len(),
                *self == (BillPayments { archived: self.archived, ..mid }),
            decreases sel@.len() - j,
        {
            proof {
                crate::ids::lemma_push_to_set(sel@.subrange(0, j as int), sel@[j as int]);
                assert(sel@.subrange(0, j as int + 1) =~= sel@.subrange(0, j as int).push(sel@[j as int]));
            }
            self.archived.remove(sel[j]);
            assert(self.archived@ =~= arch.remove_keys(sel@.subrange(0, j as int + 1).to_set()));
            j = j + 1;
        }
        assert(sel@.subrange(0, j as int) =~= sel@);
        self.update_storage_stats(now);
        Ok(count)
    }
}

/// The active bill that restoring archived bill `a` at `now` creates.
pub open spec fn restored_view(a: ArchivedBillView, now: u64) -> BillView {
    BillView {
        id: a.id,
        owner: a.owner,
        name: a.name,
        external_ref: a.external_ref,
        amount: a.amount,
        due_date: (now + SECONDS_PER_DAY) as u64,
        recurring: false,
        frequency_days: 0,
        paid: true,
        created_at: now,
        paid_at: Some(a.paid_at),
        schedule_id: None,
        tags: a.tags,
        currency: a.currency,
    }
}

/// The ids of the entries of `s` archived before `before`.
pub open spec fn purgeable_in(s: Seq<(u32, ArchivedBill)>, before: u64) -> Set<u32> {
    Set::new(|id: u32| exists|j: int| 0 <= j < s.len() && s[j].0 == id && s[j].1.archived_at < before)
}

/// The external references held by the archived bills of `sel`.
pub open spec fn purged_refs(arch: Map<u32, ArchivedBill>, sel: Set<u32>) -> Set<(Address, Seq<u8>)> {
    Set::new(
        |k: (Address, Seq<u8>)|
            exists|x: u32| #[trigger] sel.contains(x) && arch[x].owner == k.0 && opt_view(arch[x].external_ref) == Some(k.1),
    )
}

} // verus!
