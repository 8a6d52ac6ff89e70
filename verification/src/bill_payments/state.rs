//! The bill-payment contract's stored state and the bookkeeping shared by
//! its operations: per-owner indexes, unpaid totals and pause checks.
use super::types::{
    ArchivedBill, Bill, BillSchedule, PausableFunction, PreUpgradeSnapshot, StorageStats,
};
use crate::address::Address;
use crate::ids::{ascending, copy_ids, insert_ascending, remove_id};
use crate::maps::{list_of, AddrMap, IdMap, KeyMap, MapKey};
use vstd::prelude::*;

verus! {

/// Most active bills one owner may hold.
pub const MAX_BILLS_PER_OWNER: u32 = 1_000;
/// Daily creation allowance per address.
pub const CREATE_BILL_RATE_LIMIT: u32 = 100;
/// Daily payment allowance per address.
pub const PAY_BILL_RATE_LIMIT: u32 = 200;
/// Daily cancellation allowance per address.
pub const CANCEL_BILL_RATE_LIMIT: u32 = 50;
/// Longest recurrence of a recurring bill, in days.
pub const MAX_FREQUENCY_DAYS: u32 = 36_500;
/// Seconds in a day.
pub const SECONDS_PER_DAY: u64 = 86_400;
/// Shortest interval of a recurring schedule, in seconds.
pub const MIN_SCHEDULE_INTERVAL: u64 = 3_600;
/// Farthest ahead a schedule may first fall due, in seconds.
pub const MAX_SCHEDULE_LEAD_TIME: u64 = 31_536_000;
/// Most active schedules one owner may hold.
pub const MAX_BILL_SCHEDULES_PER_OWNER: u32 = 50;
/// Most bills one batch payment may name.
pub const MAX_BATCH_SIZE: u32 = 50;
/// Version reported before any version is set.
pub const CONTRACT_VERSION: u32 = 1;
/// Schema version of pre-upgrade snapshots.
pub const SNAPSHOT_VERSION: u32 = 1;

/// Everything the bill-payment contract keeps in storage.
pub struct BillPayments {
    /// Active bills by id.
    pub bills: IdMap<Bill>,
    /// Archived bills by id.
    pub archived: IdMap<ArchivedBill>,
    /// The last bill id handed out.
    pub next_id: u32,
    /// Active bill ids per owner, ascending.
    pub owner_index: AddrMap<Vec<u32>>,
    /// Archived bill ids per owner, ascending.
    pub archive_index: AddrMap<Vec<u32>>,
    /// Active bill ids per owner and currency, ascending.
    pub currency_index: KeyMap<(Address, Vec<u8>), Vec<u32>>,
    /// Which bill holds each owner's external reference.
    pub ext_refs: KeyMap<(Address, Vec<u8>), u32>,
    /// Bill schedules by id.
    pub schedules: IdMap<BillSchedule>,
    /// The last schedule id handed out.
    pub next_schedule_id: u32,
    /// Live schedule ids per owner, in creation order.
    pub schedule_index: AddrMap<Vec<u32>>,
    /// Running unpaid total per owner, once any has been recorded.
    pub unpaid_totals: Option<AddrMap<i128>>,
    pub pause_admin: Option<Address>,
    pub upgrade_admin: Option<Address>,
    pub paused: bool,
    /// Earliest time an unpause is allowed, when one is scheduled.
    pub unpause_at: Option<u64>,
    /// Per-function pause flags.
    pub paused_functions: KeyMap<PausableFunction, bool>,
    /// The stored version, once one is set.
    pub version: Option<u32>,
    /// The pre-upgrade snapshot, when one is held.
    pub snapshot: Option<PreUpgradeSnapshot>,
    /// The last recorded storage statistics.
    pub stats: Option<StorageStats>,
}

/// Every list held by `m` is ascending.
pub open spec fn lists_ascending<K>(m: Map<K, Vec<u32>>) -> bool {
    forall|k: K| m.contains_key(k) ==> ascending(#[trigger] m[k]@)
}

/// `i128` addition clamped to the type's range.
pub open spec fn sat_add(a: i128, b: i128) -> i128 {
    if a + b > i128::MAX {
        i128::MAX
    } else if a + b < i128::MIN {
        i128::MIN
    } else {
        (a + b) as i128
    }
}

/// `i128` addition clamped to the type's range.
pub fn saturating_add_i128(a: i128, b: i128) -> (r: i128)
    ensures
        r == sat_add(a, b),
{
    match a.checked_add(b) {
        Some(v) => v,
        None => if b > 0 {
            i128::MAX
        } else {
            i128::MIN
        },
    }
}

/// The unpaid totals after adding `delta` to `owner`'s; a zero delta
/// changes nothing, not even whether totals are recorded.
pub open spec fn adjust_totals(t: Option<Map<Address, i128>>, owner: Address, delta: i128) -> Option<
    Map<Address, i128>,
> {
    if delta == 0 {
        t
    } else {
        let m = match t {
            Some(m) => m,
            None => Map::empty(),
        };
        let cur = if m.contains_key(owner) {
            m[owner]
        } else {
            0
        };
        Some(m.insert(owner, sat_add(cur, delta)))
    }
}

/// Filtering keeps elements of the list only, and keeps an ascending list ascending.
pub proof fn lemma_filter_ascending(s: Seq<u32>, p: spec_fn(u32) -> bool)
    ensures
        forall|i: int| 0 <= i < s.filter(p).len() ==> s.contains(#[trigger] s.filter(p)[i]),
        ascending(s) ==> ascending(s.filter(p)),
    decreases s.len(),
{
    reveal_with_fuel(Seq::<_>::filter, 1);
    if s.len() > 0 {
        let t = s.drop_last();
        lemma_filter_ascending(t, p);
        let f = t.filter(p);
        assert forall|i: int| 0 <= i < f.len() implies s.contains(f[i]) by {
            let q = choose|q: int| 0 <= q < t.len() && t[q] == f[i];
            assert(s[q] == f[i]);
        }
        if p(s.last()) {
            assert(s.filter(p) == f.push(s.last()));
            assert forall|i: int| 0 <= i < f.push(s.last()).len() implies s.contains(#[trigger] f.push(s.last())[i]) by {
                if i == f.len() {
                    assert(s[s.len() - 1] == s.last());
                } else {
                    assert(s.contains(f[i]));
                }
            }
            if ascending(s) {
                assert(ascending(t));
                assert forall|i: int, j: int| 0 <= i < j < f.push(s.last()).len() implies f.push(s.last())[i]
                    < f.push(s.last())[j] by {
                    if j == f.len() {
                        let q = choose|q: int| 0 <= q < t.len() && t[q] == f[i];
                        assert(s[q] < s[s.len() - 1]);
                    }
                }
            }
        } else {
            assert(s.filter(p) == f);
            if ascending(s) {
                assert(ascending(t));
            }
        }
    }
}

/// `new` is `old` with `id` added to the ascending list under `k`.
pub open spec fn index_added<K>(old: Map<K, Vec<u32>>, new: Map<K, Vec<u32>>, k: K, id: u32) -> bool {
    &&& new.contains_key(k)
    &&& new == old.insert(k, new[k])
    &&& ascending(new[k]@)
    &&& new[k]@.to_set() == list_of(old, k).to_set().insert(id)
}

/// The ids `m` holds under `k`.
pub fn index_ids<K: MapKey>(m: &KeyMap<K, Vec<u32>>, k: &K) -> (r: Vec<u32>)
    requires
        m.wf(),
    ensures
        r@ == list_of(m@, k.key_view()),
{
    match m.get(k) {
        Some(v) => copy_ids(v),
        None => Vec::new(),
    }
}

/// Add `id` to the ascending list under `k`.
pub fn index_add<K: MapKey>(m: &mut KeyMap<K, Vec<u32>>, k: K, id: u32)
    requires
        old(m).wf(),
        lists_ascending(old(m)@),
    ensures
        final(m).wf(),
        lists_ascending(final(m)@),
        index_added(old(m)@, final(m)@, k.key_view(), id),
{
    let cur = index_ids(m, &k);
    let next = insert_ascending(&cur, id);
    let ghost kv = k.key_view();
    m.set(k, next);
    assert(lists_ascending(m@)) by {
        assert forall|x: K::KeyView| m@.contains_key(x) implies ascending(#[trigger] m@[x]@) by {
            if x != kv {
                assert(old(m)@.contains_key(x));
            }
        }
    }
}

/// Drop `id` from the list under `k`; an emptied list leaves the map.
pub fn index_remove<K: MapKey>(m: &mut KeyMap<K, Vec<u32>>, k: &K, id: u32)
    requires
        old(m).wf(),
    ensures
        final(m).wf(),
        lists_ascending(old(m)@) ==> lists_ascending(final(m)@),
        forall|x: K::KeyView|
            #![trigger list_of(final(m)@, x)]
            list_of(final(m)@, x) == if x == k.key_view() {
                list_of(old(m)@, x).filter(|y: u32| y != id)
            } else {
                list_of(old(m)@, x)
            },
{
    let ghost kv = k.key_view();
    let cur = index_ids(m, k);
    let next = remove_id(&cur, id);
    proof {
        if lists_ascending(old(m)@) {
            lemma_filter_ascending(cur@, |y: u32| y != id);
        }
    }
    if next.len() == 0 {
        m.remove(k);
        assert(list_of(m@, kv) =~= next@);
    } else {
        m.set(k.key_clone(), next);
    }
    proof {
        if lists_ascending(old(m)@) {
            assert(lists_ascending(m@)) by {
                assert forall|x: K::KeyView| m@.contains_key(x) implies ascending(#[trigger] m@[x]@) by {
                    if x != kv {
                        assert(old(m)@.contains_key(x));
                    }
                }
            }
        }
    }
}

/// Each key's ids under `m`, as a set; an absent key has none.
pub open spec fn sets_of<K>(m: Map<K, Vec<u32>>) -> Map<K, Set<u32>> {
    Map::new(|k: K| true, |k: K| list_of(m, k).to_set())
}

/// Append `id` to the list under `k`, keeping the order of arrival.
pub fn index_push<K: MapKey>(m: &mut KeyMap<K, Vec<u32>>, k: K, id: u32)
    requires
        old(m).wf(),
    ensures
        final(m).wf(),
        final(m)@ == old(m)@.insert(k.key_view(), final(m)@[k.key_view()]),
        final(m)@[k.key_view()]@ == list_of(old(m)@, k.key_view()).push(id),
{
    let mut cur = index_ids(m, &k);
    cur.push(id);
    m.set(k, cur);
}

} // verus!
