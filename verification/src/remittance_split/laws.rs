//! Properties of the remittance-split contract that span several calls.
use super::distribution::{le_bytes, request_preimage, distribute_domain};
use super::ledger::push_bounded;
use super::schedules::{listed, ran, run_all, runs};
use super::snapshots::{checksum_of, first_schedule_error, snapshot_error};
use super::split::percentages_error;
use super::state::{RemittanceSplit, MAX_SCHEDULES_PER_OWNER, MAX_USED_NONCES_PER_ADDR, SCHEMA_VERSION};
use super::types::{DistributeUsdcRequest, ExportSnapshot, RemittanceSchedule, RemittanceSplitError, RequestAddressBits, SplitConfig};
use crate::address::Address;
use crate::bill_payments::execution::{catch_up, lemma_catch_up_least, sat_u32};
use vstd::prelude::*;

verus! {

/// Running schedules `1..=n` leaves none of them due at the same time.
pub(crate) proof fn lemma_run_all_leaves_none_due(m: Map<u32, RemittanceSchedule>, n: nat, now: u64)
    requires
        n <= u32::MAX,
    ensures
        forall|id: u32|
            1 <= id <= n && #[trigger] run_all(m, n, now).0.contains_key(id) ==> !runs(run_all(m, n, now).0[id], now),
    decreases n,
{
    if n > 0 {
        lemma_run_all_leaves_none_due(m, (n - 1) as nat, now);
        let r = run_all(m, (n - 1) as nat, now);
        let last = n as u32;
        assert forall|id: u32| 1 <= id <= n && #[trigger] run_all(m, n, now).0.contains_key(id) implies !runs(
            run_all(m, n, now).0[id],
            now,
        ) by {
            if id != last {
                assert(r.0.contains_key(id));
                assert(run_all(m, n, now).0[id] == r.0[id]);
            } else if r.0.contains_key(id) && runs(r.0[id], now) {
                assert(run_all(m, n, now).0[id] == ran(r.0[id], now));
            } else {
                assert(run_all(m, n, now).0[id] == r.0[id]);
            }
        }
    }
}

/// A run over schedules none of which is due changes nothing.
proof fn lemma_run_all_nothing_due(m: Map<u32, RemittanceSchedule>, k: nat, n: nat, now: u64)
    requires
        k <= n <= u32::MAX,
        forall|id: u32| 1 <= id <= n && #[trigger] m.contains_key(id) ==> !runs(m[id], now),
    ensures
        run_all(m, k, now) == (m, Seq::<u32>::empty()),
    decreases k,
{
    if k > 0 {
        lemma_run_all_nothing_due(m, (k - 1) as nat, n, now);
        assert(m.contains_key(k as u32) ==> !runs(m[k as u32], now));
    }
}

/// Running the due remittance schedules is idempotent: a second run at
/// the same time runs nothing and changes nothing.
pub proof fn lemma_remittance_execution_idempotent(m: Map<u32, RemittanceSchedule>, n: nat, now: u64)
    requires
        n <= u32::MAX,
    ensures
        run_all(run_all(m, n, now).0, n, now) == (run_all(m, n, now).0, Seq::<u32>::empty()),
{
    lemma_run_all_leaves_none_due(m, n, now);
    lemma_run_all_nothing_due(run_all(m, n, now).0, n, n, now);
}

/// A schedule that ran is not due again at the same time.
pub proof fn lemma_ran_not_due(s: RemittanceSchedule, now: u64)
    requires
        runs(s, now),
    ensures
        !runs(ran(s, now), now),
{
}

/// A consumed nonce cannot be used again: once `a` has consumed `nonce`,
/// presenting it again is refused as out of sequence, and it is among the
/// remembered used nonces.
pub proof fn lemma_consumed_nonce_rejected(before: RemittanceSplit, after: RemittanceSplit, a: Address, nonce: u64)
    requires
        before.nonce_of(a) == nonce,
        nonce < u64::MAX,
        after.nonces@ == before.nonces@.insert(a, (nonce + 1) as u64),
        after.used_nonces@ == before.used_nonces@.insert(a, after.used_nonces@[a]),
        after.used_nonces@[a]@ == push_bounded(before.used_of(a), nonce, MAX_USED_NONCES_PER_ADDR as nat),
    ensures
        after.nonce_of(a) == nonce + 1,
        after.nonce_error(a, nonce) == Some(RemittanceSplitError::InvalidNonce),
        after.used_of(a).contains(nonce),
{
    let u = after.used_of(a);
    assert(u[u.len() - 1] == nonce);
}

/// A snapshot exported from a valid configuration passes verification:
/// `verify_snapshot` accepts what `export_snapshot` produced, at any time
/// not before the configuration's timestamp.
pub proof fn lemma_export_verifies(config: SplitConfig, schedules: Seq<RemittanceSchedule>, now: u64)
    requires
        config.initialized,
        percentages_error(config.spending_percent, config.savings_percent, config.bills_percent, config.insurance_percent)
            is None,
        config.timestamp <= now,
    ensures
        snapshot_error(
            SCHEMA_VERSION,
            checksum_of(SCHEMA_VERSION, config, schedules.len()),
            config,
            schedules.len(),
            now,
        ) is None,
{
}

/// The pre-upgrade snapshot holds what a restore puts back: the
/// configuration, the version in force, both admins and the pause state.
pub proof fn lemma_snapshot_restores(s: RemittanceSplit)
    requires
        s.config is Some,
    ensures
        s.snapshot_of().config == s.config->Some_0,
        s.snapshot_of().version == s.spec_version(),
        s.snapshot_of().upgrade_admin == s.upgrade_admin,
        s.snapshot_of().pause_admin == s.pause_admin,
        s.snapshot_of().paused == s.paused,
        ({
            let t = RemittanceSplit { snapshot: Some(s.snapshot_of()), ..s };
            t.upgrade_authority() == s.upgrade_authority() && t.restore_error(s.upgrade_authority()->Some_0)
                is None
        }),
{
}

/// Little-endian encodings of the same width tell numbers apart.
proof fn lemma_le_bytes_injective(x: u128, y: u128, n: nat)
    requires
        le_bytes(x, n) == le_bytes(y, n),
        n <= 16,
        x < pow256(n),
        y < pow256(n),
    ensures
        x == y,
    decreases n,
{
    if n > 0 {
        assert(le_bytes(x, n)[0] == le_bytes(y, n)[0]);
        assert(le_bytes(x, n).skip(1) =~= le_bytes(x / 256, (n - 1) as nat));
        assert(le_bytes(y, n).skip(1) =~= le_bytes(y / 256, (n - 1) as nat));
        assert(x / 256 < pow256((n - 1) as nat)) by {
            assert(pow256(n) == 256 * pow256((n - 1) as nat));
        }
        assert(y / 256 < pow256((n - 1) as nat)) by {
            assert(pow256(n) == 256 * pow256((n - 1) as nat));
        }
        lemma_le_bytes_injective(x / 256, y / 256, (n - 1) as nat);
        assert(le_bytes(x, n)[0] == (x % 256) as u8);
        assert(le_bytes(y, n)[0] == (y % 256) as u8);
        assert(x % 256 == y % 256);
    }
}

/// 256 to the power `n`.
pub open spec fn pow256(n: nat) -> int
    decreases n,
{
    if n == 0 {
        1
    } else {
        256 * pow256((n - 1) as nat)
    }
}

/// A little-endian encoding of width `n` has `n` bytes.
proof fn lemma_le_bytes_len(x: u128, n: nat)
    ensures
        le_bytes(x, n).len() == n,
    decreases n,
{
    if n > 0 {
        lemma_le_bytes_len(x / 256, (n - 1) as nat);
    }
}

/// The powers of 256 that the encodings use.
proof fn lemma_pow256_values()
    ensures
        pow256(8) == 0x1_0000_0000_0000_0000,
        pow256(16) == 0x1_0000_0000_0000_0000_0000_0000_0000_0000,
{
    reveal_with_fuel(pow256, 17);
}

/// Equal concatenations with equally long tails have equal heads and tails.
proof fn lemma_concat_split(x1: Seq<u8>, y1: Seq<u8>, x2: Seq<u8>, y2: Seq<u8>)
    requires
        x1 + y1 == x2 + y2,
        y1.len() == y2.len(),
    ensures
        x1 == x2,
        y1 == y2,
{
    assert(x1 =~= (x1 + y1).subrange(0, x1.len() as int));
    assert(x2 =~= (x2 + y2).subrange(0, x2.len() as int));
    assert(y1 =~= (x1 + y1).subrange(x1.len() as int, (x1 + y1).len() as int));
    assert(y2 =~= (x2 + y2).subrange(x2.len() as int, (x2 + y2).len() as int));
}

/// Peeling one encoded number of width `n` off the end of two equal byte
/// strings: the heads agree and so do the numbers.
proof fn lemma_peel(x1: Seq<u8>, v1: u128, x2: Seq<u8>, v2: u128, n: nat)
    requires
        x1 + le_bytes(v1, n) == x2 + le_bytes(v2, n),
        n == 8 || n == 16,
        v1 < pow256(n),
        v2 < pow256(n),
    ensures
        x1 == x2,
        v1 == v2,
{
    lemma_le_bytes_len(v1, n);
    lemma_le_bytes_len(v2, n);
    lemma_concat_split(x1, le_bytes(v1, n), x2, le_bytes(v2, n));
    lemma_le_bytes_injective(v1, v2, n);
}

/// Two requests, with their address payloads, that hash the same preimage
/// under one tag agree on every bound field: amount, nonce, deadline and
/// all six address payloads. (A hash collision aside, equal hashes mean
/// equal requests.)
pub proof fn lemma_preimage_binds(
    r1: DistributeUsdcRequest,
    b1: RequestAddressBits,
    r2: DistributeUsdcRequest,
    b2: RequestAddressBits,
    tag: u64,
)
    requires
        request_preimage(r1, b1, tag) == request_preimage(r2, b2, tag),
    ensures
        r1.total_amount == r2.total_amount,
        r1.nonce == r2.nonce,
        r1.deadline == r2.deadline,
        b1 == b2,
{
    lemma_pow256_values();
    let h0 = distribute_domain() + le_bytes(tag as u128, 8);
    let a1 = h0 + le_bytes(b1.from as u128, 8);
    let a2 = h0 + le_bytes(b2.from as u128, 8);
    let c1 = a1 + le_bytes(b1.usdc_contract as u128, 8);
    let c2 = a2 + le_bytes(b2.usdc_contract as u128, 8);
    let d1 = c1 + le_bytes(b1.spending as u128, 8);
    let d2 = c2 + le_bytes(b2.spending as u128, 8);
    let e1 = d1 + le_bytes(b1.savings as u128, 8);
    let e2 = d2 + le_bytes(b2.savings as u128, 8);
    let f1 = e1 + le_bytes(b1.bills as u128, 8);
    let f2 = e2 + le_bytes(b2.bills as u128, 8);
    let g1 = f1 + le_bytes(b1.insurance as u128, 8);
    let g2 = f2 + le_bytes(b2.insurance as u128, 8);
    let t1 = g1 + le_bytes(r1.total_amount as u128, 16);
    let t2 = g2 + le_bytes(r2.total_amount as u128, 16);
    let n1 = t1 + le_bytes(r1.nonce as u128, 8);
    let n2 = t2 + le_bytes(r2.nonce as u128, 8);
    assert(request_preimage(r1, b1, tag) == n1 + le_bytes(r1.deadline as u128, 8));
    assert(request_preimage(r2, b2, tag) == n2 + le_bytes(r2.deadline as u128, 8));
    lemma_peel(n1, r1.deadline as u128, n2, r2.deadline as u128, 8);
    lemma_peel(t1, r1.nonce as u128, t2, r2.nonce as u128, 8);
    lemma_peel(g1, r1.total_amount as u128, g2, r2.total_amount as u128, 16);
    lemma_peel(f1, b1.insurance as u128, f2, b2.insurance as u128, 8);
    lemma_peel(e1, b1.bills as u128, e2, b2.bills as u128, 8);
    lemma_peel(d1, b1.savings as u128, d2, b2.savings as u128, 8);
    lemma_peel(c1, b1.spending as u128, c2, b2.spending as u128, 8);
    lemma_peel(a1, b1.usdc_contract as u128, a2, b2.usdc_contract as u128, 8);
    lemma_peel(h0, b1.from as u128, h0, b2.from as u128, 8);
    let x1 = r1.total_amount;
    let x2 = r2.total_amount;
    assert(x1 as u128 == x2 as u128 ==> x1 == x2) by (bit_vector);
}

/// Listing ids gives at most one schedule per id.
proof fn lemma_listed_len(ids: Seq<u32>, m: Map<u32, RemittanceSchedule>)
    ensures
        listed(ids, m).len() <= ids.len(),
    decreases ids.len(),
{
    if ids.len() > 0 {
        lemma_listed_len(ids.drop_last(), m);
    }
}

/// Importing one's own export succeeds: when the owner of a valid,
/// unpaused split exports at a time not before the configuration's, and
/// the exported schedules pass the import checks at `now`, importing that
/// snapshot with the owner's current nonce is refused for no reason, so it
/// restores the same configuration and advances the nonce by one.
pub proof fn lemma_export_import_roundtrip(s: RemittanceSplit, snap: ExportSnapshot, now: u64)
    requires
        s.wf(),
        !s.paused,
        s.config is Some,
        s.config->Some_0.initialized,
        percentages_error(
            s.config->Some_0.spending_percent,
            s.config->Some_0.savings_percent,
            s.config->Some_0.bills_percent,
            s.config->Some_0.insurance_percent,
        ) is None,
        s.config->Some_0.timestamp <= now,
        s.nonce_of(s.config->Some_0.owner) < u64::MAX,
        snap.schema_version == SCHEMA_VERSION,
        snap.config == s.config->Some_0,
        snap.schedules@ == listed(s.owner_schedule_ids(s.config->Some_0.owner), s.schedules@),
        snap.checksum == checksum_of(SCHEMA_VERSION, s.config->Some_0, snap.schedules@.len()),
        first_schedule_error(snap.schedules@, now) is None,
    ensures
        s.import_error(s.config->Some_0.owner, s.nonce_of(s.config->Some_0.owner), snap, now) is None,
{
    let o = s.config->Some_0.owner;
    lemma_listed_len(s.owner_schedule_ids(o), s.schedules@);
    assert(s.owner_schedule_ids(o).len() <= MAX_SCHEDULES_PER_OWNER) by {
        if s.owner_schedules@.contains_key(o) {
            assert(s.owner_schedules@[o]@.len() <= MAX_SCHEDULES_PER_OWNER);
        }
    }
}

/// Running a due recurring schedule catches it up: its next due time
/// becomes its old one plus the least whole number `k >= 1` of intervals
/// that passes `now`, the `k - 1` intervals skipped are added to its missed
/// count, it stays active and records `now` as its last run.
pub proof fn lemma_ran_catches_up(s: RemittanceSchedule, now: u64) -> (k: nat)
    requires
        runs(s, now),
        s.recurring,
        s.interval > 0,
        now + s.interval <= u64::MAX,
    ensures
        k >= 1,
        ran(s, now).next_due == s.next_due + k * s.interval,
        ran(s, now).next_due > now,
        s.next_due + (k - 1) * s.interval <= now,
        ran(s, now).missed_count == sat_u32(s.missed_count + (k - 1)),
        ran(s, now).last_executed == Some(now),
        ran(s, now).active,
{
    let j = lemma_catch_up_least(s.next_due + s.interval, s.interval as int, now as int);
    assert(s.next_due + s.interval + j * s.interval == s.next_due + (j + 1) * s.interval) by (nonlinear_arith);
    assert(s.next_due + (j + 1 - 1) * s.interval == s.next_due + j * s.interval);
    if j > 0 {
        assert(s.next_due + s.interval + (j - 1) * s.interval == s.next_due + j * s.interval) by (nonlinear_arith);
    }
    assert(s.next_due + (j + 1) * s.interval <= now + s.interval);
    let c = catch_up(s.next_due + s.interval, s.interval as int, now as int);
    assert(c.1 == s.next_due + (j + 1) * s.interval);
    assert(c.1 as u64 == c.1);
    j + 1
}

/// An owner's schedule listing holds every schedule on the owner's list
/// that is stored, in list order, whatever its state: a cancelled or
/// finished schedule is listed like an active one.
pub proof fn lemma_listed_all_stored(ids: Seq<u32>, m: Map<u32, RemittanceSchedule>)
    ensures
        listed(ids, m) == ids.filter(|i: u32| m.contains_key(i)).map_values(|i: u32| m[i]),
    decreases ids.len(),
{
    let p = |i: u32| m.contains_key(i);
    let f = |i: u32| m[i];
    if ids.len() > 0 {
        lemma_listed_all_stored(ids.drop_last(), m);
        crate::ids::lemma_filter_push(ids.drop_last(), p, ids.last());
        assert(ids.drop_last().push(ids.last()) =~= ids);
        let g = ids.drop_last().filter(p);
        if p(ids.last()) {
            assert(g.push(ids.last()).map_values(f) =~= g.map_values(f).push(f(ids.last())));
        }
    } else {
        assert(ids.filter(p) =~= Seq::<u32>::empty());
        assert(ids.filter(p).map_values(f) =~= Seq::<RemittanceSchedule>::empty());
    }
}

} // verus!
