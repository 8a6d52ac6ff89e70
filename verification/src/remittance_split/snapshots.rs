//! Snapshots: exporting and importing the configuration and schedules,
//! and rolling an upgrade back from the pre-upgrade snapshot.
use super::ledger::push_bounded;
use super::schedules::listed;
use super::state::{
    RemittanceSplit, MAX_AUDIT_ENTRIES, MAX_SCHEDULES_PER_OWNER, MAX_SCHEDULE_LEAD_TIME, MAX_USED_NONCES_PER_ADDR,
    MIN_SCHEDULE_INTERVAL, MIN_SUPPORTED_SCHEMA_VERSION, SCHEMA_VERSION, SNAPSHOT_VERSION,
};
use super::types::{AuditEntry, AuditOp, ExportSnapshot, RemittanceSchedule, RemittanceSplitError, SplitConfig};
use crate::address::Address;
use crate::bill_payments::schedules::lead_time;
use crate::maps::list_of;
use vstd::prelude::*;

verus! {

/// The checksum of a snapshot: the schema version, the four percentages
/// and the number of schedules added modulo 2^64, then multiplied by 31
/// modulo 2^64.
pub open spec fn checksum_of(version: u32, config: SplitConfig, count: nat) -> u64 {
    let s = vstd::wrapping::u64_specs::wrapping_add(
        vstd::wrapping::u64_specs::wrapping_add(
            vstd::wrapping::u64_specs::wrapping_add(
                vstd::wrapping::u64_specs::wrapping_add(
                    vstd::wrapping::u64_specs::wrapping_add(version as u64, config.spending_percent as u64),
                    config.savings_percent as u64,
                ),
                config.bills_percent as u64,
            ),
            config.insurance_percent as u64,
        ),
        count as u64,
    );
    vstd::wrapping::u64_specs::wrapping_mul(s, 31)
}

/// Why the contents of a snapshot are refused at `now`, if they are: an
/// unsupported schema, a wrong checksum, an uninitialized configuration, a
/// percentage above 100, percentages not summing to 100
/// (`InvalidPercentages`), or a configuration dated after `now`
/// (`InvalidAmount`).
pub open spec fn snapshot_error(
    schema_version: u32,
    checksum: u64,
    config: SplitConfig,
    count: nat,
    now: u64,
) -> Option<RemittanceSplitError> {
    if schema_version < MIN_SUPPORTED_SCHEMA_VERSION || schema_version > SCHEMA_VERSION {
        Some(RemittanceSplitError::UnsupportedVersion)
    } else if checksum != checksum_of(schema_version, config, count) {
        Some(RemittanceSplitError::ChecksumMismatch)
    } else if !config.initialized {
        Some(RemittanceSplitError::NotInitialized)
    } else if config.spending_percent > 100 || config.savings_percent > 100 || config.bills_percent > 100
        || config.insurance_percent > 100 {
        Some(RemittanceSplitError::PercentageOutOfRange)
    } else if config.spending_percent + config.savings_percent + config.bills_percent + config.insurance_percent
        != 100 {
        Some(RemittanceSplitError::InvalidPercentages)
    } else if config.timestamp > now {
        Some(RemittanceSplitError::InvalidAmount)
    } else {
        None
    }
}

/// Why an imported schedule is refused at `now`, if it is: only active
/// schedules are checked.
pub open spec fn imported_schedule_error(s: RemittanceSchedule, now: u64) -> Option<RemittanceSplitError> {
    if s.active && s.interval > 0 && s.interval < MIN_SCHEDULE_INTERVAL {
        Some(RemittanceSplitError::ScheduleIntervalTooShort)
    } else if s.active && lead_time(s.next_due, now) > MAX_SCHEDULE_LEAD_TIME {
        Some(RemittanceSplitError::ScheduleLeadTimeTooLong)
    } else {
        None
    }
}

/// The error of the first refused schedule of `s`, if any.
pub open spec fn first_schedule_error(s: Seq<RemittanceSchedule>, now: u64) -> Option<RemittanceSplitError>
    decreases s.len(),
{
    if s.len() == 0 {
        None
    } else {
        let r = first_schedule_error(s.drop_last(), now);
        if r is Some {
            r
        } else {
            imported_schedule_error(s.last(), now)
        }
    }
}

/// `m` with every schedule of `s` stored under its id, later ones winning.
pub open spec fn stored_all(m: Map<u32, RemittanceSchedule>, s: Seq<RemittanceSchedule>) -> Map<u32, RemittanceSchedule>
    decreases s.len(),
{
    if s.len() == 0 {
        m
    } else {
        stored_all(m, s.drop_last()).insert(s.last().id, s.last())
    }
}

/// The checksum of a snapshot with `count` schedules.
pub fn compute_checksum(version: u32, config: &SplitConfig, count: usize) -> (r: u64)
    ensures
        r == checksum_of(version, *config, count as nat),
{
    let v = version as u64;
    let n = count as u64;
    v.wrapping_add(config.spending_percent as u64).wrapping_add(config.savings_percent as u64).wrapping_add(
        config.bills_percent as u64,
    ).wrapping_add(config.insurance_percent as u64).wrapping_add(n).wrapping_mul(31)
}

impl RemittanceSplit {
    /// The owner exports, at `now`, the configuration and their schedules
    /// with a checksum over them.
    pub fn export_snapshot(&self, caller: Address, now: u64) -> (r: Result<Option<ExportSnapshot>, RemittanceSplitError>)
        requires
            self.wf(),
        ensures
            self.config is None ==> r == Err::<Option<ExportSnapshot>, RemittanceSplitError>(
                RemittanceSplitError::NotInitialized,
            ),
            self.config is Some && self.config->Some_0.owner != caller ==> r == Err::<
                Option<ExportSnapshot>,
                RemittanceSplitError,
            >(RemittanceSplitError::Unauthorized),
            self.config is Some && self.config->Some_0.owner == caller ==> (r matches Ok(Some(snap)) && {
                let c = self.config->Some_0;
                let sched = listed(self.owner_schedule_ids(caller), self.schedules@);
                &&& snap.schema_version == SCHEMA_VERSION
                &&& snap.config == c
                &&& snap.schedules@ == sched
                &&& snap.checksum == checksum_of(SCHEMA_VERSION, c, sched.len())
                &&& snap.exported_at == now
            }),
    {
        let config = match self.config {
            Some(c) => c,
            None => {
                return Err(RemittanceSplitError::NotInitialized);
            },
        };
        if config.owner != caller {
            return Err(RemittanceSplitError::Unauthorized);
        }
        let schedules = self.get_remittance_schedules(caller);
        let checksum = compute_checksum(SCHEMA_VERSION, &config, schedules.len());
        Ok(Some(ExportSnapshot { schema_version: SCHEMA_VERSION, checksum, config, schedules, exported_at: now }))
    }

    /// Check a snapshot at `now` without importing it: its schema version,
    /// checksum, initialized flag, percentages and date.
    pub fn verify_snapshot(snapshot: &ExportSnapshot, now: u64) -> (r: Result<bool, RemittanceSplitError>)
        ensures
            r == match snapshot_error(
                snapshot.schema_version,
                snapshot.checksum,
                snapshot.config,
                snapshot.schedules@.len(),
                now,
            ) {
                Some(e) => Err(e),
                None => Ok::<bool, RemittanceSplitError>(true),
            },
    {
        Self::check_snapshot(snapshot, now)
    }

    /// The checks shared by `verify_snapshot` and `import_snapshot`.
    fn check_snapshot(snapshot: &ExportSnapshot, now: u64) -> (r: Result<bool, RemittanceSplitError>)
        ensures
            r == match snapshot_error(
                snapshot.schema_version,
                snapshot.checksum,
                snapshot.config,
                snapshot.schedules@.len(),
                now,
            ) {
                Some(e) => Err(e),
                None => Ok::<bool, RemittanceSplitError>(true),
            },
    {
        if snapshot.schema_version < MIN_SUPPORTED_SCHEMA_VERSION || snapshot.schema_version > SCHEMA_VERSION {
            return Err(RemittanceSplitError::UnsupportedVersion);
        }
        let expected = compute_checksum(snapshot.schema_version, &snapshot.config, snapshot.schedules.len());
        if snapshot.checksum != expected {
            return Err(RemittanceSplitError::ChecksumMismatch);
        }
        let c = snapshot.config;
        if !c.initialized {
            return Err(RemittanceSplitError::NotInitialized);
        }
        if c.spending_percent > 100 || c.savings_percent > 100 || c.bills_percent > 100 || c.insurance_percent > 100 {
            return Err(RemittanceSplitError::PercentageOutOfRange);
        }
        if c.spending_percent + c.savings_percent + c.bills_percent + c.insurance_percent != 100 {
            return Err(RemittanceSplitError::InvalidPercentages);
        }
        if c.timestamp > now {
            return Err(RemittanceSplitError::InvalidAmount);
        }
        Ok(true)
    }

    /// Why `import_snapshot` refuses, if it does.
    pub open spec fn import_error(&self, caller: Address, nonce: u64, snapshot: ExportSnapshot, now: u64) -> Option<
        RemittanceSplitError,
    > {
        let err = snapshot_error(
            snapshot.schema_version,
            snapshot.checksum,
            snapshot.config,
            snapshot.schedules@.len(),
            now,
        );
        if self.paused {
            Some(RemittanceSplitError::Unauthorized)
        } else if self.nonce_error(caller, nonce) is Some {
            self.nonce_error(caller, nonce)
        } else if err is Some {
            err
        } else if self.config is None {
            Some(RemittanceSplitError::NotInitialized)
        } else if self.config->Some_0.owner != caller {
            Some(RemittanceSplitError::Unauthorized)
        } else if snapshot.config.owner != caller {
            Some(RemittanceSplitError::OwnerMismatch)
        } else if snapshot.schedules@.len() > MAX_SCHEDULES_PER_OWNER {
            Some(RemittanceSplitError::ScheduleCapExceeded)
        } else if first_schedule_error(snapshot.schedules@, now) is Some {
            first_schedule_error(snapshot.schedules@, now)
        } else if nonce == u64::MAX {
            Some(RemittanceSplitError::Overflow)
        } else {
            None
        }
    }

    /// The owner imports `snapshot` at `now`: the configuration is replaced,
    /// its schedules are stored under their ids, the owner's schedule list
    /// becomes the snapshot's schedule ids in order, and the owner's nonce is
    /// consumed.
    #[verifier::loop_isolation(false)]
    pub fn import_snapshot(&mut self, caller: Address, nonce: u64, snapshot: &ExportSnapshot, now: u64) -> (r: Result<
        bool,
        RemittanceSplitError,
    >)
        requires
            old(self).wf(),
        ensures
            final(self).wf(),
            match old(self).import_error(caller, nonce, *snapshot, now) {
                Some(e) => r == Err::<bool, RemittanceSplitError>(e) && *final(self) == *old(self),
                None => {
                    let c = snapshot.config;
                    &&& r == Ok::<bool, RemittanceSplitError>(true)
                    &&& final(self).config == Some(c)
                    &&& final(self).split == Some(
                        (c.spending_percent, c.savings_percent, c.bills_percent, c.insurance_percent),
                    )
                    &&& final(self).schedules@ == stored_all(old(self).schedules@, snapshot.schedules@)
                    &&& final(self).owner_schedules@ == old(self).owner_schedules@.insert(
                        caller,
                        final(self).owner_schedules@[caller],
                    )
                    &&& final(self).owner_schedule_ids(caller) == snapshot.schedules@.map_values(
                        |x: RemittanceSchedule| x.id,
                    )
                    &&& final(self).nonces@ == old(self).nonces@.insert(caller, (nonce + 1) as u64)
                    &&& final(self).used_nonces@[caller]@ == push_bounded(
                        old(self).used_of(caller),
                        nonce,
                        MAX_USED_NONCES_PER_ADDR as nat,
                    )
                    &&& final(self).audit@ == push_bounded(
                        old(self).audit@,
                        AuditEntry { operation: AuditOp::Import, caller, timestamp: now, success: true },
                        MAX_AUDIT_ENTRIES as nat,
                    )
                    &&& *final(self) == (RemittanceSplit {
                        config: final(self).config,
                        split: final(self).split,
                        schedules: final(self).schedules,
                        owner_schedules: final(self).owner_schedules,
                        nonces: final(self).nonces,
                        used_nonces: final(self).used_nonces,
                        audit: final(self).audit,
                        ..*old(self)
                    })
                },
            },
    {
        if let Err(e) = self.require_not_paused() {
            return Err(e);
        }
        if let Err(e) = self.require_nonce(caller, nonce) {
            return Err(e);
        }
        if let Err(e) = Self::check_snapshot(snapshot, now) {
            return Err(e);
        }
        let existing = match self.config {
            Some(c) => c,
            None => {
                return Err(RemittanceSplitError::NotInitialized);
            },
        };
        if existing.owner != caller {
            return Err(RemittanceSplitError::Unauthorized);
        }
        if snapshot.config.owner != caller {
            return Err(RemittanceSplitError::OwnerMismatch);
        }
        if snapshot.schedules.len() > MAX_SCHEDULES_PER_OWNER as usize {
            return Err(RemittanceSplitError::ScheduleCapExceeded);
        }
        let mut i: usize = 0;
        while i < snapshot.schedules.len()
            invariant
                i <= snapshot.schedules@.len(),
                first_schedule_error(snapshot.schedules@.subrange(0, i as int), now) is None,
            decreases snapshot.schedules@.len() - i,
        {
            let s = snapshot.schedules[i];
            proof {
                assert(snapshot.schedules@.subrange(0, i as int + 1).drop_last() =~= snapshot.schedules@.subrange(
                    0,
                    i as int,
                ));
                lemma_first_error_prefix(snapshot.schedules@, i as int + 1, now);
            }
            if s.active {
                if s.interval > 0 && s.interval < MIN_SCHEDULE_INTERVAL {
                    proof {
                        lemma_first_error_extends(snapshot.schedules@, i as int + 1, now);
                    }
                    return Err(RemittanceSplitError::ScheduleIntervalTooShort);
                }
                if s.next_due.saturating_sub(now) > MAX_SCHEDULE_LEAD_TIME {
                    proof {
                        lemma_first_error_extends(snapshot.schedules@, i as int + 1, now);
                    }
                    return Err(RemittanceSplitError::ScheduleLeadTimeTooLong);
                }
            }
            i = i + 1;
        }
        assert(snapshot.schedules@.subrange(0, i as int) =~= snapshot.schedules@);
        if nonce == u64::MAX {
            return Err(RemittanceSplitError::Overflow);
        }
        let c = snapshot.config;
        self.config = Some(c);
        self.split = Some((c.spending_percent, c.savings_percent, c.bills_percent, c.insurance_percent));
        let mut j: usize = 0;
        let mut ids: Vec<u32> = Vec::new();
        let ghost m0 = self.schedules@;
        assert(snapshot.schedules@.subrange(0, 0) =~= Seq::<RemittanceSchedule>::empty());
        while j < snapshot.schedules.len()
            invariant
                self.wf(),
                j <= snapshot.schedules@.len(),
                self.schedules@ == stored_all(m0, snapshot.schedules@.subrange(0, j as int)),
                ids@ == snapshot.schedules@.subrange(0, j as int).map_values(|x: RemittanceSchedule| x.id),
                *self == (RemittanceSplit { schedules: self.schedules, ..*self }),
                self.config == Some(c),
                self.split == Some((c.spending_percent, c.savings_percent, c.bills_percent, c.insurance_percent)),
                self.nonces == old(self).nonces,
                self.used_nonces == old(self).used_nonces,
                self.audit == old(self).audit,
                self.owner_schedules == old(self).owner_schedules,
                self.paused == old(self).paused,
                self.pause_admin == old(self).pause_admin,
                self.version == old(self).version,
                self.upgrade_admin == old(self).upgrade_admin,
                self.treasury == old(self).treasury,
                self.pending_treasury == old(self).pending_treasury,
                self.snapshot == old(self).snapshot,
                self.next_schedule_id == old(self).next_schedule_id,
                self.nonce_of(caller) == nonce,
            decreases snapshot.schedules@.len() - j,
        {
            proof {
                assert(snapshot.schedules@.subrange(0, j as int + 1).drop_last() =~= snapshot.schedules@.subrange(
                    0,
                    j as int,
                ));
            }
            let s = snapshot.schedules[j];
            self.schedules.set(s.id, s);
            ids.push(s.id);
            proof {
                assert(ids@ =~= snapshot.schedules@.subrange(0, j as int + 1).map_values(|x: RemittanceSchedule| x.id));
            }
            j = j + 1;
        }
        assert(snapshot.schedules@.subrange(0, j as int) =~= snapshot.schedules@);
        assert(ids@.len() <= MAX_SCHEDULES_PER_OWNER);
        self.owner_schedules.set(caller, ids);
        proof {
            assert forall|a: Address| #[trigger] self.owner_schedules@.contains_key(a) implies self.owner_schedules@[
                a
            ]@.len() <= MAX_SCHEDULES_PER_OWNER by {
                if a != caller {
                    assert(old(self).owner_schedules@.contains_key(a));
                }
            }
        }
        self.increment_nonce(caller);
        self.append_audit(AuditOp::Import, caller, true, now);
        Ok(true)
    }

    /// Why `restore_from_snapshot` refuses, if it does.
    pub open spec fn restore_error(&self, caller: Address) -> Option<RemittanceSplitError> {
        if self.config is None {
            Some(RemittanceSplitError::NotInitialized)
        } else if self.upgrade_authority() != Some(caller) {
            Some(RemittanceSplitError::Unauthorized)
        } else if self.snapshot is None {
            Some(RemittanceSplitError::NotInitialized)
        } else if self.snapshot->Some_0.schema_version != SNAPSHOT_VERSION {
            Some(RemittanceSplitError::UnsupportedVersion)
        } else {
            None
        }
    }

    /// The upgrade authority rolls back, at `now`, to the pre-upgrade
    /// snapshot, which is then consumed.
    pub fn restore_from_snapshot(&mut self, caller: Address, now: u64) -> (r: Result<(), RemittanceSplitError>)
        requires
            old(self).wf(),
        ensures
            final(self).wf(),
            match old(self).restore_error(caller) {
                Some(e) => r == Err::<(), RemittanceSplitError>(e) && *final(self) == *old(self),
                None => {
                    let snap = old(self).snapshot->Some_0;
                    let c = snap.config;
                    &&& r is Ok
                    &&& *final(self) == (RemittanceSplit {
                        config: Some(c),
                        split: Some((c.spending_percent, c.savings_percent, c.bills_percent, c.insurance_percent)),
                        version: Some(snap.version),
                        upgrade_admin: snap.upgrade_admin,
                        paused: snap.paused,
                        pause_admin: snap.pause_admin,
                        snapshot: None,
                        audit: final(self).audit,
                        ..*old(self)
                    })
                    &&& final(self).audit@ == push_bounded(
                        old(self).audit@,
                        AuditEntry { operation: AuditOp::SnapshotRestore, caller, timestamp: now, success: true },
                        MAX_AUDIT_ENTRIES as nat,
                    )
                },
            },
    {
        let config = match self.config {
            Some(c) => c,
            None => {
                return Err(RemittanceSplitError::NotInitialized);
            },
        };
        let admin = match self.upgrade_admin {
            Some(a) => a,
            None => config.owner,
        };
        if admin != caller {
            return Err(RemittanceSplitError::Unauthorized);
        }
        let snap = match self.snapshot {
            Some(s) => s,
            None => {
                return Err(RemittanceSplitError::NotInitialized);
            },
        };
        if snap.schema_version != SNAPSHOT_VERSION {
            return Err(RemittanceSplitError::UnsupportedVersion);
        }
        let c = snap.config;
        self.config = Some(c);
        self.split = Some((c.spending_percent, c.savings_percent, c.bills_percent, c.insurance_percent));
        self.version = Some(snap.version);
        self.upgrade_admin = snap.upgrade_admin;
        self.paused = snap.paused;
        self.pause_admin = snap.pause_admin;
        self.snapshot = None;
        self.append_audit(AuditOp::SnapshotRestore, caller, true, now);
        Ok(())
    }

    /// The upgrade authority drops the pre-upgrade snapshot at `now`.
    pub fn discard_snapshot(&mut self, caller: Address, now: u64) -> (r: Result<(), RemittanceSplitError>)
        requires
            old(self).wf(),
        ensures
            final(self).wf(),
            r == if old(self).config is None {
                Err(RemittanceSplitError::NotInitialized)
            } else if old(self).upgrade_authority() != Some(caller) {
                Err(RemittanceSplitError::Unauthorized)
            } else {
                Ok::<(), RemittanceSplitError>(())
            },
            r is Err ==> *final(self) == *old(self),
            r is Ok ==> *final(self) == (RemittanceSplit { snapshot: None, audit: final(self).audit, ..*old(self) })
                && final(self).audit@ == push_bounded(
                old(self).audit@,
                AuditEntry { operation: AuditOp::SnapshotDiscard, caller, timestamp: now, success: true },
                MAX_AUDIT_ENTRIES as nat,
            ),
    {
        let config = match self.config {
            Some(c) => c,
            None => {
                return Err(RemittanceSplitError::NotInitialized);
            },
        };
        let admin = match self.upgrade_admin {
            Some(a) => a,
            None => config.owner,
        };
        if admin != caller {
            return Err(RemittanceSplitError::Unauthorized);
        }
        self.snapshot = None;
        self.append_audit(AuditOp::SnapshotDiscard, caller, true, now);
        Ok(())
    }
}

/// The first error over a prefix one longer: the prefix's, else the new
/// schedule's.
pub proof fn lemma_first_error_prefix(s: Seq<RemittanceSchedule>, k: int, now: u64)
    requires
        1 <= k <= s.len(),
    ensures
        first_schedule_error(s.subrange(0, k), now) == if first_schedule_error(s.subrange(0, k - 1), now) is Some {
            first_schedule_error(s.subrange(0, k - 1), now)
        } else {
            imported_schedule_error(s[k - 1], now)
        },
{
    assert(s.subrange(0, k).drop_last() =~= s.subrange(0, k - 1));
}

/// Once a prefix has a refused schedule, the whole list reports that one.
pub proof fn lemma_first_error_extends(s: Seq<RemittanceSchedule>, k: int, now: u64)
    requires
        0 <= k <= s.len(),
        first_schedule_error(s.subrange(0, k), now) is Some,
    ensures
        first_schedule_error(s, now) == first_schedule_error(s.subrange(0, k), now),
    decreases s.len() - k,
{
    if k == s.len() {
        assert(s.subrange(0, k) =~= s);
    } else {
        assert(s.drop_last().subrange(0, k) =~= s.subrange(0, k));
        lemma_first_error_extends(s.drop_last(), k, now);
    }
}

} // verus!
