//! Construction, well-formedness, and the pause and upgrade controls of the
//! bill-payment contract.
use super::state::{lists_ascending, BillPayments, CONTRACT_VERSION, SNAPSHOT_VERSION};
use super::types::{BillPaymentsError, PausableFunction, PreUpgradeSnapshot, StorageStats};
use crate::address::Address;
use crate::maps::{AddrMap, IdMap, KeyMap};
use vstd::prelude::*;

verus! {

/// The functions an emergency pause switches off, in the order it does.
pub open spec fn all_pausable() -> Seq<PausableFunction> {
    seq![
        PausableFunction::CreateBill,
        PausableFunction::PayBill,
        PausableFunction::CancelBill,
        PausableFunction::Archive,
        PausableFunction::Restore,
        PausableFunction::CreateBillSchedule,
        PausableFunction::ModifyBillSchedule,
        PausableFunction::CancelBillSchedule,
        PausableFunction::ExecuteBillSchedules,
        PausableFunction::AddTags,
        PausableFunction::RemoveTags,
        PausableFunction::SetExternalRef,
    ]
}

impl BillPayments {
    /// The invariant every stored state satisfies.
    pub open spec fn wf(&self) -> bool {
        &&& self.bills.wf()
        &&& self.archived.wf()
        &&& self.owner_index.wf()
        &&& lists_ascending(self.owner_index@)
        &&& self.archive_index.wf()
        &&& lists_ascending(self.archive_index@)
        &&& self.currency_index.wf()
        &&& lists_ascending(self.currency_index@)
        &&& self.ext_refs.wf()
        &&& self.schedules.wf()
        &&& self.schedule_index.wf()
        &&& (self.unpaid_totals matches Some(t) ==> t.wf())
        &&& self.paused_functions.wf()
    }

    /// The recorded unpaid totals, if any were ever recorded.
    pub open spec fn totals(&self) -> Option<Map<Address, i128>> {
        match self.unpaid_totals {
            Some(t) => Some(t@),
            None => None,
        }
    }

    /// Whether `f` is paused on its own.
    pub open spec fn function_flag(&self, f: PausableFunction) -> bool {
        self.paused_functions@.contains_key(f) && self.paused_functions@[f]
    }

    /// The error a pause gives an operation guarded by `f`, if any.
    pub open spec fn pause_error(&self, f: PausableFunction) -> Option<BillPaymentsError> {
        if self.paused {
            Some(BillPaymentsError::ContractPaused)
        } else if self.function_flag(f) {
            Some(BillPaymentsError::FunctionPaused)
        } else {
            None
        }
    }

    /// The version reported: the stored one, else the built-in one.
    pub open spec fn spec_version(&self) -> u32 {
        match self.version {
            Some(v) => v,
            None => CONTRACT_VERSION,
        }
    }

    /// `caller` is the pause admin.
    pub open spec fn is_pause_admin(&self, caller: Address) -> bool {
        self.pause_admin == Some(caller)
    }

    /// `caller` is the upgrade admin.
    pub open spec fn is_upgrade_admin(&self, caller: Address) -> bool {
        self.upgrade_admin == Some(caller)
    }

    /// A contract with nothing stored.
    pub fn new() -> (r: BillPayments)
        ensures
            r.wf(),
            r.bills@ == Map::<u32, super::types::Bill>::empty(),
            r.archived@ == Map::<u32, super::types::ArchivedBill>::empty(),
            r.next_id == 0,
            r.next_schedule_id == 0,
            r.schedules@ == Map::<u32, super::types::BillSchedule>::empty(),
            r.owner_index@ == Map::<Address, Vec<u32>>::empty(),
            r.archive_index@ == Map::<Address, Vec<u32>>::empty(),
            r.currency_index@ == Map::<(Address, Seq<u8>), Vec<u32>>::empty(),
            r.ext_refs@ == Map::<(Address, Seq<u8>), u32>::empty(),
            r.schedule_index@ == Map::<Address, Vec<u32>>::empty(),
            r.unpaid_totals.is_none(),
            r.pause_admin.is_none(),
            r.upgrade_admin.is_none(),
            !r.paused,
            r.unpause_at.is_none(),
            r.paused_functions@ == Map::<PausableFunction, bool>::empty(),
            r.version.is_none(),
            r.snapshot.is_none(),
            r.stats.is_none(),
    {
        BillPayments {
            bills: IdMap::new(),
            archived: IdMap::new(),
            next_id: 0,
            owner_index: AddrMap::new(),
            archive_index: AddrMap::new(),
            currency_index: KeyMap::new(),
            ext_refs: KeyMap::new(),
            schedules: IdMap::new(),
            next_schedule_id: 0,
            schedule_index: AddrMap::new(),
            unpaid_totals: None,
            pause_admin: None,
            upgrade_admin: None,
            paused: false,
            unpause_at: None,
            paused_functions: KeyMap::new(),
            version: None,
            snapshot: None,
            stats: None,
        }
    }

    /// Whether `f` is paused on its own.
    pub fn is_function_paused(&self, f: PausableFunction) -> (r: bool)
        requires
            self.wf(),
        ensures
            r == self.function_flag(f),
    {
        match self.paused_functions.get(&f) {
            Some(b) => *b,
            None => false,
        }
    }

    /// Refuse when the contract or `f` is paused.
    pub fn require_not_paused(&self, f: PausableFunction) -> (r: Result<(), BillPaymentsError>)
        requires
            self.wf(),
        ensures
            match self.pause_error(f) {
                Some(e) => r == Err::<(), BillPaymentsError>(e),
                None => r is Ok,
            },
    {
        if self.paused {
            return Err(BillPaymentsError::ContractPaused);
        }
        if self.is_function_paused(f) {
            return Err(BillPaymentsError::FunctionPaused);
        }
        Ok(())
    }

    /// Set or hand over the pause admin. With no admin yet, a caller may only
    /// appoint itself; afterwards only the admin may appoint another.
    pub fn set_pause_admin(&mut self, caller: Address, new_admin: Address) -> (r: Result<
        (),
        BillPaymentsError,
    >)
        ensures
            match old(self).pause_admin {
                None => r is Ok <==> caller == new_admin,
                Some(a) => r is Ok <==> a == caller,
            },
            r is Ok ==> *final(self) == (BillPayments { pause_admin: Some(new_admin), ..*old(self) }),
            r is Err ==> r == Err::<(), BillPaymentsError>(BillPaymentsError::UnauthorizedPause)
                && *final(self) == *old(self),
    {
        match self.pause_admin {
            None => {
                if caller != new_admin {
                    return Err(BillPaymentsError::UnauthorizedPause);
                }
            },
            Some(a) => {
                if a != caller {
                    return Err(BillPaymentsError::UnauthorizedPause);
                }
            },
        }
        self.pause_admin = Some(new_admin);
        Ok(())
    }

    /// Pause every state-changing operation and cancel any scheduled unpause.
    pub fn pause(&mut self, caller: Address) -> (r: Result<(), BillPaymentsError>)
        ensures
            r is Ok <==> old(self).is_pause_admin(caller),
            r is Ok ==> *final(self) == (BillPayments { paused: true, unpause_at: None, ..*old(self) }),
            r is Err ==> r == Err::<(), BillPaymentsError>(BillPaymentsError::UnauthorizedPause)
                && *final(self) == *old(self),
    {
        if self.pause_admin != Some(caller) {
            return Err(BillPaymentsError::UnauthorizedPause);
        }
        self.paused = true;
        self.unpause_at = None;
        Ok(())
    }

    /// Lift the pause at time `now`, unless an unpause is scheduled for later.
    pub fn unpause(&mut self, caller: Address, now: u64) -> (r: Result<(), BillPaymentsError>)
        ensures
            !old(self).is_pause_admin(caller) ==> r == Err::<(), BillPaymentsError>(
                BillPaymentsError::UnauthorizedPause,
            ),
            old(self).is_pause_admin(caller) && (old(self).unpause_at matches Some(at) && now < at)
                ==> r == Err::<(), BillPaymentsError>(BillPaymentsError::ContractPaused),
            r is Ok <==> old(self).is_pause_admin(caller) && !(old(self).unpause_at matches Some(at)
                && now < at),
            r is Ok ==> *final(self) == (BillPayments { paused: false, unpause_at: None, ..*old(self) }),
            r is Err ==> *final(self) == *old(self),
    {
        if self.pause_admin != Some(caller) {
            return Err(BillPaymentsError::UnauthorizedPause);
        }
        if let Some(at) = self.unpause_at {
            if now < at {
                return Err(BillPaymentsError::ContractPaused);
            }
        }
        self.unpause_at = None;
        self.paused = false;
        Ok(())
    }

    /// Set the earliest time at which `unpause` succeeds; it must lie after `now`.
    pub fn schedule_unpause(&mut self, caller: Address, at_timestamp: u64, now: u64) -> (r: Result<
        (),
        BillPaymentsError,
    >)
        ensures
            !old(self).is_pause_admin(caller) ==> r == Err::<(), BillPaymentsError>(
                BillPaymentsError::UnauthorizedPause,
            ),
            old(self).is_pause_admin(caller) && at_timestamp <= now ==> r == Err::<
                (),
                BillPaymentsError,
            >(BillPaymentsError::InvalidAmount),
            r is Ok <==> old(self).is_pause_admin(caller) && at_timestamp > now,
            r is Ok ==> *final(self) == (BillPayments { unpause_at: Some(at_timestamp), ..*old(self) }),
            r is Err ==> *final(self) == *old(self),
    {
        if self.pause_admin != Some(caller) {
            return Err(BillPaymentsError::UnauthorizedPause);
        }
        if at_timestamp <= now {
            return Err(BillPaymentsError::InvalidAmount);
        }
        self.unpause_at = Some(at_timestamp);
        Ok(())
    }

    /// Pause the single function `func`.
    pub fn pause_function(&mut self, caller: Address, func: PausableFunction) -> (r: Result<
        (),
        BillPaymentsError,
    >)
        requires
            old(self).wf(),
        ensures
            final(self).wf(),
            r is Ok <==> old(self).is_pause_admin(caller),
            r is Ok ==> final(self).paused_functions@ == old(self).paused_functions@.insert(func, true)
                && *final(self) == (BillPayments {
                paused_functions: final(self).paused_functions,
                ..*old(self)
            }),
            r is Err ==> r == Err::<(), BillPaymentsError>(BillPaymentsError::UnauthorizedPause)
                && *final(self) == *old(self),
    {
        if self.pause_admin != Some(caller) {
            return Err(BillPaymentsError::UnauthorizedPause);
        }
        self.paused_functions.set(func, true);
        Ok(())
    }

    /// Lift the pause of the single function `func`.
    pub fn unpause_function(&mut self, caller: Address, func: PausableFunction) -> (r: Result<
        (),
        BillPaymentsError,
    >)
        requires
            old(self).wf(),
        ensures
            final(self).wf(),
            r is Ok <==> old(self).is_pause_admin(caller),
            r is Ok ==> final(self).paused_functions@ == old(self).paused_functions@.insert(func, false)
                && *final(self) == (BillPayments {
                paused_functions: final(self).paused_functions,
                ..*old(self)
            }),
            r is Err ==> r == Err::<(), BillPaymentsError>(BillPaymentsError::UnauthorizedPause)
                && *final(self) == *old(self),
    {
        if self.pause_admin != Some(caller) {
            return Err(BillPaymentsError::UnauthorizedPause);
        }
        self.paused_functions.set(func, false);
        Ok(())
    }

    /// Pause the contract and every pausable function at once.
    pub fn emergency_pause_all(&mut self, caller: Address) -> (r: Result<(), BillPaymentsError>)
        requires
            old(self).wf(),
        ensures
            final(self).wf(),
            r is Ok <==> old(self).is_pause_admin(caller),
            r is Ok ==> final(self).paused && final(self).unpause_at.is_none() && (forall|f: PausableFunction|
                #![trigger final(self).paused_functions@[f]]
                final(self).paused_functions@.contains_key(f) == (old(self).paused_functions@.contains_key(f)
                    || all_pausable().contains(f)) && (final(self).paused_functions@.contains_key(f)
                    ==> final(self).paused_functions@[f] == (all_pausable().contains(f)
                    || old(self).paused_functions@[f]))) && *final(self) == (BillPayments {
                paused: true,
                unpause_at: None,
                paused_functions: final(self).paused_functions,
                ..*old(self)
            }),
            r is Err ==> r == Err::<(), BillPaymentsError>(BillPaymentsError::UnauthorizedPause)
                && *final(self) == *old(self),
    {
        if self.pause_admin != Some(caller) {
            return Err(BillPaymentsError::UnauthorizedPause);
        }
        self.paused = true;
        self.unpause_at = None;
        let ghost m0 = self.paused_functions@;
        self.paused_functions.set(PausableFunction::CreateBill, true);
        self.paused_functions.set(PausableFunction::PayBill, true);
        self.paused_functions.set(PausableFunction::CancelBill, true);
        self.paused_functions.set(PausableFunction::Archive, true);
        self.paused_functions.set(PausableFunction::Restore, true);
        self.paused_functions.set(PausableFunction::CreateBillSchedule, true);
        self.paused_functions.set(PausableFunction::ModifyBillSchedule, true);
        self.paused_functions.set(PausableFunction::CancelBillSchedule, true);
        self.paused_functions.set(PausableFunction::ExecuteBillSchedules, true);
        self.paused_functions.set(PausableFunction::AddTags, true);
        self.paused_functions.set(PausableFunction::RemoveTags, true);
        self.paused_functions.set(PausableFunction::SetExternalRef, true);
        proof {
            let all = all_pausable();
            assert forall|f: PausableFunction| #![trigger self.paused_functions@[f]]
                self.paused_functions@.contains_key(f) == (m0.contains_key(f) || all.contains(f))
                    && (self.paused_functions@.contains_key(f) ==> self.paused_functions@[f] == (
                all.contains(f) || m0[f])) by {
                if all.contains(f) {
                    let k = choose|k: int| 0 <= k < all.len() && all[k] == f;
                    assert(k < 12);
                } else {
                    assert(f != all[0] && f != all[1] && f != all[2] && f != all[3] && f != all[4]
                        && f != all[5] && f != all[6] && f != all[7] && f != all[8] && f != all[9]
                        && f != all[10] && f != all[11]);
                }
                if f == PausableFunction::CreateBill {
                    assert(all[0] == f);
                }
                if f == PausableFunction::PayBill {
                    assert(all[1] == f);
                }
                if f == PausableFunction::CancelBill {
                    assert(all[2] == f);
                }
                if f == PausableFunction::Archive {
                    assert(all[3] == f);
                }
                if f == PausableFunction::Restore {
                    assert(all[4] == f);
                }
                if f == PausableFunction::CreateBillSchedule {
                    assert(all[5] == f);
                }
                if f == PausableFunction::ModifyBillSchedule {
                    assert(all[6] == f);
                }
                if f == PausableFunction::CancelBillSchedule {
                    assert(all[7] == f);
                }
                if f == PausableFunction::ExecuteBillSchedules {
                    assert(all[8] == f);
                }
                if f == PausableFunction::AddTags {
                    assert(all[9] == f);
                }
                if f == PausableFunction::RemoveTags {
                    assert(all[10] == f);
                }
                if f == PausableFunction::SetExternalRef {
                    assert(all[11] == f);
                }
            }
        }
        Ok(())
    }

    /// Whether the whole contract is paused.
    pub fn is_paused(&self) -> (r: bool)
        ensures
            r == self.paused,
    {
        self.paused
    }

    /// Whether the single function `func` is paused.
    pub fn is_function_paused_public(&self, func: PausableFunction) -> (r: bool)
        requires
            self.wf(),
        ensures
            r == self.function_flag(func),
    {
        self.is_function_paused(func)
    }

    /// The pause admin, if any.
    pub fn get_pause_admin_public(&self) -> (r: Option<Address>)
        ensures
            r == self.pause_admin,
    {
        self.pause_admin
    }

    /// The contract version.
    pub fn get_version(&self) -> (r: u32)
        ensures
            r == self.spec_version(),
    {
        match self.version {
            Some(v) => v,
            None => CONTRACT_VERSION,
        }
    }

    /// Set or hand over the upgrade admin. With no admin yet, a caller may only
    /// appoint itself; afterwards only the admin may appoint another.
    pub fn set_upgrade_admin(&mut self, caller: Address, new_admin: Address) -> (r: Result<
        (),
        BillPaymentsError,
    >)
        ensures
            match old(self).upgrade_admin {
                None => r is Ok <==> caller == new_admin,
                Some(a) => r is Ok <==> a == caller,
            },
            r is Ok ==> *final(self) == (BillPayments { upgrade_admin: Some(new_admin), ..*old(self) }),
            r is Err ==> r == Err::<(), BillPaymentsError>(BillPaymentsError::Unauthorized)
                && *final(self) == *old(self),
    {
        match self.upgrade_admin {
            None => {
                if caller != new_admin {
                    return Err(BillPaymentsError::Unauthorized);
                }
            },
            Some(a) => {
                if a != caller {
                    return Err(BillPaymentsError::Unauthorized);
                }
            },
        }
        self.upgrade_admin = Some(new_admin);
        Ok(())
    }

    /// The upgrade admin, if any.
    pub fn get_upgrade_admin_public(&self) -> (r: Option<Address>)
        ensures
            r == self.upgrade_admin,
    {
        self.upgrade_admin
    }

    /// Record a new contract version; upgrade admin only.
    pub fn set_version(&mut self, caller: Address, new_version: u32) -> (r: Result<(), BillPaymentsError>)
        ensures
            r is Ok <==> old(self).is_upgrade_admin(caller),
            r is Ok ==> *final(self) == (BillPayments { version: Some(new_version), ..*old(self) }),
            r is Err ==> r == Err::<(), BillPaymentsError>(BillPaymentsError::Unauthorized)
                && *final(self) == *old(self),
    {
        if self.upgrade_admin != Some(caller) {
            return Err(BillPaymentsError::Unauthorized);
        }
        self.version = Some(new_version);
        Ok(())
    }

    /// The snapshot `pre_upgrade` takes of this state.
    pub open spec fn snapshot_of(&self) -> PreUpgradeSnapshot {
        PreUpgradeSnapshot {
            schema_version: SNAPSHOT_VERSION,
            next_id: self.next_id,
            version: self.spec_version(),
            upgrade_admin: self.upgrade_admin,
            paused: self.paused,
            pause_admin: self.pause_admin,
        }
    }

    /// Save the id counter, version, admins and pause flag before an upgrade;
    /// upgrade admin only.
    pub fn pre_upgrade(&mut self, caller: Address) -> (r: Result<(), BillPaymentsError>)
        ensures
            r is Ok <==> old(self).is_upgrade_admin(caller),
            r is Ok ==> *final(self) == (BillPayments {
                snapshot: Some(old(self).snapshot_of()),
                ..*old(self)
            }),
            r is Err ==> r == Err::<(), BillPaymentsError>(BillPaymentsError::Unauthorized)
                && *final(self) == *old(self),
    {
        if self.upgrade_admin != Some(caller) {
            return Err(BillPaymentsError::Unauthorized);
        }
        let snap = PreUpgradeSnapshot {
            schema_version: SNAPSHOT_VERSION,
            next_id: self.next_id,
            version: self.get_version(),
            upgrade_admin: self.upgrade_admin,
            paused: self.paused,
            pause_admin: self.pause_admin,
        };
        self.snapshot = Some(snap);
        Ok(())
    }

    /// Put back the values saved by `pre_upgrade` and drop the snapshot;
    /// upgrade admin only.
    pub fn restore_from_snapshot(&mut self, caller: Address) -> (r: Result<(), BillPaymentsError>)
        ensures
            !old(self).is_upgrade_admin(caller) || old(self).snapshot.is_none() ==> r == Err::<
                (),
                BillPaymentsError,
            >(BillPaymentsError::Unauthorized),
            old(self).is_upgrade_admin(caller) && (old(self).snapshot matches Some(s)
                && s.schema_version != SNAPSHOT_VERSION) ==> r == Err::<(), BillPaymentsError>(
                BillPaymentsError::InvalidLimit,
            ),
            r is Ok <==> old(self).is_upgrade_admin(caller) && (old(self).snapshot matches Some(s)
                && s.schema_version == SNAPSHOT_VERSION),
            r is Ok ==> (old(self).snapshot matches Some(s) && *final(self) == (BillPayments {
                next_id: s.next_id,
                version: Some(s.version),
                upgrade_admin: s.upgrade_admin,
                paused: s.paused,
                pause_admin: s.pause_admin,
                snapshot: None,
                ..*old(self)
            })),
            r is Err ==> *final(self) == *old(self),
    {
        if self.upgrade_admin != Some(caller) {
            return Err(BillPaymentsError::Unauthorized);
        }
        let snap = match self.snapshot {
            Some(s) => s,
            None => {
                return Err(BillPaymentsError::Unauthorized);
            },
        };
        if snap.schema_version != SNAPSHOT_VERSION {
            return Err(BillPaymentsError::InvalidLimit);
        }
        self.next_id = snap.next_id;
        self.version = Some(snap.version);
        self.upgrade_admin = snap.upgrade_admin;
        self.paused = snap.paused;
        self.pause_admin = snap.pause_admin;
        self.snapshot = None;
        Ok(())
    }

    /// Drop the pre-upgrade snapshot; upgrade admin only.
    pub fn discard_snapshot(&mut self, caller: Address) -> (r: Result<(), BillPaymentsError>)
        ensures
            r is Ok <==> old(self).is_upgrade_admin(caller),
            r is Ok ==> *final(self) == (BillPayments { snapshot: None, ..*old(self) }),
            r is Err ==> r == Err::<(), BillPaymentsError>(BillPaymentsError::Unauthorized)
                && *final(self) == *old(self),
    {
        if self.upgrade_admin != Some(caller) {
            return Err(BillPaymentsError::Unauthorized);
        }
        self.snapshot = None;
        Ok(())
    }

    /// The recorded storage statistics, zero when none were recorded.
    pub fn get_storage_stats(&self) -> (r: StorageStats)
        ensures
            r == match self.stats {
                Some(s) => s,
                None => StorageStats {
                    active_bills: 0,
                    archived_bills: 0,
                    total_unpaid_amount: 0,
                    total_archived_amount: 0,
                    last_updated: 0,
                },
            },
    {
        match self.stats {
            Some(s) => s,
            None => StorageStats {
                active_bills: 0,
                archived_bills: 0,
                total_unpaid_amount: 0,
                total_archived_amount: 0,
                last_updated: 0,
            },
        }
    }
}

} // verus!
