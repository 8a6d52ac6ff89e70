//! The remittance-split contract's stored state, its invariant, and the
//! pause, upgrade and treasury controls.
use super::types::{AuditEntry, PreUpgradeSnapshot, RemittanceSchedule, RemittanceSplitError, SplitConfig};
use crate::address::Address;
use crate::maps::{AddrMap, IdMap, KeyMap};
use vstd::prelude::*;

verus! {

/// Most schedules one owner may hold.
pub const MAX_SCHEDULES_PER_OWNER: u32 = 50;
/// Shortest interval of a recurring schedule, in seconds.
pub const MIN_SCHEDULE_INTERVAL: u64 = 3_600;
/// Farthest ahead a schedule may first fall due, in seconds.
pub const MAX_SCHEDULE_LEAD_TIME: u64 = 31_536_000;
/// Longest a signed request may stay valid, in seconds.
pub const MAX_DEADLINE_WINDOW_SECS: u64 = 3_600;
/// Most consumed nonces remembered per address.
pub const MAX_USED_NONCES_PER_ADDR: usize = 256;
/// Most entries the audit log keeps.
pub const MAX_AUDIT_ENTRIES: usize = 100;
/// Version reported before any version is set.
pub const CONTRACT_VERSION: u32 = 1;
/// Schema version of pre-upgrade snapshots.
pub const SNAPSHOT_VERSION: u32 = 1;
/// Schema version of exported snapshots.
pub const SCHEMA_VERSION: u32 = 2;
/// Oldest exported schema version that can be imported.
pub const MIN_SUPPORTED_SCHEMA_VERSION: u32 = 1;

/// Everything the remittance-split contract keeps in storage.
pub struct RemittanceSplit {
    /// The configuration, once initialized.
    pub config: Option<SplitConfig>,
    /// The stored percentages (spending, savings, bills, insurance), once set.
    pub split: Option<(u32, u32, u32, u32)>,
    pub pause_admin: Option<Address>,
    pub paused: bool,
    /// The stored version, once one is set.
    pub version: Option<u32>,
    pub upgrade_admin: Option<Address>,
    /// The accepted treasury.
    pub treasury: Option<Address>,
    /// The proposed treasury, until accepted.
    pub pending_treasury: Option<Address>,
    /// The next expected nonce per address.
    pub nonces: AddrMap<u64>,
    /// The most recently consumed nonces per address, oldest first.
    pub used_nonces: AddrMap<Vec<u64>>,
    /// The audit log, oldest first.
    pub audit: Vec<AuditEntry>,
    /// The pre-upgrade snapshot, when one is held.
    pub snapshot: Option<PreUpgradeSnapshot>,
    /// Schedules by id.
    pub schedules: IdMap<RemittanceSchedule>,
    /// Schedule ids per owner, in creation order.
    pub owner_schedules: AddrMap<Vec<u32>>,
    /// The last schedule id handed out.
    pub next_schedule_id: u32,
}

impl RemittanceSplit {
    /// The invariant every stored state satisfies.
    pub open spec fn wf(&self) -> bool {
        &&& self.nonces.wf()
        &&& self.used_nonces.wf()
        &&& self.schedules.wf()
        &&& self.owner_schedules.wf()
        &&& self.audit@.len() <= MAX_AUDIT_ENTRIES
        &&& forall|a: Address| #[trigger] self.used_nonces@.contains_key(a)
            ==> self.used_nonces@[a]@.len() <= MAX_USED_NONCES_PER_ADDR
        &&& forall|a: Address| #[trigger] self.owner_schedules@.contains_key(a)
            ==> self.owner_schedules@[a]@.len() <= MAX_SCHEDULES_PER_OWNER
    }

    /// The next nonce `a` must present.
    pub open spec fn nonce_of(&self, a: Address) -> u64 {
        if self.nonces@.contains_key(a) {
            self.nonces@[a]
        } else {
            0
        }
    }

    /// The nonces `a` has consumed that are still remembered, oldest first.
    pub open spec fn used_of(&self, a: Address) -> Seq<u64> {
        if self.used_nonces@.contains_key(a) {
            self.used_nonces@[a]@
        } else {
            Seq::empty()
        }
    }

    /// Who may pause and unpause: the pause admin, else the owner.
    pub open spec fn pause_authority(&self) -> Option<Address> {
        match self.config {
            None => None,
            Some(c) => match self.pause_admin {
                Some(a) => Some(a),
                None => Some(c.owner),
            },
        }
    }

    /// Who may manage versions and snapshots: the upgrade admin, else the owner.
    pub open spec fn upgrade_authority(&self) -> Option<Address> {
        match self.config {
            None => None,
            Some(c) => match self.upgrade_admin {
                Some(a) => Some(a),
                None => Some(c.owner),
            },
        }
    }

    /// The version reported: the stored one, else the built-in one.
    pub open spec fn spec_version(&self) -> u32 {
        match self.version {
            Some(v) => v,
            None => CONTRACT_VERSION,
        }
    }

    /// A contract with nothing stored.
    pub fn new() -> (r: RemittanceSplit)
        ensures
            r.wf(),
            r.config.is_none(),
            r.split.is_none(),
            r.pause_admin.is_none(),
            !r.paused,
            r.version.is_none(),
            r.upgrade_admin.is_none(),
            r.treasury.is_none(),
            r.pending_treasury.is_none(),
            r.nonces@ == Map::<Address, u64>::empty(),
            r.used_nonces@ == Map::<Address, Vec<u64>>::empty(),
            r.audit@ == Seq::<AuditEntry>::empty(),
            r.snapshot.is_none(),
            r.schedules@ == Map::<u32, RemittanceSchedule>::empty(),
            r.owner_schedules@ == Map::<Address, Vec<u32>>::empty(),
            r.next_schedule_id == 0,
    {
        RemittanceSplit {
            config: None,
            split: None,
            pause_admin: None,
            paused: false,
            version: None,
            upgrade_admin: None,
            treasury: None,
            pending_treasury: None,
            nonces: KeyMap::new(),
            used_nonces: KeyMap::new(),
            audit: Vec::new(),
            snapshot: None,
            schedules: IdMap::new(),
            owner_schedules: KeyMap::new(),
            next_schedule_id: 0,
        }
    }

    /// Refused with `Unauthorized` while the contract is paused.
    pub fn require_not_paused(&self) -> (r: Result<(), RemittanceSplitError>)
        ensures
            r == if self.paused {
                Err::<(), RemittanceSplitError>(RemittanceSplitError::Unauthorized)
            } else {
                Ok(())
            },
    {
        if self.paused {
            Err(RemittanceSplitError::Unauthorized)
        } else {
            Ok(())
        }
    }

    /// Whether the contract is paused.
    pub fn is_paused(&self) -> (r: bool)
        ensures
            r == self.paused,
    {
        self.paused
    }

    /// The version: the stored one, else the built-in one.
    pub fn get_version(&self) -> (r: u32)
        ensures
            r == self.spec_version(),
    {
        match self.version {
            Some(v) => v,
            None => CONTRACT_VERSION,
        }
    }

    /// The pause admin, if one is set.
    pub fn get_pause_admin_public(&self) -> (r: Option<Address>)
        ensures
            r == self.pause_admin,
    {
        self.pause_admin
    }

    /// The upgrade admin, if one is set.
    pub fn get_upgrade_admin_public(&self) -> (r: Option<Address>)
        ensures
            r == self.upgrade_admin,
    {
        self.upgrade_admin
    }

    /// The accepted treasury, if any.
    pub fn get_treasury_public(&self) -> (r: Option<Address>)
        ensures
            r == self.treasury,
    {
        self.treasury
    }

    /// The proposed treasury, if any.
    pub fn get_pending_treasury_public(&self) -> (r: Option<Address>)
        ensures
            r == self.pending_treasury,
    {
        self.pending_treasury
    }

    /// The configuration, if initialized.
    pub fn get_config(&self) -> (r: Option<SplitConfig>)
        ensures
            r == self.config,
    {
        self.config
    }

    /// The owner makes `new_admin` the pause admin.
    pub fn set_pause_admin(&mut self, caller: Address, new_admin: Address) -> (r: Result<(), RemittanceSplitError>)
        ensures
            r == if old(self).paused {
                Err(RemittanceSplitError::Unauthorized)
            } else if old(self).config is None {
                Err(RemittanceSplitError::NotInitialized)
            } else if old(self).config->Some_0.owner != caller {
                Err(RemittanceSplitError::Unauthorized)
            } else {
                Ok::<(), RemittanceSplitError>(())
            },
            r is Ok ==> *final(self) == (RemittanceSplit { pause_admin: Some(new_admin), ..*old(self) }),
            r is Err ==> *final(self) == *old(self),
    {
        if self.paused {
            return Err(RemittanceSplitError::Unauthorized);
        }
        match self.config {
            None => Err(RemittanceSplitError::NotInitialized),
            Some(c) => {
                if c.owner != caller {
                    return Err(RemittanceSplitError::Unauthorized);
                }
                self.pause_admin = Some(new_admin);
                Ok(())
            },
        }
    }

    /// The pause authority pauses the contract.
    pub fn pause(&mut self, caller: Address) -> (r: Result<(), RemittanceSplitError>)
        ensures
            r == if old(self).paused {
                Err(RemittanceSplitError::Unauthorized)
            } else if old(self).config is None {
                Err(RemittanceSplitError::NotInitialized)
            } else if old(self).pause_authority() != Some(caller) {
                Err(RemittanceSplitError::Unauthorized)
            } else {
                Ok::<(), RemittanceSplitError>(())
            },
            r is Ok ==> *final(self) == (RemittanceSplit { paused: true, ..*old(self) }),
            r is Err ==> *final(self) == *old(self),
    {
        if self.paused {
            return Err(RemittanceSplitError::Unauthorized);
        }
        match self.config {
            None => Err(RemittanceSplitError::NotInitialized),
            Some(c) => {
                let admin = match self.pause_admin {
                    Some(a) => a,
                    None => c.owner,
                };
                if admin != caller {
                    return Err(RemittanceSplitError::Unauthorized);
                }
                self.paused = true;
                Ok(())
            },
        }
    }

    /// The pause authority unpauses the contract; allowed while paused.
    pub fn unpause(&mut self, caller: Address) -> (r: Result<(), RemittanceSplitError>)
        ensures
            r == if old(self).config is None {
                Err(RemittanceSplitError::NotInitialized)
            } else if old(self).pause_authority() != Some(caller) {
                Err(RemittanceSplitError::Unauthorized)
            } else {
                Ok::<(), RemittanceSplitError>(())
            },
            r is Ok ==> *final(self) == (RemittanceSplit { paused: false, ..*old(self) }),
            r is Err ==> *final(self) == *old(self),
    {
        match self.config {
            None => Err(RemittanceSplitError::NotInitialized),
            Some(c) => {
                let admin = match self.pause_admin {
                    Some(a) => a,
                    None => c.owner,
                };
                if admin != caller {
                    return Err(RemittanceSplitError::Unauthorized);
                }
                self.paused = false;
                Ok(())
            },
        }
    }

    /// Set or hand over the upgrade admin: the owner sets the first one,
    /// after that only the current upgrade admin may hand it over.
    pub fn set_upgrade_admin(&mut self, caller: Address, new_admin: Address) -> (r: Result<(), RemittanceSplitError>)
        ensures
            r == if old(self).config is None {
                Err(RemittanceSplitError::NotInitialized)
            } else if old(self).upgrade_authority() != Some(caller) {
                Err(RemittanceSplitError::Unauthorized)
            } else {
                Ok::<(), RemittanceSplitError>(())
            },
            r is Ok ==> *final(self) == (RemittanceSplit { upgrade_admin: Some(new_admin), ..*old(self) }),
            r is Err ==> *final(self) == *old(self),
    {
        match self.config {
            None => Err(RemittanceSplitError::NotInitialized),
            Some(c) => {
                match self.upgrade_admin {
                    None => {
                        if c.owner != caller {
                            return Err(RemittanceSplitError::Unauthorized);
                        }
                    },
                    Some(a) => {
                        if a != caller {
                            return Err(RemittanceSplitError::Unauthorized);
                        }
                    },
                }
                self.upgrade_admin = Some(new_admin);
                Ok(())
            },
        }
    }

    /// The owner proposes `new_treasury`; it takes effect once accepted.
    pub fn propose_treasury(&mut self, caller: Address, new_treasury: Address) -> (r: Result<(), RemittanceSplitError>)
        ensures
            r == if old(self).paused {
                Err(RemittanceSplitError::Unauthorized)
            } else if old(self).config is None {
                Err(RemittanceSplitError::NotInitialized)
            } else if old(self).config->Some_0.owner != caller {
                Err(RemittanceSplitError::Unauthorized)
            } else {
                Ok::<(), RemittanceSplitError>(())
            },
            r is Ok ==> *final(self) == (RemittanceSplit { pending_treasury: Some(new_treasury), ..*old(self) }),
            r is Err ==> *final(self) == *old(self),
    {
        if self.paused {
            return Err(RemittanceSplitError::Unauthorized);
        }
        match self.config {
            None => Err(RemittanceSplitError::NotInitialized),
            Some(c) => {
                if c.owner != caller {
                    return Err(RemittanceSplitError::Unauthorized);
                }
                self.pending_treasury = Some(new_treasury);
                Ok(())
            },
        }
    }

    /// The proposed treasury accepts and becomes the treasury.
    pub fn accept_treasury(&mut self, caller: Address) -> (r: Result<(), RemittanceSplitError>)
        ensures
            r == match old(self).pending_treasury {
                None => Err(RemittanceSplitError::NoPendingTreasury),
                Some(p) => if p != caller {
                    Err(RemittanceSplitError::PendingTreasuryMismatch)
                } else {
                    Ok::<(), RemittanceSplitError>(())
                },
            },
            r is Ok ==> *final(self) == (RemittanceSplit {
                treasury: Some(caller),
                pending_treasury: None,
                ..*old(self)
            }),
            r is Err ==> *final(self) == *old(self),
    {
        match self.pending_treasury {
            None => Err(RemittanceSplitError::NoPendingTreasury),
            Some(p) => {
                if p != caller {
                    return Err(RemittanceSplitError::PendingTreasuryMismatch);
                }
                self.treasury = Some(caller);
                self.pending_treasury = None;
                Ok(())
            },
        }
    }

    /// The upgrade authority records `new_version`.
    pub fn set_version(&mut self, caller: Address, new_version: u32) -> (r: Result<(), RemittanceSplitError>)
        ensures
            r == if old(self).paused {
                Err(RemittanceSplitError::Unauthorized)
            } else if old(self).config is None {
                Err(RemittanceSplitError::NotInitialized)
            } else if old(self).upgrade_authority() != Some(caller) {
                Err(RemittanceSplitError::Unauthorized)
            } else {
                Ok::<(), RemittanceSplitError>(())
            },
            r is Ok ==> *final(self) == (RemittanceSplit { version: Some(new_version), ..*old(self) }),
            r is Err ==> *final(self) == *old(self),
    {
        if self.paused {
            return Err(RemittanceSplitError::Unauthorized);
        }
        match self.config {
            None => Err(RemittanceSplitError::NotInitialized),
            Some(c) => {
                let admin = match self.upgrade_admin {
                    Some(a) => a,
                    None => c.owner,
                };
                if admin != caller {
                    return Err(RemittanceSplitError::Unauthorized);
                }
                self.version = Some(new_version);
                Ok(())
            },
        }
    }

    /// The snapshot `pre_upgrade` takes of the current state.
    pub open spec fn snapshot_of(&self) -> PreUpgradeSnapshot {
        PreUpgradeSnapshot {
            schema_version: SNAPSHOT_VERSION,
            config: self.config->Some_0,
            version: self.spec_version(),
            upgrade_admin: self.upgrade_admin,
            paused: self.paused,
            pause_admin: self.pause_admin,
        }
    }

    /// The upgrade authority saves the configuration, version, admins and
    /// pause state, to roll an upgrade back.
    pub fn pre_upgrade(&mut self, caller: Address) -> (r: Result<(), RemittanceSplitError>)
        ensures
            r == if old(self).config is None {
                Err(RemittanceSplitError::NotInitialized)
            } else if old(self).upgrade_authority() != Some(caller) {
                Err(RemittanceSplitError::Unauthorized)
            } else {
                Ok::<(), RemittanceSplitError>(())
            },
            r is Ok ==> *final(self) == (RemittanceSplit { snapshot: Some(old(self).snapshot_of()), ..*old(self) }),
            r is Err ==> *final(self) == *old(self),
    {
        match self.config {
            None => Err(RemittanceSplitError::NotInitialized),
            Some(c) => {
                let admin = match self.upgrade_admin {
                    Some(a) => a,
                    None => c.owner,
                };
                if admin != caller {
                    return Err(RemittanceSplitError::Unauthorized);
                }
                let version = self.get_version();
                self.snapshot = Some(
                    PreUpgradeSnapshot {
                        schema_version: SNAPSHOT_VERSION,
                        config: c,
                        version,
                        upgrade_admin: self.upgrade_admin,
                        paused: self.paused,
                        pause_admin: self.pause_admin,
                    },
                );
                Ok(())
            },
        }
    }
}

} // verus!
