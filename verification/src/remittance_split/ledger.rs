//! Replay protection (per-address nonces and the consumed-nonce window) and
//! the bounded audit log.
use super::state::{RemittanceSplit, MAX_AUDIT_ENTRIES, MAX_DEADLINE_WINDOW_SECS, MAX_USED_NONCES_PER_ADDR};
use super::types::{AuditEntry, AuditOp, AuditPage, RemittanceSplitError};
use crate::address::Address;
use crate::common::{clamp_limit, spec_clamp_limit};
use vstd::prelude::*;

verus! {

/// `s` with `x` appended, dropping the oldest item first when `s` already
/// holds `cap` items.
pub open spec fn push_bounded<A>(s: Seq<A>, x: A, cap: nat) -> Seq<A> {
    if s.len() >= cap {
        s.drop_first().push(x)
    } else {
        s.push(x)
    }
}

/// The audit page starting at `from` of at most `limit` entries of `log`,
/// and the index where the next page starts (0 when none follows).
pub open spec fn audit_window(log: Seq<AuditEntry>, from: u32, limit: u32) -> (Seq<AuditEntry>, u32) {
    if from >= log.len() {
        (Seq::empty(), 0)
    } else {
        let end = if from + limit > log.len() { log.len() as int } else { from + limit };
        (log.subrange(from as int, end), if end < log.len() { end as u32 } else { 0 })
    }
}

impl RemittanceSplit {
    /// Why `nonce` is refused for `a`, if it is.
    pub open spec fn nonce_error(&self, a: Address, nonce: u64) -> Option<RemittanceSplitError> {
        if nonce != self.nonce_of(a) {
            Some(RemittanceSplitError::InvalidNonce)
        } else {
            None
        }
    }

    /// The next nonce `address` must present.
    pub fn get_nonce(&self, address: Address) -> (r: u64)
        requires
            self.wf(),
        ensures
            r == self.nonce_of(address),
    {
        match self.nonces.get(&address) {
            Some(n) => *n,
            None => 0,
        }
    }

    /// Refused with `InvalidNonce` unless `expected` is `address`'s next nonce.
    pub fn require_nonce(&self, address: Address, expected: u64) -> (r: Result<(), RemittanceSplitError>)
        requires
            self.wf(),
        ensures
            r == match self.nonce_error(address, expected) {
                Some(e) => Err(e),
                None => Ok::<(), RemittanceSplitError>(()),
            },
    {
        if expected != self.get_nonce(address) {
            Err(RemittanceSplitError::InvalidNonce)
        } else {
            Ok(())
        }
    }

    /// Whether `address` has consumed `nonce` within the remembered window.
    pub fn is_nonce_used(&self, address: Address, nonce: u64) -> (r: bool)
        requires
            self.wf(),
        ensures
            r == self.used_of(address).contains(nonce),
    {
        match self.used_nonces.get(&address) {
            None => false,
            Some(used) => {
                let mut i: usize = 0;
                while i < used.len()
                    invariant
                        i <= used@.len(),
                        used@ == self.used_of(address),
                        forall|k: int| 0 <= k < i ==> used@[k] != nonce,
                    decreases used@.len() - i,
                {
                    if used[i] == nonce {
                        assert(used@[i as int] == nonce);
                        return true;
                    }
                    i = i + 1;
                }
                assert(!used@.contains(nonce));
                false
            },
        }
    }

    /// Remember that `address` consumed `nonce`, forgetting the oldest
    /// remembered one when the window is full.
    pub fn mark_nonce_used(&mut self, address: Address, nonce: u64)
        requires
            old(self).wf(),
        ensures
            final(self).wf(),
            final(self).used_nonces@ == old(self).used_nonces@.insert(address, final(self).used_nonces@[address]),
            final(self).used_nonces@[address]@ == push_bounded(
                old(self).used_of(address),
                nonce,
                MAX_USED_NONCES_PER_ADDR as nat,
            ),
            *final(self) == (RemittanceSplit { used_nonces: final(self).used_nonces, ..*old(self) }),
    {
        let mut used: Vec<u64> = match self.used_nonces.get(&address) {
            Some(u) => u.clone(),
            None => Vec::new(),
        };
        let ghost u0 = self.used_of(address);
        assert(used@ == u0);
        if used.len() >= MAX_USED_NONCES_PER_ADDR {
            let mut trimmed: Vec<u64> = Vec::new();
            let mut i: usize = 1;
            while i < used.len()
                invariant
                    1 <= i <= used@.len(),
                    used@ == u0,
                    trimmed@ == u0.subrange(1, i as int),
                decreases used@.len() - i,
            {
                trimmed.push(used[i]);
                i = i + 1;
            }
            assert(trimmed@ =~= u0.drop_first());
            used = trimmed;
        }
        used.push(nonce);
        self.used_nonces.set(address, used);
        proof {
            assert forall|a: Address| #[trigger] self.used_nonces@.contains_key(a) implies self.used_nonces@[a]@.len()
                <= MAX_USED_NONCES_PER_ADDR by {
                if a != address {
                    assert(old(self).used_nonces@.contains_key(a));
                }
            }
        }
    }

    /// `address` consumes its current nonce: it is remembered as used and
    /// the next one becomes current.
    pub fn increment_nonce(&mut self, address: Address)
        requires
            old(self).wf(),
            old(self).nonce_of(address) < u64::MAX,
        ensures
            final(self).wf(),
            final(self).nonces@ == old(self).nonces@.insert(address, (old(self).nonce_of(address) + 1) as u64),
            final(self).used_nonces@ == old(self).used_nonces@.insert(address, final(self).used_nonces@[address]),
            final(self).used_nonces@[address]@ == push_bounded(
                old(self).used_of(address),
                old(self).nonce_of(address),
                MAX_USED_NONCES_PER_ADDR as nat,
            ),
            *final(self) == (RemittanceSplit {
                nonces: final(self).nonces,
                used_nonces: final(self).used_nonces,
                ..*old(self)
            }),
    {
        let current = self.get_nonce(address);
        self.mark_nonce_used(address, current);
        self.nonces.set(address, current + 1);
    }

    /// Refused unless the request is live at `now` (its deadline later than
    /// `now` and at most the window ahead), `nonce` is `address`'s next and
    /// unused nonce, and `request_hash` is the expected fingerprint.
    pub fn require_nonce_hardened(
        &self,
        address: Address,
        nonce: u64,
        deadline: u64,
        request_hash: u64,
        expected_hash: u64,
        now: u64,
    ) -> (r: Result<(), RemittanceSplitError>)
        requires
            self.wf(),
            now + MAX_DEADLINE_WINDOW_SECS <= u64::MAX,
        ensures
            r == if deadline <= now || deadline > now + MAX_DEADLINE_WINDOW_SECS {
                Err(RemittanceSplitError::DeadlineExpired)
            } else if self.nonce_error(address, nonce) is Some {
                Err(RemittanceSplitError::InvalidNonce)
            } else if self.used_of(address).contains(nonce) {
                Err(RemittanceSplitError::NonceAlreadyUsed)
            } else if request_hash != expected_hash {
                Err(RemittanceSplitError::RequestHashMismatch)
            } else {
                Ok::<(), RemittanceSplitError>(())
            },
    {
        if deadline <= now {
            return Err(RemittanceSplitError::DeadlineExpired);
        }
        if deadline > now + MAX_DEADLINE_WINDOW_SECS {
            return Err(RemittanceSplitError::DeadlineExpired);
        }
        if let Err(e) = self.require_nonce(address, nonce) {
            return Err(e);
        }
        if self.is_nonce_used(address, nonce) {
            return Err(RemittanceSplitError::NonceAlreadyUsed);
        }
        if request_hash != expected_hash {
            return Err(RemittanceSplitError::RequestHashMismatch);
        }
        Ok(())
    }

    /// Record `operation` by `caller` at `now`, dropping the oldest entry
    /// when the log is full.
    pub fn append_audit(&mut self, operation: AuditOp, caller: Address, success: bool, now: u64)
        requires
            old(self).wf(),
        ensures
            final(self).wf(),
            final(self).audit@ == push_bounded(
                old(self).audit@,
                AuditEntry { operation, caller, timestamp: now, success },
                MAX_AUDIT_ENTRIES as nat,
            ),
            *final(self) == (RemittanceSplit { audit: final(self).audit, ..*old(self) }),
    {
        let entry = AuditEntry { operation, caller, timestamp: now, success };
        if self.audit.len() >= MAX_AUDIT_ENTRIES {
            let ghost l0 = self.audit@;
            let mut trimmed: Vec<AuditEntry> = Vec::new();
            let mut i: usize = 1;
            while i < self.audit.len()
                invariant
                    1 <= i <= self.audit@.len(),
                    self.audit@ == l0,
                    trimmed@ == l0.subrange(1, i as int),
                decreases self.audit@.len() - i,
            {
                trimmed.push(self.audit[i]);
                i = i + 1;
            }
            assert(trimmed@ =~= l0.drop_first());
            trimmed.push(entry);
            self.audit = trimmed;
        } else {
            self.audit.push(entry);
        }
    }

    /// A page of the audit log: at most `limit` (clamped) entries from
    /// index `from_index`, oldest first.
    pub fn get_audit_log(&self, from_index: u32, limit: u32) -> (r: AuditPage)
        requires
            self.wf(),
        ensures
            ({
                let w = audit_window(self.audit@, from_index, spec_clamp_limit(limit));
                &&& r.items@ == w.0
                &&& r.next_cursor == w.1
                &&& r.count == r.items@.len()
            }),
    {
        let len = self.audit.len() as u32;
        let cap = clamp_limit(limit);
        if from_index >= len {
            return AuditPage { items: Vec::new(), next_cursor: 0, count: 0 };
        }
        let sum = from_index.saturating_add(cap);
        let end = if sum < len {
            sum
        } else {
            len
        };
        let mut items: Vec<AuditEntry> = Vec::new();
        let mut i: u32 = from_index;
        while i < end
            invariant
                from_index <= i <= end <= len == self.audit@.len(),
                items@ == self.audit@.subrange(from_index as int, i as int),
            decreases end - i,
        {
            items.push(self.audit[i as usize]);
            i = i + 1;
        }
        let count = items.len() as u32;
        let next_cursor = if end < len {
            end
        } else {
            0
        };
        AuditPage { items, next_cursor, count }
    }
}

} // verus!
