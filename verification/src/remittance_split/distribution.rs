//! Distributions: the request fingerprints and hashes that bind a signed
//! request, and the checks a distribution passes before its transfers.
use super::ledger::push_bounded;
use super::split::distribution_shares;
use super::state::{RemittanceSplit, MAX_AUDIT_ENTRIES, MAX_DEADLINE_WINDOW_SECS, MAX_USED_NONCES_PER_ADDR};
use super::types::{
    AccountGroup, AuditEntry, AuditOp, DistributeUsdcRequest, RemittanceSplitError, RequestAddressBits,
    SplitAmounts,
};
use crate::address::Address;
use vstd::prelude::*;

verus! {

/// The 6-bit code of a short-symbol character: `_` is 1, digits 2 to 11,
/// upper-case letters 12 to 37, lower-case letters 38 to 63.
pub open spec fn symbol_char_code(c: char) -> int {
    if c == '_' {
        1
    } else if '0' <= c <= '9' {
        2 + (c as int - '0' as int)
    } else if 'A' <= c <= 'Z' {
        12 + (c as int - 'A' as int)
    } else {
        38 + (c as int - 'a' as int)
    }
}

/// The characters of `name` packed 6 bits each, the first character
/// highest.
pub open spec fn symbol_body(name: Seq<char>) -> int
    decreases name.len(),
{
    if name.len() == 0 {
        0
    } else {
        symbol_body(name.drop_last()) * 64 + symbol_char_code(name.last())
    }
}

/// The payload of the short symbol named `name` (its value's 64 bits): the
/// packed characters shifted past the 8 tag bits, under the small-symbol
/// tag 14.
pub open spec fn symbol_payload(name: Seq<char>) -> u64 {
    (symbol_body(name) * 256 + 14) as u64
}

/// The SHA-256 digest of `data`.
pub uninterp spec fn sha256_digest(data: Seq<u8>) -> Seq<u8>;

/// `name` can be a short symbol: at most 9 characters, each a letter, a
/// digit or `_`.
pub open spec fn valid_short_symbol(name: Seq<char>) -> bool {
    &&& name.len() <= 9
    &&& forall|i: int|
        0 <= i < name.len() ==> {
            let c = #[trigger] name[i];
            c == '_' || ('0' <= c <= '9') || ('A' <= c <= 'Z') || ('a' <= c <= 'z')
        }
}

/// The payload of the short symbol `name`.
///
/// Calls `soroban_sdk::Symbol::short` and reads the payload of its value;
/// claims the result is `symbol_payload(name)`: the characters packed 6 bits
/// each, shifted left by 8, with the small-symbol tag 14 in the low byte.
/// The name must be a valid short symbol, else the call panics.
#[verifier::external_body]
fn short_symbol_payload(name: &str) -> (r: u64)
    requires
        valid_short_symbol(name@),
    ensures
        r == symbol_payload(name@),
{
    #[allow(deprecated)]
    let sym = soroban_sdk::Symbol::short(name);
    sym.to_val().get_payload()
}

/// The longest input hashed here: well inside the budget of a fresh host
/// environment, which charges hashing per byte.
pub const MAX_HASH_INPUT: usize = 65_536;

/// The SHA-256 digest of `data`, at most `MAX_HASH_INPUT` bytes.
///
/// Calls `soroban_sdk::crypto::Crypto::sha256` on a fresh host
/// environment; claims the digest is `sha256_digest(data)`, a function of
/// the bytes alone, and is 32 bytes long. Longer inputs can exhaust the
/// environment's budget, and the call then panics.
#[verifier::external_body]
fn sha256(data: &Vec<u8>) -> (r: Vec<u8>)
    requires
        data@.len() <= MAX_HASH_INPUT,
    ensures
        r@ == sha256_digest(data@),
        r@.len() == 32,
{
    let env = soroban_sdk::Env::default();
    let bytes = soroban_sdk::Bytes::from_slice(&env, data.as_slice());
    env.crypto().sha256(&bytes).to_array().to_vec()
}

/// The `u64` fingerprint of a request: the operation's symbol payload,
/// the nonce, the low and high 64 bits of the amount and the deadline
/// added modulo 2^64, then multiplied by 1 000 000 007 modulo 2^64.
pub open spec fn fingerprint(op_bits: u64, nonce: u64, amount: i128, deadline: u64) -> u64 {
    let lo = amount as u64;
    let hi = (amount >> 64u32) as u64;
    let s = vstd::wrapping::u64_specs::wrapping_add(
        vstd::wrapping::u64_specs::wrapping_add(
            vstd::wrapping::u64_specs::wrapping_add(vstd::wrapping::u64_specs::wrapping_add(op_bits, nonce), lo),
            hi,
        ),
        deadline,
    );
    vstd::wrapping::u64_specs::wrapping_mul(s, 1_000_000_007)
}

/// The bytes of `x`, least significant first.
pub open spec fn le_bytes(x: u128, n: nat) -> Seq<u8>
    decreases n,
{
    if n == 0 {
        Seq::empty()
    } else {
        seq![(x % 256) as u8] + le_bytes(x / 256, (n - 1) as nat)
    }
}

/// The domain separator `distribute_usdc_v1`.
pub open spec fn distribute_domain() -> Seq<u8> {
    seq![100u8, 105, 115, 116, 114, 105, 98, 117, 116, 101, 95, 117, 115, 100, 99, 95, 118, 49]
}

/// The bytes hashed to bind a request: the domain separator, the
/// operation tag's payload, the six address payloads (payer, token, then
/// the four destinations), the amount (16 bytes), the nonce and the
/// deadline, every number least significant byte first.
pub open spec fn request_preimage(request: DistributeUsdcRequest, bits: RequestAddressBits, tag: u64) -> Seq<u8> {
    distribute_domain() + le_bytes(tag as u128, 8) + le_bytes(bits.from as u128, 8) + le_bytes(
        bits.usdc_contract as u128,
        8,
    ) + le_bytes(bits.spending as u128, 8) + le_bytes(bits.savings as u128, 8) + le_bytes(bits.bills as u128, 8)
        + le_bytes(bits.insurance as u128, 8) + le_bytes(request.total_amount as u128, 16) + le_bytes(
        request.nonce as u128,
        8,
    ) + le_bytes(request.deadline as u128, 8)
}

/// Append the `n` low bytes of `x`, least significant first.
fn push_le(out: &mut Vec<u8>, x: u128, n: usize)
    requires
        n <= 16,
    ensures
        final(out)@ == old(out)@ + le_bytes(x, n as nat),
        final(out)@.len() == old(out)@.len() + n,
{
    let mut v = x;
    let mut i: usize = 0;
    let ghost start = out@;
    while i < n
        invariant
            i <= n <= 16,
            out@ + le_bytes(v, (n - i) as nat) == start + le_bytes(x, n as nat),
            out@.len() == start.len() + i,
        decreases n - i,
    {
        let ghost before = out@;
        out.push((v % 256) as u8);
        proof {
            assert(le_bytes(v, (n - i) as nat) == seq![(v % 256) as u8] + le_bytes(v / 256, (n - i - 1) as nat));
            assert(out@ + le_bytes(v / 256, (n - i - 1) as nat) =~= before + le_bytes(v, (n - i) as nat));
        }
        v = v / 256;
        i = i + 1;
    }
    assert(le_bytes(v, 0) =~= Seq::<u8>::empty());
    assert(out@ =~= out@ + le_bytes(v, 0));
}

/// Whether any destination account is the payer itself.
pub open spec fn pays_itself(accounts: AccountGroup, from: Address) -> bool {
    accounts.spending == from || accounts.savings == from || accounts.bills == from || accounts.insurance == from
}

/// The request fingerprint of an operation whose symbol payload is
/// `op_bits`.
pub fn request_fingerprint(op_bits: u64, nonce: u64, amount: i128, deadline: u64) -> (r: u64)
    ensures
        r == fingerprint(op_bits, nonce, amount, deadline),
{
    #[verifier::truncate]
    let lo = amount as u64;
    #[verifier::truncate]
    let hi = (amount >> 64u32) as u64;
    op_bits.wrapping_add(nonce).wrapping_add(lo).wrapping_add(hi).wrapping_add(deadline).wrapping_mul(1_000_000_007)
}

impl RemittanceSplit {
    /// The fingerprint binding `operation`, `nonce`, `amount` and
    /// `deadline`; the caller is not part of it.
    pub fn compute_request_hash(operation: &str, _caller: Address, nonce: u64, amount: i128, deadline: u64) -> (r: u64)
        requires
            valid_short_symbol(operation@),
        ensures
            r == fingerprint(symbol_payload(operation@), nonce, amount, deadline),
    {
        let op_bits = short_symbol_payload(operation);
        request_fingerprint(op_bits, nonce, amount, deadline)
    }

    /// The bytes hashed to bind `request`, whose addresses have the
    /// payloads `bits`, under the operation tag payload `tag`.
    pub fn request_preimage_bytes(request: &DistributeUsdcRequest, bits: &RequestAddressBits, tag: u64) -> (r: Vec<u8>)
        ensures
            r@ == request_preimage(*request, *bits, tag),
            r@.len() == 106,
    {
        let mut out: Vec<u8> = Vec::new();
        let domain: [u8; 18] = [100, 105, 115, 116, 114, 105, 98, 117, 116, 101, 95, 117, 115, 100, 99, 95, 118, 49];
        let mut i: usize = 0;
        while i < 18
            invariant
                i <= 18,
                domain@ == distribute_domain(),
                out@ == distribute_domain().subrange(0, i as int),
            decreases 18 - i,
        {
            out.push(domain[i]);
            i = i + 1;
        }
        assert(out@ =~= distribute_domain());
        push_le(&mut out, tag as u128, 8);
        push_le(&mut out, bits.from as u128, 8);
        push_le(&mut out, bits.usdc_contract as u128, 8);
        push_le(&mut out, bits.spending as u128, 8);
        push_le(&mut out, bits.savings as u128, 8);
        push_le(&mut out, bits.bills as u128, 8);
        push_le(&mut out, bits.insurance as u128, 8);
        #[verifier::truncate]
        let amount_bits = request.total_amount as u128;
        push_le(&mut out, amount_bits, 16);
        push_le(&mut out, request.nonce as u128, 8);
        push_le(&mut out, request.deadline as u128, 8);
        out
    }

    /// The SHA-256 hash that binds `request`, whose addresses have the
    /// payloads `bits`, under the `distrib` tag.
    pub fn get_request_hash(request: &DistributeUsdcRequest, bits: &RequestAddressBits) -> (r: Result<
        Vec<u8>,
        RemittanceSplitError,
    >)
        ensures
            r matches Ok(h) && h@ == sha256_digest(request_preimage(*request, *bits, symbol_payload("distrib"@)))
                && h@.len() == 32,
    {
        proof {
            reveal_strlit("distrib");
        }
        let tag = short_symbol_payload("distrib");
        let preimage = Self::request_preimage_bytes(request, bits, tag);
        Ok(sha256(&preimage))
    }

    /// Why `distribute_usdc` refuses, if it does, given the payload
    /// `tag_bits` of its operation tag.
    pub open spec fn distribute_error(
        &self,
        usdc_contract: Address,
        from: Address,
        nonce: u64,
        deadline: u64,
        request_hash: u64,
        accounts: AccountGroup,
        total_amount: i128,
        tag_bits: u64,
        now: u64,
    ) -> Option<RemittanceSplitError> {
        let c = self.config->Some_0;
        if self.paused {
            Some(RemittanceSplitError::Unauthorized)
        } else if self.config is None {
            Some(RemittanceSplitError::NotInitialized)
        } else if c.owner != from {
            Some(RemittanceSplitError::Unauthorized)
        } else if c.usdc_contract != usdc_contract {
            Some(RemittanceSplitError::UntrustedTokenContract)
        } else if total_amount <= 0 {
            Some(RemittanceSplitError::InvalidAmount)
        } else if pays_itself(accounts, from) {
            Some(RemittanceSplitError::SelfTransferNotAllowed)
        } else if deadline <= now || deadline > now + MAX_DEADLINE_WINDOW_SECS {
            Some(RemittanceSplitError::DeadlineExpired)
        } else if nonce != self.nonce_of(from) {
            Some(RemittanceSplitError::InvalidNonce)
        } else if self.used_of(from).contains(nonce) {
            Some(RemittanceSplitError::NonceAlreadyUsed)
        } else if request_hash != fingerprint(tag_bits, nonce, total_amount, deadline) {
            Some(RemittanceSplitError::RequestHashMismatch)
        } else if distribution_shares(total_amount, self.split_values()) is Err {
            Some(distribution_shares(total_amount, self.split_values())->Err_0)
        } else if nonce == u64::MAX {
            Some(RemittanceSplitError::Overflow)
        } else {
            None
        }
    }

    /// The checks and bookkeeping of `distribute_usdc` at `now`, with
    /// `tag_bits` the payload of the `distrib` tag: on success the payer's
    /// nonce is consumed and the shares to transfer are returned.
    pub fn distribute_usdc_tagged(
        &mut self,
        usdc_contract: Address,
        from: Address,
        nonce: u64,
        deadline: u64,
        request_hash: u64,
        accounts: AccountGroup,
        total_amount: i128,
        tag_bits: u64,
        now: u64,
    ) -> (r: Result<SplitAmounts, RemittanceSplitError>)
        requires
            old(self).wf(),
            now + MAX_DEADLINE_WINDOW_SECS <= u64::MAX,
        ensures
            final(self).wf(),
            match old(self).distribute_error(
                usdc_contract,
                from,
                nonce,
                deadline,
                request_hash,
                accounts,
                total_amount,
                tag_bits,
                now,
            ) {
                Some(e) => r == Err::<SplitAmounts, RemittanceSplitError>(e) && *final(self) == *old(self),
                None => {
                    &&& r == distribution_shares(total_amount, old(self).split_values())
                    &&& final(self).nonces@ == old(self).nonces@.insert(from, (nonce + 1) as u64)
                    &&& final(self).used_nonces@ == old(self).used_nonces@.insert(
                        from,
                        final(self).used_nonces@[from],
                    )
                    &&& final(self).used_nonces@[from]@ == push_bounded(
                        old(self).used_of(from),
                        nonce,
                        MAX_USED_NONCES_PER_ADDR as nat,
                    )
                    &&& *final(self) == (RemittanceSplit {
                        nonces: final(self).nonces,
                        used_nonces: final(self).used_nonces,
                        ..*old(self)
                    })
                },
            },
    {
        if let Err(e) = self.require_not_paused() {
            return Err(e);
        }
        let config = match self.config {
            Some(c) => c,
            None => {
                return Err(RemittanceSplitError::NotInitialized);
            },
        };
        if config.owner != from {
            return Err(RemittanceSplitError::Unauthorized);
        }
        if config.usdc_contract != usdc_contract {
            return Err(RemittanceSplitError::UntrustedTokenContract);
        }
        if total_amount <= 0 {
            return Err(RemittanceSplitError::InvalidAmount);
        }
        if accounts.spending == from || accounts.savings == from || accounts.bills == from || accounts.insurance
            == from {
            return Err(RemittanceSplitError::SelfTransferNotAllowed);
        }
        let expected = request_fingerprint(tag_bits, nonce, total_amount, deadline);
        if let Err(e) = self.require_nonce_hardened(from, nonce, deadline, request_hash, expected, now) {
            return Err(e);
        }
        let amounts = match self.calculate_split_amounts(total_amount) {
            Ok(a) => a,
            Err(e) => {
                return Err(e);
            },
        };
        if nonce == u64::MAX {
            return Err(RemittanceSplitError::Overflow);
        }
        self.increment_nonce(from);
        Ok(amounts)
    }

    /// `from`, the owner, distributes `total_amount` of the trusted token at
    /// `now` under the request fingerprint `request_hash`; on success the
    /// nonce is consumed and the four shares to transfer are returned.
    pub fn distribute_usdc(
        &mut self,
        usdc_contract: Address,
        from: Address,
        nonce: u64,
        deadline: u64,
        request_hash: u64,
        accounts: AccountGroup,
        total_amount: i128,
        now: u64,
    ) -> (r: Result<SplitAmounts, RemittanceSplitError>)
        requires
            old(self).wf(),
            now + MAX_DEADLINE_WINDOW_SECS <= u64::MAX,
        ensures
            final(self).wf(),
            match old(self).distribute_error(
                usdc_contract,
                from,
                nonce,
                deadline,
                request_hash,
                accounts,
                total_amount,
                symbol_payload("distrib"@),
                now,
            ) {
                Some(e) => r == Err::<SplitAmounts, RemittanceSplitError>(e) && *final(self) == *old(self),
                None => {
                    &&& r == distribution_shares(total_amount, old(self).split_values())
                    &&& final(self).nonces@ == old(self).nonces@.insert(from, (nonce + 1) as u64)
                    &&& final(self).used_nonces@ == old(self).used_nonces@.insert(
                        from,
                        final(self).used_nonces@[from],
                    )
                    &&& final(self).used_nonces@[from]@ == push_bounded(
                        old(self).used_of(from),
                        nonce,
                        MAX_USED_NONCES_PER_ADDR as nat,
                    )
                    &&& *final(self) == (RemittanceSplit {
                        nonces: final(self).nonces,
                        used_nonces: final(self).used_nonces,
                        ..*old(self)
                    })
                },
            },
    {
        proof {
            reveal_strlit("distrib");
        }
        let tag = short_symbol_payload("distrib");
        self.distribute_usdc_tagged(usdc_contract, from, nonce, deadline, request_hash, accounts, total_amount, tag, now)
    }

    /// Why `distribute_usdc_hashed` refuses at `now`, if it does, given
    /// the hash `computed` that binds the request.
    pub open spec fn distribute_hashed_error(
        &self,
        request: DistributeUsdcRequest,
        request_hash: Seq<u8>,
        computed: Seq<u8>,
        now: u64,
    ) -> Option<RemittanceSplitError> {
        let c = self.config->Some_0;
        if request.total_amount <= 0 {
            Some(RemittanceSplitError::InvalidAmount)
        } else if request.deadline == 0 {
            Some(RemittanceSplitError::InvalidDeadline)
        } else if now >= request.deadline {
            Some(RemittanceSplitError::DeadlineExpired)
        } else if request.deadline - now > MAX_DEADLINE_WINDOW_SECS {
            Some(RemittanceSplitError::InvalidDeadline)
        } else if computed != request_hash {
            Some(RemittanceSplitError::RequestHashMismatch)
        } else if self.config is None {
            Some(RemittanceSplitError::NotInitialized)
        } else if c.usdc_contract != request.usdc_contract {
            Some(RemittanceSplitError::UntrustedTokenContract)
        } else if pays_itself(request.accounts, request.from) {
            Some(RemittanceSplitError::SelfTransferNotAllowed)
        } else if self.used_of(request.from).contains(request.nonce) {
            Some(RemittanceSplitError::NonceAlreadyUsed)
        } else if request.nonce != self.nonce_of(request.from) {
            Some(RemittanceSplitError::InvalidNonce)
        } else if distribution_shares(request.total_amount, self.split_values()) is Err {
            Some(distribution_shares(request.total_amount, self.split_values())->Err_0)
        } else if request.nonce == u64::MAX {
            Some(RemittanceSplitError::Overflow)
        } else {
            None
        }
    }

    /// The checks and bookkeeping of `distribute_usdc_hashed` at `now`,
    /// given the hash `computed` that binds the request: on success the
    /// payer's nonce is consumed, the success is audited, and the shares to
    /// transfer are returned.
    pub fn distribute_usdc_checked(
        &mut self,
        request: &DistributeUsdcRequest,
        request_hash: &Vec<u8>,
        computed: &Vec<u8>,
        now: u64,
    ) -> (r: Result<SplitAmounts, RemittanceSplitError>)
        requires
            old(self).wf(),
        ensures
            final(self).wf(),
            match old(self).distribute_hashed_error(*request, request_hash@, computed@, now) {
                Some(e) => r == Err::<SplitAmounts, RemittanceSplitError>(e) && *final(self) == *old(self),
                None => {
                    let from = request.from;
                    &&& r == distribution_shares(request.total_amount, old(self).split_values())
                    &&& final(self).nonces@ == old(self).nonces@.insert(from, (request.nonce + 1) as u64)
                    &&& final(self).used_nonces@ == old(self).used_nonces@.insert(
                        from,
                        final(self).used_nonces@[from],
                    )
                    &&& final(self).used_nonces@[from]@ == push_bounded(
                        old(self).used_of(from),
                        request.nonce,
                        MAX_USED_NONCES_PER_ADDR as nat,
                    )
                    &&& final(self).audit@ == push_bounded(
                        old(self).audit@,
                        AuditEntry { operation: AuditOp::DistributeHashed, caller: from, timestamp: now, success: true },
                        MAX_AUDIT_ENTRIES as nat,
                    )
                    &&& *final(self) == (RemittanceSplit {
                        nonces: final(self).nonces,
                        used_nonces: final(self).used_nonces,
                        audit: final(self).audit,
                        ..*old(self)
                    })
                },
            },
    {
        if request.total_amount <= 0 {
            return Err(RemittanceSplitError::InvalidAmount);
        }
        if request.deadline == 0 {
            return Err(RemittanceSplitError::InvalidDeadline);
        }
        if now >= request.deadline {
            return Err(RemittanceSplitError::DeadlineExpired);
        }
        if request.deadline - now > MAX_DEADLINE_WINDOW_SECS {
            return Err(RemittanceSplitError::InvalidDeadline);
        }
        if !crate::maps::bytes_eq(computed, request_hash) {
            return Err(RemittanceSplitError::RequestHashMismatch);
        }
        let config = match self.config {
            Some(c) => c,
            None => {
                return Err(RemittanceSplitError::NotInitialized);
            },
        };
        if config.usdc_contract != request.usdc_contract {
            return Err(RemittanceSplitError::UntrustedTokenContract);
        }
        let from = request.from;
        let accounts = request.accounts;
        if accounts.spending == from || accounts.savings == from || accounts.bills == from || accounts.insurance
            == from {
            return Err(RemittanceSplitError::SelfTransferNotAllowed);
        }
        if self.is_nonce_used(from, request.nonce) {
            return Err(RemittanceSplitError::NonceAlreadyUsed);
        }
        if let Err(e) = self.require_nonce(from, request.nonce) {
            return Err(e);
        }
        let amounts = match self.calculate_split_amounts(request.total_amount) {
            Ok(a) => a,
            Err(e) => {
                return Err(e);
            },
        };
        if request.nonce == u64::MAX {
            return Err(RemittanceSplitError::Overflow);
        }
        self.increment_nonce(from);
        self.append_audit(AuditOp::DistributeHashed, from, true, now);
        Ok(amounts)
    }

    /// Distribute `request` at `now` once its hash (over the address
    /// payloads `bits`) matches `request_hash`; on success the payer's
    /// nonce is consumed, the success is audited, and the four shares to
    /// transfer are returned.
    pub fn distribute_usdc_hashed(
        &mut self,
        request: &DistributeUsdcRequest,
        request_hash: &Vec<u8>,
        bits: &RequestAddressBits,
        now: u64,
    ) -> (r: Result<SplitAmounts, RemittanceSplitError>)
        requires
            old(self).wf(),
        ensures
            final(self).wf(),
            ({
                let computed = sha256_digest(request_preimage(*request, *bits, symbol_payload("distrib"@)));
                match old(self).distribute_hashed_error(*request, request_hash@, computed, now) {
                    Some(e) => r == Err::<SplitAmounts, RemittanceSplitError>(e) && *final(self) == *old(self),
                    None => {
                        &&& r == distribution_shares(request.total_amount, old(self).split_values())
                        &&& final(self).nonces@ == old(self).nonces@.insert(request.from, (request.nonce + 1) as u64)
                        &&& final(self).used_nonces@ == old(self).used_nonces@.insert(
                            request.from,
                            final(self).used_nonces@[request.from],
                        )
                        &&& final(self).used_nonces@[request.from]@ == push_bounded(
                            old(self).used_of(request.from),
                            request.nonce,
                            MAX_USED_NONCES_PER_ADDR as nat,
                        )
                        &&& final(self).audit@ == push_bounded(
                            old(self).audit@,
                            AuditEntry {
                                operation: AuditOp::DistributeHashed,
                                caller: request.from,
                                timestamp: now,
                                success: true,
                            },
                            MAX_AUDIT_ENTRIES as nat,
                        )
                        &&& *final(self) == (RemittanceSplit {
                            nonces: final(self).nonces,
                            used_nonces: final(self).used_nonces,
                            audit: final(self).audit,
                            ..*old(self)
                        })
                    },
                }
            }),
    {
        let computed = match Self::get_request_hash(request, bits) {
            Ok(h) => h,
            Err(e) => {
                return Err(e);
            },
        };
        self.distribute_usdc_checked(request, request_hash, &computed, now)
    }
}

} // verus!
