//! The split itself: validating percentages, dividing an amount into the
//! four shares, and setting the configuration.
use super::ledger::push_bounded;
use super::state::{RemittanceSplit, MAX_AUDIT_ENTRIES, MAX_USED_NONCES_PER_ADDR};
use super::types::{
    Allocation, AuditEntry, AuditOp, Category, RemittanceSplitError, SplitAmounts, SplitConfig,
};
use crate::address::Address;
use vstd::prelude::*;

verus! {

/// The percentages used before any are stored: 50 / 30 / 15 / 5.
pub open spec fn default_split() -> (u32, u32, u32, u32) {
    (50, 30, 15, 5)
}

/// Why four percentages are refused, if they are: one above 100, or a sum
/// other than 100.
pub open spec fn percentages_error(s: u32, g: u32, b: u32, i: u32) -> Option<RemittanceSplitError> {
    if s > 100 || g > 100 || b > 100 || i > 100 {
        Some(RemittanceSplitError::PercentageOutOfRange)
    } else if s + g + b + i != 100 {
        Some(RemittanceSplitError::PercentagesDoNotSumTo100)
    } else {
        None
    }
}

/// `a / 100`, rounded toward zero.
pub open spec fn tdiv100(a: int) -> int {
    if a >= 0 {
        a / 100
    } else {
        -((-a) / 100)
    }
}

/// `x` fits in `i128`.
pub open spec fn in_i128(x: int) -> bool {
    i128::MIN <= x <= i128::MAX
}

/// `percent` per cent of `amount`, computed as whole hundreds times
/// `percent` plus the rest times `percent` over 100, every step rounded
/// toward zero; `None` when a step leaves `i128`. Not positive: 0.
pub open spec fn floor_share(amount: i128, percent: i128) -> Option<i128> {
    if percent <= 0 {
        Some(0)
    } else {
        let w = tdiv100(amount as int);
        let r = amount - 100 * w;
        let sw = w * percent;
        let rp = r * percent;
        if !in_i128(sw) || !in_i128(rp) || !in_i128(sw + tdiv100(rp)) {
            None
        } else {
            Some((sw + tdiv100(rp)) as i128)
        }
    }
}

/// `total - a - b - c`, subtracting one at a time; `None` when a step
/// leaves `i128`.
pub open spec fn remainder_of(total: i128, a: i128, b: i128, c: i128) -> Option<i128> {
    if !in_i128(total - a) || !in_i128(total - a - b) || !in_i128(total - a - b - c) {
        None
    } else {
        Some((total - a - b - c) as i128)
    }
}

/// The four shares `calculate_split` gives `total` under percentages `p`:
/// the first three by `floor_share`, insurance the remainder.
pub open spec fn split_shares(total: i128, p: (u32, u32, u32, u32)) -> Result<
    (i128, i128, i128, i128),
    RemittanceSplitError,
> {
    if total <= 0 {
        Err(RemittanceSplitError::InvalidAmount)
    } else {
        match (floor_share(total, p.0 as i128), floor_share(total, p.1 as i128), floor_share(total, p.2 as i128)) {
            (Some(a), Some(b), Some(c)) => match remainder_of(total, a, b, c) {
                Some(d) => Ok((a, b, c, d)),
                None => Err(RemittanceSplitError::Overflow),
            },
            _ => Err(RemittanceSplitError::Overflow),
        }
    }
}

/// `total * percent / 100` rounded toward zero; `None` when the product
/// leaves `i128`.
pub open spec fn scaled_share(total: i128, percent: u32) -> Option<i128> {
    if !in_i128(total * percent) {
        None
    } else {
        Some(tdiv100(total * percent) as i128)
    }
}

/// The four shares a distribution transfers for `total` under `p`: the
/// first three `total * percent / 100`, insurance the remainder.
pub open spec fn distribution_shares(total: i128, p: (u32, u32, u32, u32)) -> Result<
    SplitAmounts,
    RemittanceSplitError,
> {
    if total <= 0 {
        Err(RemittanceSplitError::InvalidAmount)
    } else {
        match (scaled_share(total, p.0), scaled_share(total, p.1), scaled_share(total, p.2)) {
            (Some(a), Some(b), Some(c)) => match remainder_of(total, a, b, c) {
                Some(d) => Ok(SplitAmounts { spending: a, savings: b, bills: c, insurance: d }),
                None => Err(RemittanceSplitError::Overflow),
            },
            _ => Err(RemittanceSplitError::Overflow),
        }
    }
}

/// `x / 100` rounded toward zero.
fn div100(x: i128) -> (r: i128)
    ensures
        r == tdiv100(x as int),
{
    match x.checked_div(100) {
        Some(q) => q,
        None => 0,
    }
}

impl RemittanceSplit {
    /// Check four percentages: each at most 100, and together exactly 100.
    pub fn validate_percentages(
        spending_percent: u32,
        savings_percent: u32,
        bills_percent: u32,
        insurance_percent: u32,
    ) -> (r: Result<(), RemittanceSplitError>)
        ensures
            r == match percentages_error(spending_percent, savings_percent, bills_percent, insurance_percent) {
                Some(e) => Err(e),
                None => Ok::<(), RemittanceSplitError>(()),
            },
    {
        if spending_percent > 100 || savings_percent > 100 || bills_percent > 100 || insurance_percent > 100 {
            return Err(RemittanceSplitError::PercentageOutOfRange);
        }
        let total = spending_percent + savings_percent + bills_percent + insurance_percent;
        if total != 100 {
            return Err(RemittanceSplitError::PercentagesDoNotSumTo100);
        }
        Ok(())
    }

    /// `percent` per cent of `amount`, rounded toward zero, without forming
    /// the full product: whole hundreds and the rest are scaled apart.
    pub fn floor_percentage(amount: i128, percent: i128) -> (r: Result<i128, RemittanceSplitError>)
        ensures
            r == match floor_share(amount, percent) {
                Some(v) => Ok::<i128, RemittanceSplitError>(v),
                None => Err(RemittanceSplitError::Overflow),
            },
    {
        if percent <= 0 {
            return Ok(0);
        }
        let whole = div100(amount);
        let remainder = match amount.checked_rem(100) {
            Some(v) => v,
            None => {
                return Err(RemittanceSplitError::Overflow);
            },
        };
        assert(remainder == amount - 100 * whole);
        let scaled_whole = match whole.checked_mul(percent) {
            Some(v) => v,
            None => {
                return Err(RemittanceSplitError::Overflow);
            },
        };
        let scaled_remainder = match remainder.checked_mul(percent) {
            Some(v) => div100(v),
            None => {
                return Err(RemittanceSplitError::Overflow);
            },
        };
        match scaled_whole.checked_add(scaled_remainder) {
            Some(v) => Ok(v),
            None => Err(RemittanceSplitError::Overflow),
        }
    }

    /// The stored percentages, else the defaults.
    pub open spec fn split_values(&self) -> (u32, u32, u32, u32) {
        match self.split {
            Some(p) => p,
            None => default_split(),
        }
    }

    /// The percentages in force: spending, savings, bills, insurance.
    pub fn get_split(&self) -> (r: Vec<u32>)
        ensures
            r@ == seq![self.split_values().0, self.split_values().1, self.split_values().2, self.split_values().3],
    {
        let p = match self.split {
            Some(p) => p,
            None => (50, 30, 15, 5),
        };
        let mut v: Vec<u32> = Vec::new();
        v.push(p.0);
        v.push(p.1);
        v.push(p.2);
        v.push(p.3);
        v
    }

    /// The four shares of `total_amount`: spending, savings and bills get
    /// their percentage (rounded down), insurance the rest.
    pub fn calculate_split(&self, total_amount: i128) -> (r: Result<Vec<i128>, RemittanceSplitError>)
        ensures
            match split_shares(total_amount, self.split_values()) {
                Ok(t) => r matches Ok(v) && v@ == seq![t.0, t.1, t.2, t.3],
                Err(e) => r == Err::<Vec<i128>, RemittanceSplitError>(e),
            },
    {
        if total_amount <= 0 {
            return Err(RemittanceSplitError::InvalidAmount);
        }
        let p = match self.split {
            Some(p) => p,
            None => (50, 30, 15, 5),
        };
        let spending = match Self::floor_percentage(total_amount, p.0 as i128) {
            Ok(v) => v,
            Err(e) => {
                return Err(e);
            },
        };
        let savings = match Self::floor_percentage(total_amount, p.1 as i128) {
            Ok(v) => v,
            Err(e) => {
                return Err(e);
            },
        };
        let bills = match Self::floor_percentage(total_amount, p.2 as i128) {
            Ok(v) => v,
            Err(e) => {
                return Err(e);
            },
        };
        let insurance = match total_amount.checked_sub(spending) {
            Some(a) => match a.checked_sub(savings) {
                Some(b) => match b.checked_sub(bills) {
                    Some(c) => c,
                    None => {
                        return Err(RemittanceSplitError::Overflow);
                    },
                },
                None => {
                    return Err(RemittanceSplitError::Overflow);
                },
            },
            None => {
                return Err(RemittanceSplitError::Overflow);
            },
        };
        let mut v: Vec<i128> = Vec::new();
        v.push(spending);
        v.push(savings);
        v.push(bills);
        v.push(insurance);
        Ok(v)
    }

    /// The four shares a distribution of `total_amount` transfers.
    pub fn calculate_split_amounts(&self, total_amount: i128) -> (r: Result<SplitAmounts, RemittanceSplitError>)
        ensures
            r == distribution_shares(total_amount, self.split_values()),
    {
        if total_amount <= 0 {
            return Err(RemittanceSplitError::InvalidAmount);
        }
        let p = match self.split {
            Some(p) => p,
            None => (50, 30, 15, 5),
        };
        let spending = match total_amount.checked_mul(p.0 as i128) {
            Some(v) => div100(v),
            None => {
                return Err(RemittanceSplitError::Overflow);
            },
        };
        let savings = match total_amount.checked_mul(p.1 as i128) {
            Some(v) => div100(v),
            None => {
                return Err(RemittanceSplitError::Overflow);
            },
        };
        let bills = match total_amount.checked_mul(p.2 as i128) {
            Some(v) => div100(v),
            None => {
                return Err(RemittanceSplitError::Overflow);
            },
        };
        let insurance = match total_amount.checked_sub(spending) {
            Some(a) => match a.checked_sub(savings) {
                Some(b) => match b.checked_sub(bills) {
                    Some(c) => c,
                    None => {
                        return Err(RemittanceSplitError::Overflow);
                    },
                },
                None => {
                    return Err(RemittanceSplitError::Overflow);
                },
            },
            None => {
                return Err(RemittanceSplitError::Overflow);
            },
        };
        Ok(SplitAmounts { spending, savings, bills, insurance })
    }

    /// The shares of `total_amount`, each labelled with its category, in
    /// the order spending, savings, bills, insurance.
    pub fn get_split_allocations(&self, total_amount: i128) -> (r: Result<Vec<Allocation>, RemittanceSplitError>)
        ensures
            match split_shares(total_amount, self.split_values()) {
                Ok(t) => r matches Ok(v) && v@ == seq![
                    Allocation { category: Category::Spending, amount: t.0 },
                    Allocation { category: Category::Savings, amount: t.1 },
                    Allocation { category: Category::Bills, amount: t.2 },
                    Allocation { category: Category::Insurance, amount: t.3 },
                ],
                Err(e) => r == Err::<Vec<Allocation>, RemittanceSplitError>(e),
            },
    {
        let amounts = match self.calculate_split(total_amount) {
            Ok(v) => v,
            Err(e) => {
                return Err(e);
            },
        };
        let mut out: Vec<Allocation> = Vec::new();
        out.push(Allocation { category: Category::Spending, amount: amounts[0] });
        out.push(Allocation { category: Category::Savings, amount: amounts[1] });
        out.push(Allocation { category: Category::Bills, amount: amounts[2] });
        out.push(Allocation { category: Category::Insurance, amount: amounts[3] });
        Ok(out)
    }

    /// Why `initialize_split` refuses these inputs, if it does.
    pub open spec fn initialize_error(
        &self,
        owner: Address,
        nonce: u64,
        s: u32,
        g: u32,
        b: u32,
        i: u32,
    ) -> Option<RemittanceSplitError> {
        if self.paused {
            Some(RemittanceSplitError::Unauthorized)
        } else if self.nonce_error(owner, nonce) is Some {
            self.nonce_error(owner, nonce)
        } else if self.config is Some {
            Some(RemittanceSplitError::AlreadyInitialized)
        } else if percentages_error(s, g, b, i) is Some {
            percentages_error(s, g, b, i)
        } else if nonce == u64::MAX {
            Some(RemittanceSplitError::Overflow)
        } else {
            None
        }
    }

    /// `owner` sets up the split at `now` with the four percentages and the
    /// only token contract distributions may use; consumes `owner`'s nonce.
    pub fn initialize_split(
        &mut self,
        owner: Address,
        nonce: u64,
        usdc_contract: Address,
        spending_percent: u32,
        savings_percent: u32,
        bills_percent: u32,
        insurance_percent: u32,
        now: u64,
    ) -> (r: Result<bool, RemittanceSplitError>)
        requires
            old(self).wf(),
        ensures
            final(self).wf(),
            match old(self).initialize_error(
                owner,
                nonce,
                spending_percent,
                savings_percent,
                bills_percent,
                insurance_percent,
            ) {
                Some(e) => r == Err::<bool, RemittanceSplitError>(e) && *final(self) == *old(self),
                None => {
                    &&& r == Ok::<bool, RemittanceSplitError>(true)
                    &&& final(self).config == Some(
                        SplitConfig {
                            owner,
                            spending_percent,
                            savings_percent,
                            bills_percent,
                            insurance_percent,
                            timestamp: now,
                            initialized: true,
                            usdc_contract,
                        },
                    )
                    &&& final(self).split == Some((spending_percent, savings_percent, bills_percent, insurance_percent))
                    &&& final(self).nonces@ == old(self).nonces@.insert(owner, (nonce + 1) as u64)
                    &&& final(self).used_nonces@ == old(self).used_nonces@.insert(
                        owner,
                        final(self).used_nonces@[owner],
                    )
                    &&& final(self).used_nonces@[owner]@ == push_bounded(
                        old(self).used_of(owner),
                        nonce,
                        MAX_USED_NONCES_PER_ADDR as nat,
                    )
                    &&& final(self).audit@ == push_bounded(
                        old(self).audit@,
                        AuditEntry { operation: AuditOp::Init, caller: owner, timestamp: now, success: true },
                        MAX_AUDIT_ENTRIES as nat,
                    )
                    &&& *final(self) == (RemittanceSplit {
                        config: final(self).config,
                        split: final(self).split,
                        nonces: final(self).nonces,
                        used_nonces: final(self).used_nonces,
                        audit: final(self).audit,
                        ..*old(self)
                    })
                },
            },
    {
        if let Err(e) = self.require_not_paused() {
            return Err(e);
        }
        if let Err(e) = self.require_nonce(owner, nonce) {
            return Err(e);
        }
        if self.config.is_some() {
            return Err(RemittanceSplitError::AlreadyInitialized);
        }
        if let Err(e) = Self::validate_percentages(spending_percent, savings_percent, bills_percent, insurance_percent) {
            return Err(e);
        }
        if nonce == u64::MAX {
            return Err(RemittanceSplitError::Overflow);
        }
        self.config = Some(
            SplitConfig {
                owner,
                spending_percent,
                savings_percent,
                bills_percent,
                insurance_percent,
                timestamp: now,
                initialized: true,
                usdc_contract,
            },
        );
        self.split = Some((spending_percent, savings_percent, bills_percent, insurance_percent));
        self.increment_nonce(owner);
        self.append_audit(AuditOp::Init, owner, true, now);
        Ok(true)
    }

    /// Why `update_split` refuses these inputs, if it does.
    pub open spec fn update_error(
        &self,
        caller: Address,
        nonce: u64,
        s: u32,
        g: u32,
        b: u32,
        i: u32,
    ) -> Option<RemittanceSplitError> {
        if self.paused {
            Some(RemittanceSplitError::Unauthorized)
        } else if self.nonce_error(caller, nonce) is Some {
            self.nonce_error(caller, nonce)
        } else if self.config is None {
            Some(RemittanceSplitError::NotInitialized)
        } else if self.config->Some_0.owner != caller {
            Some(RemittanceSplitError::Unauthorized)
        } else if percentages_error(s, g, b, i) is Some {
            Some(RemittanceSplitError::InvalidPercentages)
        } else if nonce == u64::MAX {
            Some(RemittanceSplitError::Overflow)
        } else {
            None
        }
    }

    /// The owner replaces the four percentages; consumes the owner's nonce.
    pub fn update_split(
        &mut self,
        caller: Address,
        nonce: u64,
        spending_percent: u32,
        savings_percent: u32,
        bills_percent: u32,
        insurance_percent: u32,
    ) -> (r: Result<bool, RemittanceSplitError>)
        requires
            old(self).wf(),
        ensures
            final(self).wf(),
            match old(self).update_error(caller, nonce, spending_percent, savings_percent, bills_percent, insurance_percent) {
                Some(e) => r == Err::<bool, RemittanceSplitError>(e) && *final(self) == *old(self),
                None => {
                    &&& r == Ok::<bool, RemittanceSplitError>(true)
                    &&& final(self).config == Some(
                        SplitConfig {
                            spending_percent,
                            savings_percent,
                            bills_percent,
                            insurance_percent,
                            ..old(self).config->Some_0
                        },
                    )
                    &&& final(self).split == Some((spending_percent, savings_percent, bills_percent, insurance_percent))
                    &&& final(self).nonces@ == old(self).nonces@.insert(caller, (nonce + 1) as u64)
                    &&& final(self).used_nonces@ == old(self).used_nonces@.insert(
                        caller,
                        final(self).used_nonces@[caller],
                    )
                    &&& final(self).used_nonces@[caller]@ == push_bounded(
                        old(self).used_of(caller),
                        nonce,
                        MAX_USED_NONCES_PER_ADDR as nat,
                    )
                    &&& *final(self) == (RemittanceSplit {
                        config: final(self).config,
                        split: final(self).split,
                        nonces: final(self).nonces,
                        used_nonces: final(self).used_nonces,
                        ..*old(self)
                    })
                },
            },
    {
        if let Err(e) = self.require_not_paused() {
            return Err(e);
        }
        if let Err(e) = self.require_nonce(caller, nonce) {
            return Err(e);
        }
        let mut config = match self.config {
            Some(c) => c,
            None => {
                return Err(RemittanceSplitError::NotInitialized);
            },
        };
        if config.owner != caller {
            return Err(RemittanceSplitError::Unauthorized);
        }
        if Self::validate_percentages(spending_percent, savings_percent, bills_percent, insurance_percent).is_err() {
            return Err(RemittanceSplitError::InvalidPercentages);
        }
        if nonce == u64::MAX {
            return Err(RemittanceSplitError::Overflow);
        }
        config.spending_percent = spending_percent;
        config.savings_percent = savings_percent;
        config.bills_percent = bills_percent;
        config.insurance_percent = insurance_percent;
        self.config = Some(config);
        self.split = Some((spending_percent, savings_percent, bills_percent, insurance_percent));
        self.increment_nonce(caller);
        Ok(true)
    }
}

/// `(100 k + m) / 100 = k + m / 100` for non-negative `m`.
proof fn lemma_div100_shift(k: int, m: int)
    requires
        m >= 0,
    ensures
        (100 * k + m) / 100 == k + m / 100,
{
    assert((100 * k + m) / 100 == k + m / 100) by (nonlinear_arith)
        requires
            m >= 0,
    ;
}

/// For a non-negative amount and a percentage up to 100, `floor_share` is
/// exactly `amount * percent / 100` rounded down, and never fails.
pub proof fn lemma_floor_share_exact(amount: i128, percent: i128)
    requires
        amount >= 0,
        0 <= percent <= 100,
    ensures
        floor_share(amount, percent) == Some((amount * percent / 100) as i128),
        0 <= amount * percent / 100 <= amount,
{
    if percent == 0 {
        assert(amount * percent == 0) by (nonlinear_arith)
            requires
                percent == 0,
        ;
        return;
    }
    let w = amount / 100;
    let r = amount % 100;
    assert(amount == 100 * w + r);
    assert(tdiv100(amount as int) == w);
    assert(amount - 100 * w == r);
    assert(0 <= w * percent <= w * 100) by (nonlinear_arith)
        requires
            w >= 0,
            0 <= percent <= 100,
    ;
    assert(0 <= r * percent < 10_000) by (nonlinear_arith)
        requires
            0 <= r < 100,
            0 <= percent <= 100,
    ;
    assert(amount * percent == 100 * (w * percent) + r * percent) by (nonlinear_arith)
        requires
            amount == 100 * w + r,
    ;
    lemma_div100_shift(w * percent, r * percent);
    assert(0 <= amount * percent / 100 <= amount) by (nonlinear_arith)
        requires
            amount >= 0,
            0 <= percent <= 100,
    ;
}

/// The four shares of `calculate_split` always add up to the amount.
pub proof fn lemma_split_conserves(total: i128, p: (u32, u32, u32, u32))
    ensures
        split_shares(total, p) matches Ok(t) ==> t.0 + t.1 + t.2 + t.3 == total,
{
}

/// Under valid percentages (each at most 100, summing to 100) every
/// positive amount splits without error: spending, savings and bills get
/// exactly their percentage rounded down, insurance the remainder, which
/// is at least its own percentage rounded down, and no share is negative.
pub proof fn lemma_split_valid(total: i128, p: (u32, u32, u32, u32))
    requires
        total > 0,
        percentages_error(p.0, p.1, p.2, p.3) is None,
    ensures
        split_shares(total, p) matches Ok(t) && {
            &&& t.0 == total * p.0 / 100
            &&& t.1 == total * p.1 / 100
            &&& t.2 == total * p.2 / 100
            &&& t.3 >= total * p.3 / 100
            &&& t.0 >= 0 && t.1 >= 0 && t.2 >= 0 && t.3 >= 0
            &&& t.0 + t.1 + t.2 + t.3 == total
        },
{
    lemma_floor_share_exact(total, p.0 as i128);
    lemma_floor_share_exact(total, p.1 as i128);
    lemma_floor_share_exact(total, p.2 as i128);
    let a = total * p.0 / 100;
    let b = total * p.1 / 100;
    let c = total * p.2 / 100;
    assert(100 * a <= total * p.0 && 100 * b <= total * p.1 && 100 * c <= total * p.2) by (nonlinear_arith)
        requires
            a == total * p.0 / 100,
            b == total * p.1 / 100,
            c == total * p.2 / 100,
            total > 0,
    ;
    assert(total * p.0 + total * p.1 + total * p.2 + total * p.3 == total * 100) by (nonlinear_arith)
        requires
            p.0 + p.1 + p.2 + p.3 == 100,
    ;
    let d = total - a - b - c;
    assert(100 * d >= total * p.3);
    assert(d >= total * p.3 / 100) by (nonlinear_arith)
        requires
            100 * d >= total * p.3,
    ;
    assert(total * p.3 >= 0) by (nonlinear_arith)
        requires
            total > 0,
    ;
    assert(total * p.3 / 100 >= 0);
}

/// The four shares a distribution transfers always add up to the amount.
pub proof fn lemma_distribution_conserves(total: i128, p: (u32, u32, u32, u32))
    ensures
        distribution_shares(total, p) matches Ok(s) ==> s.spending + s.savings + s.bills + s.insurance == total,
{
}

/// Under valid percentages, a positive amount whose hundredfold fits in
/// `i128` is distributed without error: spending, savings and bills get
/// exactly their percentage rounded down, insurance the remainder, at
/// least its own percentage rounded down.
pub proof fn lemma_distribution_valid(total: i128, p: (u32, u32, u32, u32))
    requires
        total > 0,
        total * 100 <= i128::MAX,
        percentages_error(p.0, p.1, p.2, p.3) is None,
    ensures
        distribution_shares(total, p) matches Ok(s) && {
            &&& s.spending == total * p.0 / 100
            &&& s.savings == total * p.1 / 100
            &&& s.bills == total * p.2 / 100
            &&& s.insurance >= total * p.3 / 100
            &&& s.spending + s.savings + s.bills + s.insurance == total
        },
{
    assert(0 <= total * p.0 <= total * 100 && 0 <= total * p.1 <= total * 100 && 0 <= total * p.2 <= total * 100
        && 0 <= total * p.3 <= total * 100) by (nonlinear_arith)
        requires
            total > 0,
            p.0 <= 100,
            p.1 <= 100,
            p.2 <= 100,
            p.3 <= 100,
    ;
    lemma_split_valid(total, p);
    lemma_floor_share_exact(total, p.0 as i128);
    lemma_floor_share_exact(total, p.1 as i128);
    lemma_floor_share_exact(total, p.2 as i128);
}

} // verus!
