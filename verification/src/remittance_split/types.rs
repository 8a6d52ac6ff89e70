//! Records and replies of the remittance-split contract.
use crate::address::Address;
use vstd::prelude::*;

verus! {

/// Why a remittance-split operation was refused.
#[derive(Clone, Copy, Debug, PartialEq, Eq, Structural)]
pub enum RemittanceSplitError {
    AlreadyInitialized,
    /// The split has not been initialized yet.
    NotInitialized,
    /// A percentage is above 100, or the four do not add up to 100.
    InvalidPercentages,
    InvalidAmount,
    Overflow,
    /// The caller may not do this, or the contract is paused.
    Unauthorized,
    InvalidNonce,
    /// A snapshot's schema version is not supported.
    UnsupportedVersion,
    /// A snapshot's checksum does not match its contents.
    ChecksumMismatch,
    InvalidDueDate,
    ScheduleNotFound,
    InactiveSchedule,
    /// The token contract is not the one fixed at initialization.
    UntrustedTokenContract,
    /// A destination account is the sender itself.
    SelfTransferNotAllowed,
    DeadlineExpired,
    /// The deadline is zero or too far ahead.
    InvalidDeadline,
    RequestHashMismatch,
    PercentagesDoNotSumTo100,
    FutureTimestamp,
    OwnerMismatch,
    NonceAlreadyUsed,
    PercentageOutOfRange,
    /// The owner already holds the most schedules allowed.
    ScheduleCapExceeded,
    /// A recurring schedule's interval is below the minimum.
    ScheduleIntervalTooShort,
    /// A schedule first falls due too far ahead.
    ScheduleLeadTimeTooLong,
    /// No treasury rotation has been proposed.
    NoPendingTreasury,
    /// The caller is not the proposed treasury.
    PendingTreasuryMismatch,
    /// A returned byte string would be too large.
    ReturnBytesTooLarge,
}

/// The numeric code of `e`.
pub open spec fn error_code(e: RemittanceSplitError) -> u32 {
    match e {
        RemittanceSplitError::AlreadyInitialized => 1,
        RemittanceSplitError::NotInitialized => 2,
        RemittanceSplitError::InvalidPercentages => 3,
        RemittanceSplitError::InvalidAmount => 4,
        RemittanceSplitError::Overflow => 5,
        RemittanceSplitError::Unauthorized => 6,
        RemittanceSplitError::InvalidNonce => 7,
        RemittanceSplitError::UnsupportedVersion => 8,
        RemittanceSplitError::ChecksumMismatch => 9,
        RemittanceSplitError::InvalidDueDate => 10,
        RemittanceSplitError::ScheduleNotFound => 11,
        RemittanceSplitError::InactiveSchedule => 21,
        RemittanceSplitError::UntrustedTokenContract => 12,
        RemittanceSplitError::SelfTransferNotAllowed => 13,
        RemittanceSplitError::DeadlineExpired => 14,
        RemittanceSplitError::InvalidDeadline => 25,
        RemittanceSplitError::RequestHashMismatch => 15,
        RemittanceSplitError::PercentagesDoNotSumTo100 => 18,
        RemittanceSplitError::FutureTimestamp => 19,
        RemittanceSplitError::OwnerMismatch => 20,
        RemittanceSplitError::NonceAlreadyUsed => 16,
        RemittanceSplitError::PercentageOutOfRange => 17,
        RemittanceSplitError::ScheduleCapExceeded => 22,
        RemittanceSplitError::ScheduleIntervalTooShort => 23,
        RemittanceSplitError::ScheduleLeadTimeTooLong => 24,
        RemittanceSplitError::NoPendingTreasury => 26,
        RemittanceSplitError::PendingTreasuryMismatch => 27,
        RemittanceSplitError::ReturnBytesTooLarge => 28,
    }
}

impl RemittanceSplitError {
    /// The error's numeric code.
    pub fn code(&self) -> (r: u32)
        ensures
            r == error_code(*self),
            1 <= r <= 28,
    {
        match self {
            RemittanceSplitError::AlreadyInitialized => 1,
            RemittanceSplitError::NotInitialized => 2,
            RemittanceSplitError::InvalidPercentages => 3,
            RemittanceSplitError::InvalidAmount => 4,
            RemittanceSplitError::Overflow => 5,
            RemittanceSplitError::Unauthorized => 6,
            RemittanceSplitError::InvalidNonce => 7,
            RemittanceSplitError::UnsupportedVersion => 8,
            RemittanceSplitError::ChecksumMismatch => 9,
            RemittanceSplitError::InvalidDueDate => 10,
            RemittanceSplitError::ScheduleNotFound => 11,
            RemittanceSplitError::InactiveSchedule => 21,
            RemittanceSplitError::UntrustedTokenContract => 12,
            RemittanceSplitError::SelfTransferNotAllowed => 13,
            RemittanceSplitError::DeadlineExpired => 14,
            RemittanceSplitError::InvalidDeadline => 25,
            RemittanceSplitError::RequestHashMismatch => 15,
            RemittanceSplitError::PercentagesDoNotSumTo100 => 18,
            RemittanceSplitError::FutureTimestamp => 19,
            RemittanceSplitError::OwnerMismatch => 20,
            RemittanceSplitError::NonceAlreadyUsed => 16,
            RemittanceSplitError::PercentageOutOfRange => 17,
            RemittanceSplitError::ScheduleCapExceeded => 22,
            RemittanceSplitError::ScheduleIntervalTooShort => 23,
            RemittanceSplitError::ScheduleLeadTimeTooLong => 24,
            RemittanceSplitError::NoPendingTreasury => 26,
            RemittanceSplitError::PendingTreasuryMismatch => 27,
            RemittanceSplitError::ReturnBytesTooLarge => 28,
        }
    }
}

/// The four destination accounts of a distribution.
#[derive(Clone, Copy, Debug, PartialEq, Eq, Structural)]
pub struct AccountGroup {
    pub spending: Address,
    pub savings: Address,
    pub bills: Address,
    pub insurance: Address,
}

/// A signed request to distribute an amount of USDC.
#[derive(Clone, Copy, Debug, PartialEq, Eq, Structural)]
pub struct DistributeUsdcRequest {
    /// The token contract.
    pub usdc_contract: Address,
    /// The payer.
    pub from: Address,
    /// The payer's nonce, for replay protection.
    pub nonce: u64,
    /// Where the four shares go.
    pub accounts: AccountGroup,
    /// The amount to distribute.
    pub total_amount: i128,
    /// Unix time (seconds) after which the request is void.
    pub deadline: u64,
}

/// The host-level handles of the addresses a request names, as bound into
/// the request's hash.
#[derive(Clone, Copy, Debug, PartialEq, Eq, Structural)]
pub struct RequestAddressBits {
    pub from: u64,
    pub usdc_contract: u64,
    pub spending: u64,
    pub savings: u64,
    pub bills: u64,
    pub insurance: u64,
}

/// The split configuration and its owner.
#[derive(Clone, Copy, Debug, PartialEq, Eq, Structural)]
pub struct SplitConfig {
    pub owner: Address,
    pub spending_percent: u32,
    pub savings_percent: u32,
    pub bills_percent: u32,
    pub insurance_percent: u32,
    pub timestamp: u64,
    pub initialized: bool,
    /// The only token contract distributions may use.
    pub usdc_contract: Address,
}

/// The percentages recorded with an initialization or update.
#[derive(Clone, Copy, Debug, PartialEq, Eq, Structural)]
pub struct SplitInitializedEvent {
    pub spending_percent: u32,
    pub savings_percent: u32,
    pub bills_percent: u32,
    pub insurance_percent: u32,
    pub timestamp: u64,
}

/// The shares computed for an amount.
#[derive(Clone, Copy, Debug, PartialEq, Eq, Structural)]
pub struct SplitCalculatedEvent {
    pub total_amount: i128,
    pub spending_amount: i128,
    pub savings_amount: i128,
    pub bills_amount: i128,
    pub insurance_amount: i128,
    pub timestamp: u64,
}

/// The shares of a completed distribution.
#[derive(Clone, Copy, Debug, PartialEq, Eq, Structural)]
pub struct DistributionCompletedEvent {
    pub from: Address,
    pub total_amount: i128,
    pub spending_amount: i128,
    pub savings_amount: i128,
    pub bills_amount: i128,
    pub insurance_amount: i128,
    pub timestamp: u64,
}

/// Kinds of split events.
#[derive(Clone, Copy, Debug, PartialEq, Eq, Structural)]
pub enum SplitEvent {
    Initialized,
    Updated,
    Calculated,
    DistributionCompleted,
    SnapshotExported,
    SnapshotImported,
}

/// Kinds of schedule events.
#[derive(Clone, Copy, Debug, PartialEq, Eq, Structural)]
pub enum ScheduleEvent {
    Created,
    Executed,
    Missed,
    Modified,
    Cancelled,
}

/// A schedule of automatic remittances.
#[derive(Clone, Copy, Debug, PartialEq, Eq, Structural)]
pub struct RemittanceSchedule {
    pub id: u32,
    pub owner: Address,
    pub amount: i128,
    pub next_due: u64,
    /// Seconds between executions; `0` for a one-off schedule.
    pub interval: u64,
    pub recurring: bool,
    pub active: bool,
    pub created_at: u64,
    pub last_executed: Option<u64>,
    pub missed_count: u32,
}

/// A portable export of the configuration and the owner's schedules.
pub struct ExportSnapshot {
    pub schema_version: u32,
    pub checksum: u64,
    pub config: SplitConfig,
    pub schedules: Vec<RemittanceSchedule>,
    pub exported_at: u64,
}

/// The instance values saved before an upgrade, to roll it back.
#[derive(Clone, Copy, Debug, PartialEq, Eq, Structural)]
pub struct PreUpgradeSnapshot {
    pub schema_version: u32,
    pub config: SplitConfig,
    pub version: u32,
    pub upgrade_admin: Option<Address>,
    pub paused: bool,
    pub pause_admin: Option<Address>,
}

/// The operations the audit log records.
#[derive(Clone, Copy, Debug, PartialEq, Eq, Structural)]
pub enum AuditOp {
    Init,
    Update,
    Distribute,
    DistributeHashed,
    Export,
    Import,
    SnapshotRestore,
    SnapshotDiscard,
}

/// One audit log entry.
#[derive(Clone, Copy, Debug, PartialEq, Eq, Structural)]
pub struct AuditEntry {
    pub operation: AuditOp,
    pub caller: Address,
    pub timestamp: u64,
    pub success: bool,
}

/// One page of the audit log.
pub struct AuditPage {
    pub items: Vec<AuditEntry>,
    /// Index to pass for the next page; `0` when there are no more.
    pub next_cursor: u32,
    pub count: u32,
}

/// One page of schedules, by position in the owner's list.
pub struct SchedulePage {
    pub items: Vec<RemittanceSchedule>,
    /// Index to pass for the next page; `0` when there are no more.
    pub next_cursor: u32,
    pub count: u32,
}

/// One page of schedules, by schedule id.
pub struct RemittanceSchedulePage {
    pub items: Vec<RemittanceSchedule>,
    /// The last returned id, to pass as the next cursor; `None` on the last page.
    pub next_cursor: Option<u32>,
    pub count: u32,
}

/// The categories a split allocates to.
#[derive(Clone, Copy, Debug, PartialEq, Eq, Structural)]
pub enum Category {
    Spending,
    Savings,
    Bills,
    Insurance,
}

/// One category's share of an amount.
#[derive(Clone, Copy, Debug, PartialEq, Eq, Structural)]
pub struct Allocation {
    pub category: Category,
    pub amount: i128,
}

/// The four shares a distribution transfers.
#[derive(Clone, Copy, Debug, PartialEq, Eq, Structural)]
pub struct SplitAmounts {
    pub spending: i128,
    pub savings: i128,
    pub bills: i128,
    pub insurance: i128,
}

} // verus!
