//! Records and replies of the bill-payment contract.
use crate::address::Address;
use crate::maps::MapKey;
use vstd::prelude::*;

verus! {

/// Why a bill-payment operation was refused.
#[derive(Clone, Copy, Debug, PartialEq, Eq, Structural)]
pub enum BillPaymentsError {
    BillNotFound,
    BillAlreadyPaid,
    InvalidAmount,
    InvalidFrequency,
    Unauthorized,
    ContractPaused,
    UnauthorizedPause,
    FunctionPaused,
    BatchTooLarge,
    BatchValidationFailed,
    InvalidLimit,
    InvalidDueDate,
    InvalidTag,
    EmptyTags,
    InvalidCurrency,
    InvalidExternalRef,
    DuplicateExternalRef,
    OwnerBillCapExceeded,
    InvalidTagContent,
    RateLimitExceeded,
    ScheduleIntervalTooShort,
    ScheduleLeadTimeTooLong,
    ScheduleCapExceeded,
    ScheduleNotFound,
    ScheduleNotActive,
}

/// The numeric code of `e`.
pub open spec fn error_code(e: BillPaymentsError) -> u32 {
    match e {
        BillPaymentsError::BillNotFound => 1,
        BillPaymentsError::BillAlreadyPaid => 2,
        BillPaymentsError::InvalidAmount => 3,
        BillPaymentsError::InvalidFrequency => 4,
        BillPaymentsError::Unauthorized => 5,
        BillPaymentsError::ContractPaused => 6,
        BillPaymentsError::UnauthorizedPause => 7,
        BillPaymentsError::FunctionPaused => 8,
        BillPaymentsError::BatchTooLarge => 9,
        BillPaymentsError::BatchValidationFailed => 10,
        BillPaymentsError::InvalidLimit => 11,
        BillPaymentsError::InvalidDueDate => 12,
        BillPaymentsError::InvalidTag => 13,
        BillPaymentsError::EmptyTags => 14,
        BillPaymentsError::InvalidCurrency => 15,
        BillPaymentsError::InvalidExternalRef => 16,
        BillPaymentsError::DuplicateExternalRef => 17,
        BillPaymentsError::OwnerBillCapExceeded => 18,
        BillPaymentsError::InvalidTagContent => 19,
        BillPaymentsError::RateLimitExceeded => 20,
        BillPaymentsError::ScheduleIntervalTooShort => 21,
        BillPaymentsError::ScheduleLeadTimeTooLong => 22,
        BillPaymentsError::ScheduleCapExceeded => 23,
        BillPaymentsError::ScheduleNotFound => 24,
        BillPaymentsError::ScheduleNotActive => 25,
    }
}

impl BillPaymentsError {
    /// The error's wire code.
    pub fn code(&self) -> (r: u32)
        ensures
            r == error_code(*self),
            1 <= r <= 25,
    {
        match self {
            BillPaymentsError::BillNotFound => 1,
            BillPaymentsError::BillAlreadyPaid => 2,
            BillPaymentsError::InvalidAmount => 3,
            BillPaymentsError::InvalidFrequency => 4,
            BillPaymentsError::Unauthorized => 5,
            BillPaymentsError::ContractPaused => 6,
            BillPaymentsError::UnauthorizedPause => 7,
            BillPaymentsError::FunctionPaused => 8,
            BillPaymentsError::BatchTooLarge => 9,
            BillPaymentsError::BatchValidationFailed => 10,
            BillPaymentsError::InvalidLimit => 11,
            BillPaymentsError::InvalidDueDate => 12,
            BillPaymentsError::InvalidTag => 13,
            BillPaymentsError::EmptyTags => 14,
            BillPaymentsError::InvalidCurrency => 15,
            BillPaymentsError::InvalidExternalRef => 16,
            BillPaymentsError::DuplicateExternalRef => 17,
            BillPaymentsError::OwnerBillCapExceeded => 18,
            BillPaymentsError::InvalidTagContent => 19,
            BillPaymentsError::RateLimitExceeded => 20,
            BillPaymentsError::ScheduleIntervalTooShort => 21,
            BillPaymentsError::ScheduleLeadTimeTooLong => 22,
            BillPaymentsError::ScheduleCapExceeded => 23,
            BillPaymentsError::ScheduleNotFound => 24,
            BillPaymentsError::ScheduleNotActive => 25,
        }
    }
}

/// The operations that can be paused one by one.
#[derive(Clone, Copy, Debug, PartialEq, Eq, Structural)]
pub enum PausableFunction {
    CreateBill,
    PayBill,
    CancelBill,
    Archive,
    Restore,
    CreateBillSchedule,
    ModifyBillSchedule,
    CancelBillSchedule,
    ExecuteBillSchedules,
    AddTags,
    RemoveTags,
    SetExternalRef,
    /// Any other function name, by the payload of its symbol.
    Other(u64),
}

impl MapKey for PausableFunction {
    type KeyView = PausableFunction;

    open spec fn key_view(&self) -> PausableFunction {
        *self
    }

    fn key_eq(&self, other: &Self) -> (r: bool) {
        *self == *other
    }

    fn key_clone(&self) -> (r: Self) {
        *self
    }
}

/// Kinds of bill events.
#[derive(Clone, Copy, Debug, PartialEq, Eq, Structural)]
pub enum BillEvent {
    Created,
    Paid,
    ExternalRefUpdated,
    Cancelled,
    Archived,
    Restored,
    ScheduleCreated,
    ScheduleExecuted,
    ScheduleMissed,
    ScheduleModified,
    ScheduleCancelled,
    RecurringBillCreated,
}

/// A copy of a byte string.
pub fn copy_bytes(v: &Vec<u8>) -> (r: Vec<u8>)
    ensures
        r@ == v@,
{
    let r = v.clone();
    assert(r@ =~= v@);
    r
}

/// The contents of a list of byte strings.
pub open spec fn texts_view(v: Seq<Vec<u8>>) -> Seq<Seq<u8>> {
    v.map_values(|t: Vec<u8>| t@)
}

/// A copy of a list of byte strings.
pub fn copy_texts(v: &Vec<Vec<u8>>) -> (r: Vec<Vec<u8>>)
    ensures
        texts_view(r@) == texts_view(v@),
{
    let mut r: Vec<Vec<u8>> = Vec::new();
    let mut i: usize = 0;
    while i < v.len()
        invariant
            i <= v@.len(),
            r@.len() == i,
            forall|k: int| 0 <= k < i ==> (#[trigger] r@[k])@ == v@[k]@,
        decreases v@.len() - i,
    {
        r.push(copy_bytes(&v[i]));
        i = i + 1;
    }
    assert(texts_view(r@) =~= texts_view(v@));
    r
}

/// A copy of an optional byte string.
pub fn copy_opt_bytes(v: &Option<Vec<u8>>) -> (r: Option<Vec<u8>>)
    ensures
        opt_view(r) == opt_view(*v),
{
    match v {
        None => None,
        Some(x) => Some(copy_bytes(x)),
    }
}

/// The contents of an optional byte string.
pub open spec fn opt_view(v: Option<Vec<u8>>) -> Option<Seq<u8>> {
    match v {
        None => None,
        Some(x) => Some(x@),
    }
}

/// A bill.
pub struct Bill {
    pub id: u32,
    pub owner: Address,
    pub name: Vec<u8>,
    pub external_ref: Option<Vec<u8>>,
    pub amount: i128,
    /// Unix time (seconds) at which the bill is due.
    pub due_date: u64,
    pub recurring: bool,
    /// Days between occurrences of a recurring bill.
    pub frequency_days: u32,
    pub paid: bool,
    pub created_at: u64,
    pub paid_at: Option<u64>,
    pub schedule_id: Option<u32>,
    pub tags: Vec<Vec<u8>>,
    /// Currency code, such as `XLM` or `USDC`.
    pub currency: Vec<u8>,
}

/// The contents of a bill.
pub struct BillView {
    pub id: u32,
    pub owner: Address,
    pub name: Seq<u8>,
    pub external_ref: Option<Seq<u8>>,
    pub amount: i128,
    pub due_date: u64,
    pub recurring: bool,
    pub frequency_days: u32,
    pub paid: bool,
    pub created_at: u64,
    pub paid_at: Option<u64>,
    pub schedule_id: Option<u32>,
    pub tags: Seq<Seq<u8>>,
    pub currency: Seq<u8>,
}

impl View for Bill {
    type V = BillView;

    open spec fn view(&self) -> BillView {
        BillView {
            id: self.id,
            owner: self.owner,
            name: self.name@,
            external_ref: opt_view(self.external_ref),
            amount: self.amount,
            due_date: self.due_date,
            recurring: self.recurring,
            frequency_days: self.frequency_days,
            paid: self.paid,
            created_at: self.created_at,
            paid_at: self.paid_at,
            schedule_id: self.schedule_id,
            tags: texts_view(self.tags@),
            currency: self.currency@,
        }
    }
}

impl Bill {
    /// A copy of this bill.
    pub fn copy(&self) -> (r: Bill)
        ensures
            r@ == self@,
    {
        Bill {
            id: self.id,
            owner: self.owner,
            name: copy_bytes(&self.name),
            external_ref: copy_opt_bytes(&self.external_ref),
            amount: self.amount,
            due_date: self.due_date,
            recurring: self.recurring,
            frequency_days: self.frequency_days,
            paid: self.paid,
            created_at: self.created_at,
            paid_at: self.paid_at,
            schedule_id: self.schedule_id,
            tags: copy_texts(&self.tags),
            currency: copy_bytes(&self.currency),
        }
    }
}

/// A bill that was paid and moved out of active storage.
pub struct ArchivedBill {
    pub id: u32,
    pub owner: Address,
    pub name: Vec<u8>,
    pub external_ref: Option<Vec<u8>>,
    pub amount: i128,
    pub paid_at: u64,
    pub archived_at: u64,
    pub tags: Vec<Vec<u8>>,
    pub currency: Vec<u8>,
}

/// The contents of an archived bill.
pub struct ArchivedBillView {
    pub id: u32,
    pub owner: Address,
    pub name: Seq<u8>,
    pub external_ref: Option<Seq<u8>>,
    pub amount: i128,
    pub paid_at: u64,
    pub archived_at: u64,
    pub tags: Seq<Seq<u8>>,
    pub currency: Seq<u8>,
}

impl View for ArchivedBill {
    type V = ArchivedBillView;

    open spec fn view(&self) -> ArchivedBillView {
        ArchivedBillView {
            id: self.id,
            owner: self.owner,
            name: self.name@,
            external_ref: opt_view(self.external_ref),
            amount: self.amount,
            paid_at: self.paid_at,
            archived_at: self.archived_at,
            tags: texts_view(self.tags@),
            currency: self.currency@,
        }
    }
}

impl ArchivedBill {
    /// A copy of this record.
    pub fn copy(&self) -> (r: ArchivedBill)
        ensures
            r@ == self@,
    {
        ArchivedBill {
            id: self.id,
            owner: self.owner,
            name: copy_bytes(&self.name),
            external_ref: copy_opt_bytes(&self.external_ref),
            amount: self.amount,
            paid_at: self.paid_at,
            archived_at: self.archived_at,
            tags: copy_texts(&self.tags),
            currency: copy_bytes(&self.currency),
        }
    }
}

/// A schedule that creates bills at a fixed interval.
pub struct BillSchedule {
    pub id: u32,
    pub owner: Address,
    pub name: Vec<u8>,
    pub amount: i128,
    pub currency: Vec<u8>,
    pub next_due: u64,
    /// Seconds between executions; `0` for a one-off schedule.
    pub interval: u64,
    pub recurring: bool,
    pub active: bool,
    pub created_at: u64,
    pub last_executed: Option<u64>,
    pub missed_count: u32,
}

/// The contents of a bill schedule.
pub struct BillScheduleView {
    pub id: u32,
    pub owner: Address,
    pub name: Seq<u8>,
    pub amount: i128,
    pub currency: Seq<u8>,
    pub next_due: u64,
    pub interval: u64,
    pub recurring: bool,
    pub active: bool,
    pub created_at: u64,
    pub last_executed: Option<u64>,
    pub missed_count: u32,
}

impl View for BillSchedule {
    type V = BillScheduleView;

    open spec fn view(&self) -> BillScheduleView {
        BillScheduleView {
            id: self.id,
            owner: self.owner,
            name: self.name@,
            amount: self.amount,
            currency: self.currency@,
            next_due: self.next_due,
            interval: self.interval,
            recurring: self.recurring,
            active: self.active,
            created_at: self.created_at,
            last_executed: self.last_executed,
            missed_count: self.missed_count,
        }
    }
}

impl BillSchedule {
    /// A copy of this schedule.
    pub fn copy(&self) -> (r: BillSchedule)
        ensures
            r@ == self@,
    {
        BillSchedule {
            id: self.id,
            owner: self.owner,
            name: copy_bytes(&self.name),
            amount: self.amount,
            currency: copy_bytes(&self.currency),
            next_due: self.next_due,
            interval: self.interval,
            recurring: self.recurring,
            active: self.active,
            created_at: self.created_at,
            last_executed: self.last_executed,
            missed_count: self.missed_count,
        }
    }
}

/// One page of bills.
pub struct BillPage {
    pub items: Vec<Bill>,
    /// Id to pass as the next cursor; `0` when there are no more pages.
    pub next_cursor: u32,
    pub count: u32,
}

/// One page of archived bills.
pub struct ArchivedBillPage {
    pub items: Vec<ArchivedBill>,
    /// Id to pass as the next cursor; `0` when there are no more pages.
    pub next_cursor: u32,
    pub count: u32,
}

/// Aggregate figures over active and archived bills.
#[derive(Clone, Copy, Debug, PartialEq, Eq, Structural)]
pub struct StorageStats {
    pub active_bills: u32,
    pub archived_bills: u32,
    pub total_unpaid_amount: i128,
    pub total_archived_amount: i128,
    pub last_updated: u64,
}

/// The instance values saved before an upgrade, to roll it back.
#[derive(Clone, Copy, Debug, PartialEq, Eq, Structural)]
pub struct PreUpgradeSnapshot {
    pub schema_version: u32,
    pub next_id: u32,
    pub version: u32,
    pub upgrade_admin: Option<Address>,
    pub paused: bool,
    pub pause_admin: Option<Address>,
}

/// The contents of a list of bills.
pub open spec fn bills_view(v: Seq<Bill>) -> Seq<BillView> {
    v.map_values(|b: Bill| b@)
}

} // verus!
