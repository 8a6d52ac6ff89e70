//! Limits and helpers shared by both contracts.
use vstd::prelude::*;

verus! {

/// Page size used when a caller asks for `0` items.
pub const DEFAULT_PAGE_LIMIT: u32 = 20;
/// Largest page a query returns.
pub const MAX_PAGE_LIMIT: u32 = 50;

/// The page size a query uses for a requested `limit`.
pub open spec fn spec_clamp_limit(limit: u32) -> u32 {
    if limit == 0 {
        DEFAULT_PAGE_LIMIT
    } else if limit > MAX_PAGE_LIMIT {
        MAX_PAGE_LIMIT
    } else {
        limit
    }
}

/// Clamp a requested page size: `0` selects the default, anything above the
/// maximum is cut down to it.
pub fn clamp_limit(limit: u32) -> (r: u32)
    ensures
        r == spec_clamp_limit(limit),
        1 <= r <= MAX_PAGE_LIMIT,
{
    if limit == 0 {
        DEFAULT_PAGE_LIMIT
    } else if limit > MAX_PAGE_LIMIT {
        MAX_PAGE_LIMIT
    } else {
        limit
    }
}

} // verus!
