//! How long storage entries that belong to a proposal are kept alive.
use vstd::prelude::*;

verus! {

/// Added to the time that a proposal has left, so that its entries outlive it.
pub const PROPOSAL_TTL_BUFFER: u32 = 604_800;

/// The time left until `end_time`, or zero once it has passed.
pub open spec fn time_left(now: u64, end_time: u64) -> u64 {
    if end_time > now {
        (end_time - now) as u64
    } else {
        0
    }
}

/// The time left, cut to 32 bits as the contracts cut it.
pub open spec fn time_left_u32(now: u64, end_time: u64) -> u32 {
    time_left(now, end_time) as u32
}

/// The lifetime can be computed without overflowing 32 bits.
pub open spec fn ttl_fits(now: u64, end_time: u64) -> bool {
    time_left_u32(now, end_time) + PROPOSAL_TTL_BUFFER <= u32::MAX
}

/// The lifetime of an entry that belongs to a proposal ending at `end_time`: the time left plus
/// the buffer, but never less than `floor`.
pub open spec fn spec_ttl(now: u64, end_time: u64, floor: u32) -> u32 {
    let min_ttl = time_left_u32(now, end_time) + PROPOSAL_TTL_BUFFER;
    if min_ttl > floor {
        min_ttl as u32
    } else {
        floor
    }
}

/// Computes the lifetime of an entry that belongs to a proposal ending at `end_time`.
pub fn ttl_for(now: u64, end_time: u64, floor: u32) -> (r: u32)
    requires
        ttl_fits(now, end_time),
    ensures
        r == spec_ttl(now, end_time, floor),
        r >= floor,
{
    let proposal_duration = if end_time > now {
        end_time - now
    } else {
        0
    };
    let min_ttl = proposal_duration as u32 + PROPOSAL_TTL_BUFFER;
    if min_ttl > floor {
        min_ttl
    } else {
        floor
    }
}

} // verus!
