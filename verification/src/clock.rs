//! The coarse wall clock of the `coarsetime` crate.

use coarsetime::Clock;
use vstd::prelude::*;

verus! {

/// Timestamps of the coarse clock, in milliseconds, are below this number.
pub const MILLIS_LIMIT: u64 = 0x400_0000_0000;

/// `Clock::recent_since_epoch`, read with `Duration::as_millis`: the time of
/// the clock's latest update, in whole milliseconds since the epoch. The
/// clock keeps its time in 64 bits, of which `as_millis` leaves fewer than 42.
#[verifier::external_body]
pub(crate) fn recent_epoch_millis() -> (millis: u64)
    ensures
        millis < MILLIS_LIMIT,
{
    Clock::recent_since_epoch().as_millis()
}

} // verus!
