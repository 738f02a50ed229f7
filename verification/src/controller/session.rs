//! The rules of a session that are no thread's own: whether the targets can
//! be shuffled at all, and when the writer may stop.

use crate::net::range::CompiledRanges;
use vstd::prelude::*;

verus! {

/// The most positions a keyed shuffle over 64-bit numbers is asked to take:
/// half of them, so that the number of bits of the largest position stays
/// below 64.
pub const SHUFFLE_MAX_RANGE: u64 = 0x8000_0000_0000_0000;

/// The number of positions that the session's shuffle is made for: the
/// number of targets, where there is a target at all and no more than a
/// shuffle takes. Ranges for which there is none are not scanned.
pub fn shuffle_range(ranges: &CompiledRanges) -> (range: Option<u64>)
    ensures
        range == if 0 < ranges.spec_count() <= SHUFFLE_MAX_RANGE {
            Some(ranges.spec_count() as u64)
        } else {
            None::<u64>
        },
{
    let count = ranges.count() as u64;
    if count == 0 || count > SHUFFLE_MAX_RANGE {
        None
    } else {
        Some(count)
    }
}

/// Whether the writer stops: once the session is done and no record has
/// come for as long as the ping timeout, so that banners still on their way
/// when the session ended are written too.
pub fn writer_done(idle_nanos: u64, timeout_nanos: u64, done: bool) -> (stop: bool)
    ensures
        stop == (done && idle_nanos >= timeout_nanos),
{
    done && idle_nanos >= timeout_nanos
}

} // verus!
