//! What the library knows of `std::time::Duration`, and the timeout a
//! transfer descriptor stores for one.

use vstd::prelude::*;
use vstd::arithmetic::div_mod::{lemma_fundamental_div_mod, lemma_mod_multiples_vanish};
use core::time::Duration;
use libc::c_uint;

verus! {

/// The whole seconds of a duration, as `Duration::as_secs` reports them.
pub uninterp spec fn duration_secs(d: Duration) -> u64;

/// The fractional part of a duration in nanoseconds, as
/// `Duration::subsec_nanos` reports it.
pub uninterp spec fn duration_subsec_nanos(d: Duration) -> u32;

/// `Duration::as_secs`: the number of whole seconds in the duration.
/// Not proved: the result is taken to be the duration's seconds part.
pub assume_specification[ Duration::as_secs ](d: &Duration) -> (secs: u64)
    ensures
        secs == duration_secs(*d),
;

/// `Duration::subsec_nanos`: the fractional part of the duration in
/// nanoseconds.
/// Not proved: the result is taken to be the duration's nanoseconds part.
pub assume_specification[ Duration::subsec_nanos ](d: &Duration) -> (nanos: u32)
    ensures
        nanos == duration_subsec_nanos(*d),
;

/// `Duration::from_millis`: the duration of that many milliseconds.
/// Not proved: its seconds part is taken to be the whole thousands of
/// `millis`, its nanoseconds part the rest, scaled to nanoseconds.
pub assume_specification[ Duration::from_millis ](millis: u64) -> (d: Duration)
    ensures
        duration_secs(d) == millis / 1000,
        duration_subsec_nanos(d) == (millis % 1000) * 1_000_000,
;

/// A duration in whole milliseconds, rounded down.
pub open spec fn duration_millis(d: Duration) -> int {
    duration_secs(d) * 1000 + duration_subsec_nanos(d) / 1_000_000
}

/// The timeout a descriptor stores for a duration: its whole milliseconds,
/// reduced to the 32 bits of the descriptor's timeout field.
pub open spec fn timeout_millis(d: Duration) -> int {
    duration_millis(d) % 0x1_0000_0000
}

/// Converts a timeout to the milliseconds a descriptor stores.
pub(crate) fn timeout_to_millis(timeout: Duration) -> (ms: c_uint)
    ensures
        ms == timeout_millis(timeout),
{
    let secs: u64 = timeout.as_secs();
    let millis: u64 = (timeout.subsec_nanos() / 1_000_000) as u64;
    let low: u64 = secs % 0x1_0000_0000;
    let total: u64 = low * 1000 + millis;
    proof {
        let m: int = 0x1_0000_0000;
        let q: int = secs as int / m;
        lemma_fundamental_div_mod(secs as int, m);
        assert(secs * 1000 + millis == m * (q * 1000) + total);
        lemma_mod_multiples_vanish(q * 1000, total as int, m);
    }
    (total % 0x1_0000_0000) as c_uint
}

/// Converts the milliseconds a descriptor stores back to a duration.
pub(crate) fn millis_to_timeout(ms: c_uint) -> (timeout: Duration)
    ensures
        duration_secs(timeout) == ms / 1000,
        duration_subsec_nanos(timeout) == (ms % 1000) * 1_000_000,
        timeout_millis(timeout) == ms,
{
    Duration::from_millis(ms as u64)
}

} // verus!
