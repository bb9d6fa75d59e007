use vstd::prelude::*;
use rand::Rng;

verus! {

/// Milliseconds since the Unix epoch by the system clock
/// (`SystemTime::now().duration_since(UNIX_EPOCH)`, 0 for a clock set before the
/// epoch, truncated to `u64`). Nothing is stated of the value: it is the time.
#[verifier::external_body]
pub(crate) fn unix_time_millis() -> (ms: u64) {
    std::time::SystemTime::now().duration_since(std::time::UNIX_EPOCH).unwrap_or_default().as_millis() as u64
}

/// A random number drawn by `rand::thread_rng().gen_range(lo..=hi)`, which
/// returns a value of the closed range and panics on an empty one. Which value of
/// the range comes out is chance and is not stated.
#[verifier::external_body]
pub(crate) fn random_in_range(lo: u64, hi: u64) -> (r: u64)
    requires
        lo <= hi,
    ensures
        lo <= r <= hi,
{
    rand::thread_rng().gen_range(lo..=hi)
}

} // verus!
