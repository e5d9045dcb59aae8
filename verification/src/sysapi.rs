//! Trusted boundary to the clock and the processor count.

use vstd::prelude::*;

verus! {

/// Relies on std::time::SystemTime::now and duration_since: seconds since
/// the Unix epoch, zero if the clock lies before it; nothing is promised of
/// the value.
#[verifier::external_body]
pub fn current_timestamp() -> (r: u64) {
    match std::time::SystemTime::now().duration_since(std::time::UNIX_EPOCH) {
        Ok(d) => d.as_secs(),
        Err(_) => 0,
    }
}

/// Relies on std::time::SystemTime::now and duration_since: milliseconds
/// since the Unix epoch, zero if the clock lies before it; nothing is
/// promised of the value.
#[verifier::external_body]
pub fn unix_now_ms() -> (r: u64) {
    match std::time::SystemTime::now().duration_since(std::time::UNIX_EPOCH) {
        Ok(d) => d.as_millis() as u64,
        Err(_) => 0,
    }
}

/// Relies on num_cpus::get, which always reports at least one processor.
#[verifier::external_body]
pub fn cpu_count() -> (r: usize)
    ensures
        r >= 1,
{
    num_cpus::get().max(1)
}

} // verus!
