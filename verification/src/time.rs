//! The wall clock.
use vstd::prelude::*;

verus! {

/// Reads the wall clock through `SystemTime::now().duration_since(UNIX_EPOCH)`: whole
/// seconds since the Unix epoch, or `None` when the clock reads earlier than the epoch.
/// Nothing is claimed of the value, which depends on the machine's clock.
#[verifier::external_body]
fn seconds_since_epoch() -> Option<u64> {
    match std::time::SystemTime::now().duration_since(std::time::UNIX_EPOCH) {
        Ok(elapsed) => Some(elapsed.as_secs()),
        Err(_) => None,
    }
}

/// The seconds a clock reading stands for: the reading itself, or 0 for a clock that
/// reads earlier than the epoch.
pub open spec fn seconds_or_zero_spec(reading: Option<u64>) -> u64 {
    match reading {
        Some(secs) => secs,
        None => 0,
    }
}

/// The seconds since the epoch given by a clock reading; 0 for a reading before the epoch.
pub fn seconds_or_zero(reading: Option<u64>) -> (secs: u64)
    ensures
        secs == seconds_or_zero_spec(reading),
{
    match reading {
        Some(secs) => secs,
        None => 0,
    }
}

/// Seconds since the Unix epoch by the wall clock; 0 before the epoch. Any value can
/// come back, as the clock decides it; what is done with the reading is
/// `seconds_or_zero`.
pub fn epoch_time_seconds() -> u64 {
    seconds_or_zero(seconds_since_epoch())
}

} // verus!
