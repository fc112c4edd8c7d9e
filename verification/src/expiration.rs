//! Expiration time of transactions that a client builds.
use vstd::prelude::*;

verus! {

/// Seconds for which a freshly built transaction stays valid.
pub const EXPIRATION_WINDOW_SECS: u64 = 600;

/// The expiration time of a transaction built at `now` seconds after the
/// epoch: the end of the validity window, or the largest time there is.
pub open spec fn expiration_after(now: u64) -> u64 {
    if now + EXPIRATION_WINDOW_SECS > u64::MAX {
        u64::MAX
    } else {
        (now + EXPIRATION_WINDOW_SECS) as u64
    }
}

/// Reads the clock with `std::time::SystemTime::now` and gives the whole
/// seconds since the epoch, or `None` when the clock stands before the epoch.
/// Nothing is promised of the value: it changes from call to call.
#[verifier::external_body]
fn unix_time_secs() -> Option<u64> {
    match std::time::SystemTime::now().duration_since(std::time::UNIX_EPOCH) {
        Ok(elapsed) => Some(elapsed.as_secs()),
        Err(_) => None,
    }
}

/// Expiration time for a clock reading; a clock before the epoch counts as
/// the epoch itself.
pub fn expiration_secs_at(now: Option<u64>) -> (r: u64)
    ensures
        r == expiration_after(
            match now {
                Some(secs) => secs,
                None => 0,
            },
        ),
{
    let secs: u64 = match now {
        Some(secs) => secs,
        None => 0,
    };
    secs.saturating_add(EXPIRATION_WINDOW_SECS)
}

/// Expiration time of a transaction built now. Whatever the clock says, the
/// result lies a full validity window after the epoch or later.
pub fn default_expiration_secs() -> (r: u64)
    ensures
        r >= EXPIRATION_WINDOW_SECS,
{
    expiration_secs_at(unix_time_secs())
}

} // verus!
