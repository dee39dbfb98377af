use vstd::prelude::*;
use std::time::{SystemTime, UNIX_EPOCH};

verus! {

/// Relies on `SystemTime::now` measured from `UNIX_EPOCH`: whole
/// milliseconds since the epoch, none when the clock is before it.
#[verifier::external_body]
fn millis_since_epoch() -> (r: Option<u128>) {
    SystemTime::now().duration_since(UNIX_EPOCH).ok().map(|d| d.as_millis())
}

/// The current time in Unix milliseconds; 0 when the system clock reads
/// before the epoch, `i64::MAX` past what an `i64` holds.
pub fn now_unix_ms() -> (r: i64)
    ensures
        r >= 0,
{
    match millis_since_epoch() {
        Some(ms) => if ms <= i64::MAX as u128 {
            ms as i64
        } else {
            i64::MAX
        },
        None => 0,
    }
}

} // verus!
