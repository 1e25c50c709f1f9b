//! The one place the library asks for the time.

use vstd::prelude::*;

verus! {

/// Milliseconds since the Unix epoch, or zero when the clock lies before
/// it. Relies on `std::time::SystemTime::now`; nothing can be promised of
/// the value it returns.
#[verifier::external_body]
pub fn now_millis() -> u64 {
    match std::time::SystemTime::now().duration_since(std::time::UNIX_EPOCH) {
        Ok(d) => {
            let ms = d.as_millis();
            if ms > u64::MAX as u128 {
                u64::MAX
            } else {
                ms as u64
            }
        },
        Err(_) => 0,
    }
}

} // verus!
