//! Wall-clock access. Every time-dependent decision in this crate takes the
//! current instant as an explicit argument; this module only supplies it.
use vstd::prelude::*;

verus! {

/// Relies on `std::time::SystemTime::now` and `Duration::as_millis`: the
/// wall clock as milliseconds since the Unix epoch. A clock reading before
/// the epoch yields zero; nothing else is assumed of the value.
#[verifier::external_body]
pub(crate) fn now_millis() -> (r: u64) {
    match std::time::SystemTime::now().duration_since(std::time::UNIX_EPOCH) {
        Ok(elapsed) => elapsed.as_millis() as u64,
        Err(_) => 0,
    }
}

} // verus!
