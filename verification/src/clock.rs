//! The wall clock, read through the `time` crate.

use vstd::prelude::*;

verus! {

/// A point in time: seconds since the epoch, and nanoseconds into that second.
#[derive(Clone, Copy, Debug, PartialEq, Eq, Structural)]
pub struct Timestamp {
    pub sec: i64,
    pub nsec: i32,
}

/// `time::get_time`: the current time. Nothing is claimed of the value, which
/// differs from call to call.
#[verifier::external_body]
pub(crate) fn current_time() -> Timestamp {
    let now = time::get_time();
    Timestamp { sec: now.sec, nsec: now.nsec }
}

} // verus!
