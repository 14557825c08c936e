//! Points in time, and the clock that gives the present one.

use vstd::prelude::*;

verus! {

/// A point in time: whole seconds since the start of 1970 in UTC, and the
/// nanoseconds that have passed since that second began.
#[derive(Clone, Copy, Debug, PartialEq, Eq, Structural)]
pub struct Timestamp {
    pub secs: i64,
    pub nanos: u32,
}

impl Timestamp {
    /// `self` is not earlier than `other`.
    pub open spec fn at_or_after(self, other: Timestamp) -> bool {
        self.secs > other.secs || (self.secs == other.secs && self.nanos >= other.nanos)
    }

    /// Whether `self` is not earlier than `other`.
    pub fn not_before(&self, other: &Timestamp) -> (later: bool)
        ensures
            later == self.at_or_after(*other),
    {
        self.secs > other.secs || (self.secs == other.secs && self.nanos >= other.nanos)
    }
}

/// `chrono::Utc::now`, read through `DateTime::timestamp` and
/// `DateTime::timestamp_subsec_nanos`: the present time. The clock counts whole
/// seconds and the nanoseconds within one, so the second part stays below a
/// thousand million. Nothing else is known of it: the clock may be set back
/// between two calls. The call does not return where the machine's clock
/// stands before 1970. Trusted, not proved.
#[verifier::external_body]
pub(crate) fn now() -> (present: Timestamp)
    ensures
        present.nanos < 1_000_000_000,
{
    let present = chrono::Utc::now();
    Timestamp { secs: present.timestamp(), nanos: present.timestamp_subsec_nanos() }
}

} // verus!
