//! Points in time (UTC) as plain integers, and the current time.

use vstd::prelude::*;

verus! {

/// A point in time (UTC): whole seconds since the Unix epoch and the
/// nanoseconds within that second (a leap second shows as `nanos >= 1_000_000_000`).
#[derive(Debug, Clone, Copy, PartialEq, Eq, Hash, Structural)]
pub struct Timestamp {
    pub seconds: i64,
    pub nanos: u32,
}

/// `a` is strictly earlier than `b`.
pub open spec fn earlier(a: Timestamp, b: Timestamp) -> bool {
    a.seconds < b.seconds || (a.seconds == b.seconds && a.nanos < b.nanos)
}

/// `t` can be a reading of the system clock: not before 1970, and its
/// nanoseconds below one second.
pub open spec fn is_clock_reading(t: Timestamp) -> bool {
    t.seconds >= 0 && t.nanos < 1_000_000_000
}

/// The current time of the system clock.
///
/// Trusted: `chrono::Utc::now`, read back through `timestamp` and
/// `timestamp_subsec_nanos`. Its source reads the system clock as a duration
/// since the Unix epoch, so the time is not before 1970 and its nanoseconds
/// are below one second; the clock can be set at any time, so nothing more
/// is claimed of the value. (`Utc::now` panics when the system clock reads a
/// time before 1970.)
#[verifier::external_body]
pub(crate) fn current_time() -> (t: Timestamp)
    ensures
        is_clock_reading(t),
{
    let now = chrono::Utc::now();
    Timestamp { seconds: now.timestamp(), nanos: now.timestamp_subsec_nanos() }
}

impl Timestamp {
    /// Whether this point in time is strictly earlier than `other`.
    pub fn is_before(&self, other: &Timestamp) -> (b: bool)
        ensures
            b == earlier(*self, *other),
    {
        self.seconds < other.seconds || (self.seconds == other.seconds && self.nanos < other.nanos)
    }
}

/// Law: `earlier` is chronological order. A time with more whole seconds
/// is later whatever the nanoseconds; with equal seconds the nanoseconds
/// decide; no time is earlier than itself; of two different times exactly one
/// is earlier; and the order is transitive.
pub proof fn lemma_earlier_is_chronological(a: Timestamp, b: Timestamp, c: Timestamp)
    ensures
        a.seconds < b.seconds ==> earlier(a, b),
        a.seconds > b.seconds ==> !earlier(a, b),
        a.seconds == b.seconds ==> (earlier(a, b) <==> a.nanos < b.nanos),
        !earlier(a, a),
        a != b ==> (earlier(a, b) <==> !earlier(b, a)),
        earlier(a, b) && earlier(b, c) ==> earlier(a, c),
{
}

} // verus!
