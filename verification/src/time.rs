//! UTC instants as plain values: whole seconds since the Unix epoch plus
//! a sub-second nanosecond count, ordered lexicographically.

use vstd::prelude::*;

verus! {

/// A UTC instant: seconds since the Unix epoch (possibly negative) and
/// nanoseconds within that second.
#[derive(Clone, Copy, PartialEq, Eq, Structural, Debug, Hash)]
pub struct Timestamp {
    pub secs: i64,
    pub nanos: u32,
}

impl Timestamp {
    /// A valid instant never carries a full second in its nanosecond part.
    pub open spec fn wf(self) -> bool {
        self.nanos < 1_000_000_000
    }

    /// `self` is strictly earlier than `other`.
    pub open spec fn spec_lt(self, other: Timestamp) -> bool {
        self.secs < other.secs || (self.secs == other.secs && self.nanos < other.nanos)
    }

    /// `self` is no later than `other`.
    pub open spec fn spec_le(self, other: Timestamp) -> bool {
        self.spec_lt(other) || self == other
    }

    /// Compare two instants, strictly.
    pub fn lt(&self, other: &Timestamp) -> (r: bool)
        ensures
            r == self.spec_lt(*other),
    {
        self.secs < other.secs || (self.secs == other.secs && self.nanos < other.nanos)
    }

    /// Compare two instants, allowing equality.
    pub fn le(&self, other: &Timestamp) -> (r: bool)
        ensures
            r == self.spec_le(*other),
    {
        self.secs < other.secs || (self.secs == other.secs && self.nanos <= other.nanos)
    }
}

/// The instant `seconds` + `nanoseconds` after (or before) the Unix epoch.
pub fn datetime_unix(seconds: i64, nanoseconds: u32) -> (t: Timestamp)
    requires
        nanoseconds < 1_000_000_000,
    ensures
        t == (Timestamp { secs: seconds, nanos: nanoseconds }),
        t.wf(),
{
    Timestamp { secs: seconds, nanos: nanoseconds }
}

/// The instant exactly `seconds` after (or before) the Unix epoch.
pub fn datetime_unix_seconds(seconds: i64) -> (t: Timestamp)
    ensures
        t == (Timestamp { secs: seconds, nanos: 0 }),
        t.wf(),
{
    datetime_unix(seconds, 0)
}

/// The Unix epoch itself.
pub fn unix_epoch() -> (t: Timestamp)
    ensures
        t == (Timestamp { secs: 0, nanos: 0 }),
        t.wf(),
{
    datetime_unix(0, 0)
}

} // verus!
