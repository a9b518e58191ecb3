//! Instants in time and the wall clock that produces them.

use vstd::prelude::*;

verus! {

/// An instant in UTC: whole seconds since the Unix epoch plus the
/// nanoseconds into that second.
#[derive(Clone, Copy, Debug, PartialEq, Eq, Structural)]
pub struct Timestamp {
    pub secs: i64,
    pub nanos: u32,
}

impl Timestamp {
    /// `self` is not later than `other`: seconds first, then nanoseconds.
    pub open spec fn spec_at_or_before(self, other: Timestamp) -> bool {
        self.secs < other.secs || (self.secs == other.secs && self.nanos <= other.nanos)
    }

    /// `self` is strictly earlier than `other`.
    pub open spec fn spec_before(self, other: Timestamp) -> bool {
        self.secs < other.secs || (self.secs == other.secs && self.nanos < other.nanos)
    }

    /// Whether `self` is not later than `other`.
    pub fn at_or_before(&self, other: &Timestamp) -> (b: bool)
        ensures
            b == self.spec_at_or_before(*other),
    {
        self.secs < other.secs || (self.secs == other.secs && self.nanos <= other.nanos)
    }

    /// Whether `self` is strictly earlier than `other`.
    pub fn before(&self, other: &Timestamp) -> (b: bool)
        ensures
            b == self.spec_before(*other),
    {
        self.secs < other.secs || (self.secs == other.secs && self.nanos < other.nanos)
    }
}

/// Reads the wall clock through `chrono::Utc::now` and splits the instant
/// into the seconds since the epoch (`DateTime::timestamp`) and the
/// nanoseconds into that second (`DateTime::timestamp_subsec_nanos`).
/// Nothing is claimed of the value: it is whatever the machine's clock says,
/// and two readings need not be ordered. chrono itself gives up on a machine
/// whose clock stands before 1970.
#[verifier::external_body]
pub(crate) fn now() -> (t: Timestamp) {
    let instant = chrono::Utc::now();
    Timestamp { secs: instant.timestamp(), nanos: instant.timestamp_subsec_nanos() }
}

} // verus!
