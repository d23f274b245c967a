//! Instants, to the nanosecond.

use vstd::prelude::*;

verus! {

/// An hour in nanoseconds.
pub const NANOS_PER_HOUR: u64 = 3_600_000_000_000;

/// A day in nanoseconds.
pub const NANOS_PER_DAY: u64 = 86_400_000_000_000;

/// A week in nanoseconds.
pub const NANOS_PER_WEEK: u64 = 604_800_000_000_000;

/// An instant in UTC: whole seconds since the Unix epoch and the
/// nanoseconds past that second.
#[derive(Debug, Clone, Copy, PartialEq, Eq, Hash, Structural)]
pub struct Timestamp {
    pub secs: i64,
    pub nanos: u32,
}

impl Timestamp {
    /// Nanoseconds since the Unix epoch, as a mathematical integer.
    pub open spec fn as_nanos(self) -> int {
        self.secs as int * 1_000_000_000 + self.nanos as int
    }

    /// The instant `nanos` nanoseconds after the second `secs`.
    pub fn new(secs: i64, nanos: u32) -> (t: Timestamp)
        ensures
            t.secs == secs,
            t.nanos == nanos,
    {
        Timestamp { secs, nanos }
    }

    /// Nanoseconds since the Unix epoch.
    pub fn total_nanos(&self) -> (n: i128)
        ensures
            n == self.as_nanos(),
    {
        let s: i128 = self.secs as i128;
        let n: i128 = self.nanos as i128;
        s * 1_000_000_000i128 + n
    }

    /// Whether `self` lies at least `nanos` nanoseconds after `earlier`.
    pub fn at_least_after(&self, earlier: &Timestamp, nanos: u128) -> (r: bool)
        ensures
            r == (self.as_nanos() - earlier.as_nanos() >= nanos),
    {
        let gap: i128 = self.total_nanos() - earlier.total_nanos();
        nanos <= i128::MAX as u128 && gap >= nanos as i128
    }

    /// Whether `self` lies more than `nanos` nanoseconds after `earlier`.
    pub fn more_than_after(&self, earlier: &Timestamp, nanos: u128) -> (r: bool)
        ensures
            r == (self.as_nanos() - earlier.as_nanos() > nanos),
    {
        let gap: i128 = self.total_nanos() - earlier.total_nanos();
        nanos <= i128::MAX as u128 && gap > nanos as i128
    }
}

/// The current time, read from `chrono::Utc::now`. Nothing is claimed of
/// the value: it is whatever the system clock says.
#[verifier::external_body]
pub(crate) fn now() -> (t: Timestamp) {
    let t = chrono::Utc::now();
    Timestamp { secs: t.timestamp(), nanos: t.timestamp_subsec_nanos() }
}

} // verus!
