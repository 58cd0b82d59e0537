//! Instants, and the whole days between them.

use vstd::prelude::*;

verus! {

/// The nanoseconds in a second.
pub const NANOS_PER_SECOND: i128 = 1_000_000_000;

/// The seconds in a day.
pub const SECONDS_PER_DAY: i128 = 86_400;

/// The nanoseconds in a day.
pub const NANOS_PER_DAY: i128 = 86_400_000_000_000;

/// An instant on the universal clock: `secs` whole seconds after the start
/// of 1970, and `nanos` nanoseconds after that.
#[derive(Clone, Copy, Debug, PartialEq, Eq, Structural)]
pub struct Timestamp {
    pub secs: i64,
    pub nanos: u32,
}

/// The whole days in a span of nanoseconds, rounded toward zero.
pub open spec fn whole_days(span: int) -> int {
    if span >= 0 {
        span / (NANOS_PER_DAY as int)
    } else {
        -((-span) / (NANOS_PER_DAY as int))
    }
}

impl Timestamp {
    /// The nanoseconds from the start of 1970 to this instant.
    pub open spec fn instant(self) -> int {
        self.secs * NANOS_PER_SECOND + self.nanos
    }

    /// The nanoseconds from the start of 1970 to this instant.
    fn nanoseconds(&self) -> (r: i128)
        ensures
            r == self.instant(),
            -0x8000_0000_0000_0000 * NANOS_PER_SECOND <= r < 0x8000_0000_0000_0000
                * NANOS_PER_SECOND + 0x1_0000_0000,
    {
        (self.secs as i128) * NANOS_PER_SECOND + (self.nanos as i128)
    }

    /// The whole days from `earlier` to this instant, rounded toward zero;
    /// negative where `earlier` is the later of the two.
    pub fn whole_days_since(&self, earlier: &Timestamp) -> (days: i64)
        ensures
            days == whole_days(self.instant() - earlier.instant()),
    {
        let span: i128 = self.nanoseconds() - earlier.nanoseconds();
        if span >= 0 {
            (span / NANOS_PER_DAY) as i64
        } else {
            let back: i128 = -span;
            -((back / NANOS_PER_DAY) as i64)
        }
    }

    /// Whether this instant comes before `other`.
    pub fn is_before(&self, other: &Timestamp) -> (r: bool)
        ensures
            r == (self.instant() < other.instant()),
    {
        self.nanoseconds() < other.nanoseconds()
    }

    /// The later of this instant and `other`; this one where they are the
    /// same instant.
    pub open spec fn later(self, other: Timestamp) -> Timestamp {
        if self.instant() < other.instant() {
            other
        } else {
            self
        }
    }

    /// The instant `days` days after this one, where the clock can hold it.
    pub open spec fn shifted(self, days: int) -> Option<Timestamp> {
        let secs = self.secs + days * SECONDS_PER_DAY;
        if i64::MIN <= secs <= i64::MAX {
            Some(Timestamp { secs: secs as i64, nanos: self.nanos })
        } else {
            None
        }
    }

    /// The later of this instant and `other`; this one where they are the
    /// same instant.
    pub fn later_of(self, other: Timestamp) -> (r: Timestamp)
        ensures
            r == self.later(other),
    {
        if self.is_before(&other) {
            other
        } else {
            self
        }
    }

    /// The instant `days` days after this one, where the clock can hold it.
    pub fn plus_days(&self, days: i64) -> (r: Option<Timestamp>)
        ensures
            r == self.shifted(days as int),
    {
        let shift: i128 = (days as i128) * SECONDS_PER_DAY;
        let secs: i128 = (self.secs as i128) + shift;
        if secs > (i64::MAX as i128) || secs < (i64::MIN as i128) {
            None
        } else {
            Some(Timestamp { secs: secs as i64, nanos: self.nanos })
        }
    }
}

/// An instant shifted by days is that many days of nanoseconds away.
pub proof fn lemma_shifted_instant(at: Timestamp, days: int)
    requires
        at.shifted(days) is Some,
    ensures
        at.shifted(days).unwrap().instant() == at.instant() + days * NANOS_PER_DAY,
{
    assert((at.secs + days * 86_400) * 1_000_000_000 == at.secs * 1_000_000_000 + days
        * 86_400_000_000_000) by (nonlinear_arith);
}

} // verus!
