//! Time of day with second precision, and the afternoon normalization the
//! source format requires.

use vstd::prelude::*;

verus! {

/// The source records class times on a 12-hour clock without AM/PM
/// markers; any hour below this cutoff is really an afternoon hour.
pub const MORNING_HOUR_CUTOFF: u8 = 8;

/// A time of day, to the second.
#[derive(Clone, Copy, PartialEq, Eq, Structural, Debug)]
pub struct ClockTime {
    pub hour: u8,
    pub minute: u8,
    pub second: u8,
}

impl ClockTime {
    /// A valid time of day.
    pub open spec fn wf(self) -> bool {
        self.hour < 24 && self.minute < 60 && self.second < 60
    }

    /// The time as a count of seconds since midnight; the comparison key.
    pub open spec fn spec_seconds(self) -> int {
        self.hour * 3600 + self.minute * 60 + self.second
    }

    pub fn new(hour: u8, minute: u8, second: u8) -> (r: ClockTime)
        requires
            hour < 24,
            minute < 60,
            second < 60,
        ensures
            r == (ClockTime { hour, minute, second }),
            r.wf(),
    {
        ClockTime { hour, minute, second }
    }

    /// The time as a count of seconds since midnight.
    pub fn total_seconds(&self) -> (r: u32)
        ensures
            r == self.spec_seconds(),
    {
        (self.hour as u32) * 3600 + (self.minute as u32) * 60 + (self.second as u32)
    }

    /// Does `self` come no later in the day than `other`?
    pub fn le(&self, other: &ClockTime) -> (r: bool)
        ensures
            r == (self.spec_seconds() <= other.spec_seconds()),
    {
        self.total_seconds() <= other.total_seconds()
    }

    /// Does `self` come strictly earlier in the day than `other`?
    pub fn lt(&self, other: &ClockTime) -> (r: bool)
        ensures
            r == (self.spec_seconds() < other.spec_seconds()),
    {
        self.total_seconds() < other.total_seconds()
    }

    /// The normalization applied to every parsed time.
    pub open spec fn spec_normalized(self) -> ClockTime {
        if self.hour < MORNING_HOUR_CUTOFF {
            ClockTime { hour: (self.hour + 12) as u8, minute: self.minute, second: self.second }
        } else {
            self
        }
    }

    /// Shift a 12-hour-clock morning reading into the afternoon: a time
    /// whose hour is below the cutoff gains exactly twelve hours; any
    /// other time is returned untouched.
    pub fn normalized(self) -> (r: ClockTime)
        ensures
            r == self.spec_normalized(),
            self.hour < MORNING_HOUR_CUTOFF ==> r.hour == self.hour + 12 && r.minute
                == self.minute && r.second == self.second,
            self.hour >= MORNING_HOUR_CUTOFF ==> r == self,
            self.wf() ==> r.wf(),
    {
        if self.hour < MORNING_HOUR_CUTOFF {
            ClockTime { hour: self.hour + 12, minute: self.minute, second: self.second }
        } else {
            self
        }
    }
}

} // verus!
