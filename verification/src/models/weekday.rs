//! Weekdays, ordered from the week's first day.

use vstd::prelude::*;

verus! {

/// The seven weekdays, listed from the week's first day (Saturday) onward.
#[derive(Clone, Copy, PartialEq, Eq, Structural, Debug)]
pub enum Weekday {
    Sat,
    Sun,
    Mon,
    Tue,
    Wed,
    Thu,
    Fri,
}

impl Weekday {
    /// Days since the start of the week (Saturday); the canonical sort key.
    pub open spec fn spec_index(self) -> int {
        match self {
            Weekday::Sat => 0,
            Weekday::Sun => 1,
            Weekday::Mon => 2,
            Weekday::Tue => 3,
            Weekday::Wed => 4,
            Weekday::Thu => 5,
            Weekday::Fri => 6,
        }
    }

    /// Days since the start of the week (Saturday).
    pub fn index(&self) -> (r: u8)
        ensures
            r == self.spec_index(),
    {
        match self {
            Weekday::Sat => 0,
            Weekday::Sun => 1,
            Weekday::Mon => 2,
            Weekday::Tue => 3,
            Weekday::Wed => 4,
            Weekday::Thu => 5,
            Weekday::Fri => 6,
        }
    }

    /// The weekday whose offset from the week start is `i`.
    pub open spec fn spec_from_index(i: int) -> Option<Weekday> {
        if i == 0 {
            Some(Weekday::Sat)
        } else if i == 1 {
            Some(Weekday::Sun)
        } else if i == 2 {
            Some(Weekday::Mon)
        } else if i == 3 {
            Some(Weekday::Tue)
        } else if i == 4 {
            Some(Weekday::Wed)
        } else if i == 5 {
            Some(Weekday::Thu)
        } else if i == 6 {
            Some(Weekday::Fri)
        } else {
            None
        }
    }

    /// Recover a weekday from its offset from the week start.
    pub fn from_index(i: u8) -> (r: Option<Weekday>)
        ensures
            r == Weekday::spec_from_index(i as int),
    {
        match i {
            0 => Some(Weekday::Sat),
            1 => Some(Weekday::Sun),
            2 => Some(Weekday::Mon),
            3 => Some(Weekday::Tue),
            4 => Some(Weekday::Wed),
            5 => Some(Weekday::Thu),
            6 => Some(Weekday::Fri),
            _ => None,
        }
    }

    /// The full English name of the day.
    pub open spec fn spec_name(self) -> Seq<char> {
        match self {
            Weekday::Sat => "Saturday"@,
            Weekday::Sun => "Sunday"@,
            Weekday::Mon => "Monday"@,
            Weekday::Tue => "Tuesday"@,
            Weekday::Wed => "Wednesday"@,
            Weekday::Thu => "Thursday"@,
            Weekday::Fri => "Friday"@,
        }
    }
}

/// A weekday viewed under the total order anchored at the week's first
/// day; usable as a sort or map key.
#[derive(Clone, Copy, PartialEq, Eq, Structural, Debug)]
pub struct OrderedWeekday(pub Weekday);

impl OrderedWeekday {
    /// Position of the day within the week; the comparison key.
    pub fn index(&self) -> (r: u8)
        ensures
            r == self.0.spec_index(),
    {
        self.0.index()
    }

    /// Does `self` come no later in the week than `other`?
    pub fn le(&self, other: &OrderedWeekday) -> (r: bool)
        ensures
            r == (self.0.spec_index() <= other.0.spec_index()),
    {
        self.index() <= other.index()
    }

    /// The full English name of the day.
    pub fn to_string(&self) -> (r: String)
        ensures
            r@ == self.0.spec_name(),
    {
        match self.0 {
            Weekday::Sat => "Saturday".to_owned(),
            Weekday::Sun => "Sunday".to_owned(),
            Weekday::Mon => "Monday".to_owned(),
            Weekday::Tue => "Tuesday".to_owned(),
            Weekday::Wed => "Wednesday".to_owned(),
            Weekday::Thu => "Thursday".to_owned(),
            Weekday::Fri => "Friday".to_owned(),
        }
    }
}

impl From<Weekday> for OrderedWeekday {
    fn from(value: Weekday) -> (r: OrderedWeekday) {
        OrderedWeekday(value)
    }
}

impl vstd::std_specs::convert::FromSpecImpl<Weekday> for OrderedWeekday {
    open spec fn obeys_from_spec() -> bool {
        true
    }

    open spec fn from_spec(t: Weekday) -> OrderedWeekday {
        OrderedWeekday(t)
    }
}

} // verus!
