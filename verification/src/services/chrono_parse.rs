//! Trusted bridge to the chrono crate: weekday names and clock times are
//! parsed by chrono, and only plain values cross back.

use vstd::prelude::*;
use chrono::Timelike;
use crate::models::clock_time::ClockTime;
use crate::models::weekday::Weekday;

verus! {

use crate::text::eq_ignore_ascii_lower;

/// What `chrono::Weekday::from_str` accepts: exactly a case-insensitive
/// short ("sat") or full ("saturday") English day name.
pub open spec fn spec_weekday_from_str(s: Seq<char>) -> Option<Weekday> {
    if eq_ignore_ascii_lower(s, "sat"@) || eq_ignore_ascii_lower(s, "saturday"@) {
        Some(Weekday::Sat)
    } else if eq_ignore_ascii_lower(s, "sun"@) || eq_ignore_ascii_lower(s, "sunday"@) {
        Some(Weekday::Sun)
    } else if eq_ignore_ascii_lower(s, "mon"@) || eq_ignore_ascii_lower(s, "monday"@) {
        Some(Weekday::Mon)
    } else if eq_ignore_ascii_lower(s, "tue"@) || eq_ignore_ascii_lower(s, "tuesday"@) {
        Some(Weekday::Tue)
    } else if eq_ignore_ascii_lower(s, "wed"@) || eq_ignore_ascii_lower(s, "wednesday"@) {
        Some(Weekday::Wed)
    } else if eq_ignore_ascii_lower(s, "thu"@) || eq_ignore_ascii_lower(s, "thursday"@) {
        Some(Weekday::Thu)
    } else if eq_ignore_ascii_lower(s, "fri"@) || eq_ignore_ascii_lower(s, "friday"@) {
        Some(Weekday::Fri)
    } else {
        None
    }
}

/// Relies on chrono's `Weekday::from_str`, which matches the first three
/// bytes against a short English day name ignoring ASCII case and then
/// optionally consumes the rest of the full name the same way, demanding
/// an empty remainder; and on `Weekday::days_since`, which anchored at
/// Saturday yields 0 (Saturday) through 6 (Friday).
#[verifier::external_body]
pub fn parse_weekday(s: &str) -> (r: Option<Weekday>)
    ensures
        r == spec_weekday_from_str(s@),
{
    match s.parse::<chrono::Weekday>() {
        Ok(d) => Weekday::from_index(d.days_since(chrono::Weekday::Sat) as u8),
        Err(_) => None,
    }
}

/// The hour, minute and second that `chrono::NaiveTime::from_str` reads
/// out of a string, when it accepts it.
pub uninterp spec fn spec_time_parts_from_str(s: Seq<char>) -> Option<(u8, u8, u8)>;

/// The clock time that parsing a string yields, if any.
pub open spec fn spec_time_from_str(s: Seq<char>) -> Option<ClockTime> {
    match spec_time_parts_from_str(s) {
        Option::Some(p) => Some(ClockTime { hour: p.0, minute: p.1, second: p.2 }),
        Option::None => None,
    }
}

/// Relies on chrono's `NaiveTime::from_str` (the `%H:%M:%S%.f` grammar
/// with the seconds part optional) and its `hour`, `minute` and `second`
/// accessors, whose documented ranges are 0–23, 0–59 and 0–59.
#[verifier::external_body]
pub fn parse_time(s: &str) -> (r: Option<ClockTime>)
    ensures
        r == (match spec_time_parts_from_str(s@) {
            Option::Some(p) => Option::Some(ClockTime { hour: p.0, minute: p.1, second: p.2 }),
            Option::None => Option::None,
        }),
        r == spec_time_from_str(s@),
        r matches Some(t) ==> t.wf(),
{
    match s.parse::<chrono::NaiveTime>() {
        Ok(t) => Some(
            ClockTime {
                hour: t.hour() as u8,
                minute: t.minute() as u8,
                second: t.second() as u8,
            },
        ),
        Err(_) => None,
    }
}

} // verus!
