//! The data model: weekdays under the week-start order, clock times,
//! course flags, course definitions, course records, and the per-day
//! span aggregate.

pub mod clock_time;
pub mod course_definition;
pub mod course_flags;
pub mod course_record;
pub mod course_span;
pub mod weekday;
