//! The model types: weekday order, clock-time normalization and
//! comparison, flags, and definition construction.

use cryn_rs::models::clock_time::{ClockTime, MORNING_HOUR_CUTOFF};
use cryn_rs::models::course_flags::CourseFlags;
use cryn_rs::models::course_definition::CourseDefinition;
use cryn_rs::models::weekday::{OrderedWeekday, Weekday};
use cryn_rs::views::placeholder_view::PlaceholderView;

#[test]
fn weekday_index_runs_from_saturday() {
    assert_eq!(Weekday::Sat.index(), 0);
    assert_eq!(Weekday::Sun.index(), 1);
    assert_eq!(Weekday::Mon.index(), 2);
    assert_eq!(Weekday::Fri.index(), 6);
}

#[test]
fn weekday_from_index_round_trips() {
    for i in 0..7u8 {
        let d = Weekday::from_index(i).unwrap();
        assert_eq!(d.index(), i);
    }
    assert!(Weekday::from_index(7).is_none());
}

#[test]
fn ordered_weekday_compares_from_week_start() {
    let sat = OrderedWeekday::from(Weekday::Sat);
    let fri = OrderedWeekday::from(Weekday::Fri);
    assert!(sat.le(&fri));
    assert!(!fri.le(&sat));
    assert!(sat.le(&sat));
    assert_eq!(sat.index(), 0);
    assert_eq!(fri.index(), 6);
}

#[test]
fn ordered_weekday_names() {
    assert_eq!(OrderedWeekday(Weekday::Sat).to_string(), "Saturday");
    assert_eq!(OrderedWeekday(Weekday::Wed).to_string(), "Wednesday");
}

#[test]
fn clock_time_normalization() {
    // hours below the cutoff gain twelve hours; others are untouched
    assert_eq!(MORNING_HOUR_CUTOFF, 8);
    let early = ClockTime::new(1, 30, 0);
    let shifted = early.normalized();
    assert_eq!(shifted, ClockTime::new(13, 30, 0));
    let late = ClockTime::new(8, 0, 0);
    assert_eq!(late.normalized(), late);
    let noon = ClockTime::new(12, 15, 30);
    assert_eq!(noon.normalized(), noon);
    let edge = ClockTime::new(7, 59, 59);
    assert_eq!(edge.normalized(), ClockTime::new(19, 59, 59));
}

#[test]
fn clock_time_comparison_and_seconds() {
    let a = ClockTime::new(8, 0, 0);
    let b = ClockTime::new(8, 0, 1);
    let c = ClockTime::new(9, 0, 0);
    assert_eq!(a.total_seconds(), 8 * 3600);
    assert!(a.lt(&b));
    assert!(b.le(&c));
    assert!(a.le(&a));
    assert!(!c.lt(&a));
    assert!(!c.le(&b));
}

#[test]
fn course_flags_none_is_empty() {
    let f = CourseFlags::none();
    assert!(f.is_none());
    assert!(!f.multiple_lectures);
    assert!(!f.multiple_tutorials);
    let g = CourseFlags { multiple_lectures: true, multiple_tutorials: false };
    assert!(!g.is_none());
}

#[test]
fn course_definition_new_zeroes_the_rest() {
    let d = CourseDefinition::new("MATH101", "Calculus");
    assert_eq!(d.code, "MATH101");
    assert_eq!(d.name, "Calculus");
    assert_eq!(d.lecture_count, 0);
    assert_eq!(d.tutorial_count, 0);
    assert!(!d.selected);
    assert!(d.flags.is_none());
}

#[test]
fn course_definition_default_placeholder() {
    let d = CourseDefinition::default();
    assert_eq!(d.code, "AMMR123");
    assert_eq!(d.name, "ammar wkda");
    assert!(!d.selected);
}

#[test]
fn placeholder_view_name() {
    assert_eq!(PlaceholderView.name(), "Placeholder");
}
