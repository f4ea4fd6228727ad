//! The per-day span aggregate: bucketing by start time and the inclusive
//! hour-count used to size a grid column.

use cryn_rs::models::clock_time::ClockTime;
use cryn_rs::models::course_record::{CourseParseFormat, CourseRecord, CourseRecordType};
use cryn_rs::models::course_span::{build_day_spans, CourseSpan};
use cryn_rs::models::weekday::Weekday;

fn day_record(day: Weekday, start: (u8, u8), end: (u8, u8)) -> CourseRecord {
    CourseRecord::new(
        0,
        1,
        CourseRecordType::Lecture,
        day,
        ClockTime::new(start.0, start.1, 0),
        ClockTime::new(end.0, end.1, 0),
        30,
        25,
        0,
        "Open".to_string(),
        "B1".to_string(),
        CourseParseFormat::Standard,
    )
}

fn record(start: (u8, u8), end: (u8, u8)) -> CourseRecord {
    day_record(Weekday::Mon, start, end)
}

#[test]
fn empty_span_has_zero_periods() {
    let span = CourseSpan::new();
    assert_eq!(span.get_period_count(), 0);
    assert_eq!(span.bucket_count(), 0);
}

#[test]
fn span_aggregation_inclusive_hour_count() {
    // starts {08:00, 09:00}, ends {08:50, 10:50} -> 10 - 8 + 1 = 3
    let mut span = CourseSpan::new();
    span.insert_course_record(record((8, 0), (8, 50)));
    span.insert_course_record(record((9, 0), (10, 50)));
    assert_eq!(span.get_period_count(), 3);
    assert_eq!(span.bucket_count(), 2);
}

#[test]
fn single_record_spans_one_period() {
    let mut span = CourseSpan::new();
    span.insert_course_record(record((8, 0), (8, 50)));
    assert_eq!(span.get_period_count(), 1);
}

#[test]
fn records_sharing_a_start_time_share_a_bucket() {
    let mut span = CourseSpan::new();
    span.insert_course_record(record((9, 0), (9, 50)));
    span.insert_course_record(record((9, 0), (10, 50)));
    span.insert_course_record(record((11, 0), (11, 50)));
    assert_eq!(span.bucket_count(), 2);
    let first = span.bucket_at(0);
    assert_eq!(first.start_time, ClockTime::new(9, 0, 0));
    assert_eq!(first.records.len(), 2);
    let second = span.bucket_at(1);
    assert_eq!(second.start_time, ClockTime::new(11, 0, 0));
    assert_eq!(second.records.len(), 1);
    assert_eq!(span.get_period_count(), 11 - 9 + 1);
}

#[test]
fn day_spans_are_grouped_and_ordered_from_week_start() {
    let records = vec![
        day_record(Weekday::Fri, (9, 0), (9, 50)),
        day_record(Weekday::Sat, (8, 0), (8, 50)),
        day_record(Weekday::Fri, (10, 0), (11, 50)),
    ];
    let spans = build_day_spans(&records);
    assert_eq!(spans.len(), 2);
    assert_eq!(spans[0].0, Weekday::Sat);
    assert_eq!(spans[0].1.get_period_count(), 1);
    assert_eq!(spans[0].1.bucket_count(), 1);
    assert_eq!(spans[1].0, Weekday::Fri);
    assert_eq!(spans[1].1.get_period_count(), 11 - 9 + 1);
    assert_eq!(spans[1].1.bucket_count(), 2);
}

#[test]
fn day_spans_of_no_records_is_empty() {
    let spans = build_day_spans(&Vec::new());
    assert!(spans.is_empty());
}

#[test]
fn extrema_track_minimum_start_and_maximum_end() {
    let mut span = CourseSpan::new();
    span.insert_course_record(record((10, 0), (10, 50)));
    assert_eq!(span.get_period_count(), 1);
    span.insert_course_record(record((8, 30), (9, 20)));
    assert_eq!(span.get_period_count(), 10 - 8 + 1);
    span.insert_course_record(record((12, 0), (13, 50)));
    assert_eq!(span.get_period_count(), 13 - 8 + 1);
}
