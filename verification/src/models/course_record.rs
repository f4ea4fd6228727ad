//! One timetabled occurrence of a course.

use vstd::prelude::*;
use crate::models::clock_time::ClockTime;
use crate::models::weekday::Weekday;

verus! {

/// The kind of a scheduled occurrence. `NoneType` is what a kind cell
/// reading "None" parses to; it must never reach storage.
#[derive(Clone, Copy, PartialEq, Eq, Structural, Debug)]
pub enum CourseRecordType {
    NoneType,
    Lecture,
    Tutorial,
}

/// Which parsing branch produced a record; diagnostic only.
#[derive(Clone, Copy, PartialEq, Eq, Structural, Debug)]
pub enum CourseParseFormat {
    Standard,
    IrregularWithoutNameGroupPrefixed,
    IrregularWithoutNameGroupPostFixed,
    IrregularWithoutName,
    IrregularWithNameNoGroup,
    IrregularWithName,
    Excel,
}

/// Mathematical image of a [`CourseRecord`]: the same fields with
/// strings abstracted to character sequences.
#[verifier::ext_equal]
pub ghost struct RecordModel {
    pub course_definition_index: int,
    pub group: i32,
    pub record_type: CourseRecordType,
    pub day: Weekday,
    pub start_time: ClockTime,
    pub end_time: ClockTime,
    pub class_size: i32,
    pub enrolled: i32,
    pub waiting: i32,
    pub status: Seq<char>,
    pub location: Seq<char>,
    pub parse_format: CourseParseFormat,
    pub mullec_index: i32,
    pub multut_index: i32,
}

/// One scheduled lecture or tutorial session. The record cites its owning
/// definition by position in the registry's definition table; `group` is
/// `-1` when the source row never named one. The two ordinal indices are
/// `-1` until the post-processing pass ranks the record among its
/// same-group same-kind siblings.
#[derive(Debug)]
pub struct CourseRecord {
    pub course_definition_index: usize,
    pub group: i32,
    pub record_type: CourseRecordType,
    pub day: Weekday,
    pub start_time: ClockTime,
    pub end_time: ClockTime,
    pub class_size: i32,
    pub enrolled: i32,
    pub waiting: i32,
    pub status: String,
    pub location: String,
    pub parse_format: CourseParseFormat,
    pub mullec_index: i32,
    pub multut_index: i32,
}

impl View for CourseRecord {
    type V = RecordModel;

    open spec fn view(&self) -> RecordModel {
        RecordModel {
            course_definition_index: self.course_definition_index as int,
            group: self.group,
            record_type: self.record_type,
            day: self.day,
            start_time: self.start_time,
            end_time: self.end_time,
            class_size: self.class_size,
            enrolled: self.enrolled,
            waiting: self.waiting,
            status: self.status@,
            location: self.location@,
            parse_format: self.parse_format,
            mullec_index: self.mullec_index,
            multut_index: self.multut_index,
        }
    }
}

impl Clone for CourseRecord {
    fn clone(&self) -> (r: Self)
        ensures
            r@ == self@,
    {
        CourseRecord {
            course_definition_index: self.course_definition_index,
            group: self.group,
            record_type: self.record_type,
            day: self.day,
            start_time: self.start_time,
            end_time: self.end_time,
            class_size: self.class_size,
            enrolled: self.enrolled,
            waiting: self.waiting,
            status: self.status.clone(),
            location: self.location.clone(),
            parse_format: self.parse_format,
            mullec_index: self.mullec_index,
            multut_index: self.multut_index,
        }
    }
}

impl CourseRecord {
    /// A record as the parser emits it: the given fields, with both
    /// ordinal indices still unset.
    pub fn new(
        course_definition_index: usize,
        group: i32,
        record_type: CourseRecordType,
        day: Weekday,
        start_time: ClockTime,
        end_time: ClockTime,
        class_size: i32,
        enrolled: i32,
        waiting: i32,
        status: String,
        location: String,
        parse_format: CourseParseFormat,
    ) -> (r: CourseRecord)
        ensures
            r.course_definition_index == course_definition_index,
            r.group == group,
            r.record_type == record_type,
            r.day == day,
            r.start_time == start_time,
            r.end_time == end_time,
            r.class_size == class_size,
            r.enrolled == enrolled,
            r.waiting == waiting,
            r.status@ == status@,
            r.location@ == location@,
            r.parse_format == parse_format,
            r.mullec_index == -1,
            r.multut_index == -1,
    {
        CourseRecord {
            course_definition_index,
            group,
            record_type,
            day,
            start_time,
            end_time,
            class_size,
            enrolled,
            waiting,
            status,
            location,
            parse_format,
            mullec_index: -1,
            multut_index: -1,
        }
    }
}

} // verus!
