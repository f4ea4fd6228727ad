//! The deduplicated identity of a course.

use vstd::prelude::*;
use vstd::string::StringExecFns;
use crate::models::course_flags::CourseFlags;

verus! {

/// Mathematical image of a [`CourseDefinition`]: the same fields with
/// strings abstracted to character sequences.
#[verifier::ext_equal]
pub ghost struct DefModel {
    pub code: Seq<char>,
    pub name: Seq<char>,
    pub flags: CourseFlags,
    pub selected: bool,
    pub lecture_count: u32,
    pub tutorial_count: u32,
}

/// Deduplicated identity of a course: its code (the unique key), display
/// name (first seen wins), derived flags, the presentation layer's
/// selection mark, and per-kind record counters filled during a parse.
#[derive(Debug)]
pub struct CourseDefinition {
    pub code: String,
    pub name: String,
    pub flags: CourseFlags,
    pub selected: bool,
    pub lecture_count: u32,
    pub tutorial_count: u32,
}

impl View for CourseDefinition {
    type V = DefModel;

    open spec fn view(&self) -> DefModel {
        DefModel {
            code: self.code@,
            name: self.name@,
            flags: self.flags,
            selected: self.selected,
            lecture_count: self.lecture_count,
            tutorial_count: self.tutorial_count,
        }
    }
}

impl DefModel {
    /// A freshly registered definition: given identity, everything else
    /// zeroed.
    pub open spec fn fresh(code: Seq<char>, name: Seq<char>) -> DefModel {
        DefModel {
            code,
            name,
            flags: CourseFlags::spec_none(),
            selected: false,
            lecture_count: 0,
            tutorial_count: 0,
        }
    }
}

impl Clone for CourseDefinition {
    fn clone(&self) -> (r: Self)
        ensures
            r@ == self@,
            r.selected == self.selected,
    {
        CourseDefinition {
            code: self.code.clone(),
            name: self.name.clone(),
            flags: self.flags,
            selected: self.selected,
            lecture_count: self.lecture_count,
            tutorial_count: self.tutorial_count,
        }
    }
}

impl CourseDefinition {
    /// A definition for the given identity, with zeroed counters and
    /// flags and the selection mark clear.
    pub fn new(code: &str, name: &str) -> (r: CourseDefinition)
        ensures
            r@ == DefModel::fresh(code@, name@),
    {
        let mut d = CourseDefinition::default();
        d.code = code.to_owned();
        d.name = name.to_owned();
        d
    }
}

impl Default for CourseDefinition {
    /// The placeholder identity used before real data is filled in.
    fn default() -> (r: CourseDefinition)
        ensures
            r@ == DefModel::fresh("AMMR123"@, "ammar wkda"@),
    {
        CourseDefinition {
            code: String::from_str("AMMR123"),
            name: String::from_str("ammar wkda"),
            flags: CourseFlags::none(),
            selected: false,
            lecture_count: 0,
            tutorial_count: 0,
        }
    }
}

} // verus!
