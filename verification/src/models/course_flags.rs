//! Derived boolean facts about a course definition.

use vstd::prelude::*;

verus! {

/// A small set of named tags recording derived facts about a course
/// definition; written only by the post-processing pass.
#[derive(Clone, Copy, PartialEq, Eq, Structural, Debug)]
pub struct CourseFlags {
    /// Some group of the course has two or more lecture records.
    pub multiple_lectures: bool,
    /// Some group of the course has two or more tutorial records.
    pub multiple_tutorials: bool,
}

impl CourseFlags {
    /// The empty flag set.
    pub open spec fn spec_none() -> CourseFlags {
        CourseFlags { multiple_lectures: false, multiple_tutorials: false }
    }

    /// Construct the empty flag set.
    pub fn none() -> (r: CourseFlags)
        ensures
            r == CourseFlags::spec_none(),
    {
        CourseFlags { multiple_lectures: false, multiple_tutorials: false }
    }

    /// Is every flag clear?
    pub fn is_none(&self) -> (r: bool)
        ensures
            r == (*self == CourseFlags::spec_none()),
    {
        !self.multiple_lectures && !self.multiple_tutorials
    }
}

} // verus!
