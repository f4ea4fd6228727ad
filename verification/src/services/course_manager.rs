//! The course registry: owns the definitions and records, deduplicates
//! definitions by code, and serves the selection-filtered record view.

use vstd::prelude::*;
use crate::models::course_definition::{CourseDefinition, DefModel};
use crate::models::course_record::{CourseRecord, RecordModel};
use crate::text::str_eq;

verus! {

/// The definitions' mathematical image.
pub open spec fn defs_view(defs: Seq<CourseDefinition>) -> Seq<DefModel> {
    defs.map(|i: int, d: CourseDefinition| d@)
}

/// The records' mathematical image.
pub open spec fn recs_view(recs: Seq<CourseRecord>) -> Seq<RecordModel> {
    recs.map(|i: int, r: CourseRecord| r@)
}

/// First index whose definition carries `code`, or the length if none.
pub open spec fn spec_find_def(defs: Seq<DefModel>, code: Seq<char>) -> int
    decreases defs.len(),
{
    if defs.len() == 0 {
        0
    } else if defs[0].code == code {
        0
    } else {
        1 + spec_find_def(defs.skip(1), code)
    }
}

/// `spec_find_def` names the first match, or the length.
pub proof fn lemma_find_def(defs: Seq<DefModel>, code: Seq<char>)
    ensures
        0 <= spec_find_def(defs, code) <= defs.len(),
        spec_find_def(defs, code) < defs.len() ==> defs[spec_find_def(defs, code)].code == code,
        forall|k: int| 0 <= k < spec_find_def(defs, code) ==> defs[k].code != code,
    decreases defs.len(),
{
    if defs.len() > 0 && defs[0].code != code {
        lemma_find_def(defs.skip(1), code);
        assert forall|k: int| 1 <= k < spec_find_def(defs, code) implies defs[k].code != code by {
            assert(defs.skip(1)[k - 1] == defs[k]);
        }
    }
}

/// The first match determines `spec_find_def`.
pub proof fn lemma_find_def_is(defs: Seq<DefModel>, code: Seq<char>, j: int)
    requires
        0 <= j <= defs.len(),
        j < defs.len() ==> defs[j].code == code,
        forall|k: int| 0 <= k < j ==> defs[k].code != code,
    ensures
        spec_find_def(defs, code) == j,
    decreases defs.len(),
{
    if defs.len() > 0 && j > 0 {
        assert(defs[0].code != code);
        lemma_find_def_is(defs.skip(1), code, j - 1);
        assert(forall|k: int| 0 <= k < j - 1 ==> defs.skip(1)[k] == defs[k + 1]);
    }
}

/// The records whose definition is currently selected, in order.
pub open spec fn spec_available(defs: Seq<DefModel>, recs: Seq<RecordModel>) -> Seq<RecordModel>
    decreases recs.len(),
{
    if recs.len() == 0 {
        Seq::empty()
    } else {
        let rest = spec_available(defs, recs.drop_last());
        let r = recs.last();
        if 0 <= r.course_definition_index < defs.len() && defs[r.course_definition_index].selected {
            rest.push(r)
        } else {
            rest
        }
    }
}

/// Owns the deduplicated course definitions and the parsed records.
/// Cleared and fully rebuilt by every parse pass; the presentation layer
/// only toggles a definition's `selected` flag.
#[derive(Debug)]
pub struct CourseManager {
    pub course_definitions: Vec<CourseDefinition>,
    pub course_records: Vec<CourseRecord>,
}

impl CourseManager {
    /// The definitions' mathematical image.
    pub open spec fn defs(&self) -> Seq<DefModel> {
        defs_view(self.course_definitions@)
    }

    /// The records' mathematical image.
    pub open spec fn recs(&self) -> Seq<RecordModel> {
        recs_view(self.course_records@)
    }

    /// An empty registry.
    pub fn new() -> (r: CourseManager)
        ensures
            r.defs() == Seq::<DefModel>::empty(),
            r.recs() == Seq::<RecordModel>::empty(),
    {
        let r = CourseManager { course_definitions: Vec::new(), course_records: Vec::new() };
        proof {
            assert(r.defs() =~= Seq::<DefModel>::empty());
            assert(r.recs() =~= Seq::<RecordModel>::empty());
        }
        r
    }

    /// The sole deduplication point: a linear scan by code returns the
    /// existing definition's position, else a fresh definition with the
    /// given identity is stored and its position returned.
    pub fn get_or_add_course_definition(&mut self, code: &str, name: &str) -> (idx: usize)
        ensures
            final(self).course_records@ == old(self).course_records@,
            idx == spec_find_def(old(self).defs(), code@),
            spec_find_def(old(self).defs(), code@) < old(self).defs().len() ==> final(self).defs()
                == old(self).defs(),
            spec_find_def(old(self).defs(), code@) == old(self).defs().len() ==> final(self).defs()
                == old(self).defs().push(DefModel::fresh(code@, name@)),
            idx < final(self).defs().len(),
            final(self).defs()[idx as int].code == code@,
    {
        let ghost defs0 = self.defs();
        let n = self.course_definitions.len();
        let mut i: usize = 0;
        while i < n
            invariant
                0 <= i <= n,
                n == self.course_definitions@.len(),
                defs0 == self.defs(),
                forall|k: int| 0 <= k < i ==> defs0[k].code != code@,
            decreases n - i,
        {
            if str_eq(self.course_definitions[i].code.as_str(), code) {
                proof {
                    lemma_find_def_is(defs0, code@, i as int);
                }
                return i;
            }
            i += 1;
        }
        proof {
            lemma_find_def_is(defs0, code@, n as int);
        }
        let d = CourseDefinition::new(code, name);
        self.course_definitions.push(d);
        proof {
            assert(self.defs() =~= defs0.push(DefModel::fresh(code@, name@)));
        }
        n
    }

    /// Replace the registry's whole contents with what the blob parses
    /// to: full replace semantics, never a merge. On failure the
    /// registry is left cleared and the error returned.
    pub fn parse_courses(&mut self, data: &str) -> (r: Result<
        (),
        crate::services::standard_course_parser::ParseError,
    >)
        ensures
            match r {
                Result::Ok(()) => crate::services::standard_course_parser::spec_parse_result(data@)
                    is Ok && final(self).defs()
                    == crate::services::standard_course_parser::spec_parse_result(
                    data@,
                )->Ok_0.0 && final(self).recs()
                    == crate::services::standard_course_parser::spec_parse_result(data@)->Ok_0.1,
                Result::Err(e) => crate::services::standard_course_parser::spec_parse_result(data@)
                    == Err::<
                    (Seq<DefModel>, Seq<RecordModel>),
                    crate::services::standard_course_parser::ParseError,
                >(e) && final(self).defs() == Seq::<DefModel>::empty() && final(self).recs()
                    == Seq::<RecordModel>::empty(),
            },
    {
        crate::services::standard_course_parser::parse(self, data)
    }

    /// The live selection-filtered view: the records whose definition is
    /// currently marked selected, recomputed on every call.
    pub fn get_available_course_records(&self) -> (r: Vec<CourseRecord>)
        ensures
            recs_view(r@) == spec_available(self.defs(), self.recs()),
    {
        let mut out: Vec<CourseRecord> = Vec::new();
        let n = self.course_records.len();
        let mut i: usize = 0;
        proof {
            assert(self.recs().take(0) =~= Seq::<RecordModel>::empty());
            assert(recs_view(out@) =~= Seq::<RecordModel>::empty());
        }
        while i < n
            invariant
                0 <= i <= n,
                n == self.course_records@.len(),
                recs_view(out@) == spec_available(self.defs(), self.recs().take(i as int)),
            decreases n - i,
        {
            let rec = &self.course_records[i];
            let idx = rec.course_definition_index;
            let ghost prefix = self.recs().take(i as int);
            let ghost cur = self.recs().take(i as int + 1);
            proof {
                assert(cur.drop_last() =~= prefix);
                assert(cur.last() == self.recs()[i as int]);
            }
            if idx < self.course_definitions.len() && self.course_definitions[idx].selected {
                let copy = rec.clone();
                let ghost before = recs_view(out@);
                out.push(copy);
                proof {
                    assert(recs_view(out@) =~= before.push(copy@));
                }
            }
            i += 1;
        }
        proof {
            assert(self.recs().take(n as int) =~= self.recs());
        }
        out
    }
}

} // verus!
