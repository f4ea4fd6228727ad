//! Global properties of a successful parse pass, each proved from the
//! parser's own specification: deduplication, idempotence, ordering,
//! and flag correctness.

use vstd::prelude::*;
use crate::models::course_definition::DefModel;
use crate::models::course_record::{CourseRecordType, RecordModel};
use crate::services::course_manager::{lemma_find_def, spec_find_def};
use crate::services::standard_course_parser::{
    rec_matches, spec_annotate_def, spec_annotate_rec, spec_annotate_recs, spec_annotate_defs,
    spec_build_records, spec_code_present, spec_count_matching, spec_def_le, spec_has_multi,
    spec_ingest, spec_insert_def, spec_insert_rec, spec_parse_result, spec_rank_val, spec_rec_le,
    spec_record_of_row, spec_sort_defs, spec_sort_recs,
};
use crate::services::standard_course_parser::{lemma_ingest_presence, lemma_sort_defs_presence};
use crate::text::{lemma_seq_le_total, lemma_seq_le_trans, seq_le};

verus! {

/// Definitions in ascending code order.
pub open spec fn defs_sorted_by_code(s: Seq<DefModel>) -> bool {
    forall|i: int, j: int|
        #![trigger s[i], s[j]]
        0 <= i < j < s.len() ==> seq_le(s[i].code, s[j].code)
}

/// Records in ascending (weekday, start time) order.
pub open spec fn recs_sorted_by_key(s: Seq<RecordModel>) -> bool {
    forall|i: int, j: int|
        #![trigger s[i], s[j]]
        0 <= i < j < s.len() ==> spec_rec_le(s[i], s[j])
}

proof fn lemma_insert_def_sorted(s: Seq<DefModel>, d: DefModel)
    requires
        defs_sorted_by_code(s),
    ensures
        defs_sorted_by_code(spec_insert_def(s, d)),
        spec_insert_def(s, d).len() == s.len() + 1,
        forall|t: int|
            0 <= t < spec_insert_def(s, d).len() ==> (#[trigger] spec_insert_def(s, d)[t]) == d
                || (exists|u: int| 0 <= u < s.len() && spec_insert_def(s, d)[t] == s[u]),
    decreases s.len(),
{
    let r = spec_insert_def(s, d);
    if s.len() == 0 {
        assert(r[0] == d);
    } else if spec_def_le(s.last(), d) {
        assert(r == s.push(d));
        assert forall|i: int, j: int|
            #![trigger r[i], r[j]]
            0 <= i < j < r.len() implies seq_le(r[i].code, r[j].code) by {
            if j == s.len() {
                if i < s.len() - 1 {
                    lemma_seq_le_trans(s[i].code, s.last().code, d.code);
                }
            }
        }
        assert forall|t: int| 0 <= t < r.len() implies (#[trigger] r[t]) == d || (exists|u: int|
            0 <= u < s.len() && r[t] == s[u]) by {
            if t < s.len() {
                assert(r[t] == s[t]);
            }
        }
    } else {
        let s0 = s.drop_last();
        assert(forall|u: int| 0 <= u < s0.len() ==> s0[u] == s[u]);
        assert(defs_sorted_by_code(s0));
        lemma_insert_def_sorted(s0, d);
        let t0 = spec_insert_def(s0, d);
        assert(r == t0.push(s.last()));
        lemma_seq_le_total(s.last().code, d.code);
        assert(seq_le(d.code, s.last().code));
        assert forall|i: int, j: int|
            #![trigger r[i], r[j]]
            0 <= i < j < r.len() implies seq_le(r[i].code, r[j].code) by {
            if j == t0.len() {
                assert(r[j] == s.last());
                assert(r[i] == t0[i]);
                if t0[i] == d {
                    assert(seq_le(d.code, s.last().code));
                } else {
                    let u = choose|u: int| 0 <= u < s0.len() && t0[i] == s0[u];
                    assert(seq_le(s[u].code, s.last().code));
                }
            } else {
                assert(r[i] == t0[i] && r[j] == t0[j]);
            }
        }
        assert forall|t: int| 0 <= t < r.len() implies (#[trigger] r[t]) == d || (exists|u: int|
            0 <= u < s.len() && r[t] == s[u]) by {
            if t < t0.len() {
                assert(r[t] == t0[t]);
                if t0[t] != d {
                    let u = choose|u: int| 0 <= u < s0.len() && t0[t] == s0[u];
                    assert(r[t] == s[u]);
                }
            } else {
                assert(r[t] == s[s.len() - 1]);
            }
        }
    }
}

proof fn lemma_sort_defs_sorted(s: Seq<DefModel>)
    ensures
        defs_sorted_by_code(spec_sort_defs(s)),
        spec_sort_defs(s).len() == s.len(),
    decreases s.len(),
{
    if s.len() > 0 {
        lemma_sort_defs_sorted(s.drop_last());
        lemma_insert_def_sorted(spec_sort_defs(s.drop_last()), s.last());
    }
}

proof fn lemma_insert_rec_sorted(s: Seq<RecordModel>, d: RecordModel)
    requires
        recs_sorted_by_key(s),
    ensures
        recs_sorted_by_key(spec_insert_rec(s, d)),
        spec_insert_rec(s, d).len() == s.len() + 1,
        forall|t: int|
            0 <= t < spec_insert_rec(s, d).len() ==> (#[trigger] spec_insert_rec(s, d)[t]) == d
                || (exists|u: int| 0 <= u < s.len() && spec_insert_rec(s, d)[t] == s[u]),
    decreases s.len(),
{
    let r = spec_insert_rec(s, d);
    if s.len() == 0 {
        assert(r[0] == d);
    } else if spec_rec_le(s.last(), d) {
        assert(r == s.push(d));
        assert forall|t: int| 0 <= t < r.len() implies (#[trigger] r[t]) == d || (exists|u: int|
            0 <= u < s.len() && r[t] == s[u]) by {
            if t < s.len() {
                assert(r[t] == s[t]);
            }
        }
    } else {
        let s0 = s.drop_last();
        assert(forall|u: int| 0 <= u < s0.len() ==> s0[u] == s[u]);
        assert(recs_sorted_by_key(s0));
        lemma_insert_rec_sorted(s0, d);
        let t0 = spec_insert_rec(s0, d);
        assert(r == t0.push(s.last()));
        assert forall|i: int, j: int|
            #![trigger r[i], r[j]]
            0 <= i < j < r.len() implies spec_rec_le(r[i], r[j]) by {
            if j == t0.len() {
                assert(r[j] == s.last());
                assert(r[i] == t0[i]);
                if t0[i] != d {
                    let u = choose|u: int| 0 <= u < s0.len() && t0[i] == s0[u];
                    assert(spec_rec_le(s[u], s.last()));
                }
            } else {
                assert(r[i] == t0[i] && r[j] == t0[j]);
            }
        }
        assert forall|t: int| 0 <= t < r.len() implies (#[trigger] r[t]) == d || (exists|u: int|
            0 <= u < s.len() && r[t] == s[u]) by {
            if t < t0.len() {
                assert(r[t] == t0[t]);
                if t0[t] != d {
                    let u = choose|u: int| 0 <= u < s0.len() && t0[t] == s0[u];
                    assert(r[t] == s[u]);
                }
            } else {
                assert(r[t] == s[s.len() - 1]);
            }
        }
    }
}

proof fn lemma_sort_recs_sorted(s: Seq<RecordModel>)
    ensures
        recs_sorted_by_key(spec_sort_recs(s)),
        spec_sort_recs(s).len() == s.len(),
        forall|t: int|
            0 <= t < spec_sort_recs(s).len() ==> exists|u: int|
                0 <= u < s.len() && (#[trigger] spec_sort_recs(s)[t]) == s[u],
    decreases s.len(),
{
    if s.len() > 0 {
        let s0 = s.drop_last();
        lemma_sort_recs_sorted(s0);
        lemma_insert_rec_sorted(spec_sort_recs(s0), s.last());
        let t0 = spec_sort_recs(s0);
        let r = spec_sort_recs(s);
        assert forall|t: int| 0 <= t < r.len() implies exists|u: int|
            0 <= u < s.len() && (#[trigger] r[t]) == s[u] by {
            if r[t] == s.last() {
                assert(r[t] == s[s.len() - 1]);
            } else {
                let u = choose|u: int| 0 <= u < t0.len() && r[t] == t0[u];
                let w = choose|w: int| 0 <= w < s0.len() && t0[u] == s0[w];
                assert(r[t] == s[w]);
            }
        }
    }
}

/// Ranking a record changes only its ordinal indices.
proof fn lemma_annotate_rec_fields(recs: Seq<RecordModel>, i: int)
    requires
        0 <= i < recs.len(),
    ensures
        spec_annotate_rec(recs, i).course_definition_index == recs[i].course_definition_index,
        spec_annotate_rec(recs, i).group == recs[i].group,
        spec_annotate_rec(recs, i).record_type == recs[i].record_type,
        spec_annotate_rec(recs, i).day == recs[i].day,
        spec_annotate_rec(recs, i).start_time == recs[i].start_time,
{
}

/// Ordering law: after a successful parse the definition table is
/// sorted by code, ascending and lexicographic, and the record table by
/// (weekday from the week start, start time), ascending.
pub proof fn lemma_parse_ordering(data: Seq<char>)
    requires
        spec_parse_result(data) is Ok,
    ensures
        defs_sorted_by_code(spec_parse_result(data)->Ok_0.0),
        recs_sorted_by_key(spec_parse_result(data)->Ok_0.1),
{
    let acc = spec_ingest(crate::services::row_scanner::spec_scan(data, 0))->Ok_0;
    let defs = spec_sort_defs(acc.0);
    let built = spec_build_records(acc.1, defs);
    let sorted = spec_sort_recs(built);
    let recs2 = spec_annotate_recs(sorted);
    let defs2 = spec_annotate_defs(defs, recs2);
    lemma_sort_defs_sorted(acc.0);
    lemma_sort_recs_sorted(built);
    assert forall|i: int, j: int|
        #![trigger defs2[i], defs2[j]]
        0 <= i < j < defs2.len() implies seq_le(defs2[i].code, defs2[j].code) by {
        assert(defs2[i] == spec_annotate_def(defs[i], i, recs2));
        assert(defs2[j] == spec_annotate_def(defs[j], j, recs2));
        assert(defs2[i].code == defs[i].code);
        assert(defs2[j].code == defs[j].code);
        assert(seq_le(defs[i].code, defs[j].code));
    }
    assert forall|i: int, j: int|
        #![trigger recs2[i], recs2[j]]
        0 <= i < j < recs2.len() implies spec_rec_le(recs2[i], recs2[j]) by {
        assert(recs2[i] == spec_annotate_rec(sorted, i));
        assert(recs2[j] == spec_annotate_rec(sorted, j));
        lemma_annotate_rec_fields(sorted, i);
        lemma_annotate_rec_fields(sorted, j);
        assert(spec_rec_le(sorted[i], sorted[j]));
    }
}

/// Idempotence law: the registry state after a successful
/// parse is a function of the blob alone: two parses of the same blob,
/// whatever state the registry held before each, leave identical
/// definition and record tables.
pub proof fn lemma_reparse_idempotent(
    data: Seq<char>,
    first: (Seq<DefModel>, Seq<RecordModel>),
    second: (Seq<DefModel>, Seq<RecordModel>),
)
    requires
        spec_parse_result(data) == Ok::<
            (Seq<DefModel>, Seq<RecordModel>),
            crate::services::standard_course_parser::ParseError,
        >(first),
        spec_parse_result(data) == Ok::<
            (Seq<DefModel>, Seq<RecordModel>),
            crate::services::standard_course_parser::ParseError,
        >(second),
    ensures
        first == second,
{
}

/// Deduplication law: after a successful parse, every record cites a
/// definition inside the table, and two records whose definitions carry
/// the same code cite the very same table entry.
pub proof fn lemma_parse_dedup(data: Seq<char>)
    requires
        spec_parse_result(data) is Ok,
    ensures
        forall|i: int|
            0 <= i < spec_parse_result(data)->Ok_0.1.len() ==> 0 <= (
            #[trigger] spec_parse_result(data)->Ok_0.1[i]).course_definition_index
                < spec_parse_result(data)->Ok_0.0.len(),
        forall|i: int, j: int|
            #![trigger spec_parse_result(data)->Ok_0.1[i], spec_parse_result(data)->Ok_0.1[j]]
            0 <= i < spec_parse_result(data)->Ok_0.1.len() && 0 <= j < spec_parse_result(
                data,
            )->Ok_0.1.len() && spec_parse_result(data)->Ok_0.0[spec_parse_result(
                data,
            )->Ok_0.1[i].course_definition_index].code == spec_parse_result(
                data,
            )->Ok_0.0[spec_parse_result(data)->Ok_0.1[j].course_definition_index].code
                ==> spec_parse_result(data)->Ok_0.1[i].course_definition_index
                == spec_parse_result(data)->Ok_0.1[j].course_definition_index,
{
    let rows = crate::services::row_scanner::spec_scan(data, 0);
    let acc = spec_ingest(rows)->Ok_0;
    let defs = spec_sort_defs(acc.0);
    let built = spec_build_records(acc.1, defs);
    let sorted = spec_sort_recs(built);
    let recs2 = spec_annotate_recs(sorted);
    let defs2 = spec_annotate_defs(defs, recs2);
    lemma_ingest_presence(rows);
    lemma_sort_defs_presence(acc.0);
    lemma_sort_recs_sorted(built);
    // every built record's index is the first position of its code
    assert forall|t: int| 0 <= t < built.len() implies first_index_of_own_code(
        defs,
        (#[trigger] built[t]).course_definition_index,
    ) by {
        assert(built[t] == spec_record_of_row(acc.1[t], defs));
        assert(spec_code_present(defs, acc.1[t].code));
        lemma_find_def(defs, acc.1[t].code);
        let k = spec_find_def(defs, acc.1[t].code);
        if k == defs.len() {
            let w = choose|w: int| 0 <= w < defs.len() && (#[trigger] defs[w]).code == acc.1[t].code;
            assert(false);
        }
    }
    assert forall|t: int| 0 <= t < recs2.len() implies first_index_of_own_code(
        defs,
        (#[trigger] recs2[t]).course_definition_index,
    ) by {
        assert(recs2[t] == spec_annotate_rec(sorted, t));
        lemma_annotate_rec_fields(sorted, t);
        let u = choose|u: int| 0 <= u < built.len() && sorted[t] == built[u];
        assert(first_index_of_own_code(defs, built[u].course_definition_index));
    }
    assert forall|t: int| 0 <= t < recs2.len() implies 0 <= (
    #[trigger] recs2[t]).course_definition_index < defs2.len() by {
        assert(first_index_of_own_code(defs, recs2[t].course_definition_index));
    }
    assert forall|i: int, j: int|
        #![trigger recs2[i], recs2[j]]
        0 <= i < recs2.len() && 0 <= j < recs2.len()
            && defs2[recs2[i].course_definition_index].code
            == defs2[recs2[j].course_definition_index].code implies recs2[i].course_definition_index
        == recs2[j].course_definition_index by {
        let a = recs2[i].course_definition_index;
        let b = recs2[j].course_definition_index;
        assert(first_index_of_own_code(defs, a));
        assert(first_index_of_own_code(defs, b));
        assert(defs2[a] == spec_annotate_def(defs[a], a, recs2));
        assert(defs2[b] == spec_annotate_def(defs[b], b, recs2));
        assert(defs[a].code == defs2[a].code);
        assert(defs[b].code == defs2[b].code);
        if a < b {
            assert(defs[a].code != defs[b].code);
        }
        if b < a {
            assert(defs[b].code != defs[a].code);
        }
    }
}

/// Is `k` the first position in the table that carries its own code?
pub open spec fn first_index_of_own_code(defs: Seq<DefModel>, k: int) -> bool {
    0 <= k < defs.len() && (forall|t: int| 0 <= t < k ==> (#[trigger] defs[t]).code != defs[k].code)
}

proof fn lemma_count_nonneg(recs: Seq<RecordModel>, upto: int, x: RecordModel)
    ensures
        spec_count_matching(recs, upto, x) >= 0,
    decreases upto,
{
    if upto > 0 {
        lemma_count_nonneg(recs, upto - 1, x);
    }
}

proof fn lemma_count_monotone(recs: Seq<RecordModel>, a: int, b: int, x: RecordModel)
    requires
        a <= b,
    ensures
        spec_count_matching(recs, a, x) <= spec_count_matching(recs, b, x),
    decreases b - a,
{
    if a < b {
        lemma_count_monotone(recs, a, b - 1, x);
    }
}

proof fn lemma_two_matches_count(
    recs: Seq<RecordModel>,
    x: RecordModel,
    j1: int,
    j2: int,
    upto: int,
)
    requires
        0 <= j1 < j2 < upto <= recs.len(),
        rec_matches(recs[j1], x),
        rec_matches(recs[j2], x),
    ensures
        spec_count_matching(recs, upto, x) >= 2,
{
    lemma_count_nonneg(recs, j1, x);
    assert(spec_count_matching(recs, j1 + 1, x) >= 1);
    lemma_count_monotone(recs, j1 + 1, j2, x);
    assert(spec_count_matching(recs, j2 + 1, x) >= 2);
    lemma_count_monotone(recs, j2 + 1, upto, x);
}

proof fn lemma_count_one_witness(recs: Seq<RecordModel>, upto: int, x: RecordModel)
    requires
        0 <= upto <= recs.len(),
        spec_count_matching(recs, upto, x) >= 1,
    ensures
        exists|j: int| 0 <= j < upto && rec_matches(#[trigger] recs[j], x),
    decreases upto,
{
    if upto > 0 {
        if rec_matches(recs[upto - 1], x) {
        } else {
            lemma_count_one_witness(recs, upto - 1, x);
        }
    }
}

proof fn lemma_count_two_witnesses(recs: Seq<RecordModel>, upto: int, x: RecordModel)
    requires
        0 <= upto <= recs.len(),
        spec_count_matching(recs, upto, x) >= 2,
    ensures
        exists|j1: int, j2: int|
            0 <= j1 < j2 < upto && rec_matches(#[trigger] recs[j1], x) && rec_matches(
                #[trigger] recs[j2],
                x,
            ),
    decreases upto,
{
    if upto > 0 {
        if rec_matches(recs[upto - 1], x) {
            lemma_count_nonneg(recs, upto - 1, x);
            lemma_count_one_witness(recs, upto - 1, x);
            let j1 = choose|j: int| 0 <= j < upto - 1 && rec_matches(#[trigger] recs[j], x);
            assert(0 <= j1 < upto - 1 < upto && rec_matches(recs[j1], x) && rec_matches(
                recs[upto - 1],
                x,
            ));
        } else {
            lemma_count_two_witnesses(recs, upto - 1, x);
            let (j1, j2) = choose|j1: int, j2: int|
                0 <= j1 < j2 < upto - 1 && rec_matches(#[trigger] recs[j1], x) && rec_matches(
                    #[trigger] recs[j2],
                    x,
                );
            assert(0 <= j1 < j2 < upto && rec_matches(recs[j1], x) && rec_matches(recs[j2], x));
        }
    }
}

proof fn lemma_count_congruent(
    r1: Seq<RecordModel>,
    r2: Seq<RecordModel>,
    upto: int,
    x1: RecordModel,
    x2: RecordModel,
)
    requires
        r1.len() == r2.len(),
        forall|t: int| 0 <= t < r1.len() ==> rec_matches(#[trigger] r1[t], r2[t]),
        rec_matches(x1, x2),
        upto <= r1.len(),
    ensures
        spec_count_matching(r1, upto, x1) == spec_count_matching(r2, upto, x2),
    decreases upto,
{
    if upto > 0 {
        lemma_count_congruent(r1, r2, upto - 1, x1, x2);
    }
}

/// The ranked table flags a (definition, kind) exactly when at least
/// two of its records share a group.
proof fn lemma_has_multi_iff_count(
    sorted: Seq<RecordModel>,
    recs2: Seq<RecordModel>,
    k: int,
    rt: CourseRecordType,
)
    requires
        recs2 == spec_annotate_recs(sorted),
        rt is Lecture || rt is Tutorial,
    ensures
        spec_has_multi(recs2, k, rt) == (exists|i: int|
            0 <= i < recs2.len() && (#[trigger] recs2[i]).course_definition_index == k
                && recs2[i].record_type == rt && spec_count_matching(
                recs2,
                recs2.len() as int,
                recs2[i],
            ) >= 2),
{
    let n = recs2.len() as int;
    assert(forall|t: int| 0 <= t < n ==> recs2[t] == spec_annotate_rec(sorted, t));
    assert forall|t: int| 0 <= t < n implies rec_matches(#[trigger] sorted[t], recs2[t])
        && rec_matches(recs2[t], sorted[t]) by {
        lemma_annotate_rec_fields(sorted, t);
    }
    if spec_has_multi(recs2, k, rt) {
        let i = choose|i: int|
            0 <= i < n && (#[trigger] recs2[i]).course_definition_index == k
                && recs2[i].record_type == rt && (match rt {
                CourseRecordType::Lecture => recs2[i].mullec_index >= 2,
                CourseRecordType::Tutorial => recs2[i].multut_index >= 2,
                CourseRecordType::NoneType => false,
            });
        lemma_annotate_rec_fields(sorted, i);
        let c = spec_count_matching(sorted, i + 1, sorted[i]);
        lemma_count_nonneg(sorted, i + 1, sorted[i]);
        assert(spec_rank_val(c) >= 2);
        assert(c >= 2);
        lemma_count_congruent(sorted, recs2, i + 1, sorted[i], recs2[i]);
        assert(spec_count_matching(recs2, i + 1, recs2[i]) >= 2);
        lemma_count_monotone(recs2, i + 1, n, recs2[i]);
        assert(0 <= i < n && recs2[i].course_definition_index == k && recs2[i].record_type == rt
            && spec_count_matching(recs2, n, recs2[i]) >= 2);
    }
    if exists|i: int|
        0 <= i < n && (#[trigger] recs2[i]).course_definition_index == k && recs2[i].record_type
            == rt && spec_count_matching(recs2, n, recs2[i]) >= 2 {
        let i = choose|i: int|
            0 <= i < n && (#[trigger] recs2[i]).course_definition_index == k
                && recs2[i].record_type == rt && spec_count_matching(recs2, n, recs2[i]) >= 2;
        lemma_count_two_witnesses(recs2, n, recs2[i]);
        let (j1, j2) = choose|j1: int, j2: int|
            0 <= j1 < j2 < n && rec_matches(#[trigger] recs2[j1], recs2[i]) && rec_matches(
                #[trigger] recs2[j2],
                recs2[i],
            );
        lemma_annotate_rec_fields(sorted, j1);
        lemma_annotate_rec_fields(sorted, j2);
        assert(rec_matches(sorted[j1], sorted[j2]));
        lemma_two_matches_count(sorted, sorted[j2], j1, j2, j2 + 1);
        let c2 = spec_count_matching(sorted, j2 + 1, sorted[j2]);
        assert(c2 >= 2);
        assert(spec_rank_val(c2) >= 2);
        assert(recs2[j2] == spec_annotate_rec(sorted, j2));
        assert(recs2[j2].record_type == rt);
        assert(recs2[j2].course_definition_index == k);
        assert((match rt {
            CourseRecordType::Lecture => recs2[j2].mullec_index >= 2,
            CourseRecordType::Tutorial => recs2[j2].multut_index >= 2,
            CourseRecordType::NoneType => false,
        }));
        assert(spec_has_multi(recs2, k, rt));
    }
}

/// Flag-correctness law: after a successful parse, a definition's
/// MultipleLectures flag is set exactly when at least two of its
/// lecture records fall in one group; likewise MultipleTutorials for
/// tutorial records.
pub proof fn lemma_flag_correctness(data: Seq<char>)
    requires
        spec_parse_result(data) is Ok,
    ensures
        forall|k: int|
            0 <= k < spec_parse_result(data)->Ok_0.0.len() ==> ((
            #[trigger] spec_parse_result(data)->Ok_0.0[k]).flags.multiple_lectures == (exists|
                i: int,
            |
                0 <= i < spec_parse_result(data)->Ok_0.1.len() && (#[trigger] spec_parse_result(
                    data,
                )->Ok_0.1[i]).course_definition_index == k && spec_parse_result(
                    data,
                )->Ok_0.1[i].record_type is Lecture && spec_count_matching(
                    spec_parse_result(data)->Ok_0.1,
                    spec_parse_result(data)->Ok_0.1.len() as int,
                    spec_parse_result(data)->Ok_0.1[i],
                ) >= 2)),
        forall|k: int|
            0 <= k < spec_parse_result(data)->Ok_0.0.len() ==> ((
            #[trigger] spec_parse_result(data)->Ok_0.0[k]).flags.multiple_tutorials == (exists|
                i: int,
            |
                0 <= i < spec_parse_result(data)->Ok_0.1.len() && (#[trigger] spec_parse_result(
                    data,
                )->Ok_0.1[i]).course_definition_index == k && spec_parse_result(
                    data,
                )->Ok_0.1[i].record_type is Tutorial && spec_count_matching(
                    spec_parse_result(data)->Ok_0.1,
                    spec_parse_result(data)->Ok_0.1.len() as int,
                    spec_parse_result(data)->Ok_0.1[i],
                ) >= 2)),
{
    let acc = spec_ingest(crate::services::row_scanner::spec_scan(data, 0))->Ok_0;
    let defs = spec_sort_defs(acc.0);
    let sorted = spec_sort_recs(spec_build_records(acc.1, defs));
    let recs2 = spec_annotate_recs(sorted);
    let defs2 = spec_annotate_defs(defs, recs2);
    assert(spec_parse_result(data)->Ok_0.0 == defs2);
    assert(spec_parse_result(data)->Ok_0.1 == recs2);
    assert forall|k: int| 0 <= k < defs2.len() implies ((#[trigger] defs2[k]).flags.multiple_lectures
        == (exists|i: int|
        0 <= i < recs2.len() && (#[trigger] recs2[i]).course_definition_index == k
            && recs2[i].record_type is Lecture && spec_count_matching(
            recs2,
            recs2.len() as int,
            recs2[i],
        ) >= 2)) by {
        assert(defs2[k] == spec_annotate_def(defs[k], k, recs2));
        lemma_has_multi_iff_count(sorted, recs2, k, CourseRecordType::Lecture);
    }
    assert forall|k: int| 0 <= k < defs2.len() implies ((
    #[trigger] defs2[k]).flags.multiple_tutorials == (exists|i: int|
        0 <= i < recs2.len() && (#[trigger] recs2[i]).course_definition_index == k
            && recs2[i].record_type is Tutorial && spec_count_matching(
            recs2,
            recs2.len() as int,
            recs2[i],
        ) >= 2)) by {
        assert(defs2[k] == spec_annotate_def(defs[k], k, recs2));
        lemma_has_multi_iff_count(sorted, recs2, k, CourseRecordType::Tutorial);
    }
}

} // verus!
