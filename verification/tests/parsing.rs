//! End-to-end parses of small blobs, the irregular group branches, and
//! the error taxonomy.

use cryn_rs::models::course_record::{CourseParseFormat, CourseRecordType};
use cryn_rs::models::weekday::Weekday;
use cryn_rs::services::course_manager::CourseManager;
use cryn_rs::services::standard_course_parser::{parse_group, sanitize_str, ParseError};

fn simple_row() -> String {
    // well-formed row: MATH101, Calculus, group 1, Lecture, Monday 08:00-08:50
    "<td>__MATH101__</td><td>Calculus</td><td>1</td><td>Lecture</td><td>Monday</td>\
     <td>08:00</td><td>08:50</td><td>30</td><td>25</td><td>0</td><td>Open</td><td>B1</td>"
        .to_string()
}

#[test]
fn end_to_end_single_row() {
    let mut mgr = CourseManager::new();
    let blob = format!("<table>{}</table>", simple_row());
    mgr.parse_courses(&blob).unwrap();

    assert_eq!(mgr.course_definitions.len(), 1);
    let def = &mgr.course_definitions[0];
    assert_eq!(def.code, "MATH101");
    assert_eq!(def.name, "Calculus");
    assert_eq!(def.lecture_count, 1);
    assert_eq!(def.tutorial_count, 0);
    assert!(!def.flags.multiple_lectures);
    assert!(!def.flags.multiple_tutorials);
    assert!(!def.selected);

    assert_eq!(mgr.course_records.len(), 1);
    let rec = &mgr.course_records[0];
    assert_eq!(rec.course_definition_index, 0);
    assert_eq!(rec.group, 1);
    assert_eq!(rec.record_type, CourseRecordType::Lecture);
    assert_eq!(rec.day, Weekday::Mon);
    assert_eq!(rec.start_time.hour, 8);
    assert_eq!(rec.start_time.minute, 0);
    assert_eq!(rec.end_time.hour, 8);
    assert_eq!(rec.end_time.minute, 50);
    assert_eq!(rec.class_size, 30);
    assert_eq!(rec.enrolled, 25);
    assert_eq!(rec.waiting, 0);
    assert_eq!(rec.status, "Open");
    assert_eq!(rec.location, "B1");
    assert_eq!(rec.parse_format, CourseParseFormat::Standard);
    assert_eq!(rec.mullec_index, 1);
    assert_eq!(rec.multut_index, -1);
}

#[test]
fn non_matching_text_is_skipped() {
    let mut mgr = CourseManager::new();
    let blob = format!(
        "<html><tr>header rows</tr>{}<td>stray</td></html>",
        simple_row()
    );
    mgr.parse_courses(&blob).unwrap();
    assert_eq!(mgr.course_definitions.len(), 1);
    assert_eq!(mgr.course_records.len(), 1);
}

#[test]
fn empty_blob_parses_to_empty_registry() {
    let mut mgr = CourseManager::new();
    mgr.parse_courses("no table here").unwrap();
    assert_eq!(mgr.course_definitions.len(), 0);
    assert_eq!(mgr.course_records.len(), 0);
}

#[test]
fn time_normalization_shifts_morning_hours() {
    // 01:30 is really 13:30 under the afternoon convention; 08:00 stays.
    let mut mgr = CourseManager::new();
    let blob =
        "<td>__PHYS202__</td><td>Physics</td><td>2</td><td>Tutorial</td><td>Tuesday</td>\
         <td>01:30</td><td>02:20</td><td>20</td><td>18</td><td>2</td><td>Open</td><td>C2</td>"
            .to_string();
    mgr.parse_courses(&blob).unwrap();
    let rec = &mgr.course_records[0];
    assert_eq!(rec.start_time.hour, 13);
    assert_eq!(rec.start_time.minute, 30);
    assert_eq!(rec.end_time.hour, 14);
    assert_eq!(rec.end_time.minute, 20);
    assert_eq!(rec.record_type, CourseRecordType::Tutorial);
    assert_eq!(rec.multut_index, 1);
    assert_eq!(rec.mullec_index, -1);
    let def = &mgr.course_definitions[0];
    assert_eq!(def.tutorial_count, 1);
    assert_eq!(def.lecture_count, 0);
}

#[test]
fn dedup_two_rows_same_code_share_definition() {
    let mut mgr = CourseManager::new();
    let r1 = "<td>__MATH101__</td><td>Calculus</td><td>1</td><td>Lecture</td><td>Monday</td>\
        <td>08:00</td><td>08:50</td><td>30</td><td>25</td><td>0</td><td>Open</td><td>B1</td>";
    let r2 = "<td>__MATH101__</td><td>Other Name</td><td>2</td><td>Tutorial</td><td>Tuesday</td>\
        <td>09:00</td><td>09:50</td><td>30</td><td>25</td><td>0</td><td>Open</td><td>B2</td>";
    let blob = format!("{r1}{r2}");
    mgr.parse_courses(&blob).unwrap();
    assert_eq!(mgr.course_definitions.len(), 1);
    // first-seen name wins
    assert_eq!(mgr.course_definitions[0].name, "Calculus");
    assert_eq!(mgr.course_definitions[0].lecture_count, 1);
    assert_eq!(mgr.course_definitions[0].tutorial_count, 1);
    assert_eq!(mgr.course_records.len(), 2);
    assert_eq!(
        mgr.course_records[0].course_definition_index,
        mgr.course_records[1].course_definition_index
    );
}

#[test]
fn reparse_same_blob_is_idempotent() {
    let r1 = "<td>__MATH101__</td><td>Calculus</td><td>1</td><td>Lecture</td><td>Monday</td>\
        <td>08:00</td><td>08:50</td><td>30</td><td>25</td><td>0</td><td>Open</td><td>B1</td>";
    let r2 = "<td>__ARTS100__</td><td>Drawing</td><td>3</td><td>Lecture</td><td>Sunday</td>\
        <td>10:00</td><td>10:50</td><td>15</td><td>10</td><td>1</td><td>Open</td><td>A1</td>";
    let blob = format!("{r1}{r2}");
    let mut mgr = CourseManager::new();
    mgr.parse_courses(&blob).unwrap();
    let first: Vec<_> = mgr
        .course_definitions
        .iter()
        .map(|d| {
            (
                d.code.clone(),
                d.name.clone(),
                d.lecture_count,
                d.tutorial_count,
                d.flags,
            )
        })
        .collect();
    mgr.parse_courses(&blob).unwrap();
    let second: Vec<_> = mgr
        .course_definitions
        .iter()
        .map(|d| {
            (
                d.code.clone(),
                d.name.clone(),
                d.lecture_count,
                d.tutorial_count,
                d.flags,
            )
        })
        .collect();
    assert_eq!(first, second);
}

#[test]
fn definitions_sorted_by_code_and_records_by_day_time() {
    // deliberately out of order in the blob
    let r1 = "<td>__ZOOL300__</td><td>Zoology</td><td>1</td><td>Lecture</td><td>Friday</td>\
        <td>11:00</td><td>11:50</td><td>30</td><td>5</td><td>0</td><td>Open</td><td>Z1</td>";
    let r2 = "<td>__ARTS100__</td><td>Drawing</td><td>1</td><td>Lecture</td><td>Saturday</td>\
        <td>09:00</td><td>09:50</td><td>30</td><td>5</td><td>0</td><td>Open</td><td>A1</td>";
    let r3 = "<td>__MATH101__</td><td>Calculus</td><td>1</td><td>Lecture</td><td>Saturday</td>\
        <td>08:00</td><td>08:50</td><td>30</td><td>5</td><td>0</td><td>Open</td><td>M1</td>";
    let blob = format!("{r1}{r2}{r3}");
    let mut mgr = CourseManager::new();
    mgr.parse_courses(&blob).unwrap();
    let codes: Vec<_> = mgr.course_definitions.iter().map(|d| d.code.clone()).collect();
    assert_eq!(codes, vec!["ARTS100", "MATH101", "ZOOL300"]);
    // records: Saturday 08:00, Saturday 09:00, Friday 11:00 (Friday is the week's last day)
    let keys: Vec<_> = mgr
        .course_records
        .iter()
        .map(|r| (r.day, r.start_time.hour))
        .collect();
    assert_eq!(
        keys,
        vec![(Weekday::Sat, 8), (Weekday::Sat, 9), (Weekday::Fri, 11)]
    );
}

#[test]
fn multiple_lectures_flag_set_only_for_shared_group() {
    // two lectures in group 1 of MATH101 -> flag; ARTS100 has two lectures
    // in different groups -> no flag.
    let r1 = "<td>__MATH101__</td><td>Calculus</td><td>1</td><td>Lecture</td><td>Monday</td>\
        <td>08:00</td><td>08:50</td><td>30</td><td>5</td><td>0</td><td>Open</td><td>M1</td>";
    let r2 = "<td>__MATH101__</td><td>Calculus</td><td>1</td><td>Lecture</td><td>Wednesday</td>\
        <td>08:00</td><td>08:50</td><td>30</td><td>5</td><td>0</td><td>Open</td><td>M2</td>";
    let r3 = "<td>__ARTS100__</td><td>Drawing</td><td>1</td><td>Lecture</td><td>Monday</td>\
        <td>09:00</td><td>09:50</td><td>30</td><td>5</td><td>0</td><td>Open</td><td>A1</td>";
    let r4 = "<td>__ARTS100__</td><td>Drawing</td><td>2</td><td>Lecture</td><td>Wednesday</td>\
        <td>09:00</td><td>09:50</td><td>30</td><td>5</td><td>0</td><td>Open</td><td>A2</td>";
    let blob = format!("{r1}{r2}{r3}{r4}");
    let mut mgr = CourseManager::new();
    mgr.parse_courses(&blob).unwrap();
    let arts = &mgr.course_definitions[0];
    let math = &mgr.course_definitions[1];
    assert_eq!(arts.code, "ARTS100");
    assert!(!arts.flags.multiple_lectures);
    assert_eq!(math.code, "MATH101");
    assert!(math.flags.multiple_lectures);
    assert!(!math.flags.multiple_tutorials);
    // ordinal indices: the two MATH101 group-1 lectures rank 1 and 2
    let math_ranks: Vec<_> = mgr
        .course_records
        .iter()
        .filter(|r| mgr.course_definitions[r.course_definition_index].code == "MATH101")
        .map(|r| r.mullec_index)
        .collect();
    assert_eq!(math_ranks, vec![1, 2]);
}

#[test]
fn name_entity_and_marker_sanitizing() {
    let blob = "<td>__CHEM110__</td><td> Chem &amp; Lab </td><td>1</td><td>Lecture</td>\
        <td>Monday</td><td>08:00</td><td>08:50</td><td>30</td><td>5</td><td>0</td>\
        <td> _Open_ </td><td> _B_1_ </td>"
        .to_string();
    let mut mgr = CourseManager::new();
    mgr.parse_courses(&blob).unwrap();
    assert_eq!(mgr.course_definitions[0].name, "Chem & Lab");
    let rec = &mgr.course_records[0];
    assert_eq!(rec.status, "Open");
    assert_eq!(rec.location, "B1");
}

#[test]
fn malformed_number_aborts_whole_parse() {
    let bad = "<td>__MATH101__</td><td>Calculus</td><td>1</td><td>Lecture</td><td>Monday</td>\
        <td>08:00</td><td>08:50</td><td>thirty</td><td>25</td><td>0</td><td>Open</td><td>B1</td>";
    let blob = format!("{}{}", simple_row(), bad);
    let mut mgr = CourseManager::new();
    let err = mgr.parse_courses(&blob).unwrap_err();
    assert_eq!(err, ParseError::MalformedField);
    assert_eq!(mgr.course_definitions.len(), 0);
    assert_eq!(mgr.course_records.len(), 0);
}

#[test]
fn malformed_day_aborts_whole_parse() {
    let bad = "<td>__MATH101__</td><td>Calculus</td><td>1</td><td>Lecture</td><td>Mondayx</td>\
        <td>08:00</td><td>08:50</td><td>30</td><td>25</td><td>0</td><td>Open</td><td>B1</td>";
    let mut mgr = CourseManager::new();
    assert_eq!(mgr.parse_courses(bad).unwrap_err(), ParseError::MalformedField);
}

#[test]
fn malformed_time_aborts_whole_parse() {
    let bad = "<td>__MATH101__</td><td>Calculus</td><td>1</td><td>Lecture</td><td>Monday</td>\
        <td>late</td><td>08:50</td><td>30</td><td>25</td><td>0</td><td>Open</td><td>B1</td>";
    let mut mgr = CourseManager::new();
    assert_eq!(mgr.parse_courses(bad).unwrap_err(), ParseError::MalformedField);
}

#[test]
fn invalid_group_cell_aborts_whole_parse() {
    // irregular detection fires (placeholder code) but the cell is too short
    let bad = "<td>__LECS000__</td><td>Some</td><td>1-X</td><td>Lecture</td><td>Monday</td>\
        <td>08:00</td><td>08:50</td><td>30</td><td>25</td><td>0</td><td>Open</td><td>B1</td>";
    let mut mgr = CourseManager::new();
    assert_eq!(mgr.parse_courses(bad).unwrap_err(), ParseError::InvalidGroup);
}

#[test]
fn none_record_type_aborts_whole_parse() {
    let bad = "<td>__MATH101__</td><td>Calculus</td><td>1</td><td>None</td><td>Monday</td>\
        <td>08:00</td><td>08:50</td><td>30</td><td>25</td><td>0</td><td>Open</td><td>B1</td>";
    let mut mgr = CourseManager::new();
    assert_eq!(
        mgr.parse_courses(bad).unwrap_err(),
        ParseError::InvalidRecordType
    );
}

#[test]
fn unknown_record_type_is_malformed_field() {
    let bad = "<td>__MATH101__</td><td>Calculus</td><td>1</td><td>Seminar</td><td>Monday</td>\
        <td>08:00</td><td>08:50</td><td>30</td><td>25</td><td>0</td><td>Open</td><td>B1</td>";
    let mut mgr = CourseManager::new();
    assert_eq!(mgr.parse_courses(bad).unwrap_err(), ParseError::MalformedField);
}

#[test]
fn record_type_and_day_parse_case_insensitively() {
    let blob = "<td>__MATH101__</td><td>Calculus</td><td>1</td><td>LECTURE</td><td>mon</td>\
        <td>08:00</td><td>08:50</td><td>30</td><td>25</td><td>0</td><td>Open</td><td>B1</td>";
    let mut mgr = CourseManager::new();
    mgr.parse_courses(blob).unwrap();
    assert_eq!(mgr.course_records[0].record_type, CourseRecordType::Lecture);
    assert_eq!(mgr.course_records[0].day, Weekday::Mon);
}

#[test]
fn irregular_group_postfixed_scenario() {
    // the literal INTS203-G.1 cell with the LECS000 placeholder code
    let r = parse_group("LECS000", "whatever", "INTS203-G.1").unwrap();
    assert_eq!(r.code, "INTS203");
    assert_eq!(r.name, "whatever");
    assert_eq!(r.group, 1);
    assert_eq!(
        r.parse_format,
        CourseParseFormat::IrregularWithoutNameGroupPostFixed
    );
}

#[test]
fn irregular_group_without_name() {
    let r = parse_group("TUTS000", "kept", "5-MTHS003X").unwrap();
    assert_eq!(r.code, "MTHS003X");
    assert_eq!(r.name, "kept");
    assert_eq!(r.group, 5);
    assert_eq!(r.parse_format, CourseParseFormat::IrregularWithoutName);
}

#[test]
fn irregular_group_prefixed() {
    // the double-prefixing defect: 5-5MTHS003 means group 5, code MTHS003
    let r = parse_group("LECS000", "kept", "5-5MTHS003").unwrap();
    assert_eq!(r.code, "MTHS003");
    assert_eq!(r.group, 5);
    assert_eq!(
        r.parse_format,
        CourseParseFormat::IrregularWithoutNameGroupPrefixed
    );
}

#[test]
fn irregular_group_with_name() {
    let r = parse_group(
        "LECS000",
        "old name",
        "MDPS478-Vehicle System Dynamics and Control- 3",
    )
    .unwrap();
    assert_eq!(r.code, "MDPS478");
    assert_eq!(r.name, "Vehicle System Dynamics and Control");
    assert_eq!(r.group, 3);
    assert_eq!(r.parse_format, CourseParseFormat::IrregularWithName);
}

#[test]
fn irregular_group_with_name_no_group() {
    // the part after the hyphen is neither an integer nor a G.-marked group
    let r = parse_group("LECS000", "old", "INTS203-extra").unwrap();
    assert_eq!(r.code, "INTS203");
    assert_eq!(r.name, "extra");
    assert_eq!(r.group, -1);
    assert_eq!(r.parse_format, CourseParseFormat::IrregularWithNameNoGroup);
}

#[test]
fn regular_group_cell_is_standard() {
    let r = parse_group("MATH101", "Calculus", "7").unwrap();
    assert_eq!(r.code, "MATH101");
    assert_eq!(r.name, "Calculus");
    assert_eq!(r.group, 7);
    assert_eq!(r.parse_format, CourseParseFormat::Standard);
}

#[test]
fn irregular_group_detected_by_containment() {
    // the group cell contains the code itself, so the row is irregular
    let r = parse_group("INTS203", "old", "1-INTS203X").unwrap();
    assert_eq!(r.code, "INTS203X");
    assert_eq!(r.group, 1);
    assert_eq!(r.parse_format, CourseParseFormat::IrregularWithoutName);
}

#[test]
fn sanitize_str_trims_and_strips_markers() {
    assert_eq!(sanitize_str("  _Open_  "), "Open");
    assert_eq!(sanitize_str("plain"), "plain");
    assert_eq!(sanitize_str("   "), "");
    assert_eq!(sanitize_str("_a_b_c_"), "abc");
}

#[test]
fn get_available_records_follows_selection() {
    let r1 = "<td>__MATH101__</td><td>Calculus</td><td>1</td><td>Lecture</td><td>Monday</td>\
        <td>08:00</td><td>08:50</td><td>30</td><td>5</td><td>0</td><td>Open</td><td>M1</td>";
    let r2 = "<td>__ARTS100__</td><td>Drawing</td><td>1</td><td>Lecture</td><td>Tuesday</td>\
        <td>09:00</td><td>09:50</td><td>30</td><td>5</td><td>0</td><td>Open</td><td>A1</td>";
    let blob = format!("{r1}{r2}");
    let mut mgr = CourseManager::new();
    mgr.parse_courses(&blob).unwrap();
    assert_eq!(mgr.get_available_course_records().len(), 0);
    // select MATH101 (sorted after ARTS100, so index 1)
    mgr.course_definitions[1].selected = true;
    let avail = mgr.get_available_course_records();
    assert_eq!(avail.len(), 1);
    assert_eq!(avail[0].course_definition_index, 1);
    assert_eq!(avail[0].day, Weekday::Mon);
    // select both
    mgr.course_definitions[0].selected = true;
    assert_eq!(mgr.get_available_course_records().len(), 2);
}

#[test]
fn get_or_add_course_definition_deduplicates() {
    let mut mgr = CourseManager::new();
    let a = mgr.get_or_add_course_definition("MATH101", "Calculus");
    let b = mgr.get_or_add_course_definition("ARTS100", "Drawing");
    let c = mgr.get_or_add_course_definition("MATH101", "Renamed");
    assert_eq!(a, 0);
    assert_eq!(b, 1);
    assert_eq!(c, 0);
    assert_eq!(mgr.course_definitions.len(), 2);
    assert_eq!(mgr.course_definitions[0].name, "Calculus");
}
