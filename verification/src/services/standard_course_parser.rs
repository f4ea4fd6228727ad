//! The standard course parser: field cleanup, the group-cell
//! disambiguation algorithm, per-row field parsing, registration into
//! the registry, and the post-processing pass.

use vstd::prelude::*;
use crate::models::clock_time::ClockTime;
use crate::models::course_definition::{CourseDefinition, DefModel};
use crate::models::course_flags::CourseFlags;
use crate::models::course_record::{CourseParseFormat, CourseRecord, CourseRecordType, RecordModel};
use crate::models::weekday::Weekday;
use crate::services::chrono_parse::{
    parse_time, parse_weekday, spec_time_from_str, spec_weekday_from_str,
};
use crate::services::course_manager::{
    defs_view, lemma_find_def, lemma_find_def_is, recs_view, spec_find_def, CourseManager,
};
use crate::services::row_scanner::{find_stop, row_view, rows_view, run_end, scan_rows, spec_scan};
use crate::text::{
    chars_to_string, contains_chars, eq_ignore_ascii_lower, eq_ignore_case_str, is_digit,
    is_digit_char, parse_i32, replace_chars, seq_le, spec_contains, spec_parse_i32, spec_replace,
    spec_trim, str_eq, str_le, str_to_chars, trim_chars,
};

verus! {

/// Why a parse pass failed. One corrupt row aborts the whole pass: a
/// partially parsed schedule is worse than none.
#[derive(Clone, Copy, PartialEq, Eq, Structural, Debug)]
pub enum ParseError {
    /// A numeric, kind, weekday or time cell would not parse.
    MalformedField,
    /// A group cell that fell through every disambiguation branch.
    InvalidGroup,
    /// A row whose kind cell read "None" reached registration.
    InvalidRecordType,
}

/// What `sanitize_str` computes: trim, then delete every underscore,
/// the marker character the source format uses for its own styling.
pub open spec fn spec_sanitize(s: Seq<char>) -> Seq<char> {
    spec_replace(spec_trim(s), seq!['_'], Seq::empty())
}

/// Trim a cell value and strip the source format's marker character.
pub fn sanitize_str(data: &str) -> (r: String)
    ensures
        r@ == spec_sanitize(data@),
{
    let v = str_to_chars(data);
    let r = sanitize_chars(&v);
    chars_to_string(&r)
}

/// `sanitize_str` on an already decoded cell.
pub fn sanitize_chars(v: &Vec<char>) -> (r: Vec<char>)
    ensures
        r@ == spec_sanitize(v@),
{
    let trimmed = trim_chars(v);
    let mut pat: Vec<char> = Vec::new();
    pat.push('_');
    let rep: Vec<char> = Vec::new();
    proof {
        assert(pat@ =~= seq!['_']);
        assert(rep@ =~= Seq::<char>::empty());
    }
    replace_chars(&trimmed, &pat, &rep)
}

/// Index of the last hyphen of `s`, or `-1` if there is none; what
/// `str::rfind('-')` reports.
pub open spec fn last_hyphen(s: Seq<char>) -> int
    decreases s.len(),
{
    if s.len() == 0 {
        -1
    } else if s[s.len() - 1] == '-' {
        s.len() - 1
    } else {
        last_hyphen(s.take(s.len() - 1))
    }
}

proof fn lemma_last_hyphen_is(s: Seq<char>, j: int)
    requires
        -1 <= j < s.len(),
        j >= 0 ==> s[j] == '-',
        forall|k: int| j < k < s.len() ==> s[k] != '-',
    ensures
        last_hyphen(s) == j,
    decreases s.len(),
{
    if s.len() > 0 && j < s.len() - 1 {
        lemma_last_hyphen_is(s.take(s.len() - 1), j);
    }
}

/// Index of the last hyphen, if any; what `str::rfind('-')` reports.
fn rfind_hyphen(v: &Vec<char>) -> (r: Option<usize>)
    ensures
        match r {
            Option::Some(j) => j < v@.len() && last_hyphen(v@) == j,
            Option::None => last_hyphen(v@) == -1,
        },
{
    let n = v.len();
    let mut j = n;
    while j > 0
        invariant
            0 <= j <= n,
            n == v@.len(),
            forall|k: int| j <= k < n ==> v@[k] != '-',
        decreases j,
    {
        if v[j - 1] == '-' {
            proof {
                lemma_last_hyphen_is(v@, j - 1);
            }
            return Some(j - 1);
        }
        j -= 1;
    }
    proof {
        lemma_last_hyphen_is(v@, -1);
    }
    None
}

/// What the kind cell parses to, matched against the three kind names
/// ignoring ASCII case.
pub open spec fn spec_record_type_from_str(s: Seq<char>) -> Option<CourseRecordType> {
    if eq_ignore_ascii_lower(s, "none"@) {
        Some(CourseRecordType::NoneType)
    } else if eq_ignore_ascii_lower(s, "lecture"@) {
        Some(CourseRecordType::Lecture)
    } else if eq_ignore_ascii_lower(s, "tutorial"@) {
        Some(CourseRecordType::Tutorial)
    } else {
        None
    }
}

/// Parse the kind cell, ignoring ASCII case.
pub fn parse_record_type(v: &Vec<char>) -> (r: Option<CourseRecordType>)
    ensures
        r == spec_record_type_from_str(v@),
{
    if eq_ignore_case_str(v, "none") {
        Some(CourseRecordType::NoneType)
    } else if eq_ignore_case_str(v, "lecture") {
        Some(CourseRecordType::Lecture)
    } else if eq_ignore_case_str(v, "tutorial") {
        Some(CourseRecordType::Tutorial)
    } else {
        None
    }
}

/// Outcome of group-cell disambiguation: the (possibly rewritten) code
/// and name, the group number, and the branch that fired.
pub struct GroupResolution {
    pub code: String,
    pub name: String,
    pub group: i32,
    pub parse_format: CourseParseFormat,
}

/// Mathematical image of a [`GroupResolution`].
#[verifier::ext_equal]
pub ghost struct GroupResModel {
    pub code: Seq<char>,
    pub name: Seq<char>,
    pub group: i32,
    pub parse_format: CourseParseFormat,
}

impl View for GroupResolution {
    type V = GroupResModel;

    open spec fn view(&self) -> GroupResModel {
        GroupResModel {
            code: self.code@,
            name: self.name@,
            group: self.group,
            parse_format: self.parse_format,
        }
    }
}

/// Does the row call for irregular handling: the code cell is one of the
/// placeholder sentinels, or the group cell textually contains the code.
pub open spec fn spec_is_irregular(code: Seq<char>, group_str: Seq<char>) -> bool {
    code == "LECS000"@ || code == "TUTS000"@ || spec_contains(group_str, code)
}

/// The group-cell disambiguation algorithm.
///
/// A regular group cell holds a bare integer. A known defective subset
/// of rows instead packs code/name/group data into the group cell with
/// hyphens; the branches below classify and repair the six known
/// encodings, recording which branch fired.
pub open spec fn spec_parse_group(
    code: Seq<char>,
    name: Seq<char>,
    group_str: Seq<char>,
) -> Result<GroupResModel, ParseError> {
    if !spec_is_irregular(code, group_str) {
        match spec_parse_i32(group_str) {
            Option::Some(g) => Ok(
                GroupResModel { code, name, group: g, parse_format: CourseParseFormat::Standard },
            ),
            Option::None => Err(ParseError::InvalidGroup),
        }
    } else {
        let sep = run_end(group_str, 0, '-');
        if group_str.len() < 9 || sep >= group_str.len() {
            Err(ParseError::InvalidGroup)
        } else {
            let lh = last_hyphen(group_str.skip(sep + 1));
            if lh >= 0 {
                // two hyphens: code - name - group
                let sep2 = sep + 1 + lh;
                match spec_parse_i32(spec_trim(group_str.skip(sep2 + 1))) {
                    Option::Some(g) => Ok(
                        GroupResModel {
                            code: group_str.take(sep),
                            name: group_str.subrange(sep + 1, sep2),
                            group: g,
                            parse_format: CourseParseFormat::IrregularWithName,
                        },
                    ),
                    Option::None => Err(ParseError::InvalidGroup),
                }
            } else {
                match spec_parse_i32(group_str.take(sep)) {
                    Option::Some(g) => {
                        // group - code, the code possibly double-prefixed
                        let code2 = group_str.skip(sep + 1);
                        if code2.len() == 0 {
                            Err(ParseError::InvalidGroup)
                        } else if is_digit_char(code2[0]) {
                            Ok(
                                GroupResModel {
                                    code: code2.skip(1),
                                    name,
                                    group: g,
                                    parse_format:
                                        CourseParseFormat::IrregularWithoutNameGroupPrefixed,
                                },
                            )
                        } else {
                            Ok(
                                GroupResModel {
                                    code: code2,
                                    name,
                                    group: g,
                                    parse_format: CourseParseFormat::IrregularWithoutName,
                                },
                            )
                        }
                    },
                    Option::None => {
                        // code - group, the group wearing a "G." marker
                        let gp = spec_replace(
                            group_str.skip(sep + 1),
                            seq!['G', '.'],
                            Seq::empty(),
                        );
                        match spec_parse_i32(gp) {
                            Option::Some(g) => Ok(
                                GroupResModel {
                                    code: group_str.take(sep),
                                    name,
                                    group: g,
                                    parse_format:
                                        CourseParseFormat::IrregularWithoutNameGroupPostFixed,
                                },
                            ),
                            Option::None => Ok(
                                GroupResModel {
                                    code: group_str.take(sep),
                                    name: group_str.skip(sep + 1),
                                    group: -1i32,
                                    parse_format: CourseParseFormat::IrregularWithNameNoGroup,
                                },
                            ),
                        }
                    },
                }
            }
        }
    }
}

/// `spec_parse_group` on decoded cells, producing decoded results.
pub fn parse_group_chars(code: &Vec<char>, name: &Vec<char>, group_str: &Vec<char>) -> (r: Result<
    (Vec<char>, Vec<char>, i32, CourseParseFormat),
    ParseError,
>)
    ensures
        match r {
            Result::Ok(p) => spec_parse_group(code@, name@, group_str@) == Ok::<GroupResModel, ParseError>(
                GroupResModel { code: p.0@, name: p.1@, group: p.2, parse_format: p.3 },
            ),
            Result::Err(e) => spec_parse_group(code@, name@, group_str@) == Err::<
                GroupResModel,
                ParseError,
            >(e),
        },
{
    let is_irregular = str_eq_chars_lit(code, "LECS000") || str_eq_chars_lit(code, "TUTS000")
        || contains_chars(group_str, code);
    if !is_irregular {
        match parse_i32(group_str) {
            Some(g) => Ok((clone_chars(code), clone_chars(name), g, CourseParseFormat::Standard)),
            None => Err(ParseError::InvalidGroup),
        }
    } else {
        let n = group_str.len();
        let sep = find_stop(group_str, 0, '-');
        if n < 9 || sep >= n {
            return Err(ParseError::InvalidGroup);
        }
        let rest = copy_tail(group_str, sep + 1);
        let found = rfind_hyphen(&rest);
        if let Some(lh) = found {
            let sep2 = sep + 1 + lh;
            proof {
                assert(group_str@.skip(sep + 1)[lh as int] == group_str@[sep2 as int]);
            }
            let after = copy_tail(group_str, sep2 + 1);
            let trimmed = trim_chars(&after);
            match parse_i32(&trimmed) {
                Some(g) => {
                    let code2 = copy_head(group_str, sep);
                    let name2 = copy_mid(group_str, sep + 1, sep2);
                    Ok((code2, name2, g, CourseParseFormat::IrregularWithName))
                },
                None => Err(ParseError::InvalidGroup),
            }
        } else {
            let head = copy_head(group_str, sep);
            match parse_i32(&head) {
                Some(g) => {
                    let code2 = copy_tail(group_str, sep + 1);
                    if code2.len() == 0 {
                        Err(ParseError::InvalidGroup)
                    } else if is_digit(code2[0]) {
                        let stripped = copy_tail(&code2, 1);
                        proof {
                            assert(code2@.skip(1) =~= group_str@.skip(sep + 1).skip(1));
                        }
                        Ok(
                            (
                                stripped,
                                clone_chars(name),
                                g,
                                CourseParseFormat::IrregularWithoutNameGroupPrefixed,
                            ),
                        )
                    } else {
                        Ok(
                            (
                                code2,
                                clone_chars(name),
                                g,
                                CourseParseFormat::IrregularWithoutName,
                            ),
                        )
                    }
                },
                None => {
                    let tail = copy_tail(group_str, sep + 1);
                    let mut pat: Vec<char> = Vec::new();
                    pat.push('G');
                    pat.push('.');
                    let rep: Vec<char> = Vec::new();
                    proof {
                        assert(pat@ =~= seq!['G', '.']);
                        assert(rep@ =~= Seq::<char>::empty());
                    }
                    let gp = replace_chars(&tail, &pat, &rep);
                    match parse_i32(&gp) {
                        Some(g) => Ok(
                            (
                                head,
                                clone_chars(name),
                                g,
                                CourseParseFormat::IrregularWithoutNameGroupPostFixed,
                            ),
                        ),
                        None => Ok(
                            (
                                head,
                                tail,
                                -1,
                                CourseParseFormat::IrregularWithNameNoGroup,
                            ),
                        ),
                    }
                },
            }
        }
    }
}

/// Group-cell disambiguation over string values; see `spec_parse_group`.
pub fn parse_group(code: &str, name: &str, group_str: &str) -> (r: Result<
    GroupResolution,
    ParseError,
>)
    ensures
        match r {
            Result::Ok(g) => spec_parse_group(code@, name@, group_str@) == Ok::<GroupResModel, ParseError>(g@),
            Result::Err(e) => spec_parse_group(code@, name@, group_str@) == Err::<
                GroupResModel,
                ParseError,
            >(e),
        },
{
    let cv = str_to_chars(code);
    let nv = str_to_chars(name);
    let gv = str_to_chars(group_str);
    match parse_group_chars(&cv, &nv, &gv) {
        Ok((c, n, g, f)) => Ok(
            GroupResolution {
                code: chars_to_string(&c),
                name: chars_to_string(&n),
                group: g,
                parse_format: f,
            },
        ),
        Err(e) => Err(e),
    }
}

/// One row's fields after cleanup and parsing, before registration.
pub struct ParsedRow {
    pub code: Vec<char>,
    pub name: Vec<char>,
    pub group: i32,
    pub record_type: CourseRecordType,
    pub day: Weekday,
    pub start_time: ClockTime,
    pub end_time: ClockTime,
    pub class_size: i32,
    pub enrolled: i32,
    pub waiting: i32,
    pub status: Vec<char>,
    pub location: Vec<char>,
    pub parse_format: CourseParseFormat,
}

/// Mathematical image of a [`ParsedRow`].
#[verifier::ext_equal]
pub ghost struct ParsedRowModel {
    pub code: Seq<char>,
    pub name: Seq<char>,
    pub group: i32,
    pub record_type: CourseRecordType,
    pub day: Weekday,
    pub start_time: ClockTime,
    pub end_time: ClockTime,
    pub class_size: i32,
    pub enrolled: i32,
    pub waiting: i32,
    pub status: Seq<char>,
    pub location: Seq<char>,
    pub parse_format: CourseParseFormat,
}

impl View for ParsedRow {
    type V = ParsedRowModel;

    open spec fn view(&self) -> ParsedRowModel {
        ParsedRowModel {
            code: self.code@,
            name: self.name@,
            group: self.group,
            record_type: self.record_type,
            day: self.day,
            start_time: self.start_time,
            end_time: self.end_time,
            class_size: self.class_size,
            enrolled: self.enrolled,
            waiting: self.waiting,
            status: self.status@,
            location: self.location@,
            parse_format: self.parse_format,
        }
    }
}

/// Field extraction for one matched row: trim every cell, unescape the
/// one HTML entity in the name, disambiguate the group cell, parse kind,
/// day, the two times (normalized to the afternoon convention) and the
/// three numbers, and sanitize status and location.
pub open spec fn spec_process_row(cells: Seq<Seq<char>>) -> Result<ParsedRowModel, ParseError>
    recommends
        cells.len() == 12,
{
    let code0 = spec_trim(cells[0]);
    let name0 = spec_replace(spec_trim(cells[1]), seq!['&', 'a', 'm', 'p', ';'], seq!['&']);
    let group_str = spec_trim(cells[2]);
    match spec_parse_group(code0, name0, group_str) {
        Result::Err(e) => Err(e),
        Result::Ok(g) => match spec_record_type_from_str(spec_sanitize(cells[3])) {
            Option::None => Err(ParseError::MalformedField),
            Option::Some(rt) => match spec_weekday_from_str(spec_sanitize(cells[4])) {
                Option::None => Err(ParseError::MalformedField),
                Option::Some(day) => match spec_time_from_str(spec_sanitize(cells[5])) {
                    Option::None => Err(ParseError::MalformedField),
                    Option::Some(from) => match spec_time_from_str(spec_sanitize(cells[6])) {
                        Option::None => Err(ParseError::MalformedField),
                        Option::Some(to) => match spec_parse_i32(spec_sanitize(cells[7])) {
                            Option::None => Err(ParseError::MalformedField),
                            Option::Some(class_size) => match spec_parse_i32(
                                spec_sanitize(cells[8]),
                            ) {
                                Option::None => Err(ParseError::MalformedField),
                                Option::Some(enrolled) => match spec_parse_i32(
                                    spec_sanitize(cells[9]),
                                ) {
                                    Option::None => Err(ParseError::MalformedField),
                                    Option::Some(waiting) => Ok(
                                        ParsedRowModel {
                                            code: g.code,
                                            name: g.name,
                                            group: g.group,
                                            record_type: rt,
                                            day,
                                            start_time: from.spec_normalized(),
                                            end_time: to.spec_normalized(),
                                            class_size,
                                            enrolled,
                                            waiting,
                                            status: spec_sanitize(cells[10]),
                                            location: spec_sanitize(cells[11]),
                                            parse_format: g.parse_format,
                                        },
                                    ),
                                },
                            },
                        },
                    },
                },
            },
        },
    }
}

/// Extract and parse every field of one matched row.
pub fn process_row(cells: &Vec<Vec<char>>) -> (r: Result<ParsedRow, ParseError>)
    requires
        cells@.len() == 12,
    ensures
        match r {
            Result::Ok(p) => spec_process_row(crate::services::row_scanner::row_view(cells@))
                == Ok::<ParsedRowModel, ParseError>(p@),
            Result::Err(e) => spec_process_row(crate::services::row_scanner::row_view(cells@))
                == Err::<ParsedRowModel, ParseError>(e),
        },
{
    let ghost cv = crate::services::row_scanner::row_view(cells@);
    proof {
        assert(forall|i: int| 0 <= i < cells@.len() ==> cv[i] == cells@[i]@);
    }
    let code0 = trim_chars(&cells[0]);
    let name_trimmed = trim_chars(&cells[1]);
    let mut amp_pat: Vec<char> = Vec::new();
    amp_pat.push('&');
    amp_pat.push('a');
    amp_pat.push('m');
    amp_pat.push('p');
    amp_pat.push(';');
    let mut amp_rep: Vec<char> = Vec::new();
    amp_rep.push('&');
    proof {
        assert(amp_pat@ =~= seq!['&', 'a', 'm', 'p', ';']);
        assert(amp_rep@ =~= seq!['&']);
    }
    let name0 = replace_chars(&name_trimmed, &amp_pat, &amp_rep);
    let group_str = trim_chars(&cells[2]);
    let resolved = parse_group_chars(&code0, &name0, &group_str);
    match resolved {
        Err(e) => Err(e),
        Ok((code, name, group, parse_format)) => {
            let kind_cell = sanitize_chars(&cells[3]);
            let rt = parse_record_type(&kind_cell);
            match rt {
                None => Err(ParseError::MalformedField),
                Some(record_type) => {
                    let day_cell = chars_to_string(&sanitize_chars(&cells[4]));
                    let day = parse_weekday(day_cell.as_str());
                    match day {
                        None => Err(ParseError::MalformedField),
                        Some(day) => {
                            let from_cell = chars_to_string(&sanitize_chars(&cells[5]));
                            let from = parse_time(from_cell.as_str());
                            match from {
                                None => Err(ParseError::MalformedField),
                                Some(from) => {
                                    let to_cell = chars_to_string(&sanitize_chars(&cells[6]));
                                    let to = parse_time(to_cell.as_str());
                                    match to {
                                        None => Err(ParseError::MalformedField),
                                        Some(to) => {
                                            let size_cell = sanitize_chars(&cells[7]);
                                            let enrolled_cell = sanitize_chars(&cells[8]);
                                            let waiting_cell = sanitize_chars(&cells[9]);
                                            match (
                                                parse_i32(&size_cell),
                                                parse_i32(&enrolled_cell),
                                                parse_i32(&waiting_cell),
                                            ) {
                                                (
                                                    Some(class_size),
                                                    Some(enrolled),
                                                    Some(waiting),
                                                ) => {
                                                    let status = sanitize_chars(&cells[10]);
                                                    let location = sanitize_chars(&cells[11]);
                                                    Ok(
                                                        ParsedRow {
                                                            code,
                                                            name,
                                                            group,
                                                            record_type,
                                                            day,
                                                            start_time: from.normalized(),
                                                            end_time: to.normalized(),
                                                            class_size,
                                                            enrolled,
                                                            waiting,
                                                            status,
                                                            location,
                                                            parse_format,
                                                        },
                                                    )
                                                },
                                                _ => Err(ParseError::MalformedField),
                                            }
                                        },
                                    }
                                },
                            }
                        },
                    }
                },
            }
        },
    }
}

/// Compare a character vector against a literal.
fn str_eq_chars_lit(v: &Vec<char>, lit: &str) -> (r: bool)
    ensures
        r == (v@ == lit@),
{
    let lv = str_to_chars(lit);
    if v.len() != lv.len() {
        return false;
    }
    let mut i: usize = 0;
    while i < v.len()
        invariant
            0 <= i <= v@.len(),
            v@.len() == lv@.len(),
            lv@ == lit@,
            forall|k: int| 0 <= k < i ==> v@[k] == lit@[k],
        decreases v@.len() - i,
    {
        if v[i] != lv[i] {
            return false;
        }
        i += 1;
    }
    assert(v@ =~= lit@);
    true
}

/// An owned copy of a character vector.
fn clone_chars(v: &Vec<char>) -> (r: Vec<char>)
    ensures
        r@ == v@,
{
    let r = copy_mid(v, 0, v.len());
    assert(v@.subrange(0, v@.len() as int) =~= v@);
    r
}

/// `v[a..b]` as an owned vector.
fn copy_mid(v: &Vec<char>, a: usize, b: usize) -> (r: Vec<char>)
    requires
        a <= b <= v@.len(),
    ensures
        r@ == v@.subrange(a as int, b as int),
{
    let mut r: Vec<char> = Vec::new();
    let mut i = a;
    while i < b
        invariant
            a <= i <= b,
            b <= v@.len(),
            r@ == v@.subrange(a as int, i as int),
        decreases b - i,
    {
        let c = v[i];
        r.push(c);
        assert(r@ =~= v@.subrange(a as int, (i + 1) as int));
        i += 1;
    }
    r
}

/// `v[..b]` as an owned vector.
fn copy_head(v: &Vec<char>, b: usize) -> (r: Vec<char>)
    requires
        b <= v@.len(),
    ensures
        r@ == v@.take(b as int),
{
    let r = copy_mid(v, 0, b);
    assert(v@.subrange(0, b as int) =~= v@.take(b as int));
    r
}

/// `v[a..]` as an owned vector.
fn copy_tail(v: &Vec<char>, a: usize) -> (r: Vec<char>)
    requires
        a <= v@.len(),
    ensures
        r@ == v@.skip(a as int),
{
    let n = v.len();
    let r = copy_mid(v, a, n);
    assert(v@.subrange(a as int, v@.len() as int) =~= v@.skip(a as int));
    r
}

/// The parsed rows' mathematical image.
pub open spec fn parsed_view(s: Seq<ParsedRow>) -> Seq<ParsedRowModel> {
    s.map(|i: int, p: ParsedRow| p@)
}

/// A definition's counter bump for one record of the given kind; the
/// counter saturates at `u32::MAX` rather than wrap.
pub open spec fn spec_bump_def(d: DefModel, rt: CourseRecordType) -> DefModel {
    match rt {
        CourseRecordType::Lecture => DefModel {
            lecture_count: if d.lecture_count < u32::MAX {
                (d.lecture_count + 1) as u32
            } else {
                d.lecture_count
            },
            ..d
        },
        CourseRecordType::Tutorial => DefModel {
            tutorial_count: if d.tutorial_count < u32::MAX {
                (d.tutorial_count + 1) as u32
            } else {
                d.tutorial_count
            },
            ..d
        },
        CourseRecordType::NoneType => d,
    }
}

/// Registration of one parsed row: route through the deduplication
/// point, then count the record on its definition.
pub open spec fn spec_register_row(defs: Seq<DefModel>, pr: ParsedRowModel) -> Seq<DefModel> {
    let k = spec_find_def(defs, pr.code);
    if k < defs.len() {
        defs.update(k, spec_bump_def(defs[k], pr.record_type))
    } else {
        defs.push(spec_bump_def(DefModel::fresh(pr.code, pr.name), pr.record_type))
    }
}

/// The whole registration pass: each scanned row parsed and registered
/// in order; the first failure aborts the pass.
pub open spec fn spec_ingest(rows: Seq<Seq<Seq<char>>>) -> Result<
    (Seq<DefModel>, Seq<ParsedRowModel>),
    ParseError,
>
    decreases rows.len(),
{
    if rows.len() == 0 {
        Ok((Seq::empty(), Seq::empty()))
    } else {
        match spec_ingest(rows.drop_last()) {
            Result::Err(e) => Err(e),
            Result::Ok(acc) => match spec_process_row(rows.last()) {
                Result::Err(e) => Err(e),
                Result::Ok(pr) => if pr.record_type is NoneType {
                    Err(ParseError::InvalidRecordType)
                } else {
                    Ok((spec_register_row(acc.0, pr), acc.1.push(pr)))
                },
            },
        }
    }
}

/// A failed prefix decides the whole pass.
pub proof fn lemma_ingest_prefix_err(rows: Seq<Seq<Seq<char>>>, j: int)
    requires
        0 <= j <= rows.len(),
        spec_ingest(rows.take(j)) is Err,
    ensures
        spec_ingest(rows) == spec_ingest(rows.take(j)),
    decreases rows.len() - j,
{
    if j < rows.len() {
        assert(rows.take(j + 1).drop_last() =~= rows.take(j));
        lemma_ingest_prefix_err(rows, j + 1);
    } else {
        assert(rows.take(j) =~= rows);
    }
}

/// Order of definitions: by code, lexicographically ascending.
pub open spec fn spec_def_le(a: DefModel, b: DefModel) -> bool {
    seq_le(a.code, b.code)
}

/// Order of records: by weekday from the week start, then start time.
pub open spec fn spec_rec_le(a: RecordModel, b: RecordModel) -> bool {
    a.day.spec_index() < b.day.spec_index() || (a.day.spec_index() == b.day.spec_index()
        && a.start_time.spec_seconds() <= b.start_time.spec_seconds())
}

/// Stable insertion of a definition: `d` goes after every entry that
/// compares less-or-equal.
pub open spec fn spec_insert_def(s: Seq<DefModel>, d: DefModel) -> Seq<DefModel>
    decreases s.len(),
{
    if s.len() == 0 {
        seq![d]
    } else if spec_def_le(s.last(), d) {
        s.push(d)
    } else {
        spec_insert_def(s.drop_last(), d).push(s.last())
    }
}

/// Stable insertion sort of definitions by code.
pub open spec fn spec_sort_defs(s: Seq<DefModel>) -> Seq<DefModel>
    decreases s.len(),
{
    if s.len() == 0 {
        Seq::empty()
    } else {
        spec_insert_def(spec_sort_defs(s.drop_last()), s.last())
    }
}

/// Stable insertion of a record: it goes after every entry that
/// compares less-or-equal, so equal keys keep their relative order.
pub open spec fn spec_insert_rec(s: Seq<RecordModel>, r: RecordModel) -> Seq<RecordModel>
    decreases s.len(),
{
    if s.len() == 0 {
        seq![r]
    } else if spec_rec_le(s.last(), r) {
        s.push(r)
    } else {
        spec_insert_rec(s.drop_last(), r).push(s.last())
    }
}

/// Stable insertion sort of records by (weekday, start time).
pub open spec fn spec_sort_recs(s: Seq<RecordModel>) -> Seq<RecordModel>
    decreases s.len(),
{
    if s.len() == 0 {
        Seq::empty()
    } else {
        spec_insert_rec(spec_sort_recs(s.drop_last()), s.last())
    }
}

/// The record a parsed row yields once the definitions are in their
/// final order: it cites its definition by position, and its ordinal
/// indices are still unset.
pub open spec fn spec_record_of_row(pr: ParsedRowModel, defs: Seq<DefModel>) -> RecordModel {
    RecordModel {
        course_definition_index: spec_find_def(defs, pr.code),
        group: pr.group,
        record_type: pr.record_type,
        day: pr.day,
        start_time: pr.start_time,
        end_time: pr.end_time,
        class_size: pr.class_size,
        enrolled: pr.enrolled,
        waiting: pr.waiting,
        status: pr.status,
        location: pr.location,
        parse_format: pr.parse_format,
        mullec_index: -1i32,
        multut_index: -1i32,
    }
}

/// All records, in row order, against the final definition table.
pub open spec fn spec_build_records(prs: Seq<ParsedRowModel>, defs: Seq<DefModel>) -> Seq<
    RecordModel,
> {
    prs.map(|i: int, pr: ParsedRowModel| spec_record_of_row(pr, defs))
}

/// Do two records count against the same (definition, kind, group) cell?
pub open spec fn rec_matches(a: RecordModel, b: RecordModel) -> bool {
    a.course_definition_index == b.course_definition_index && a.group == b.group && a.record_type
        == b.record_type
}

/// How many of the first `upto` records count against `x`'s cell.
pub open spec fn spec_count_matching(recs: Seq<RecordModel>, upto: int, x: RecordModel) -> int
    decreases upto,
{
    if upto <= 0 {
        0
    } else {
        spec_count_matching(recs, upto - 1, x) + (if 0 <= upto - 1 < recs.len() && rec_matches(
            recs[upto - 1],
            x,
        ) {
            1int
        } else {
            0int
        })
    }
}

/// An ordinal stored in an `i32` field, saturating.
pub open spec fn spec_rank_val(c: int) -> i32 {
    if c <= i32::MAX {
        c as i32
    } else {
        i32::MAX
    }
}

/// One record after ranking: its ordinal among the same-cell records up
/// to and including itself, written to the index of its own kind.
pub open spec fn spec_annotate_rec(recs: Seq<RecordModel>, i: int) -> RecordModel {
    let r = recs[i];
    let c = spec_count_matching(recs, i + 1, r);
    match r.record_type {
        CourseRecordType::Lecture => RecordModel { mullec_index: spec_rank_val(c), ..r },
        CourseRecordType::Tutorial => RecordModel { multut_index: spec_rank_val(c), ..r },
        CourseRecordType::NoneType => r,
    }
}

/// The whole record table after ranking.
pub open spec fn spec_annotate_recs(recs: Seq<RecordModel>) -> Seq<RecordModel> {
    Seq::new(recs.len(), |i: int| spec_annotate_rec(recs, i))
}

/// Does some ranked record of definition `d` and kind `rt` carry an
/// ordinal of two or more — that is, does some group of `d` hold at
/// least two records of that kind?
pub open spec fn spec_has_multi(recs: Seq<RecordModel>, d: int, rt: CourseRecordType) -> bool {
    exists|i: int|
        0 <= i < recs.len() && (#[trigger] recs[i]).course_definition_index == d
            && recs[i].record_type == rt && (match rt {
            CourseRecordType::Lecture => recs[i].mullec_index >= 2,
            CourseRecordType::Tutorial => recs[i].multut_index >= 2,
            CourseRecordType::NoneType => false,
        })
}

/// A definition with its multiplicity flags derived from the ranked
/// records.
pub open spec fn spec_annotate_def(d: DefModel, k: int, recs: Seq<RecordModel>) -> DefModel {
    DefModel {
        flags: CourseFlags {
            multiple_lectures: spec_has_multi(recs, k, CourseRecordType::Lecture),
            multiple_tutorials: spec_has_multi(recs, k, CourseRecordType::Tutorial),
        },
        ..d
    }
}

/// The definition table with flags applied.
pub open spec fn spec_annotate_defs(defs: Seq<DefModel>, recs: Seq<RecordModel>) -> Seq<
    DefModel,
> {
    Seq::new(defs.len(), |k: int| spec_annotate_def(defs[k], k, recs))
}

proof fn lemma_insert_def_at(s: Seq<DefModel>, d: DefModel, p: int)
    requires
        0 <= p <= s.len(),
        forall|i: int| p <= i < s.len() ==> !spec_def_le(#[trigger] s[i], d),
        p > 0 ==> spec_def_le(s[p - 1], d),
    ensures
        spec_insert_def(s, d) == s.take(p) + seq![d] + s.skip(p),
    decreases s.len(),
{
    if s.len() == 0 {
        assert(s.take(0) + seq![d] + s.skip(0) =~= seq![d]);
    } else if spec_def_le(s.last(), d) {
        assert(p == s.len());
        assert(s.take(p) + seq![d] + s.skip(p) =~= s.push(d));
    } else {
        let s0 = s.drop_last();
        assert(forall|i: int| 0 <= i < s0.len() ==> s0[i] == s[i]);
        lemma_insert_def_at(s0, d, p);
        assert(s0.take(p) =~= s.take(p));
        assert((s0.take(p) + seq![d] + s0.skip(p)).push(s.last()) =~= s.take(p) + seq![d]
            + s.skip(p));
    }
}

proof fn lemma_insert_rec_at(s: Seq<RecordModel>, r: RecordModel, p: int)
    requires
        0 <= p <= s.len(),
        forall|i: int| p <= i < s.len() ==> !spec_rec_le(#[trigger] s[i], r),
        p > 0 ==> spec_rec_le(s[p - 1], r),
    ensures
        spec_insert_rec(s, r) == s.take(p) + seq![r] + s.skip(p),
    decreases s.len(),
{
    if s.len() == 0 {
        assert(s.take(0) + seq![r] + s.skip(0) =~= seq![r]);
    } else if spec_rec_le(s.last(), r) {
        assert(p == s.len());
        assert(s.take(p) + seq![r] + s.skip(p) =~= s.push(r));
    } else {
        let s0 = s.drop_last();
        assert(forall|i: int| 0 <= i < s0.len() ==> s0[i] == s[i]);
        lemma_insert_rec_at(s0, r, p);
        assert(s0.take(p) =~= s.take(p));
        assert((s0.take(p) + seq![r] + s0.skip(p)).push(s.last()) =~= s.take(p) + seq![r]
            + s.skip(p));
    }
}

/// Place one definition into an already sorted table, after every entry
/// that compares less-or-equal.
fn insert_def_sorted(v: &mut Vec<CourseDefinition>, d: CourseDefinition)
    ensures
        defs_view(final(v)@) == spec_insert_def(defs_view(old(v)@), d@),
{
    let ghost s = defs_view(v@);
    let mut p = v.len();
    while p > 0 && !str_le(v[p - 1].code.as_str(), d.code.as_str())
        invariant
            0 <= p <= v@.len(),
            s == defs_view(v@),
            forall|i: int| p <= i < s.len() ==> !spec_def_le(#[trigger] s[i], d@),
        decreases p,
    {
        proof {
            assert(s[p - 1].code == v@[p - 1].code@);
        }
        p -= 1;
    }
    proof {
        if p > 0 {
            assert(s[p - 1].code == v@[p - 1].code@);
        }
    }
    v.insert(p, d);
    proof {
        lemma_insert_def_at(s, d@, p as int);
        assert(defs_view(v@) =~~= s.take(p as int) + seq![d@] + s.skip(p as int));
    }
}

/// Sort the definition table by code, ascending.
fn sort_defs_vec(v: &mut Vec<CourseDefinition>)
    ensures
        defs_view(final(v)@) == spec_sort_defs(defs_view(old(v)@)),
{
    let ghost orig = defs_view(v@);
    let mut out: Vec<CourseDefinition> = Vec::new();
    let n = v.len();
    let mut i: usize = 0;
    proof {
        assert(orig.take(0) =~= Seq::<DefModel>::empty());
        assert(defs_view(out@) =~= Seq::<DefModel>::empty());
    }
    while i < n
        invariant
            0 <= i <= n,
            n == v@.len(),
            orig == defs_view(v@),
            defs_view(out@) == spec_sort_defs(orig.take(i as int)),
        decreases n - i,
    {
        let d = v[i].clone();
        proof {
            assert(d@ == orig[i as int]);
        }
        insert_def_sorted(&mut out, d);
        proof {
            assert(orig.take(i + 1).drop_last() =~= orig.take(i as int));
            assert(orig.take(i + 1).last() == orig[i as int]);
        }
        i += 1;
    }
    proof {
        assert(orig.take(n as int) =~= orig);
    }
    *v = out;
}

/// Does `a` sort no later than `b` in the record order?
fn rec_le_exec(a: &CourseRecord, b: &CourseRecord) -> (r: bool)
    ensures
        r == spec_rec_le(a@, b@),
{
    let da = a.day.index();
    let db = b.day.index();
    da < db || (da == db && a.start_time.le(&b.start_time))
}

/// Place one record into an already sorted table, after every entry
/// that compares less-or-equal, so equal keys keep their order.
fn insert_rec_sorted(v: &mut Vec<CourseRecord>, r: CourseRecord)
    ensures
        recs_view(final(v)@) == spec_insert_rec(recs_view(old(v)@), r@),
{
    let ghost s = recs_view(v@);
    let mut p = v.len();
    while p > 0 && !rec_le_exec(&v[p - 1], &r)
        invariant
            0 <= p <= v@.len(),
            s == recs_view(v@),
            forall|i: int| p <= i < s.len() ==> !spec_rec_le(#[trigger] s[i], r@),
        decreases p,
    {
        proof {
            assert(s[p - 1] == v@[p - 1]@);
        }
        p -= 1;
    }
    proof {
        if p > 0 {
            assert(s[p - 1] == v@[p - 1]@);
        }
    }
    v.insert(p, r);
    proof {
        lemma_insert_rec_at(s, r@, p as int);
        assert(recs_view(v@) =~~= s.take(p as int) + seq![r@] + s.skip(p as int));
    }
}

/// Sort the record table by (weekday from the week start, start time),
/// ascending and stable.
fn sort_recs_vec(v: &mut Vec<CourseRecord>)
    ensures
        recs_view(final(v)@) == spec_sort_recs(recs_view(old(v)@)),
{
    let ghost orig = recs_view(v@);
    let mut out: Vec<CourseRecord> = Vec::new();
    let n = v.len();
    let mut i: usize = 0;
    proof {
        assert(orig.take(0) =~= Seq::<RecordModel>::empty());
        assert(recs_view(out@) =~= Seq::<RecordModel>::empty());
    }
    while i < n
        invariant
            0 <= i <= n,
            n == v@.len(),
            orig == recs_view(v@),
            recs_view(out@) == spec_sort_recs(orig.take(i as int)),
        decreases n - i,
    {
        let r = v[i].clone();
        proof {
            assert(r@ == orig[i as int]);
        }
        insert_rec_sorted(&mut out, r);
        proof {
            assert(orig.take(i + 1).drop_last() =~= orig.take(i as int));
            assert(orig.take(i + 1).last() == orig[i as int]);
        }
        i += 1;
    }
    proof {
        assert(orig.take(n as int) =~= orig);
    }
    *v = out;
}

/// Write every record's ordinal index: its 1-based rank among the
/// records of the same definition, kind and group, in table order.
fn annotate_records(v: &mut Vec<CourseRecord>)
    ensures
        recs_view(final(v)@) == spec_annotate_recs(recs_view(old(v)@)),
{
    let ghost orig = recs_view(v@);
    let n = v.len();
    let mut i: usize = 0;
    while i < n
        invariant
            0 <= i <= n,
            n == v@.len(),
            orig.len() == n,
            forall|j: int| i <= j < n ==> recs_view(v@)[j] == orig[j],
            forall|j: int| 0 <= j < i ==> recs_view(v@)[j] == spec_annotate_rec(orig, j),
            forall|j: int|
                0 <= j < n ==> rec_matches(#[trigger] recs_view(v@)[j], orig[j]) && rec_matches(
                    orig[j],
                    recs_view(v@)[j],
                ),
        decreases n - i,
    {
        let mut cnt: usize = 0;
        let mut j: usize = 0;
        while j <= i
            invariant
                0 <= j <= i + 1,
                i < n,
                n == v@.len(),
                orig.len() == n,
                cnt <= j,
                cnt == spec_count_matching(orig, j as int, orig[i as int]),
                forall|t: int|
                    0 <= t < n ==> rec_matches(#[trigger] recs_view(v@)[t], orig[t])
                        && rec_matches(orig[t], recs_view(v@)[t]),
            decreases i + 1 - j,
        {
            let same = v[j].course_definition_index == v[i].course_definition_index && v[j].group
                == v[i].group && v[j].record_type == v[i].record_type;
            proof {
                assert(recs_view(v@)[j as int] == v@[j as int]@);
                assert(recs_view(v@)[i as int] == v@[i as int]@);
                assert(same == rec_matches(orig[j as int], orig[i as int]));
            }
            if same {
                cnt += 1;
            }
            j += 1;
        }
        let rank: i32 = if cnt <= 0x7FFF_FFFF {
            cnt as i32
        } else {
            0x7FFF_FFFF
        };
        let ghost before = recs_view(v@);
        let kind = v[i].record_type;
        match kind {
            CourseRecordType::Lecture => {
                v[i].mullec_index = rank;
            },
            CourseRecordType::Tutorial => {
                v[i].multut_index = rank;
            },
            CourseRecordType::NoneType => {},
        }
        proof {
            assert(before[i as int] == orig[i as int]);
            assert(recs_view(v@)[i as int] == spec_annotate_rec(orig, i as int));
            assert(forall|t: int| 0 <= t < n && t != i ==> recs_view(v@)[t] == before[t]);
            assert(rec_matches(recs_view(v@)[i as int], orig[i as int]) && rec_matches(
                orig[i as int],
                recs_view(v@)[i as int],
            ));
            assert forall|j: int|
                0 <= j < n implies rec_matches(#[trigger] recs_view(v@)[j], orig[j]) && rec_matches(
                orig[j],
                recs_view(v@)[j],
            ) by {
                if j != i {
                    assert(recs_view(v@)[j] == before[j]);
                    assert(rec_matches(before[j], orig[j]) && rec_matches(orig[j], before[j]));
                }
            }
        }
        i += 1;
    }
    proof {
        assert(recs_view(v@) =~~= spec_annotate_recs(orig));
    }
}

/// Derive every definition's multiplicity flags from the ranked records.
fn apply_flags(defs: &mut Vec<CourseDefinition>, recs: &Vec<CourseRecord>)
    ensures
        defs_view(final(defs)@) == spec_annotate_defs(defs_view(old(defs)@), recs_view(recs@)),
{
    let ghost dorig = defs_view(defs@);
    let ghost rv = recs_view(recs@);
    let n = defs.len();
    let mut k: usize = 0;
    while k < n
        invariant
            0 <= k <= n,
            n == defs@.len(),
            dorig.len() == n,
            rv == recs_view(recs@),
            forall|j: int| k <= j < n ==> defs_view(defs@)[j] == dorig[j],
            forall|j: int| 0 <= j < k ==> defs_view(defs@)[j] == spec_annotate_def(dorig[j], j, rv),
        decreases n - k,
    {
        let m = recs.len();
        let mut ml = false;
        let mut mt = false;
        let mut i: usize = 0;
        while i < m
            invariant
                0 <= i <= m,
                m == recs@.len(),
                rv == recs_view(recs@),
                k < n,
                ml == (exists|t: int|
                    0 <= t < i && (#[trigger] rv[t]).course_definition_index == k
                        && rv[t].record_type == CourseRecordType::Lecture && rv[t].mullec_index
                        >= 2),
                mt == (exists|t: int|
                    0 <= t < i && (#[trigger] rv[t]).course_definition_index == k
                        && rv[t].record_type == CourseRecordType::Tutorial && rv[t].multut_index
                        >= 2),
            decreases m - i,
        {
            proof {
                assert(rv[i as int] == recs@[i as int]@);
            }
            let r = &recs[i];
            if r.course_definition_index == k && r.record_type == CourseRecordType::Lecture
                && r.mullec_index >= 2 {
                ml = true;
            }
            if r.course_definition_index == k && r.record_type == CourseRecordType::Tutorial
                && r.multut_index >= 2 {
                mt = true;
            }
            i += 1;
        }
        proof {
            assert(ml == spec_has_multi(rv, k as int, CourseRecordType::Lecture));
            assert(mt == spec_has_multi(rv, k as int, CourseRecordType::Tutorial));
        }
        let ghost before = defs_view(defs@);
        defs[k].flags = CourseFlags { multiple_lectures: ml, multiple_tutorials: mt };
        proof {
            assert(before[k as int] == dorig[k as int]);
            assert(defs_view(defs@)[k as int] =~~= spec_annotate_def(dorig[k as int], k as int, rv));
            assert(forall|t: int| 0 <= t < n && t != k ==> defs_view(defs@)[t] == before[t]);
            assert forall|j: int| 0 <= j < k + 1 implies defs_view(defs@)[j] == spec_annotate_def(
                dorig[j],
                j,
                rv,
            ) by {
                if j < k {
                    assert(defs_view(defs@)[j] == before[j]);
                }
            }
        }
        k += 1;
    }
    proof {
        assert(defs_view(defs@) =~~= spec_annotate_defs(dorig, rv));
    }
}

/// Is some definition of the table carrying this code?
pub open spec fn spec_code_present(defs: Seq<DefModel>, code: Seq<char>) -> bool {
    exists|k: int| 0 <= k < defs.len() && (#[trigger] defs[k]).code == code
}

proof fn lemma_register_presence(defs: Seq<DefModel>, pr: ParsedRowModel)
    ensures
        spec_code_present(spec_register_row(defs, pr), pr.code),
        forall|c: Seq<char>|
            #[trigger] spec_code_present(defs, c) ==> spec_code_present(
                spec_register_row(defs, pr),
                c,
            ),
{
    let k = spec_find_def(defs, pr.code);
    lemma_find_def(defs, pr.code);
    let defs2 = spec_register_row(defs, pr);
    if k < defs.len() {
        assert(defs2[k].code == pr.code);
        assert forall|c: Seq<char>| #[trigger] spec_code_present(defs, c) implies spec_code_present(
            defs2,
            c,
        ) by {
            let w = choose|w: int| 0 <= w < defs.len() && (#[trigger] defs[w]).code == c;
            assert(defs2[w].code == c);
        }
    } else {
        assert(defs2[defs.len() as int].code == pr.code);
        assert forall|c: Seq<char>| #[trigger] spec_code_present(defs, c) implies spec_code_present(
            defs2,
            c,
        ) by {
            let w = choose|w: int| 0 <= w < defs.len() && (#[trigger] defs[w]).code == c;
            assert(defs2[w].code == c);
        }
    }
}

pub proof fn lemma_ingest_presence(rows: Seq<Seq<Seq<char>>>)
    requires
        spec_ingest(rows) is Ok,
    ensures
        forall|i: int|
            0 <= i < spec_ingest(rows)->Ok_0.1.len() ==> spec_code_present(
                spec_ingest(rows)->Ok_0.0,
                (#[trigger] spec_ingest(rows)->Ok_0.1[i]).code,
            ),
    decreases rows.len(),
{
    if rows.len() > 0 {
        lemma_ingest_presence(rows.drop_last());
        let acc = spec_ingest(rows.drop_last())->Ok_0;
        let pr = spec_process_row(rows.last())->Ok_0;
        lemma_register_presence(acc.0, pr);
    }
}

proof fn lemma_insert_def_presence(s: Seq<DefModel>, d: DefModel)
    ensures
        forall|c: Seq<char>|
            #[trigger] spec_code_present(spec_insert_def(s, d), c) == (spec_code_present(s, c)
                || d.code == c),
    decreases s.len(),
{
    if s.len() == 0 {
        assert forall|c: Seq<char>|
            #[trigger] spec_code_present(spec_insert_def(s, d), c) == (spec_code_present(s, c)
                || d.code == c) by {
            assert(spec_insert_def(s, d) =~= seq![d]);
            if spec_code_present(seq![d], c) {
                assert(seq![d][0].code == c || c != d.code);
            }
            if d.code == c {
                assert(seq![d][0].code == c);
            }
        }
    } else if spec_def_le(s.last(), d) {
        assert forall|c: Seq<char>|
            #[trigger] spec_code_present(spec_insert_def(s, d), c) == (spec_code_present(s, c)
                || d.code == c) by {
            let t = s.push(d);
            if spec_code_present(t, c) {
                let w = choose|w: int| 0 <= w < t.len() && (#[trigger] t[w]).code == c;
                if w < s.len() {
                    assert(s[w].code == c);
                } else {
                    assert(d.code == c);
                }
            }
            if spec_code_present(s, c) {
                let w = choose|w: int| 0 <= w < s.len() && (#[trigger] s[w]).code == c;
                assert(t[w].code == c);
            }
            if d.code == c {
                assert(t[s.len() as int].code == c);
            }
        }
    } else {
        lemma_insert_def_presence(s.drop_last(), d);
        assert forall|c: Seq<char>|
            #[trigger] spec_code_present(spec_insert_def(s, d), c) == (spec_code_present(s, c)
                || d.code == c) by {
            let t0 = spec_insert_def(s.drop_last(), d);
            let t = t0.push(s.last());
            assert(spec_insert_def(s, d) == t);
            if spec_code_present(t, c) {
                let w = choose|w: int| 0 <= w < t.len() && (#[trigger] t[w]).code == c;
                if w < t0.len() {
                    assert(spec_code_present(t0, c));
                    if spec_code_present(s.drop_last(), c) {
                        let u = choose|u: int|
                            0 <= u < s.drop_last().len() && (#[trigger] s.drop_last()[u]).code
                                == c;
                        assert(s[u].code == c);
                    }
                } else {
                    assert(s[s.len() - 1].code == c);
                }
            }
            if spec_code_present(s, c) {
                let w = choose|w: int| 0 <= w < s.len() && (#[trigger] s[w]).code == c;
                if w < s.len() - 1 {
                    assert(s.drop_last()[w].code == c);
                    assert(spec_code_present(t0, c));
                    let u = choose|u: int| 0 <= u < t0.len() && (#[trigger] t0[u]).code == c;
                    assert(t[u].code == c);
                } else {
                    assert(t[t.len() - 1].code == c);
                }
            }
            if d.code == c {
                assert(spec_code_present(t0, c));
                let u = choose|u: int| 0 <= u < t0.len() && (#[trigger] t0[u]).code == c;
                assert(t[u].code == c);
            }
        }
    }
}

pub proof fn lemma_sort_defs_presence(s: Seq<DefModel>)
    ensures
        forall|c: Seq<char>|
            #[trigger] spec_code_present(spec_sort_defs(s), c) == spec_code_present(s, c),
    decreases s.len(),
{
    if s.len() > 0 {
        lemma_sort_defs_presence(s.drop_last());
        lemma_insert_def_presence(spec_sort_defs(s.drop_last()), s.last());
        assert forall|c: Seq<char>|
            #[trigger] spec_code_present(spec_sort_defs(s), c) == spec_code_present(s, c) by {
            if spec_code_present(s, c) {
                let w = choose|w: int| 0 <= w < s.len() && (#[trigger] s[w]).code == c;
                if w < s.len() - 1 {
                    assert(s.drop_last()[w].code == c);
                    assert(spec_code_present(s.drop_last(), c));
                }
            }
            if spec_code_present(s.drop_last(), c) {
                let w = choose|w: int|
                    0 <= w < s.drop_last().len() && (#[trigger] s.drop_last()[w]).code == c;
                assert(s[w].code == c);
            }
            if s.last().code == c {
                assert(spec_code_present(s, c));
            }
        }
    }
}

/// Position of the definition carrying `code`, which must be present.
fn find_def_index(defs: &Vec<CourseDefinition>, code: &str) -> (r: usize)
    requires
        spec_code_present(defs_view(defs@), code@),
    ensures
        r == spec_find_def(defs_view(defs@), code@),
        r < defs@.len(),
        defs_view(defs@)[r as int].code == code@,
{
    let ghost dv = defs_view(defs@);
    let n = defs.len();
    let mut i: usize = 0;
    while i < n
        invariant
            0 <= i <= n,
            n == defs@.len(),
            dv == defs_view(defs@),
            forall|k: int| 0 <= k < i ==> dv[k].code != code@,
        decreases n - i,
    {
        if str_eq(defs[i].code.as_str(), code) {
            proof {
                lemma_find_def_is(dv, code@, i as int);
            }
            return i;
        }
        i += 1;
    }
    proof {
        let w = choose|w: int| 0 <= w < dv.len() && (#[trigger] dv[w]).code == code@;
        assert(false);
    }
    0
}

/// The whole parse pass as a function of the blob: scan, parse and
/// register every row, sort definitions by code and records by
/// (weekday, start time), rank the records, and derive the flags.
pub open spec fn spec_parse_result(data: Seq<char>) -> Result<
    (Seq<DefModel>, Seq<RecordModel>),
    ParseError,
> {
    match spec_ingest(spec_scan(data, 0)) {
        Result::Err(e) => Err(e),
        Result::Ok(acc) => {
            let defs = spec_sort_defs(acc.0);
            let recs = spec_annotate_recs(spec_sort_recs(spec_build_records(acc.1, defs)));
            Ok((spec_annotate_defs(defs, recs), recs))
        },
    }
}

/// Register one parsed row: get or add its definition, then count the
/// record on it.
fn register_parsed_row(course_manager: &mut CourseManager, pr: &ParsedRow)
    requires
        !(pr@.record_type is NoneType),
    ensures
        final(course_manager).defs() == spec_register_row(old(course_manager).defs(), pr@),
        final(course_manager).course_records@ == old(course_manager).course_records@,
{
    let ghost defs_before = course_manager.defs();
    let ghost prm = pr@;
    let code_s = chars_to_string(&pr.code);
    let name_s = chars_to_string(&pr.name);
    proof {
        assert(code_s@ == prm.code);
        assert(name_s@ == prm.name);
    }
    let idx = course_manager.get_or_add_course_definition(code_s.as_str(), name_s.as_str());
    let ghost defs_mid = course_manager.defs();
    match pr.record_type {
        CourseRecordType::Lecture => {
            let c = course_manager.course_definitions[idx].lecture_count;
            let c2 = if c < 0xFFFF_FFFFu32 {
                c + 1
            } else {
                c
            };
            course_manager.course_definitions[idx].lecture_count = c2;
        },
        CourseRecordType::Tutorial => {
            let c = course_manager.course_definitions[idx].tutorial_count;
            let c2 = if c < 0xFFFF_FFFFu32 {
                c + 1
            } else {
                c
            };
            course_manager.course_definitions[idx].tutorial_count = c2;
        },
        CourseRecordType::NoneType => {
            proof {
                assert(false);
            }
        },
    }
    proof {
        let k = spec_find_def(defs_before, prm.code);
        lemma_find_def(defs_before, prm.code);
        let newdefs = course_manager.defs();
        let target = spec_register_row(defs_before, prm);
        if k < defs_before.len() {
            assert(defs_mid == defs_before);
        } else {
            assert(defs_mid == defs_before.push(DefModel::fresh(prm.code, prm.name)));
        }
        assert(idx == k);
        assert(newdefs.len() == target.len());
        assert(newdefs[k] =~~= spec_bump_def(defs_mid[k], prm.record_type));
        assert(defs_mid[k] == (if k < defs_before.len() {
            defs_before[k]
        } else {
            DefModel::fresh(prm.code, prm.name)
        }));
        assert forall|t: int| 0 <= t < newdefs.len() implies newdefs[t] == target[t] by {
            if t != k {
                assert(newdefs[t] == defs_mid[t]);
            }
        }
        assert(newdefs =~= target);
    }
}

/// Run one full parse pass into the registry: clear it, scan the blob,
/// parse and register every matching row, then sort, rank and flag. The
/// pass is atomic: on failure the registry is left cleared and the
/// error says why, exactly as `spec_parse_result` classifies the blob.
pub fn parse(course_manager: &mut CourseManager, data: &str) -> (r: Result<(), ParseError>)
    ensures
        match r {
            Result::Ok(()) => spec_parse_result(data@) is Ok && final(course_manager).defs()
                == spec_parse_result(data@)->Ok_0.0 && final(course_manager).recs()
                == spec_parse_result(data@)->Ok_0.1,
            Result::Err(e) => spec_parse_result(data@) == Err::<
                (Seq<DefModel>, Seq<RecordModel>),
                ParseError,
            >(e) && final(course_manager).defs() == Seq::<DefModel>::empty()
                && final(course_manager).recs() == Seq::<RecordModel>::empty(),
        },
{
    course_manager.course_definitions = Vec::new();
    course_manager.course_records = Vec::new();
    proof {
        assert(course_manager.defs() =~= Seq::<DefModel>::empty());
        assert(course_manager.recs() =~= Seq::<RecordModel>::empty());
    }
    let chars = str_to_chars(data);
    let rows = scan_rows(&chars);
    let ghost rows_v = rows_view(rows@);
    let mut parsed: Vec<ParsedRow> = Vec::new();
    let n = rows.len();
    let mut j: usize = 0;
    proof {
        assert(rows_v.take(0) =~= Seq::<Seq<Seq<char>>>::empty());
        assert(parsed_view(parsed@) =~= Seq::<ParsedRowModel>::empty());
    }
    while j < n
        invariant
            0 <= j <= n,
            n == rows@.len(),
            rows_v == rows_view(rows@),
            rows_v == spec_scan(data@, 0),
            forall|t: int| 0 <= t < rows@.len() ==> (#[trigger] rows@[t])@.len() == 12,
            course_manager.recs() == Seq::<RecordModel>::empty(),
            spec_ingest(rows_v.take(j as int)) == Ok::<
                (Seq<DefModel>, Seq<ParsedRowModel>),
                ParseError,
            >((course_manager.defs(), parsed_view(parsed@))),
        decreases n - j,
    {
        let ghost pre = rows_v.take(j as int);
        let ghost cur = rows_v.take(j as int + 1);
        proof {
            assert(cur.drop_last() =~= pre);
            assert(cur.last() == rows_v[j as int]);
            assert(rows_v[j as int] == row_view(rows@[j as int]@));
        }
        let row = &rows[j];
        let pr_res = process_row(row);
        match pr_res {
            Err(e) => {
                proof {
                    assert(spec_ingest(cur) == Err::<
                        (Seq<DefModel>, Seq<ParsedRowModel>),
                        ParseError,
                    >(e));
                    lemma_ingest_prefix_err(rows_v, j as int + 1);
                }
                course_manager.course_definitions = Vec::new();
                course_manager.course_records = Vec::new();
                proof {
                    assert(course_manager.defs() =~= Seq::<DefModel>::empty());
                    assert(course_manager.recs() =~= Seq::<RecordModel>::empty());
                }
                return Err(e);
            },
            Ok(pr) => {
                if pr.record_type == CourseRecordType::NoneType {
                    proof {
                        assert(spec_ingest(cur) == Err::<
                            (Seq<DefModel>, Seq<ParsedRowModel>),
                            ParseError,
                        >(ParseError::InvalidRecordType));
                        lemma_ingest_prefix_err(rows_v, j as int + 1);
                    }
                    course_manager.course_definitions = Vec::new();
                    course_manager.course_records = Vec::new();
                    proof {
                        assert(course_manager.defs() =~= Seq::<DefModel>::empty());
                        assert(course_manager.recs() =~= Seq::<RecordModel>::empty());
                    }
                    return Err(ParseError::InvalidRecordType);
                }
                let ghost prm = pr@;
                register_parsed_row(course_manager, &pr);
                let ghost pv = parsed_view(parsed@);
                parsed.push(pr);
                proof {
                    assert(parsed_view(parsed@) =~= pv.push(prm));
                    assert(spec_ingest(cur) == Ok::<
                        (Seq<DefModel>, Seq<ParsedRowModel>),
                        ParseError,
                    >((course_manager.defs(), parsed_view(parsed@))));
                }
            },
        }
        j += 1;
    }
    proof {
        assert(rows_v.take(n as int) =~= rows_v);
    }
    let ghost defs_ingested = course_manager.defs();
    let ghost pv_all = parsed_view(parsed@);
    sort_defs_vec(&mut course_manager.course_definitions);
    let ghost defs_sorted = course_manager.defs();
    proof {
        lemma_ingest_presence(rows_v);
        lemma_sort_defs_presence(defs_ingested);
        assert(forall|t: int|
            0 <= t < pv_all.len() ==> spec_code_present(
                defs_sorted,
                (#[trigger] pv_all[t]).code,
            ));
    }
    let m = parsed.len();
    let mut recs: Vec<CourseRecord> = Vec::new();
    let mut i: usize = 0;
    proof {
        assert(pv_all.take(0) =~= Seq::<ParsedRowModel>::empty());
        assert(recs_view(recs@) =~= Seq::<RecordModel>::empty());
        assert(spec_build_records(pv_all.take(0), defs_sorted) =~= Seq::<RecordModel>::empty());
    }
    while i < m
        invariant
            0 <= i <= m,
            m == parsed@.len(),
            defs_sorted == course_manager.defs(),
            pv_all == parsed_view(parsed@),
            forall|t: int|
                0 <= t < pv_all.len() ==> spec_code_present(
                    defs_sorted,
                    (#[trigger] pv_all[t]).code,
                ),
            recs_view(recs@) == spec_build_records(pv_all.take(i as int), defs_sorted),
        decreases m - i,
    {
        proof {
            assert(pv_all[i as int] == parsed@[i as int]@);
        }
        let prr = &parsed[i];
        let code_s = chars_to_string(&prr.code);
        let k = find_def_index(&course_manager.course_definitions, code_s.as_str());
        let status_s = chars_to_string(&prr.status);
        let location_s = chars_to_string(&prr.location);
        let rec = CourseRecord::new(
            k,
            prr.group,
            prr.record_type,
            prr.day,
            prr.start_time,
            prr.end_time,
            prr.class_size,
            prr.enrolled,
            prr.waiting,
            status_s,
            location_s,
            prr.parse_format,
        );
        let ghost rv0 = recs_view(recs@);
        let ghost recm = rec@;
        proof {
            lemma_find_def(defs_sorted, pv_all[i as int].code);
            assert(recm =~~= spec_record_of_row(pv_all[i as int], defs_sorted));
        }
        recs.push(rec);
        proof {
            assert(recs_view(recs@) =~= rv0.push(recm));
            assert(pv_all.take(i as int + 1).drop_last() =~= pv_all.take(i as int));
            assert(spec_build_records(pv_all.take(i as int + 1), defs_sorted) =~= spec_build_records(
                pv_all.take(i as int),
                defs_sorted,
            ).push(spec_record_of_row(pv_all[i as int], defs_sorted)));
        }
        i += 1;
    }
    proof {
        assert(pv_all.take(m as int) =~= pv_all);
    }
    sort_recs_vec(&mut recs);
    annotate_records(&mut recs);
    course_manager.course_records = recs;
    apply_flags(&mut course_manager.course_definitions, &course_manager.course_records);
    proof {
        assert(spec_parse_result(data@) is Ok);
        assert(course_manager.defs() == spec_parse_result(data@)->Ok_0.0);
        assert(course_manager.recs() == spec_parse_result(data@)->Ok_0.1);
    }
    Ok(())
}

} // verus!
