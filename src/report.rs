//! Report records: the fields of each CSV line, in the fixed column order,
//! and how a row is read back from its fields.

use vstd::prelude::*;
use vstd::string::*;
use crate::identity::{DiscoveredFolder, ImageFile, SurveyFolder};
use crate::pairing::{CsvRow, CsvRowView, PairResult, WinnerType, lemma_pair_deterministic, pair_spec};
use crate::reconcile::{ScanResult, lemma_scan_deterministic, problem_views, scan_spec};
use crate::rules::CompiledRules;
use crate::reconcile::{ProblemItem, ProblemView};
use crate::text::{decimal, decimal_string, lemma_decimal_round_trip, opt_str, parse_decimal, parse_u64, strs};

verus! {

/// An optional field: its text, or the empty string.
pub open spec fn field_of(o: Option<Seq<char>>) -> Seq<char> {
    match o {
        Some(s) => s,
        None => Seq::empty(),
    }
}

/// An optional field read back: the empty string is no value.
pub open spec fn optional_from(s: Seq<char>) -> Option<Seq<char>> {
    if s.len() == 0 {
        None
    } else {
        Some(s)
    }
}

/// The fields of a row, in column order.
pub open spec fn row_fields(r: CsvRowView) -> Seq<Seq<char>> {
    seq![
        r.survey_id_base,
        r.raw_relpath,
        r.filename,
        decimal(r.dolphin as nat),
        r.graded_relpath,
        decimal(r.graded_hits as nat),
        r.graded_winner_type.label_spec(),
        field_of(r.survey_id_raw_detected),
        field_of(r.survey_id_graded_detected),
    ]
}

pub open spec fn winner_from_label(s: Seq<char>) -> Option<WinnerType> {
    if s == "IND"@ {
        Some(WinnerType::Ind)
    } else if s == "SECONDARY"@ {
        Some(WinnerType::Secondary)
    } else if s == "OTHER"@ {
        Some(WinnerType::Other)
    } else if s == "RAW"@ {
        Some(WinnerType::Raw)
    } else {
        None
    }
}

/// A row read back from its fields; `None` where there are not nine fields,
/// a number does not read or does not fit, or the winner type is unknown.
pub open spec fn row_from_fields(f: Seq<Seq<char>>) -> Option<CsvRowView> {
    if f.len() != 9 {
        None
    } else {
        match (parse_decimal(f[3]), parse_decimal(f[5]), winner_from_label(f[6])) {
            (Some(d), Some(h), Some(t)) => if d <= u8::MAX && h <= u64::MAX {
                Some(
                    CsvRowView {
                        survey_id_base: f[0],
                        raw_relpath: f[1],
                        filename: f[2],
                        dolphin: d as u8,
                        graded_relpath: f[4],
                        graded_hits: h as u64,
                        graded_winner_type: t,
                        survey_id_raw_detected: optional_from(f[7]),
                        survey_id_graded_detected: optional_from(f[8]),
                    },
                )
            } else {
                None
            },
            _ => None,
        }
    }
}

/// A row whose optional identities, where present, are not empty: such a
/// row is told apart from one without them once written.
pub open spec fn row_writable(r: CsvRowView) -> bool {
    &&& r.survey_id_raw_detected != Some(Seq::<char>::empty())
    &&& r.survey_id_graded_detected != Some(Seq::<char>::empty())
}

proof fn lemma_labels_read_back(t: WinnerType)
    ensures
        winner_from_label(t.label_spec()) == Some(t),
{
    reveal_strlit("IND");
    reveal_strlit("SECONDARY");
    reveal_strlit("OTHER");
    reveal_strlit("RAW");
    assert("IND"@ != "SECONDARY"@) by {
        assert("IND"@.len() != "SECONDARY"@.len());
    }
    assert("IND"@ != "OTHER"@) by {
        assert("IND"@.len() != "OTHER"@.len());
    }
    assert("IND"@ != "RAW"@) by {
        assert("IND"@[0] != "RAW"@[0]);
    }
    assert("SECONDARY"@ != "OTHER"@) by {
        assert("SECONDARY"@.len() != "OTHER"@.len());
    }
    assert("SECONDARY"@ != "RAW"@) by {
        assert("SECONDARY"@.len() != "RAW"@.len());
    }
    assert("OTHER"@ != "RAW"@) by {
        assert("OTHER"@.len() != "RAW"@.len());
    }
}

/// Every row written as fields and read back gives the same row, where its
/// optional identities are not empty strings.
pub proof fn lemma_row_round_trip(r: CsvRowView)
    requires
        row_writable(r),
    ensures
        row_from_fields(row_fields(r)) == Some(r),
{
    lemma_decimal_round_trip(r.dolphin as nat);
    lemma_decimal_round_trip(r.graded_hits as nat);
    lemma_labels_read_back(r.graded_winner_type);
    let back = row_from_fields(row_fields(r)).unwrap();
    match r.survey_id_raw_detected {
        Some(s) => {
            if s.len() == 0 {
                assert(s =~= Seq::<char>::empty());
            }
        },
        None => {},
    }
    match r.survey_id_graded_detected {
        Some(s) => {
            if s.len() == 0 {
                assert(s =~= Seq::<char>::empty());
            }
        },
        None => {},
    }
    assert(optional_from(field_of(r.survey_id_raw_detected)) == r.survey_id_raw_detected);
    assert(optional_from(field_of(r.survey_id_graded_detected)) == r.survey_id_graded_detected);
    assert(back == r);
}

fn optional_field(o: &Option<String>) -> (r: String)
    ensures
        r@ == field_of(opt_str(*o)),
{
    match o {
        Some(s) => s.clone(),
        None => String::new(),
    }
}

fn optional_from_field(s: &String) -> (r: Option<String>)
    ensures
        opt_str(r) == optional_from(s@),
{
    if s.unicode_len() == 0 {
        None
    } else {
        Some(s.clone())
    }
}

/// The column names of a row report.
pub open spec fn header_fields() -> Seq<Seq<char>> {
    seq![
        "survey_id_base"@,
        "raw_relpath"@,
        "filename"@,
        "dolphin"@,
        "graded_relpath"@,
        "graded_hits"@,
        "graded_winner_type"@,
        "survey_id_raw_detected"@,
        "survey_id_graded_detected"@,
    ]
}

/// The column names of a row report.
pub fn row_header() -> (r: Vec<String>)
    ensures
        strs(r@) == header_fields(),
{
    let r = vec![
        String::from_str("survey_id_base"),
        String::from_str("raw_relpath"),
        String::from_str("filename"),
        String::from_str("dolphin"),
        String::from_str("graded_relpath"),
        String::from_str("graded_hits"),
        String::from_str("graded_winner_type"),
        String::from_str("survey_id_raw_detected"),
        String::from_str("survey_id_graded_detected"),
    ];
    assert(strs(r@) =~= header_fields());
    r
}

/// The fields of one row, in column order.
pub fn row_record(row: &CsvRow) -> (r: Vec<String>)
    ensures
        strs(r@) == row_fields(row@),
{
    let r = vec![
        row.survey_id_base.clone(),
        row.raw_relpath.clone(),
        row.filename.clone(),
        decimal_string(row.dolphin as u64),
        row.graded_relpath.clone(),
        decimal_string(row.graded_hits),
        row.graded_winner_type.label(),
        optional_field(&row.survey_id_raw_detected),
        optional_field(&row.survey_id_graded_detected),
    ];
    assert(strs(r@) =~= row_fields(row@));
    r
}

fn winner_type_from(s: &String) -> (r: Option<WinnerType>)
    ensures
        r == winner_from_label(s@),
{
    if *s == String::from_str("IND") {
        Some(WinnerType::Ind)
    } else if *s == String::from_str("SECONDARY") {
        Some(WinnerType::Secondary)
    } else if *s == String::from_str("OTHER") {
        Some(WinnerType::Other)
    } else if *s == String::from_str("RAW") {
        Some(WinnerType::Raw)
    } else {
        None
    }
}

/// Reads a row back from its fields.
pub fn parse_row_record(fields: &Vec<String>) -> (r: Option<CsvRow>)
    ensures
        match r {
            Some(row) => row_from_fields(strs(fields@)) == Some(row@),
            None => row_from_fields(strs(fields@)) is None,
        },
{
    if fields.len() != 9 {
        return None;
    }
    let ghost f = strs(fields@);
    assert(f[3] == fields@[3]@ && f[5] == fields@[5]@ && f[6] == fields@[6]@);
    let dolphin = match parse_u64(fields[3].as_str()) {
        Some(d) => d,
        None => return None,
    };
    let hits = match parse_u64(fields[5].as_str()) {
        Some(h) => h,
        None => return None,
    };
    let winner = match winner_type_from(&fields[6]) {
        Some(t) => t,
        None => return None,
    };
    if dolphin > 255 {
        return None;
    }
    let row = CsvRow {
        survey_id_base: fields[0].clone(),
        raw_relpath: fields[1].clone(),
        filename: fields[2].clone(),
        dolphin: dolphin as u8,
        graded_relpath: fields[4].clone(),
        graded_hits: hits,
        graded_winner_type: winner,
        survey_id_raw_detected: optional_from_field(&fields[7]),
        survey_id_graded_detected: optional_from_field(&fields[8]),
    };
    assert(row_from_fields(f) == Some(row@));
    Some(row)
}

/// The records of a row report: the header, then one record per row.
pub fn write_csv_rows(rows: &Vec<CsvRow>) -> (r: Vec<Vec<String>>)
    ensures
        r@.len() == rows@.len() + 1,
        strs(r@[0]@) == header_fields(),
        forall|i: int| 0 <= i < rows@.len() ==> strs((#[trigger] r@[i + 1])@) == row_fields(rows@[i]@),
{
    let mut out: Vec<Vec<String>> = Vec::new();
    out.push(row_header());
    let mut i: usize = 0;
    while i < rows.len()
        invariant
            i <= rows.len(),
            out@.len() == i + 1,
            strs(out@[0]@) == header_fields(),
            forall|k: int| 0 <= k < i ==> strs((#[trigger] out@[k + 1])@) == row_fields(rows@[k]@),
        decreases rows.len() - i,
    {
        out.push(row_record(&rows[i]));
        i = i + 1;
    }
    out
}

pub open spec fn problem_header_fields() -> Seq<Seq<char>> {
    seq![
        "survey_id_base"@,
        "survey_id_detected"@,
        "raw_path"@,
        "graded_path"@,
        "problem_type"@,
        "details"@,
    ]
}

/// The fields of a problem, in column order.
pub open spec fn problem_fields(p: ProblemView) -> Seq<Seq<char>> {
    seq![
        p.survey_id_base,
        field_of(p.survey_id_detected),
        field_of(p.raw_path),
        field_of(p.graded_path),
        p.problem_type.label_spec(),
        field_of(p.details),
    ]
}

/// The fields of one problem, in column order.
pub fn problem_record(p: &ProblemItem) -> (r: Vec<String>)
    ensures
        strs(r@) == problem_fields(p@),
{
    let r = vec![
        p.survey_id_base.clone(),
        optional_field(&p.survey_id_detected),
        optional_field(&p.raw_path),
        optional_field(&p.graded_path),
        p.problem_type.label(),
        optional_field(&p.details),
    ];
    assert(strs(r@) =~= problem_fields(p@));
    r
}

/// The records of a problem report: the header, then one record per problem.
pub fn write_problems_csv(problems: &Vec<ProblemItem>) -> (r: Vec<Vec<String>>)
    ensures
        r@.len() == problems@.len() + 1,
        strs(r@[0]@) == problem_header_fields(),
        forall|i: int|
            0 <= i < problems@.len() ==> strs((#[trigger] r@[i + 1])@) == problem_fields(problems@[i]@),
{
    let header = vec![
        String::from_str("survey_id_base"),
        String::from_str("survey_id_detected"),
        String::from_str("raw_path"),
        String::from_str("graded_path"),
        String::from_str("problem_type"),
        String::from_str("details"),
    ];
    assert(strs(header@) =~= problem_header_fields());
    let mut out: Vec<Vec<String>> = Vec::new();
    out.push(header);
    let mut i: usize = 0;
    while i < problems.len()
        invariant
            i <= problems.len(),
            out@.len() == i + 1,
            strs(out@[0]@) == problem_header_fields(),
            forall|k: int| 0 <= k < i ==> strs((#[trigger] out@[k + 1])@) == problem_fields(problems@[k]@),
        decreases problems.len() - i,
    {
        out.push(problem_record(&problems[i]));
        i = i + 1;
    }
    out
}

/// Running the same reconciliation twice on unchanged trees, files and rules
/// gives the same report records: the same problem records, and for each
/// survey pair the same row records in the same order.
pub proof fn lemma_reports_idempotent(
    rules: &CompiledRules,
    raw: Seq<DiscoveredFolder>,
    graded: Seq<DiscoveredFolder>,
    s1: ScanResult,
    s2: ScanResult,
    base_key: Seq<char>,
    raw_folder: &SurveyFolder,
    graded_folder: &SurveyFolder,
    raw_files: Seq<ImageFile>,
    graded_files: Seq<ImageFile>,
    r1: PairResult,
    r2: PairResult,
)
    requires
        scan_spec(raw, graded, s1),
        scan_spec(raw, graded, s2),
        pair_spec(rules, base_key, raw_folder, graded_folder, raw_files, graded_files, r1),
        pair_spec(rules, base_key, raw_folder, graded_folder, raw_files, graded_files, r2),
    ensures
        s1.problems@.len() == s2.problems@.len(),
        forall|i: int|
            0 <= i < s1.problems@.len() ==> problem_fields((#[trigger] s1.problems@[i])@) == problem_fields(
                s2.problems@[i]@,
            ),
        r1.rows@.len() == r2.rows@.len(),
        forall|i: int|
            0 <= i < r1.rows@.len() ==> row_fields((#[trigger] r1.rows@[i])@) == row_fields(r2.rows@[i]@),
{
    lemma_scan_deterministic(raw, graded, s1, s2);
    lemma_pair_deterministic(rules, base_key, raw_folder, graded_folder, raw_files, graded_files, r1, r2);
    assert(problem_views(s1.problems@).len() == problem_views(s2.problems@).len());
    assert forall|i: int|
        0 <= i < s1.problems@.len() implies problem_fields((#[trigger] s1.problems@[i])@) == problem_fields(
            s2.problems@[i]@,
        ) by {
        assert(problem_views(s1.problems@)[i] == problem_views(s2.problems@)[i]);
    }
}

} // verus!
