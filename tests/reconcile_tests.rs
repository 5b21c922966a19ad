use survey_labeler::identity::{
    claim_directory, compute_file_id, extract_base_key, extract_detected_id, is_supported_image,
    normalize_relpath, DiscoveredFolder, ImageFile, SurveyFolder,
};
use survey_labeler::pairing::{
    any_token_match, classify_candidate, process_pair, retain_flag, select_winner, WinnerType,
};
use survey_labeler::reconcile::{scan_roots, select_unique, EntryStatus, ProblemKind};
use survey_labeler::report::{parse_row_record, row_record, write_csv_rows, write_problems_csv};
use survey_labeler::rules::{
    compile_rules, default_image_id_regex, normalize_extension, normalize_tokens, AppError,
    CompiledRules, Rules,
};
use survey_labeler::run::{
    count_images, paired_folders, preview_root_scan, progress_events, single_pair_folders,
    RunTally,
};
use survey_labeler::text::{decimal_string, less_than, parse_u64};

fn strings(items: &[&str]) -> Vec<String> {
    items.iter().map(|s| s.to_string()).collect()
}

fn rules_with(detected: &str, base: &str, image_id: String) -> Rules {
    Rules {
        extensions: vec![".jpg".to_string()],
        survey_id_regex_detected: detected.to_string(),
        survey_id_regex_base: base.to_string(),
        image_id_regex: image_id,
        graded_priority_ind_regex: "(?i)\\bind".to_string(),
        graded_priority_secondary_tokens: vec!["best".to_string()],
        graded_negative_contains_any: vec![],
        graded_positive_contains_any: vec!["*".to_string()],
    }
}

fn survey_rules() -> CompiledRules {
    let rules = rules_with(
        "(?i)\\b(\\d{8}_[A-Z]{2}(?:_[A-Z]{2})?)\\b",
        "(?i)\\b(\\d{8}_[A-Z]{2})(?:_[A-Z]{2})?\\b",
        default_image_id_regex(),
    );
    compile_rules(&rules).expect("compile")
}

fn image(path: &str, size: Option<u64>) -> ImageFile {
    let name = path.rsplit('/').next().unwrap().to_string();
    let (stem, ext) = match name.rfind('.') {
        Some(i) if i > 0 => (name[..i].to_string(), Some(name[i + 1..].to_string())),
        _ => (name.clone(), None),
    };
    ImageFile { path: path.to_string(), file_name: name, file_stem: stem, extension: ext, size }
}

fn found(key: &str, path: &str, detected: Option<&str>) -> DiscoveredFolder {
    DiscoveredFolder {
        base_key: key.to_string(),
        folder: SurveyFolder { path: path.to_string(), detected_id: detected.map(|d| d.to_string()) },
    }
}

#[test]
fn extract_detected_and_base() {
    let rules = rules_with(
        "(?i)\\b(\\d{8}_[A-Z]{2}(?:_[A-Z]{2})?)\\b",
        "(?i)\\b(\\d{8}_[A-Z]{2})(?:_[A-Z]{2})?\\b",
        default_image_id_regex(),
    );
    let compiled = compile_rules(&rules).expect("compile");

    let path = "/data/20250101_AB_CD/some";
    let detected = extract_detected_id(path, &compiled.detected_re).expect("detected");
    let base = extract_base_key(&detected, &compiled.base_re).expect("base");
    assert_eq!(detected, "20250101_AB_CD");
    assert_eq!(base, "20250101_AB");
}

#[test]
fn winner_selection_prefers_ind_then_secondary() {
    let rules = rules_with("x", "x", default_image_id_regex());
    let compiled = compile_rules(&rules).expect("compile");
    let candidates = vec![
        "alpha/best/image.jpg".to_string(),
        "beta/ind/image.jpg".to_string(),
        "gamma/other/image.jpg".to_string(),
    ];
    let winner = select_winner(&compiled, &candidates).expect("winner");
    assert_eq!(winner.relpath, "beta/ind/image.jpg");
    assert_eq!(winner.winner_type.label(), "IND");
}

#[test]
fn file_id_uses_size_when_available() {
    let rules = rules_with("x", "x", "^no-match$".to_string());
    let compiled = compile_rules(&rules).expect("compile");
    // The walk read a size of eight bytes ("testdata") for this file.
    let file = image("/tmp/survey_labeler_test/sample.JPG", Some(8));

    let (file_id, ambiguous) = compute_file_id(&compiled, &file);
    assert!(file_id.starts_with("sample.jpg|"));
    assert!(!ambiguous);
}

#[test]
fn file_id_strips_suffix_tokens() {
    let rules = rules_with("x", "x", "^(.+?_\\d{3,5})(?:_[A-Za-z0-9]+)*$".to_string());
    let compiled = compile_rules(&rules).expect("compile");
    let file = image("/data/20100428_ALA_0449_QP_D.jpg", None);
    let (file_id, ambiguous) = compute_file_id(&compiled, &file);
    assert_eq!(file_id, "20100428_ala_0449");
    assert!(!ambiguous);
}

#[test]
fn last_match_wins_for_detected_identity() {
    let compiled = survey_rules();
    let path = "/data/20200101_XY/20250101_AB_CD/some";
    assert_eq!(extract_detected_id(path, &compiled.detected_re).unwrap(), "20250101_AB_CD");
    assert_eq!(extract_detected_id("/data/nothing", &compiled.detected_re), None);
}

#[test]
fn claimed_directory_records_key_and_identity() {
    let compiled = survey_rules();
    let d = claim_directory(&compiled, "/raw/20250101_ab_cd").expect("claimed");
    assert_eq!(d.base_key, "20250101_AB");
    assert_eq!(d.folder.path, "/raw/20250101_ab_cd");
    assert_eq!(d.folder.detected_id.as_deref(), Some("20250101_ab_cd"));
    assert!(claim_directory(&compiled, "/raw/misc").is_none());
}

#[test]
fn file_id_with_size_exact_value() {
    let rules = rules_with("x", "x", "^no-match$".to_string());
    let compiled = compile_rules(&rules).expect("compile");
    let (id, ambiguous) = compute_file_id(&compiled, &image("/a/Sample.JPG", Some(1234)));
    assert_eq!(id, "sample.jpg|1234");
    assert!(!ambiguous);
}

#[test]
fn file_id_without_size_is_ambiguous() {
    let rules = rules_with("x", "x", "^no-match$".to_string());
    let compiled = compile_rules(&rules).expect("compile");
    let (id, ambiguous) = compute_file_id(&compiled, &image("/a/Sample.JPG", None));
    assert_eq!(id, "sample.jpg");
    assert!(ambiguous);
}

#[test]
fn default_image_pattern_strips_space_or_underscore_suffixes() {
    let compiled = survey_rules();
    let (id, ambiguous) = compute_file_id(&compiled, &image("/g/IMG_0042 best.jpg", Some(3)));
    assert_eq!(id, "img_0042");
    assert!(!ambiguous);
}

#[test]
fn winner_among_equal_class_prefers_shorter_then_smaller() {
    let rules = rules_with("x", "x", default_image_id_regex());
    let compiled = compile_rules(&rules).expect("compile");
    let c = strings(&["zz/other/a.jpg", "b/a.jpg", "a/a.jpg"]);
    let w = select_winner(&compiled, &c).unwrap();
    assert_eq!(w.relpath, "a/a.jpg");
    assert_eq!(w.winner_type, WinnerType::Other);
    let c = strings(&["x/best/long/a.jpg", "y/best/a.jpg"]);
    let w = select_winner(&compiled, &c).unwrap();
    assert_eq!(w.relpath, "y/best/a.jpg");
    assert_eq!(w.winner_type.label(), "SECONDARY");
    assert!(select_winner(&compiled, &Vec::new()).is_none());
}

#[test]
fn classification_lowercases_the_path() {
    let rules = rules_with("x", "x", default_image_id_regex());
    let compiled = compile_rules(&rules).expect("compile");
    assert_eq!(classify_candidate(&compiled, "A/IND/x.jpg"), WinnerType::Ind);
    assert_eq!(classify_candidate(&compiled, "A/BEST/x.jpg"), WinnerType::Secondary);
    assert_eq!(classify_candidate(&compiled, "A/window/x.jpg"), WinnerType::Other);
}

#[test]
fn token_matching_and_retain_flag() {
    let mut rules = rules_with("x", "x", default_image_id_regex());
    rules.graded_negative_contains_any = strings(&[" Reject "]);
    rules.graded_positive_contains_any = strings(&["keep"]);
    let compiled = compile_rules(&rules).expect("compile");
    let keep = strings(&["a/KEEP/x.jpg"]);
    let reject = strings(&["a/keep/x.jpg", "b/reject/x.jpg"]);
    let neither = strings(&["a/other/x.jpg"]);
    assert_eq!(retain_flag(&compiled, &keep), 1);
    assert_eq!(retain_flag(&compiled, &reject), 0);
    assert_eq!(retain_flag(&compiled, &neither), 0);
    assert_eq!(retain_flag(&compiled, &Vec::new()), 0);
    assert!(!any_token_match(&keep, &Vec::new()));
    assert!(any_token_match(&neither, &strings(&["*"])));
    assert!(any_token_match(&keep, &strings(&["keep"])));
}

#[test]
fn wildcard_positive_list_always_matches() {
    let compiled = survey_rules();
    assert_eq!(retain_flag(&compiled, &strings(&["a/anything.jpg"])), 1);
}

#[test]
fn normalization_of_extensions_and_tokens() {
    assert_eq!(normalize_extension("  JPG "), ".jpg");
    assert_eq!(normalize_extension(".TiF"), ".tif");
    assert_eq!(normalize_tokens(&strings(&[" Best ", "", "   ", "IND"])), strings(&["best", "ind"]));
}

#[test]
fn compiling_twice_behaves_alike() {
    let rules = rules_with(
        "(?i)\\b(\\d{8}_[A-Z]{2}(?:_[A-Z]{2})?)\\b",
        "(?i)\\b(\\d{8}_[A-Z]{2})(?:_[A-Z]{2})?\\b",
        default_image_id_regex(),
    );
    let a = compile_rules(&rules).expect("compile");
    let b = compile_rules(&rules).expect("compile");
    assert_eq!(a.extensions, b.extensions);
    assert_eq!(a.secondary_tokens, b.secondary_tokens);
    let p = "/data/20250101_AB_CD/x";
    assert_eq!(extract_detected_id(p, &a.detected_re), extract_detected_id(p, &b.detected_re));
    let f = image("/g/20100428_ALA_0449_QP.jpg", Some(1));
    assert_eq!(compute_file_id(&a, &f), compute_file_id(&b, &f));
}

#[test]
fn bad_pattern_is_a_regex_error() {
    let rules = rules_with("(", "x", default_image_id_regex());
    match compile_rules(&rules) {
        Err(AppError::Regex(_)) => {}
        _ => panic!("expected a regex error"),
    }
}

#[test]
fn supported_extensions_and_counts() {
    let compiled = survey_rules();
    assert!(is_supported_image(&compiled, &Some("JPG".to_string())));
    assert!(!is_supported_image(&compiled, &Some("png".to_string())));
    assert!(!is_supported_image(&compiled, &None));
    let files = vec![image("/a/x.jpg", None), image("/a/y.png", None), image("/a/z.JPG", None)];
    assert_eq!(count_images(&compiled, &files), 2);
}

#[test]
fn relative_paths_use_forward_slashes() {
    assert_eq!(normalize_relpath("/root/a/b.jpg", "/root"), "a/b.jpg");
    assert_eq!(normalize_relpath("/root/a/b.jpg", "/root/"), "a/b.jpg");
    assert_eq!(normalize_relpath("/rooted/b.jpg", "/root"), "/rooted/b.jpg");
    assert_eq!(normalize_relpath("/root/a\\b.jpg", "/root"), "a/b.jpg");
    assert_eq!(normalize_relpath("C:\\r\\a.jpg", "C:\\r"), "a.jpg");
    assert_eq!(normalize_relpath("C:\\r\\a.jpg", "C:\\r\\"), "a.jpg");
}

#[test]
fn missing_sides_are_problems() {
    let raw = vec![found("20250101_AB", "/raw/20250101_AB", Some("20250101_AB"))];
    let graded = vec![found("20250102_CD", "/graded/20250102_CD", Some("20250102_CD"))];
    let scan = scan_roots(&raw, &graded);
    assert_eq!(scan.entries.len(), 2);
    assert_eq!(scan.entries[0].base_key, "20250101_AB");
    assert_eq!(scan.entries[1].base_key, "20250102_CD");
    assert_eq!(scan.entries[0].status, EntryStatus::Problem);
    assert_eq!(scan.entries[0].problem_type, Some(ProblemKind::GradedMissing));
    assert_eq!(scan.entries[1].problem_type, Some(ProblemKind::RawMissing));
    assert_eq!(scan.problems.len(), 2);
    assert_eq!(scan.problems[0].problem_type, ProblemKind::GradedMissing);
    assert_eq!(scan.problems[0].raw_path.as_deref(), Some("/raw/20250101_AB"));
    assert_eq!(scan.problems[1].problem_type.label(), "RAW_MISSING");
    assert_eq!(scan.problems[1].graded_path.as_deref(), Some("/graded/20250102_CD"));
}

#[test]
fn duplicates_join_paths() {
    let raw = vec![
        found("K1", "/raw/a/K1", Some("K1_X")),
        found("K1", "/raw/b/K1", None),
    ];
    let graded = vec![found("K1", "/graded/K1", None)];
    let scan = scan_roots(&raw, &graded);
    assert_eq!(scan.entries.len(), 1);
    assert!(scan.entries[0].raw.is_none());
    assert_eq!(scan.entries[0].problem_type, Some(ProblemKind::DuplicateRaw));
    assert_eq!(scan.entries[0].details.as_deref(), Some("/raw/a/K1; /raw/b/K1"));
    assert_eq!(scan.problems.len(), 1);
    assert_eq!(scan.problems[0].survey_id_detected.as_deref(), Some("K1_X"));
    let (one, p) = select_unique(&"K2".to_string(), &vec![raw[0].folder.clone()], ProblemKind::DuplicateGraded);
    assert_eq!(one.unwrap().path, "/raw/a/K1");
    assert!(p.is_none());
}

#[test]
fn paired_entry_and_preview() {
    let compiled = survey_rules();
    let raw = vec![found("B", "/raw/B", None), found("A", "/raw/A", None)];
    let graded = vec![
        found("A", "/graded/A", Some("A_1")),
        found("B", "/graded/B", None),
        found("C", "/graded/C1", None),
        found("C", "/graded/C2", None),
    ];
    let raw_files = vec![
        vec![image("/raw/B/x.jpg", None)],
        vec![image("/raw/A/x.jpg", None), image("/raw/A/y.JPG", None), image("/raw/A/n.txt", None)],
    ];
    let graded_files = vec![
        vec![image("/graded/A/best/x.jpg", None)],
        vec![],
        vec![image("/graded/C1/x.jpg", None)],
        vec![image("/graded/C2/x.jpg", None)],
    ];
    let items = preview_root_scan(&compiled, &raw, &graded, &raw_files, &graded_files);
    assert_eq!(items.len(), 3);
    assert_eq!(items[0].base_key, "A");
    assert_eq!(items[0].status.label(), "OK");
    assert_eq!(items[0].survey_id_graded_detected.as_deref(), Some("A_1"));
    assert_eq!(items[0].raw_image_count, Some(2));
    assert_eq!(items[0].graded_image_count, Some(1));
    assert_eq!(items[1].raw_path.as_deref(), Some("/raw/B"));
    assert_eq!(items[1].raw_image_count, Some(1));
    assert_eq!(items[1].graded_image_count, Some(0));
    assert_eq!(items[2].raw_image_count, None);
    assert_eq!(items[2].graded_path, None);
    assert_eq!(items[2].graded_image_count, None);
}

#[test]
fn winner_ties_break_on_byte_length() {
    let rules = rules_with("x", "x", default_image_id_regex());
    let compiled = compile_rules(&rules).expect("compile");
    let w = select_winner(&compiled, &strings(&["\u{e9}\u{e9}", "abc"])).unwrap();
    assert_eq!(w.relpath, "abc");
}

#[test]
fn detected_identity_without_base_key_is_not_claimed() {
    let rules = rules_with("(SURVEY_[A-Z]+)", "(\\d{8}_[A-Z]{2})", default_image_id_regex());
    let compiled = compile_rules(&rules).expect("compile");
    assert!(claim_directory(&compiled, "/raw/20250101_AB/SURVEY_X").is_none());
    let d = claim_directory(&compiled, "/raw/20250101_AB/other").expect("claimed");
    assert_eq!(d.base_key, "20250101_AB");
    assert_eq!(d.folder.detected_id, None);
}

#[test]
fn scanning_twice_gives_the_same_result() {
    let raw = vec![found("B", "/raw/B", None), found("A", "/raw/A", None), found("A", "/raw/A2", None)];
    let graded = vec![found("C", "/graded/C", None), found("B", "/graded/B", None)];
    let a = scan_roots(&raw, &graded);
    let b = scan_roots(&raw, &graded);
    let pa: Vec<Vec<String>> = write_problems_csv(&a.problems);
    let pb: Vec<Vec<String>> = write_problems_csv(&b.problems);
    assert_eq!(pa, pb);
    let ka: Vec<String> = a.entries.iter().map(|e| e.base_key.clone()).collect();
    assert_eq!(ka, strings(&["A", "B", "C"]));
    assert_eq!(pa.len(), 4);
    assert_eq!(pa[1][4], "DUPLICATE_RAW");
    assert_eq!(pa[2][4], "GRADED_MISSING");
}

fn pair_fixture() -> (CompiledRules, SurveyFolder, SurveyFolder, Vec<ImageFile>, Vec<ImageFile>) {
    let compiled = survey_rules();
    let raw = SurveyFolder { path: "/raw/S".to_string(), detected_id: Some("S_RAW".to_string()) };
    let graded = SurveyFolder { path: "/graded/S".to_string(), detected_id: None };
    let raw_files = vec![
        image("/raw/S/IMG_0001.jpg", Some(10)),
        image("/raw/S/IMG_0002.jpg", Some(10)),
        image("/raw/S/notes.txt", Some(10)),
    ];
    let graded_files = vec![
        image("/graded/S/best/IMG_0001_A.jpg", Some(9)),
        image("/graded/S/ind/IMG_0001_B.jpg", Some(9)),
    ];
    (compiled, raw, graded, raw_files, graded_files)
}

#[test]
fn pair_rows_follow_raw_images() {
    let (compiled, raw, graded, raw_files, graded_files) = pair_fixture();
    let result = process_pair(&compiled, "S", &raw, &graded, &raw_files, &graded_files);
    assert_eq!(result.rows.len(), 2);
    assert_eq!(result.ambiguity_warnings, 0);
    let r0 = &result.rows[0];
    assert_eq!(r0.raw_relpath, "IMG_0001.jpg");
    assert_eq!(r0.graded_relpath, "ind/IMG_0001_B.jpg");
    assert_eq!(r0.graded_hits, 2);
    assert_eq!(r0.graded_winner_type, WinnerType::Ind);
    assert_eq!(r0.dolphin, 1);
    let r1 = &result.rows[1];
    assert_eq!(r1.graded_relpath, "RAW");
    assert_eq!(r1.graded_winner_type.label(), "RAW");
    assert_eq!(r1.graded_hits, 0);
    assert_eq!(r1.dolphin, 0);
    assert_eq!(r1.survey_id_raw_detected.as_deref(), Some("S_RAW"));
}

#[test]
fn rows_round_trip_through_records() {
    let (compiled, raw, graded, raw_files, graded_files) = pair_fixture();
    let result = process_pair(&compiled, "S", &raw, &graded, &raw_files, &graded_files);
    for row in &result.rows {
        let fields = row_record(row);
        assert_eq!(fields.len(), 9);
        let back = parse_row_record(&fields).expect("parse");
        assert_eq!(row_record(&back), fields);
        assert_eq!(back.dolphin, row.dolphin);
        assert_eq!(back.graded_hits, row.graded_hits);
        assert_eq!(back.survey_id_graded_detected, None);
    }
    let records = write_csv_rows(&result.rows);
    assert_eq!(records.len(), 3);
    assert_eq!(records[0][3], "dolphin");
    assert_eq!(records[1][8], "");
    assert!(parse_row_record(&strings(&["a", "b"])).is_none());
}

#[test]
fn processing_a_pair_twice_gives_identical_records() {
    let (compiled, raw, graded, raw_files, graded_files) = pair_fixture();
    let a = process_pair(&compiled, "S", &raw, &graded, &raw_files, &graded_files);
    let b = process_pair(&compiled, "S", &raw, &graded, &raw_files, &graded_files);
    assert_eq!(write_csv_rows(&a.rows), write_csv_rows(&b.rows));
}

#[test]
fn ambiguity_counts_files_without_size() {
    let rules = rules_with("x", "x", "^no-match$".to_string());
    let compiled = compile_rules(&rules).expect("compile");
    let raw = SurveyFolder { path: "/r".to_string(), detected_id: None };
    let graded = SurveyFolder { path: "/g".to_string(), detected_id: None };
    let raw_files = vec![image("/r/a.jpg", None)];
    let graded_files = vec![image("/g/a.jpg", None), image("/g/b.jpg", Some(2))];
    let result = process_pair(&compiled, "K", &raw, &graded, &raw_files, &graded_files);
    assert_eq!(result.ambiguity_warnings, 2);
    assert_eq!(result.rows[0].graded_hits, 1);
    assert_eq!(result.rows[0].graded_relpath, "a.jpg");
}

#[test]
fn single_pair_identity_from_override_or_graded_path() {
    let compiled = survey_rules();
    let (base, raw, graded) =
        single_pair_folders(&compiled, Some("20250101_AB_CD".to_string()), "/raw/x", "/graded/y").unwrap();
    assert_eq!(base, "20250101_AB");
    assert_eq!(graded.detected_id.as_deref(), Some("20250101_AB_CD"));
    assert_eq!(raw.detected_id, None);
    let (base, _, graded) = single_pair_folders(&compiled, None, "/raw/x", "/graded/20250303_EF").unwrap();
    assert_eq!(base, "20250303_EF");
    assert_eq!(graded.path, "/graded/20250303_EF");
    match single_pair_folders(&compiled, Some("nothing".to_string()), "/raw/x", "/graded/y") {
        Err(AppError::Message(m)) => {
            assert_eq!(m, "Unable to derive survey id base; please provide an override.")
        }
        _ => panic!("expected a message"),
    }
}

#[test]
fn tally_and_progress() {
    let (compiled, raw, graded, raw_files, graded_files) = pair_fixture();
    let result = process_pair(&compiled, "S", &raw, &graded, &raw_files, &graded_files);
    let mut tally = RunTally::new();
    tally.add_pair(&result);
    let summary = tally.summary(3, "/out".to_string(), None, Some("/out/p.csv".to_string()));
    assert_eq!(summary.processed_surveys, 1);
    assert_eq!(summary.total_rows, 2);
    assert_eq!(summary.dolphin_yes, 1);
    assert_eq!(summary.dolphin_no, 1);
    assert_eq!(summary.problems_count, 3);
    let events = progress_events("S", 2);
    assert_eq!(events.len(), 2);
    assert_eq!(events[1].processed, 2);
    assert_eq!(events[1].total, 2);
    assert_eq!(events[0].survey_id_base, "S");
}

#[test]
fn decimal_text_and_order() {
    assert_eq!(decimal_string(0), "0");
    assert_eq!(decimal_string(18446744073709551615), "18446744073709551615");
    assert_eq!(parse_u64("18446744073709551615"), Some(u64::MAX));
    assert_eq!(parse_u64("18446744073709551616"), None);
    assert_eq!(parse_u64(""), None);
    assert_eq!(parse_u64("12a"), None);
    assert!(less_than("A", "B"));
    assert!(less_than("AB", "ABC"));
    assert!(!less_than("b", "B"));
}

#[test]
fn only_paired_entries_are_processed_and_summarised() {
    let raw = vec![found("A", "/raw/A", None), found("B", "/raw/B", None)];
    let graded = vec![found("A", "/graded/A", None)];
    let scan = scan_roots(&raw, &graded);
    let (r, g) = paired_folders(&scan.entries[0]).expect("paired");
    assert_eq!(r.path, "/raw/A");
    assert_eq!(g.path, "/graded/A");
    assert!(paired_folders(&scan.entries[1]).is_none());
    let tally = RunTally::new();
    let summary = tally.root_summary(
        &scan.problems,
        "/out".to_string(),
        false,
        "/out/merged.csv".to_string(),
        "/out/problems.csv".to_string(),
    );
    assert_eq!(summary.problems_count, 1);
    assert_eq!(summary.merged_csv_path, None);
    assert_eq!(summary.problems_csv_path.as_deref(), Some("/out/problems.csv"));
    let none = tally.root_summary(&Vec::new(), "/o".to_string(), true, "/o/m.csv".to_string(), "/o/p.csv".to_string());
    assert_eq!(none.merged_csv_path.as_deref(), Some("/o/m.csv"));
    assert_eq!(none.problems_csv_path, None);
}
