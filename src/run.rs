//! What a run hands back: preview items, progress events, the survey identity
//! of a single-pair run, and the aggregate counts.

use vstd::prelude::*;
use vstd::string::*;
use crate::identity::{
    DiscoveredFolder, ImageFile, SurveyFolder, SurveyFolderView, base_key_of, detected_of,
    extract_base_key, extract_detected_id, is_supported_image,
};
use crate::pairing::{CsvRow, PairResult, supported_files};
use crate::reconcile::{
    group_of, opt_folder, ProblemItem,
    EntryStatus, ProblemKind, ScanEntry, ScanEntryView, ScanResult, folder_detected, folder_path,
    opt_detected, opt_path, scan_roots, scan_spec,
};
use crate::rules::{AppError, CompiledRules};
use crate::text::{copy_opt, opt_str};

verus! {

/// One line of a preview: an entry of the pairing with image counts.
#[derive(Clone, Debug)]
pub struct PreviewItem {
    pub base_key: String,
    pub raw_path: Option<String>,
    pub graded_path: Option<String>,
    pub status: EntryStatus,
    pub problem_type: Option<ProblemKind>,
    pub details: Option<String>,
    pub raw_image_count: Option<u64>,
    pub graded_image_count: Option<u64>,
    pub survey_id_raw_detected: Option<String>,
    pub survey_id_graded_detected: Option<String>,
}

/// The item shows the entry: its key, paths, status, problem and identities.
pub open spec fn shows_entry(item: PreviewItem, e: ScanEntryView) -> bool {
    &&& item.base_key@ == e.base_key
    &&& opt_str(item.raw_path) == opt_path(e.raw)
    &&& opt_str(item.graded_path) == opt_path(e.graded)
    &&& item.status == e.status
    &&& item.problem_type == e.problem_type
    &&& opt_str(item.details) == e.details
    &&& opt_str(item.survey_id_raw_detected) == opt_detected(e.raw)
    &&& opt_str(item.survey_id_graded_detected) == opt_detected(e.graded)
}

/// The preview of an entry, without image counts.
pub fn preview_item(e: &ScanEntry) -> (r: PreviewItem)
    ensures
        shows_entry(r, e@),
        r.raw_image_count is None,
        r.graded_image_count is None,
{
    PreviewItem {
        base_key: e.base_key.clone(),
        raw_path: folder_path(&e.raw),
        graded_path: folder_path(&e.graded),
        status: e.status,
        problem_type: e.problem_type,
        details: copy_opt(&e.details),
        raw_image_count: None,
        graded_image_count: None,
        survey_id_raw_detected: folder_detected(&e.raw),
        survey_id_graded_detected: folder_detected(&e.graded),
    }
}

/// How many of the files have an allowed extension.
pub fn count_images(rules: &CompiledRules, files: &Vec<ImageFile>) -> (r: u64)
    requires
        files@.len() <= u64::MAX,
    ensures
        r as nat == supported_files(rules, files@).len(),
{
    let mut count: u64 = 0;
    let mut i: usize = 0;
    while i < files.len()
        invariant
            i <= files.len(),
            files@.len() <= u64::MAX,
            count as nat == supported_files(rules, files@.subrange(0, i as int)).len(),
            count <= i,
        decreases files.len() - i,
    {
        proof {
            assert(files@.subrange(0, i + 1).drop_last() =~= files@.subrange(0, i as int));
        }
        if is_supported_image(rules, &files[i].extension) {
            count = count + 1;
        }
        i = i + 1;
    }
    assert(files@.subrange(0, files.len() as int) =~= files@);
    count
}

/// The image count of the folder found last under `k`, given the files
/// found under each folder of the list; `None` where no folder has key `k`.
pub open spec fn count_under_key(
    rules: &CompiledRules,
    list: Seq<DiscoveredFolder>,
    files: Seq<Vec<ImageFile>>,
    k: Seq<char>,
) -> Option<nat>
    decreases list.len(),
{
    if list.len() == 0 || files.len() == 0 {
        None
    } else if list.last().base_key@ == k {
        Some(supported_files(rules, files.last()@).len())
    } else {
        count_under_key(rules, list.drop_last(), files.drop_last(), k)
    }
}

pub open spec fn opt_nat(o: Option<u64>) -> Option<nat> {
    match o {
        Some(n) => Some(n as nat),
        None => None,
    }
}

/// The files of each folder of the list fit a 64-bit count.
pub open spec fn files_fit(list: Seq<DiscoveredFolder>, files: Seq<Vec<ImageFile>>) -> bool {
    &&& files.len() == list.len()
    &&& forall|j: int| 0 <= j < files.len() ==> (#[trigger] files[j])@.len() <= u64::MAX
}

proof fn lemma_count_found(
    rules: &CompiledRules,
    list: Seq<DiscoveredFolder>,
    files: Seq<Vec<ImageFile>>,
    k: Seq<char>,
)
    requires
        files.len() == list.len(),
        group_of(list, k).len() > 0,
    ensures
        count_under_key(rules, list, files, k) is Some,
    decreases list.len(),
{
    if list.last().base_key@ != k {
        lemma_count_found(rules, list.drop_last(), files.drop_last(), k);
    }
}

fn key_count(
    rules: &CompiledRules,
    list: &Vec<DiscoveredFolder>,
    files: &Vec<Vec<ImageFile>>,
    k: &String,
) -> (r: Option<u64>)
    requires
        files_fit(list@, files@),
    ensures
        opt_nat(r) == count_under_key(rules, list@, files@, k@),
{
    let mut found: Option<u64> = None;
    let mut i: usize = 0;
    while i < list.len()
        invariant
            i <= list.len(),
            files_fit(list@, files@),
            opt_nat(found) == count_under_key(
                rules,
                list@.subrange(0, i as int),
                files@.subrange(0, i as int),
                k@,
            ),
        decreases list.len() - i,
    {
        proof {
            assert(list@.subrange(0, i + 1).drop_last() =~= list@.subrange(0, i as int));
            assert(files@.subrange(0, i + 1).drop_last() =~= files@.subrange(0, i as int));
            assert(files@[i as int]@.len() <= u64::MAX);
        }
        if list[i].base_key == *k {
            found = Some(count_images(rules, &files[i]));
        }
        i = i + 1;
    }
    assert(list@.subrange(0, list.len() as int) =~= list@);
    assert(files@.subrange(0, files.len() as int) =~= files@);
    found
}

/// The counts of a preview item: for each side that resolved, the number of
/// files of an allowed extension under its folder; none for the other sides.
pub open spec fn counts_shown(
    rules: &CompiledRules,
    item: PreviewItem,
    raw: Seq<DiscoveredFolder>,
    graded: Seq<DiscoveredFolder>,
    raw_files: Seq<Vec<ImageFile>>,
    graded_files: Seq<Vec<ImageFile>>,
) -> bool {
    &&& (item.raw_path is Some <==> item.raw_image_count is Some)
    &&& (item.graded_path is Some <==> item.graded_image_count is Some)
    &&& (item.raw_path is Some ==> opt_nat(item.raw_image_count) == count_under_key(
        rules,
        raw,
        raw_files,
        item.base_key@,
    ))
    &&& (item.graded_path is Some ==> opt_nat(item.graded_image_count) == count_under_key(
        rules,
        graded,
        graded_files,
        item.base_key@,
    ))
}

/// A dry run of the pairing: one item per entry of `scan_roots`, in the same
/// order, with the image count of each side that resolved. `raw_files[j]`
/// holds the files found under the folder `raw[j]`, and likewise for the
/// graded side; where a side resolved, exactly one folder has the key, so the
/// count is that folder's.
pub fn preview_root_scan(
    rules: &CompiledRules,
    raw: &Vec<DiscoveredFolder>,
    graded: &Vec<DiscoveredFolder>,
    raw_files: &Vec<Vec<ImageFile>>,
    graded_files: &Vec<Vec<ImageFile>>,
) -> (r: Vec<PreviewItem>)
    requires
        files_fit(raw@, raw_files@),
        files_fit(graded@, graded_files@),
    ensures
        exists|s: ScanResult|
            {
                &&& scan_spec(raw@, graded@, s)
                &&& s.entries@.len() == r@.len()
                &&& forall|i: int| 0 <= i < r@.len() ==> shows_entry(#[trigger] r@[i], s.entries@[i]@)
            },
        forall|i: int|
            0 <= i < r@.len() ==> counts_shown(
                rules,
                #[trigger] r@[i],
                raw@,
                graded@,
                raw_files@,
                graded_files@,
            ),
{
    let scan = scan_roots(raw, graded);
    let mut items: Vec<PreviewItem> = Vec::new();
    let mut i: usize = 0;
    while i < scan.entries.len()
        invariant
            i <= scan.entries.len(),
            scan_spec(raw@, graded@, scan),
            files_fit(raw@, raw_files@),
            files_fit(graded@, graded_files@),
            items@.len() == i,
            forall|k: int| 0 <= k < i ==> shows_entry(#[trigger] items@[k], scan.entries@[k]@),
            forall|k: int|
                0 <= k < i ==> counts_shown(
                    rules,
                    #[trigger] items@[k],
                    raw@,
                    graded@,
                    raw_files@,
                    graded_files@,
                ),
        decreases scan.entries.len() - i,
    {
        let entry = &scan.entries[i];
        let mut item = preview_item(entry);
        proof {
            let keys = crate::reconcile::entry_keys(scan.entries@);
            assert(keys[i as int] == entry.base_key@);
            assert(entry@ == crate::reconcile::entry_of(
                keys[i as int],
                group_of(raw@, keys[i as int]),
                group_of(graded@, keys[i as int]),
            ));
            if entry.raw is Some {
                lemma_count_found(rules, raw@, raw_files@, entry.base_key@);
            }
            if entry.graded is Some {
                lemma_count_found(rules, graded@, graded_files@, entry.base_key@);
            }
        }
        if entry.raw.is_some() {
            item.raw_image_count = key_count(rules, raw, raw_files, &entry.base_key);
        }
        if entry.graded.is_some() {
            item.graded_image_count = key_count(rules, graded, graded_files, &entry.base_key);
        }
        items.push(item);
        i = i + 1;
    }
    items
}

/// A progress notification: `processed` of `total` images of a survey done.
#[derive(Clone, Debug)]
pub struct ProgressEvent {
    pub survey_id_base: String,
    pub processed: u64,
    pub total: u64,
}

/// The notifications of a survey with `total` images, one per image in turn.
pub fn progress_events(base_key: &str, total: u64) -> (r: Vec<ProgressEvent>)
    ensures
        r@.len() == total,
        forall|i: int|
            0 <= i < total ==> (#[trigger] r@[i]).survey_id_base@ == base_key@ && r@[i].processed
                == i + 1 && r@[i].total == total,
{
    let mut out: Vec<ProgressEvent> = Vec::new();
    let mut i: u64 = 0;
    while i < total
        invariant
            i <= total,
            out@.len() == i,
            forall|k: int|
                0 <= k < i ==> (#[trigger] out@[k]).survey_id_base@ == base_key@ && out@[k].processed
                    == k + 1 && out@[k].total == total,
        decreases total - i,
    {
        out.push(ProgressEvent { survey_id_base: String::from_str(base_key), processed: i + 1, total });
        i = i + 1;
    }
    out
}

/// The survey identity of a single-pair run, as (full identity, base key): the
/// override where it gives a base key, else the identity detected in the
/// graded folder's path where that gives one.
pub open spec fn single_identity_of(
    rules: &CompiledRules,
    survey_id_override: Option<Seq<char>>,
    graded_dir: Seq<char>,
) -> Option<(Seq<char>, Seq<char>)> {
    let from_graded = match detected_of(rules.detected_re.pattern(), graded_dir) {
        Some(d) => match base_key_of(rules.base_re.pattern(), d) {
            Some(b) => Some((d, b)),
            None => None,
        },
        None => None,
    };
    match survey_id_override {
        Some(v) => match base_key_of(rules.base_re.pattern(), v) {
            Some(b) => Some((v, b)),
            None => from_graded,
        },
        None => from_graded,
    }
}

/// The base key and the two folders of a single-pair run. Fails with a
/// message exactly when neither the override nor the graded folder's path
/// gives a base key.
pub fn single_pair_folders(
    rules: &CompiledRules,
    survey_id_override: Option<String>,
    raw_dir: &str,
    graded_dir: &str,
) -> (r: Result<(String, SurveyFolder, SurveyFolder), AppError>)
    ensures
        match single_identity_of(rules, opt_str(survey_id_override), graded_dir@) {
            Some((d, b)) => r matches Ok((base, raw, graded)) && base@ == b && raw@ == (SurveyFolderView {
                path: raw_dir@,
                detected_id: detected_of(rules.detected_re.pattern(), raw_dir@),
            }) && graded@ == (SurveyFolderView { path: graded_dir@, detected_id: Some(d) }),
            None => r matches Err(AppError::Message(m)) && m@
                == "Unable to derive survey id base; please provide an override."@,
        },
{
    let from_override = match survey_id_override {
        Some(v) => match extract_base_key(v.as_str(), &rules.base_re) {
            Some(b) => Some((v, b)),
            None => None,
        },
        None => None,
    };
    let identity = match from_override {
        Some(p) => Some(p),
        None => match extract_detected_id(graded_dir, &rules.detected_re) {
            Some(d) => match extract_base_key(d.as_str(), &rules.base_re) {
                Some(b) => Some((d, b)),
                None => None,
            },
            None => None,
        },
    };
    match identity {
        Some((detected, base)) => {
            let raw = SurveyFolder {
                path: String::from_str(raw_dir),
                detected_id: extract_detected_id(raw_dir, &rules.detected_re),
            };
            let graded = SurveyFolder { path: String::from_str(graded_dir), detected_id: Some(detected) };
            Ok((base, raw, graded))
        },
        None => Err(
            AppError::Message(
                String::from_str("Unable to derive survey id base; please provide an override."),
            ),
        ),
    }
}

/// How many rows have the retain flag set.
pub open spec fn retained_count(rows: Seq<CsvRow>) -> nat
    decreases rows.len(),
{
    if rows.len() == 0 {
        0
    } else {
        retained_count(rows.drop_last()) + if rows.last().dolphin == 1 {
            1nat
        } else {
            0nat
        }
    }
}

proof fn lemma_retained_bound(rows: Seq<CsvRow>)
    ensures
        retained_count(rows) <= rows.len(),
    decreases rows.len(),
{
    if rows.len() > 0 {
        lemma_retained_bound(rows.drop_last());
    }
}

/// The counts of a run so far.
#[derive(Clone, Debug)]
pub struct RunTally {
    pub processed_surveys: u64,
    pub total_rows: u64,
    pub dolphin_yes: u64,
    pub dolphin_no: u64,
    pub ambiguity_warnings: u64,
}

impl RunTally {
    pub fn new() -> (r: RunTally)
        ensures
            r.processed_surveys == 0 && r.total_rows == 0 && r.dolphin_yes == 0 && r.dolphin_no == 0
                && r.ambiguity_warnings == 0,
    {
        RunTally { processed_surveys: 0, total_rows: 0, dolphin_yes: 0, dolphin_no: 0, ambiguity_warnings: 0 }
    }

    /// The counts fit once the pair is added.
    pub open spec fn can_add(&self, pair: &PairResult) -> bool {
        &&& self.processed_surveys + 1 <= u64::MAX
        &&& self.total_rows + pair.rows@.len() <= u64::MAX
        &&& self.dolphin_yes + pair.rows@.len() <= u64::MAX
        &&& self.dolphin_no + pair.rows@.len() <= u64::MAX
        &&& self.ambiguity_warnings + pair.ambiguity_warnings <= u64::MAX
    }

    /// Adds the outcome of one processed survey pair.
    pub fn add_pair(&mut self, pair: &PairResult)
        requires
            old(self).can_add(pair),
        ensures
            final(self).processed_surveys == old(self).processed_surveys + 1,
            final(self).total_rows == old(self).total_rows + pair.rows@.len(),
            final(self).dolphin_yes == old(self).dolphin_yes + retained_count(pair.rows@),
            final(self).dolphin_no == old(self).dolphin_no + pair.rows@.len() - retained_count(pair.rows@),
            final(self).ambiguity_warnings == old(self).ambiguity_warnings + pair.ambiguity_warnings,
    {
        let mut yes: u64 = 0;
        let mut i: usize = 0;
        while i < pair.rows.len()
            invariant
                i <= pair.rows.len(),
                yes as nat == retained_count(pair.rows@.subrange(0, i as int)),
                yes <= i,
            decreases pair.rows.len() - i,
        {
            proof {
                assert(pair.rows@.subrange(0, i + 1).drop_last() =~= pair.rows@.subrange(0, i as int));
            }
            if pair.rows[i].dolphin == 1 {
                yes = yes + 1;
            }
            i = i + 1;
        }
        assert(pair.rows@.subrange(0, pair.rows.len() as int) =~= pair.rows@);
        let n = pair.rows.len() as u64;
        self.processed_surveys = self.processed_surveys + 1;
        self.total_rows = self.total_rows + n;
        self.dolphin_yes = self.dolphin_yes + yes;
        self.dolphin_no = self.dolphin_no + (n - yes);
        self.ambiguity_warnings = self.ambiguity_warnings + pair.ambiguity_warnings;
    }

    /// The summary of a finished run.
    pub fn summary(
        &self,
        problems_count: u64,
        output_dir: String,
        merged_csv_path: Option<String>,
        problems_csv_path: Option<String>,
    ) -> (r: RunSummary)
        ensures
            r.processed_surveys == self.processed_surveys,
            r.total_rows == self.total_rows,
            r.dolphin_yes == self.dolphin_yes,
            r.dolphin_no == self.dolphin_no,
            r.ambiguity_warnings == self.ambiguity_warnings,
            r.problems_count == problems_count,
            r.output_dir@ == output_dir@,
            opt_str(r.merged_csv_path) == opt_str(merged_csv_path),
            opt_str(r.problems_csv_path) == opt_str(problems_csv_path),
    {
        RunSummary {
            processed_surveys: self.processed_surveys,
            total_rows: self.total_rows,
            dolphin_yes: self.dolphin_yes,
            dolphin_no: self.dolphin_no,
            ambiguity_warnings: self.ambiguity_warnings,
            problems_count,
            output_dir,
            merged_csv_path,
            problems_csv_path,
        }
    }
}

/// The aggregate outcome of a run.
#[derive(Clone, Debug)]
pub struct RunSummary {
    pub processed_surveys: u64,
    pub total_rows: u64,
    pub dolphin_yes: u64,
    pub dolphin_no: u64,
    pub ambiguity_warnings: u64,
    pub problems_count: u64,
    pub output_dir: String,
    pub merged_csv_path: Option<String>,
    pub problems_csv_path: Option<String>,
}

/// What a full-tree run writes: per-survey files under a subdirectory, a
/// merged file, and the name of the problems file.
#[derive(Clone, Debug)]
pub struct RootRunOptions {
    pub write_per_survey: bool,
    pub write_merged: bool,
    pub merged_filename: String,
    pub problems_filename: String,
    pub per_survey_dirname: String,
}

/// The output file name of a single-pair run.
#[derive(Clone, Debug)]
pub struct SingleRunOptions {
    pub output_filename: String,
}

/// The name of the per-survey report of a base key.
pub fn per_survey_filename(base_key: &str) -> (r: String)
    ensures
        r@ == base_key@ + ".csv"@,
{
    String::from_str(base_key).concat(".csv")
}

/// The two folders of an entry that is processed: both sides resolved and
/// the status is `Paired`; `None` for every other entry.
pub fn paired_folders(e: &ScanEntry) -> (r: Option<(SurveyFolder, SurveyFolder)>)
    ensures
        r is Some <==> e.status == EntryStatus::Paired && e.raw is Some && e.graded is Some,
        r matches Some((raw, graded)) ==> Some(raw@) == opt_folder(e.raw) && Some(graded@) == opt_folder(
            e.graded,
        ),
{
    if e.status != EntryStatus::Paired {
        return None;
    }
    match (&e.raw, &e.graded) {
        (Some(raw), Some(graded)) => Some((raw.duplicate(), graded.duplicate())),
        _ => None,
    }
}

impl RunTally {
    /// The summary of a full-tree run: the problem count is the number of
    /// problems; the merged file's path is given where a merged file is
    /// written; the problems file's path where there is a problem to write.
    pub fn root_summary(
        &self,
        problems: &Vec<ProblemItem>,
        output_dir: String,
        write_merged: bool,
        merged_csv_path: String,
        problems_csv_path: String,
    ) -> (r: RunSummary)
        requires
            problems@.len() <= u64::MAX,
        ensures
            r.processed_surveys == self.processed_surveys,
            r.total_rows == self.total_rows,
            r.dolphin_yes == self.dolphin_yes,
            r.dolphin_no == self.dolphin_no,
            r.ambiguity_warnings == self.ambiguity_warnings,
            r.problems_count == problems@.len(),
            r.output_dir@ == output_dir@,
            opt_str(r.merged_csv_path) == if write_merged {
                Some(merged_csv_path@)
            } else {
                None
            },
            opt_str(r.problems_csv_path) == if problems@.len() > 0 {
                Some(problems_csv_path@)
            } else {
                None
            },
    {
        let merged = if write_merged {
            Some(merged_csv_path)
        } else {
            None
        };
        let problems_path = if problems.len() > 0 {
            Some(problems_csv_path)
        } else {
            None
        };
        self.summary(problems.len() as u64, output_dir, merged, problems_path)
    }
}

} // verus!
