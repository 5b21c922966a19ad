//! Pairing of the survey folders found in the raw tree with those found in
//! the graded tree, by base key.

use vstd::prelude::*;
use vstd::string::*;
use crate::identity::{DiscoveredFolder, SurveyFolder, SurveyFolderView};
use crate::text::{
    copy_opt, less_than, lemma_str_lt_irreflexive, lemma_str_lt_total, lemma_str_lt_transitive,
    opt_str, str_lt, strs,
};

verus! {

/// The kinds of structural problem.
#[derive(PartialEq, Eq, Structural, Clone, Copy, Debug)]
pub enum ProblemKind {
    RawMissing,
    GradedMissing,
    DuplicateRaw,
    DuplicateGraded,
}

impl ProblemKind {
    /// The name the reports use.
    pub fn label(&self) -> (r: String)
        ensures
            r@ == self.label_spec(),
    {
        match self {
            ProblemKind::RawMissing => String::from_str("RAW_MISSING"),
            ProblemKind::GradedMissing => String::from_str("GRADED_MISSING"),
            ProblemKind::DuplicateRaw => String::from_str("DUPLICATE_RAW"),
            ProblemKind::DuplicateGraded => String::from_str("DUPLICATE_GRADED"),
        }
    }

    pub open spec fn label_spec(&self) -> Seq<char> {
        match self {
            ProblemKind::RawMissing => "RAW_MISSING"@,
            ProblemKind::GradedMissing => "GRADED_MISSING"@,
            ProblemKind::DuplicateRaw => "DUPLICATE_RAW"@,
            ProblemKind::DuplicateGraded => "DUPLICATE_GRADED"@,
        }
    }
}

/// Whether both sides of a base key resolved to exactly one folder.
#[derive(PartialEq, Eq, Structural, Clone, Copy, Debug)]
pub enum EntryStatus {
    Paired,
    Problem,
}

impl EntryStatus {
    /// The name the reports use.
    pub fn label(&self) -> (r: String)
        ensures
            r@ == match self {
                EntryStatus::Paired => "OK"@,
                EntryStatus::Problem => "PROBLEM"@,
            },
    {
        match self {
            EntryStatus::Paired => String::from_str("OK"),
            EntryStatus::Problem => String::from_str("PROBLEM"),
        }
    }
}

/// A survey folder that could not be resolved on one side.
#[derive(Clone, Debug)]
pub struct ProblemItem {
    pub survey_id_base: String,
    pub survey_id_detected: Option<String>,
    pub raw_path: Option<String>,
    pub graded_path: Option<String>,
    pub problem_type: ProblemKind,
    pub details: Option<String>,
}

pub struct ProblemView {
    pub survey_id_base: Seq<char>,
    pub survey_id_detected: Option<Seq<char>>,
    pub raw_path: Option<Seq<char>>,
    pub graded_path: Option<Seq<char>>,
    pub problem_type: ProblemKind,
    pub details: Option<Seq<char>>,
}

impl View for ProblemItem {
    type V = ProblemView;

    open spec fn view(&self) -> ProblemView {
        ProblemView {
            survey_id_base: self.survey_id_base@,
            survey_id_detected: opt_str(self.survey_id_detected),
            raw_path: opt_str(self.raw_path),
            graded_path: opt_str(self.graded_path),
            problem_type: self.problem_type,
            details: opt_str(self.details),
        }
    }
}

/// One base key and what it resolved to on each side.
#[derive(Clone, Debug)]
pub struct ScanEntry {
    pub base_key: String,
    pub raw: Option<SurveyFolder>,
    pub graded: Option<SurveyFolder>,
    pub status: EntryStatus,
    pub problem_type: Option<ProblemKind>,
    pub details: Option<String>,
}

pub struct ScanEntryView {
    pub base_key: Seq<char>,
    pub raw: Option<SurveyFolderView>,
    pub graded: Option<SurveyFolderView>,
    pub status: EntryStatus,
    pub problem_type: Option<ProblemKind>,
    pub details: Option<Seq<char>>,
}

pub open spec fn opt_folder(o: Option<SurveyFolder>) -> Option<SurveyFolderView> {
    match o {
        Some(f) => Some(f@),
        None => None,
    }
}

impl View for ScanEntry {
    type V = ScanEntryView;

    open spec fn view(&self) -> ScanEntryView {
        ScanEntryView {
            base_key: self.base_key@,
            raw: opt_folder(self.raw),
            graded: opt_folder(self.graded),
            status: self.status,
            problem_type: self.problem_type,
            details: opt_str(self.details),
        }
    }
}

/// All entries, sorted by base key, and all problems, grouped by base key in
/// the same order.
#[derive(Clone, Debug)]
pub struct ScanResult {
    pub entries: Vec<ScanEntry>,
    pub problems: Vec<ProblemItem>,
}

pub open spec fn folder_views(v: Seq<SurveyFolder>) -> Seq<SurveyFolderView> {
    v.map_values(|f: SurveyFolder| f@)
}

/// The folders found under base key `k`, in the order they were found.
pub open spec fn group_of(list: Seq<DiscoveredFolder>, k: Seq<char>) -> Seq<SurveyFolderView>
    decreases list.len(),
{
    if list.len() == 0 {
        Seq::empty()
    } else {
        let rest = group_of(list.drop_last(), k);
        if list.last().base_key@ == k {
            rest.push(list.last().folder@)
        } else {
            rest
        }
    }
}

/// The base keys found in a tree.
pub open spec fn keys_of(list: Seq<DiscoveredFolder>) -> Set<Seq<char>> {
    Set::new(|k: Seq<char>| exists|i: int| 0 <= i < list.len() && #[trigger] list[i].base_key@ == k)
}

/// The folder that a side resolves to: the only one, if there is exactly one.
pub open spec fn resolved(g: Seq<SurveyFolderView>) -> Option<SurveyFolderView> {
    if g.len() == 1 {
        Some(g[0])
    } else {
        None
    }
}

pub open spec fn opt_path(f: Option<SurveyFolderView>) -> Option<Seq<char>> {
    match f {
        Some(v) => Some(v.path),
        None => None,
    }
}

pub open spec fn opt_detected(f: Option<SurveyFolderView>) -> Option<Seq<char>> {
    match f {
        Some(v) => v.detected_id,
        None => None,
    }
}

/// The paths of the folders, joined by `"; "`.
pub open spec fn join_paths(g: Seq<SurveyFolderView>) -> Seq<char>
    decreases g.len(),
{
    if g.len() == 0 {
        Seq::empty()
    } else if g.len() == 1 {
        g[0].path
    } else {
        join_paths(g.drop_last()) + "; "@ + g.last().path
    }
}

pub open spec fn duplicate_problem(k: Seq<char>, g: Seq<SurveyFolderView>, kind: ProblemKind) -> ProblemView {
    ProblemView {
        survey_id_base: k,
        survey_id_detected: g[0].detected_id,
        raw_path: None,
        graded_path: None,
        problem_type: kind,
        details: Some(join_paths(g)),
    }
}

pub open spec fn raw_missing_problem(k: Seq<char>, graded: Option<SurveyFolderView>) -> ProblemView {
    ProblemView {
        survey_id_base: k,
        survey_id_detected: opt_detected(graded),
        raw_path: None,
        graded_path: opt_path(graded),
        problem_type: ProblemKind::RawMissing,
        details: None,
    }
}

pub open spec fn graded_missing_problem(k: Seq<char>, raw: Option<SurveyFolderView>) -> ProblemView {
    ProblemView {
        survey_id_base: k,
        survey_id_detected: opt_detected(raw),
        raw_path: opt_path(raw),
        graded_path: None,
        problem_type: ProblemKind::GradedMissing,
        details: None,
    }
}

pub open spec fn seq_if<T>(c: bool, x: T) -> Seq<T> {
    if c {
        seq![x]
    } else {
        Seq::empty()
    }
}

/// The problems of one base key: a duplicate raw side, a duplicate graded
/// side, a missing raw side, a missing graded side, in that order.
pub open spec fn problems_for(k: Seq<char>, r: Seq<SurveyFolderView>, g: Seq<SurveyFolderView>) -> Seq<ProblemView> {
    seq_if(r.len() >= 2, duplicate_problem(k, r, ProblemKind::DuplicateRaw))
        + seq_if(g.len() >= 2, duplicate_problem(k, g, ProblemKind::DuplicateGraded))
        + seq_if(r.len() == 0, raw_missing_problem(k, resolved(g)))
        + seq_if(g.len() == 0, graded_missing_problem(k, resolved(r)))
}

/// The problem an entry reports: a missing side first, the raw side before the
/// graded one, then a duplicated side in the same order.
pub open spec fn entry_problem(r: Seq<SurveyFolderView>, g: Seq<SurveyFolderView>) -> Option<(ProblemKind, Seq<char>)> {
    if r.len() == 0 {
        Some((ProblemKind::RawMissing, "No raw survey folder found."@))
    } else if g.len() == 0 {
        Some((ProblemKind::GradedMissing, "No graded survey folder found."@))
    } else if r.len() >= 2 {
        Some((ProblemKind::DuplicateRaw, join_paths(r)))
    } else if g.len() >= 2 {
        Some((ProblemKind::DuplicateGraded, join_paths(g)))
    } else {
        None
    }
}

pub open spec fn entry_of(k: Seq<char>, r: Seq<SurveyFolderView>, g: Seq<SurveyFolderView>) -> ScanEntryView {
    ScanEntryView {
        base_key: k,
        raw: resolved(r),
        graded: resolved(g),
        status: if r.len() == 1 && g.len() == 1 {
            EntryStatus::Paired
        } else {
            EntryStatus::Problem
        },
        problem_type: match entry_problem(r, g) {
            Some(p) => Some(p.0),
            None => None,
        },
        details: match entry_problem(r, g) {
            Some(p) => Some(p.1),
            None => None,
        },
    }
}

pub open spec fn problems_upto(
    raw: Seq<DiscoveredFolder>,
    graded: Seq<DiscoveredFolder>,
    keys: Seq<Seq<char>>,
) -> Seq<ProblemView>
    decreases keys.len(),
{
    if keys.len() == 0 {
        Seq::empty()
    } else {
        problems_upto(raw, graded, keys.drop_last()) + problems_for(
            keys.last(),
            group_of(raw, keys.last()),
            group_of(graded, keys.last()),
        )
    }
}

pub open spec fn sorted_strictly(s: Seq<Seq<char>>) -> bool {
    forall|i: int, j: int| 0 <= i < j < s.len() ==> str_lt(#[trigger] s[i], #[trigger] s[j])
}

pub open spec fn entry_keys(entries: Seq<ScanEntry>) -> Seq<Seq<char>> {
    entries.map_values(|e: ScanEntry| e.base_key@)
}

/// What pairing the two trees gives: one entry per base key of either tree,
/// in increasing order of key, each as `entry_of` says, and the problems of
/// each key in that order.
pub open spec fn scan_spec(raw: Seq<DiscoveredFolder>, graded: Seq<DiscoveredFolder>, r: ScanResult) -> bool {
    let keys = entry_keys(r.entries@);
    &&& sorted_strictly(keys)
    &&& keys.to_set() == keys_of(raw) + keys_of(graded)
    &&& forall|i: int|
        0 <= i < r.entries@.len() ==> (#[trigger] r.entries@[i])@ == entry_of(
            keys[i],
            group_of(raw, keys[i]),
            group_of(graded, keys[i]),
        )
    &&& problem_views(r.problems@) == problems_upto(raw, graded, keys)
}

/// Inserts `k` into a strictly sorted list of keys, unless it is there.
fn insert_key(keys: &mut Vec<String>, k: &String)
    requires
        sorted_strictly(strs(old(keys)@)),
    ensures
        sorted_strictly(strs(final(keys)@)),
        strs(final(keys)@).to_set() == strs(old(keys)@).to_set().insert(k@),
{
    let ghost old_keys = strs(keys@);
    let mut i: usize = 0;
    while i < keys.len() && less_than(keys[i].as_str(), k.as_str())
        invariant
            i <= keys.len(),
            strs(keys@) == old_keys,
            sorted_strictly(old_keys),
            forall|j: int| 0 <= j < i ==> str_lt(#[trigger] old_keys[j], k@),
        decreases keys.len() - i,
    {
        i = i + 1;
    }
    if i < keys.len() && keys[i] == *k {
        assert(old_keys.to_set() =~= old_keys.to_set().insert(k@)) by {
            assert(old_keys[i as int] == k@);
        }
        return;
    }
    proof {
        if i < keys.len() {
            lemma_str_lt_total(old_keys[i as int], k@);
        }
    }
    keys.insert(i, k.clone());
    let ghost new_keys = strs(keys@);
    proof {
        assert(new_keys =~= old_keys.insert(i as int, k@));
        assert forall|a: int, b: int| 0 <= a < b < new_keys.len() implies str_lt(
            #[trigger] new_keys[a],
            #[trigger] new_keys[b],
        ) by {
            if b < i {
            } else if b == i {
            } else if a < i {
                lemma_str_lt_transitive(old_keys[a], k@, old_keys[i as int]);
                if b - 1 > i {
                    lemma_str_lt_transitive(old_keys[a], old_keys[i as int], old_keys[b - 1]);
                }
            } else if a == i {
                if b - 1 > i {
                    lemma_str_lt_transitive(k@, old_keys[i as int], old_keys[b - 1]);
                }
            } else {
            }
        }
        assert(new_keys.to_set() =~= old_keys.to_set().insert(k@)) by {
            assert forall|x: Seq<char>| new_keys.to_set().contains(x) <==> old_keys.to_set().insert(k@).contains(x) by {
                if new_keys.to_set().contains(x) {
                    let j = choose|j: int| 0 <= j < new_keys.len() && new_keys[j] == x;
                    if j < i {
                        assert(old_keys[j] == x);
                    } else if j > i {
                        assert(old_keys[j - 1] == x);
                    }
                }
                if old_keys.to_set().contains(x) {
                    let j = choose|j: int| 0 <= j < old_keys.len() && old_keys[j] == x;
                    if j < i {
                        assert(new_keys[j] == x);
                    } else {
                        assert(new_keys[j + 1] == x);
                    }
                }
                if x == k@ {
                    assert(new_keys[i as int] == x);
                }
            }
        }
    }
}

/// The folders of `list` found under `k`, in the order they were found.
fn collect_group(list: &Vec<DiscoveredFolder>, k: &String) -> (r: Vec<SurveyFolder>)
    ensures
        folder_views(r@) == group_of(list@, k@),
{
    let mut out: Vec<SurveyFolder> = Vec::new();
    let mut i: usize = 0;
    while i < list.len()
        invariant
            i <= list.len(),
            folder_views(out@) == group_of(list@.subrange(0, i as int), k@),
        decreases list.len() - i,
    {
        proof {
            assert(list@.subrange(0, i + 1).drop_last() =~= list@.subrange(0, i as int));
        }
        if list[i].base_key == *k {
            let f = list[i].folder.duplicate();
            let ghost before = out@;
            out.push(f);
            proof {
                assert(folder_views(out@) =~= folder_views(before).push(f@));
            }
        }
        i = i + 1;
    }
    assert(list@.subrange(0, list.len() as int) =~= list@);
    out
}

/// The paths of the folders joined by `"; "`.
fn join_folder_paths(g: &Vec<SurveyFolder>) -> (r: String)
    ensures
        r@ == join_paths(folder_views(g@)),
{
    if g.len() == 0 {
        return String::new();
    }
    let mut out = g[0].path.clone();
    proof {
        assert(folder_views(g@.subrange(0, 1)).len() == 1);
    }
    let mut i: usize = 1;
    while i < g.len()
        invariant
            1 <= i <= g.len(),
            out@ == join_paths(folder_views(g@.subrange(0, i as int))),
        decreases g.len() - i,
    {
        proof {
            reveal_strlit("; ");
            let pre = folder_views(g@.subrange(0, i + 1));
            assert(pre.drop_last() =~= folder_views(g@.subrange(0, i as int)));
            assert(pre.last() == g@[i as int]@);
        }
        out.append("; ");
        out.append(g[i].path.as_str());
        i = i + 1;
    }
    assert(g@.subrange(0, g.len() as int) =~= g@);
    out
}

fn copy_resolved(list: &Vec<SurveyFolder>) -> (r: Option<SurveyFolder>)
    ensures
        opt_folder(r) == resolved(folder_views(list@)),
{
    if list.len() == 1 {
        Some(list[0].duplicate())
    } else {
        None
    }
}

/// Uniqueness selection on one side: the folder where there is exactly one,
/// and a duplicate problem listing every path where there are several.
pub fn select_unique(base_key: &String, list: &Vec<SurveyFolder>, kind: ProblemKind) -> (r: (
    Option<SurveyFolder>,
    Option<ProblemItem>,
))
    ensures
        opt_folder(r.0) == resolved(folder_views(list@)),
        match r.1 {
            Some(p) => list@.len() >= 2 && p@ == duplicate_problem(
                base_key@,
                folder_views(list@),
                kind,
            ),
            None => list@.len() < 2,
        },
{
    if list.len() <= 1 {
        return (copy_resolved(list), None);
    }
    let detail = join_folder_paths(list);
    (
        None,
        Some(
            ProblemItem {
                survey_id_base: base_key.clone(),
                survey_id_detected: copy_opt(&list[0].detected_id),
                raw_path: None,
                graded_path: None,
                problem_type: kind,
                details: Some(detail),
            },
        ),
    )
}

pub(crate) fn folder_path(f: &Option<SurveyFolder>) -> (r: Option<String>)
    ensures
        opt_str(r) == opt_path(opt_folder(*f)),
{
    match f {
        Some(v) => Some(v.path.clone()),
        None => None,
    }
}

pub(crate) fn folder_detected(f: &Option<SurveyFolder>) -> (r: Option<String>)
    ensures
        opt_str(r) == opt_detected(opt_folder(*f)),
{
    match f {
        Some(v) => copy_opt(&v.detected_id),
        None => None,
    }
}

pub open spec fn problem_views(v: Seq<ProblemItem>) -> Seq<ProblemView> {
    v.map_values(|p: ProblemItem| p@)
}

/// The entry and the problems of one base key, from the folders found under
/// it on each side.
fn resolve_key(k: &String, r: &Vec<SurveyFolder>, g: &Vec<SurveyFolder>) -> (out: (
    ScanEntry,
    Vec<ProblemItem>,
))
    ensures
        out.0@ == entry_of(k@, folder_views(r@), folder_views(g@)),
        problem_views(out.1@) == problems_for(k@, folder_views(r@), folder_views(g@)),
{
    let ghost rv = folder_views(r@);
    let ghost gv = folder_views(g@);
    let (raw, raw_problem) = select_unique(k, r, ProblemKind::DuplicateRaw);
    let (graded, graded_problem) = select_unique(k, g, ProblemKind::DuplicateGraded);
    let raw_missing = r.len() == 0;
    let graded_missing = g.len() == 0;
    let (problem_type, details) = if raw_missing {
        (Some(ProblemKind::RawMissing), Some(String::from_str("No raw survey folder found.")))
    } else if graded_missing {
        (
            Some(ProblemKind::GradedMissing),
            Some(String::from_str("No graded survey folder found.")),
        )
    } else {
        match &raw_problem {
            Some(p) => (Some(ProblemKind::DuplicateRaw), copy_opt(&p.details)),
            None => match &graded_problem {
                Some(p) => (Some(ProblemKind::DuplicateGraded), copy_opt(&p.details)),
                None => (None, None),
            },
        }
    };
    let status = if r.len() == 1 && g.len() == 1 {
        EntryStatus::Paired
    } else {
        EntryStatus::Problem
    };
    let mut problems: Vec<ProblemItem> = Vec::new();
    match raw_problem {
        Some(p) => problems.push(p),
        None => {},
    }
    match graded_problem {
        Some(p) => problems.push(p),
        None => {},
    }
    if raw_missing {
        problems.push(
            ProblemItem {
                survey_id_base: k.clone(),
                survey_id_detected: folder_detected(&graded),
                raw_path: None,
                graded_path: folder_path(&graded),
                problem_type: ProblemKind::RawMissing,
                details: None,
            },
        );
    }
    if graded_missing {
        problems.push(
            ProblemItem {
                survey_id_base: k.clone(),
                survey_id_detected: folder_detected(&raw),
                raw_path: folder_path(&raw),
                graded_path: None,
                problem_type: ProblemKind::GradedMissing,
                details: None,
            },
        );
    }
    proof {
        assert(problem_views(problems@) =~= problems_for(k@, rv, gv));
    }
    (ScanEntry { base_key: k.clone(), raw, graded, status, problem_type, details }, problems)
}

fn add_keys(keys: &mut Vec<String>, list: &Vec<DiscoveredFolder>)
    requires
        sorted_strictly(strs(old(keys)@)),
    ensures
        sorted_strictly(strs(final(keys)@)),
        strs(final(keys)@).to_set() == strs(old(keys)@).to_set() + keys_of(list@),
{
    let ghost start = strs(keys@).to_set();
    let mut i: usize = 0;
    while i < list.len()
        invariant
            i <= list.len(),
            sorted_strictly(strs(keys@)),
            strs(keys@).to_set() == start + keys_of(list@.subrange(0, i as int)),
        decreases list.len() - i,
    {
        insert_key(keys, &list[i].base_key);
        proof {
            let pre = list@.subrange(0, i + 1);
            assert(keys_of(pre) =~= keys_of(list@.subrange(0, i as int)).insert(list@[i as int].base_key@)) by {
                assert(pre[i as int] == list@[i as int]);
                assert forall|x: Seq<char>| keys_of(pre).contains(x) implies keys_of(list@.subrange(0, i as int)).insert(list@[i as int].base_key@).contains(x) by {
                    let j = choose|j: int| 0 <= j < pre.len() && #[trigger] pre[j].base_key@ == x;
                    if j < i {
                        assert(list@.subrange(0, i as int)[j].base_key@ == x);
                    }
                }
                assert forall|x: Seq<char>| keys_of(list@.subrange(0, i as int)).contains(x) implies keys_of(pre).contains(x) by {
                    let j = choose|j: int| 0 <= j < i && #[trigger] list@.subrange(0, i as int)[j].base_key@ == x;
                    assert(pre[j].base_key@ == x);
                }
            }
            assert(strs(keys@).to_set() =~= start + keys_of(pre));
        }
        i = i + 1;
    }
    assert(list@.subrange(0, list.len() as int) =~= list@);
}

/// Pairs the survey folders found in the raw tree with those found in the
/// graded tree: one entry per base key of either tree, in increasing order of
/// key, with the structural problems of each key.
pub fn scan_roots(raw: &Vec<DiscoveredFolder>, graded: &Vec<DiscoveredFolder>) -> (r: ScanResult)
    ensures
        scan_spec(raw@, graded@, r),
{
    let mut keys: Vec<String> = Vec::new();
    proof {
        assert(strs(keys@).to_set() =~= Set::<Seq<char>>::empty());
    }
    add_keys(&mut keys, raw);
    add_keys(&mut keys, graded);
    proof {
        assert(strs(keys@).to_set() =~= keys_of(raw@) + keys_of(graded@));
    }
    let ghost kv = strs(keys@);
    let mut entries: Vec<ScanEntry> = Vec::new();
    let mut problems: Vec<ProblemItem> = Vec::new();
    let mut i: usize = 0;
    while i < keys.len()
        invariant
            i <= keys.len(),
            kv == strs(keys@),
            entry_keys(entries@) == kv.subrange(0, i as int),
            forall|j: int|
                0 <= j < entries@.len() ==> (#[trigger] entries@[j])@ == entry_of(
                    kv[j],
                    group_of(raw@, kv[j]),
                    group_of(graded@, kv[j]),
                ),
            problem_views(problems@) == problems_upto(raw@, graded@, kv.subrange(0, i as int)),
        decreases keys.len() - i,
    {
        let k = &keys[i];
        let r = collect_group(raw, k);
        let g = collect_group(graded, k);
        let (entry, mut ps) = resolve_key(k, &r, &g);
        let ghost before_entries = entries@;
        let ghost before_problems = problems@;
        let ghost ps_views = problem_views(ps@);
        entries.push(entry);
        problems.append(&mut ps);
        proof {
            assert(kv.subrange(0, i + 1).drop_last() =~= kv.subrange(0, i as int));
            assert(entry_keys(entries@) =~= kv.subrange(0, i + 1));
            assert(problem_views(problems@) =~= problem_views(before_problems) + ps_views);
            assert(forall|j: int| 0 <= j < i ==> entries@[j] == before_entries[j]);
        }
        i = i + 1;
    }
    proof {
        assert(kv.subrange(0, keys.len() as int) =~= kv);
        assert(entry_keys(entries@) =~= kv);
    }
    ScanResult { entries, problems }
}

/// The number of empty sides among the keys.
pub open spec fn missing_sides(raw: Seq<DiscoveredFolder>, graded: Seq<DiscoveredFolder>, keys: Seq<Seq<char>>) -> nat
    decreases keys.len(),
{
    if keys.len() == 0 {
        0
    } else {
        let k = keys.last();
        missing_sides(raw, graded, keys.drop_last()) + (if group_of(raw, k).len() == 0 { 1nat } else { 0nat })
            + (if group_of(graded, k).len() == 0 { 1nat } else { 0nat })
    }
}

/// The number of sides with more than one folder among the keys.
pub open spec fn duplicated_sides(raw: Seq<DiscoveredFolder>, graded: Seq<DiscoveredFolder>, keys: Seq<Seq<char>>) -> nat
    decreases keys.len(),
{
    if keys.len() == 0 {
        0
    } else {
        let k = keys.last();
        duplicated_sides(raw, graded, keys.drop_last()) + (if group_of(raw, k).len() >= 2 { 1nat } else { 0nat })
            + (if group_of(graded, k).len() >= 2 { 1nat } else { 0nat })
    }
}

proof fn lemma_problems_upto_len(raw: Seq<DiscoveredFolder>, graded: Seq<DiscoveredFolder>, keys: Seq<Seq<char>>)
    ensures
        problems_upto(raw, graded, keys).len() == missing_sides(raw, graded, keys) + duplicated_sides(raw, graded, keys),
    decreases keys.len(),
{
    if keys.len() > 0 {
        lemma_problems_upto_len(raw, graded, keys.drop_last());
    }
}

proof fn lemma_problems_upto_holds(raw: Seq<DiscoveredFolder>, graded: Seq<DiscoveredFolder>, keys: Seq<Seq<char>>, i: int)
    requires
        0 <= i < keys.len(),
    ensures
        forall|p: ProblemView| problems_for(keys[i], group_of(raw, keys[i]), group_of(graded, keys[i])).contains(p)
            ==> problems_upto(raw, graded, keys).contains(p),
    decreases keys.len(),
{
    let k = keys[i];
    let here = problems_for(k, group_of(raw, k), group_of(graded, k));
    let all = problems_upto(raw, graded, keys);
    if i == keys.len() - 1 {
        let prev = problems_upto(raw, graded, keys.drop_last());
        assert forall|p: ProblemView| here.contains(p) implies all.contains(p) by {
            let j = choose|j: int| 0 <= j < here.len() && here[j] == p;
            assert(all[prev.len() + j] == p);
        }
    } else {
        lemma_problems_upto_holds(raw, graded, keys.drop_last(), i);
        let prev = problems_upto(raw, graded, keys.drop_last());
        assert(keys.drop_last()[i] == k);
        assert forall|p: ProblemView| here.contains(p) implies all.contains(p) by {
            assert(prev.contains(p));
            let j = choose|j: int| 0 <= j < prev.len() && prev[j] == p;
            assert(all[j] == p);
        }
    }
}

/// Every base key with no folder on one side is reported by a missing-side
/// problem and has the problem status; the problem list holds exactly one
/// record per empty side and one per duplicated side.
pub proof fn lemma_missing_sides_reported(raw: Seq<DiscoveredFolder>, graded: Seq<DiscoveredFolder>, r: ScanResult)
    requires
        scan_spec(raw, graded, r),
    ensures
        forall|i: int| 0 <= i < r.entries@.len() && group_of(raw, #[trigger] r.entries@[i].base_key@).len() == 0
            ==> r.entries@[i].status == EntryStatus::Problem && exists|j: int| 0 <= j < r.problems@.len()
                && r.problems@[j].problem_type == ProblemKind::RawMissing && r.problems@[j].survey_id_base@
                == r.entries@[i].base_key@,
        forall|i: int| 0 <= i < r.entries@.len() && group_of(graded, #[trigger] r.entries@[i].base_key@).len() == 0
            ==> r.entries@[i].status == EntryStatus::Problem && exists|j: int| 0 <= j < r.problems@.len()
                && r.problems@[j].problem_type == ProblemKind::GradedMissing && r.problems@[j].survey_id_base@
                == r.entries@[i].base_key@,
        r.problems@.len() == missing_sides(raw, graded, entry_keys(r.entries@)) + duplicated_sides(
            raw,
            graded,
            entry_keys(r.entries@),
        ),
{
    let keys = entry_keys(r.entries@);
    let pv = problem_views(r.problems@);
    lemma_problems_upto_len(raw, graded, keys);
    assert forall|i: int| 0 <= i < r.entries@.len() && group_of(raw, #[trigger] r.entries@[i].base_key@).len() == 0
        implies r.entries@[i].status == EntryStatus::Problem && exists|j: int| 0 <= j < r.problems@.len()
            && r.problems@[j].problem_type == ProblemKind::RawMissing && r.problems@[j].survey_id_base@
            == r.entries@[i].base_key@ by {
        let k = keys[i];
        assert(k == r.entries@[i].base_key@);
        assert(r.entries@[i]@ == entry_of(k, group_of(raw, k), group_of(graded, k)));
        lemma_problems_upto_holds(raw, graded, keys, i);
        let p = raw_missing_problem(k, resolved(group_of(graded, k)));
        let here = problems_for(k, group_of(raw, k), group_of(graded, k));
        let g = group_of(graded, k);
        assert(here.contains(p)) by {
            let a = seq_if(group_of(raw, k).len() >= 2, duplicate_problem(k, group_of(raw, k), ProblemKind::DuplicateRaw));
            let b = seq_if(g.len() >= 2, duplicate_problem(k, g, ProblemKind::DuplicateGraded));
            assert(here[(a.len() + b.len()) as int] == p);
        }
        assert(pv.contains(p));
        let j = choose|j: int| 0 <= j < pv.len() && pv[j] == p;
        assert(r.problems@[j]@ == p);
    }
    assert forall|i: int| 0 <= i < r.entries@.len() && group_of(graded, #[trigger] r.entries@[i].base_key@).len() == 0
        implies r.entries@[i].status == EntryStatus::Problem && exists|j: int| 0 <= j < r.problems@.len()
            && r.problems@[j].problem_type == ProblemKind::GradedMissing && r.problems@[j].survey_id_base@
            == r.entries@[i].base_key@ by {
        let k = keys[i];
        assert(k == r.entries@[i].base_key@);
        assert(r.entries@[i]@ == entry_of(k, group_of(raw, k), group_of(graded, k)));
        lemma_problems_upto_holds(raw, graded, keys, i);
        let p = graded_missing_problem(k, resolved(group_of(raw, k)));
        let here = problems_for(k, group_of(raw, k), group_of(graded, k));
        assert(here.contains(p)) by {
            assert(here[here.len() - 1] == p);
        }
        assert(pv.contains(p));
        let j = choose|j: int| 0 <= j < pv.len() && pv[j] == p;
        assert(r.problems@[j]@ == p);
    }
}

/// Two strictly sorted lists with the same elements are the same list.
proof fn lemma_sorted_unique(a: Seq<Seq<char>>, b: Seq<Seq<char>>)
    requires
        sorted_strictly(a),
        sorted_strictly(b),
        a.to_set() == b.to_set(),
    ensures
        a == b,
    decreases a.len(),
{
    if a.len() == 0 {
        if b.len() > 0 {
            assert(b.to_set().contains(b[0]));
        }
        assert(a =~= b);
    } else {
        assert(a.to_set().contains(a[0]));
        assert(b.len() > 0);
        assert(b.to_set().contains(b[0]));
        let i = choose|i: int| 0 <= i < a.len() && a[i] == b[0];
        let j = choose|j: int| 0 <= j < b.len() && b[j] == a[0];
        if a[0] != b[0] {
            assert(i > 0 && j > 0);
            assert(str_lt(a[0], a[i]));
            assert(str_lt(b[0], b[j]));
            lemma_str_lt_transitive(a[0], b[0], a[0]);
            lemma_str_lt_irreflexive(a[0]);
        }
        let ta = a.drop_first();
        let tb = b.drop_first();
        assert forall|x: Seq<char>| ta.to_set().contains(x) <==> tb.to_set().contains(x) by {
            if ta.to_set().contains(x) {
                let k = choose|k: int| 0 <= k < ta.len() && ta[k] == x;
                assert(a[k + 1] == x);
                assert(str_lt(a[0], x));
                assert(b.to_set().contains(x));
                let m = choose|m: int| 0 <= m < b.len() && b[m] == x;
                if m == 0 {
                    lemma_str_lt_irreflexive(x);
                }
                assert(tb[m - 1] == x);
            }
            if tb.to_set().contains(x) {
                let k = choose|k: int| 0 <= k < tb.len() && tb[k] == x;
                assert(b[k + 1] == x);
                assert(str_lt(b[0], x));
                assert(a.to_set().contains(x));
                let m = choose|m: int| 0 <= m < a.len() && a[m] == x;
                if m == 0 {
                    lemma_str_lt_irreflexive(x);
                }
                assert(ta[m - 1] == x);
            }
        }
        assert(ta.to_set() =~= tb.to_set());
        lemma_sorted_unique(ta, tb);
        assert(a =~= seq![a[0]] + ta);
        assert(b =~= seq![b[0]] + tb);
    }
}

/// Pairing the same two trees twice gives the same entries, in the same
/// order, and the same problems.
pub proof fn lemma_scan_deterministic(
    raw: Seq<DiscoveredFolder>,
    graded: Seq<DiscoveredFolder>,
    s1: ScanResult,
    s2: ScanResult,
)
    requires
        scan_spec(raw, graded, s1),
        scan_spec(raw, graded, s2),
    ensures
        s1.entries@.len() == s2.entries@.len(),
        forall|i: int| 0 <= i < s1.entries@.len() ==> (#[trigger] s1.entries@[i])@ == s2.entries@[i]@,
        problem_views(s1.problems@) == problem_views(s2.problems@),
{
    let k1 = entry_keys(s1.entries@);
    let k2 = entry_keys(s2.entries@);
    lemma_sorted_unique(k1, k2);
    assert forall|i: int| 0 <= i < s1.entries@.len() implies (#[trigger] s1.entries@[i])@ == s2.entries@[i]@ by {
        assert(k1[i] == k2[i]);
        assert(s2.entries@[i]@ == entry_of(k2[i], group_of(raw, k2[i]), group_of(graded, k2[i])));
    }
}

proof fn lemma_bases_in_keys(raw: Seq<DiscoveredFolder>, graded: Seq<DiscoveredFolder>, keys: Seq<Seq<char>>)
    ensures
        forall|j: int|
            0 <= j < problems_upto(raw, graded, keys).len() ==> keys.contains(
                (#[trigger] problems_upto(raw, graded, keys)[j]).survey_id_base,
            ),
    decreases keys.len(),
{
    if keys.len() > 0 {
        let prev = problems_upto(raw, graded, keys.drop_last());
        let all = problems_upto(raw, graded, keys);
        lemma_bases_in_keys(raw, graded, keys.drop_last());
        assert forall|j: int| 0 <= j < all.len() implies keys.contains((#[trigger] all[j]).survey_id_base) by {
            if j < prev.len() {
                assert(all[j] == prev[j]);
                let m = choose|m: int| 0 <= m < keys.drop_last().len() && keys.drop_last()[m] == prev[j].survey_id_base;
                assert(keys[m] == prev[j].survey_id_base);
            } else {
                assert(all[j].survey_id_base == keys.last());
                assert(keys[keys.len() - 1] == keys.last());
            }
        }
    }
}

/// The missing-side problem that a key with an empty side gets.
pub open spec fn missing_problem(
    k: Seq<char>,
    r: Seq<SurveyFolderView>,
    g: Seq<SurveyFolderView>,
    kind: ProblemKind,
) -> ProblemView {
    if kind == ProblemKind::RawMissing {
        raw_missing_problem(k, resolved(g))
    } else {
        graded_missing_problem(k, resolved(r))
    }
}

/// The problems of one key: all carry the key, and where the side of `kind`
/// is empty, exactly one has that kind.
proof fn lemma_key_problems(k: Seq<char>, r: Seq<SurveyFolderView>, g: Seq<SurveyFolderView>, kind: ProblemKind)
    requires
        kind == ProblemKind::RawMissing ==> r.len() == 0,
        kind == ProblemKind::GradedMissing ==> g.len() == 0,
        kind == ProblemKind::RawMissing || kind == ProblemKind::GradedMissing,
    ensures
        exists|idx: int|
            0 <= idx < problems_for(k, r, g).len() && problems_for(k, r, g)[idx] == missing_problem(k, r, g, kind)
                && forall|m: int|
                0 <= m < problems_for(k, r, g).len() && (#[trigger] problems_for(k, r, g)[m]).problem_type == kind
                    ==> m == idx,
{
    let here = problems_for(k, r, g);
    let a = seq_if(r.len() >= 2, duplicate_problem(k, r, ProblemKind::DuplicateRaw));
    let b = seq_if(g.len() >= 2, duplicate_problem(k, g, ProblemKind::DuplicateGraded));
    let c = seq_if(r.len() == 0, raw_missing_problem(k, resolved(g)));
    let d = seq_if(g.len() == 0, graded_missing_problem(k, resolved(r)));
    assert(here == a + b + c + d);
    let idx: int = if kind == ProblemKind::RawMissing {
        (a.len() + b.len()) as int
    } else {
        (a.len() + b.len() + c.len()) as int
    };
    assert(here[idx] == missing_problem(k, r, g, kind));
}

#[verifier::opaque]
pub open spec fn distinct(keys: Seq<Seq<char>>) -> bool {
    forall|i: int, j: int| 0 <= i < keys.len() && 0 <= j < keys.len() && i != j ==> keys[i] != keys[j]
}

proof fn lemma_missing_once(
    raw: Seq<DiscoveredFolder>,
    graded: Seq<DiscoveredFolder>,
    keys: Seq<Seq<char>>,
    k: Seq<char>,
    kind: ProblemKind,
    pos: int,
)
    requires
        distinct(keys),
        0 <= pos < keys.len(),
        keys[pos] == k,
        kind == ProblemKind::RawMissing ==> group_of(raw, k).len() == 0,
        kind == ProblemKind::GradedMissing ==> group_of(graded, k).len() == 0,
        kind == ProblemKind::RawMissing || kind == ProblemKind::GradedMissing,
    ensures
        exists|j: int|
            0 <= j < problems_upto(raw, graded, keys).len() && problems_upto(raw, graded, keys)[j]
                == missing_problem(k, group_of(raw, k), group_of(graded, k), kind) && forall|j2: int|
                0 <= j2 < problems_upto(raw, graded, keys).len() && (#[trigger] problems_upto(
                    raw,
                    graded,
                    keys,
                )[j2]).survey_id_base == k && problems_upto(raw, graded, keys)[j2].problem_type == kind
                    ==> j2 == j,
    decreases keys.len(),
{
    let all = problems_upto(raw, graded, keys);
    let last = keys.last();
    let init = keys.drop_last();
    let prev = problems_upto(raw, graded, init);
    let r = group_of(raw, last);
    let g = group_of(graded, last);
    let here = problems_for(last, r, g);
    assert(all =~= prev + here);
    reveal(distinct);
    if pos == keys.len() - 1 {
        lemma_bases_in_keys(raw, graded, init);
        lemma_key_problems(last, r, g, kind);
        let idx = choose|idx: int|
            0 <= idx < here.len() && here[idx] == missing_problem(last, r, g, kind) && forall|m: int|
                0 <= m < here.len() && (#[trigger] here[m]).problem_type == kind ==> m == idx;
        let j = prev.len() + idx;
        assert(all[j] == here[idx]);
        assert forall|j2: int|
            0 <= j2 < all.len() && (#[trigger] all[j2]).survey_id_base == k && all[j2].problem_type == kind
            implies j2 == j by {
            if j2 < prev.len() {
                assert(all[j2] == prev[j2]);
                assert(init.contains(prev[j2].survey_id_base));
                let m = choose|m: int| 0 <= m < init.len() && init[m] == prev[j2].survey_id_base;
                assert(keys[m] == keys[pos]);
            } else {
                assert(all[j2] == here[j2 - prev.len()]);
            }
        }
    } else {
        assert(distinct(init));
        assert(init[pos] == k);
        lemma_missing_once(raw, graded, init, k, kind, pos);
        let j = choose|j: int|
            0 <= j < prev.len() && prev[j] == missing_problem(k, group_of(raw, k), group_of(graded, k), kind)
                && forall|j2: int|
                0 <= j2 < prev.len() && (#[trigger] prev[j2]).survey_id_base == k && prev[j2].problem_type
                    == kind ==> j2 == j;
        lemma_key_problems_bases(last, r, g);
        assert(all[j] == prev[j]);
        assert forall|j2: int|
            0 <= j2 < all.len() && (#[trigger] all[j2]).survey_id_base == k && all[j2].problem_type == kind
            implies j2 == j by {
            if j2 < prev.len() {
                assert(all[j2] == prev[j2]);
            } else {
                assert(all[j2] == here[j2 - prev.len()]);
                assert(keys[keys.len() - 1] != keys[pos]);
            }
        }
    }
}

proof fn lemma_key_problems_bases(k: Seq<char>, r: Seq<SurveyFolderView>, g: Seq<SurveyFolderView>)
    ensures
        forall|m: int| 0 <= m < problems_for(k, r, g).len() ==> (#[trigger] problems_for(k, r, g)[m]).survey_id_base == k,
{
    let a = seq_if(r.len() >= 2, duplicate_problem(k, r, ProblemKind::DuplicateRaw));
    let b = seq_if(g.len() >= 2, duplicate_problem(k, g, ProblemKind::DuplicateGraded));
    let c = seq_if(r.len() == 0, raw_missing_problem(k, resolved(g)));
    let d = seq_if(g.len() == 0, graded_missing_problem(k, resolved(r)));
    assert(problems_for(k, r, g) == a + b + c + d);
}

proof fn lemma_sorted_distinct(keys: Seq<Seq<char>>)
    requires
        sorted_strictly(keys),
    ensures
        distinct(keys),
{
    reveal(distinct);
    assert forall|i: int, j: int| 0 <= i < keys.len() && 0 <= j < keys.len() && i != j implies keys[i] != keys[j] by {
        if keys[i] == keys[j] {
            lemma_str_lt_irreflexive(keys[i]);
            if i < j {
                assert(str_lt(keys[i], keys[j]));
            } else {
                assert(str_lt(keys[j], keys[i]));
            }
        }
    }
}


proof fn lemma_key_position(raw: Seq<DiscoveredFolder>, graded: Seq<DiscoveredFolder>, r: ScanResult, k: Seq<char>) -> (pos: int)
    requires
        scan_spec(raw, graded, r),
        keys_of(raw).contains(k) || keys_of(graded).contains(k),
    ensures
        0 <= pos < r.entries@.len(),
        entry_keys(r.entries@)[pos] == k,
        distinct(entry_keys(r.entries@)),
{
    let keys = entry_keys(r.entries@);
    assert((keys_of(raw) + keys_of(graded)).contains(k));
    assert(keys.to_set().contains(k));
    lemma_sorted_distinct(keys);
    choose|pos: int| 0 <= pos < keys.len() && keys[pos] == k
}

/// A base key of the graded tree with no raw folder has exactly one
/// raw-missing problem: no raw path, and the path and identity of the graded
/// folder where that side resolved. Its entry has the problem status and no
/// raw folder. The same holds the other way round for a key of the raw tree
/// with no graded folder.
pub proof fn lemma_missing_side_reported_once(
    raw: Seq<DiscoveredFolder>,
    graded: Seq<DiscoveredFolder>,
    r: ScanResult,
    k: Seq<char>,
    kind: ProblemKind,
)
    requires
        scan_spec(raw, graded, r),
        kind == ProblemKind::RawMissing ==> keys_of(graded).contains(k) && group_of(raw, k).len() == 0,
        kind == ProblemKind::GradedMissing ==> keys_of(raw).contains(k) && group_of(graded, k).len() == 0,
        kind == ProblemKind::RawMissing || kind == ProblemKind::GradedMissing,
    ensures
        exists|j: int|
            0 <= j < problem_views(r.problems@).len() && problem_views(r.problems@)[j] == missing_problem(
                k,
                group_of(raw, k),
                group_of(graded, k),
                kind,
            ) && forall|j2: int|
                0 <= j2 < problem_views(r.problems@).len() && (#[trigger] problem_views(r.problems@)[j2]).survey_id_base
                    == k && problem_views(r.problems@)[j2].problem_type == kind ==> j2 == j,
        exists|i: int|
            0 <= i < r.entries@.len() && (#[trigger] r.entries@[i]).base_key@ == k && r.entries@[i].status
                == EntryStatus::Problem && (kind == ProblemKind::RawMissing ==> r.entries@[i].raw is None)
                && (kind == ProblemKind::GradedMissing ==> r.entries@[i].graded is None),
{
    let keys = entry_keys(r.entries@);
    let pos = lemma_key_position(raw, graded, r, k);
    lemma_missing_once(raw, graded, keys, k, kind, pos);
    assert(r.entries@[pos]@ == entry_of(keys[pos], group_of(raw, keys[pos]), group_of(graded, keys[pos])));
    assert(r.entries@[pos].base_key@ == k);
}

} // verus!
