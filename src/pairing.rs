//! Image correspondence within one survey pair: graded candidates of each raw
//! image, the winning candidate and the retain flag.

use vstd::prelude::*;
use vstd::string::*;
use crate::identity::{
    ImageFile, SurveyFolder, compute_file_id, file_id_of, is_supported_image, normalize_relpath,
    relpath_of, supported_spec,
};
use crate::rules::{CompiledRules, pattern_matches};
use crate::text::{
    byte_len, contains_str, utf8_len, copy_opt, is_single_char, is_substring, less_than, lower_of, lowercase, opt_str,
    single, str_lt, strs,
};

verus! {

/// The class of the winning graded candidate; `Raw` where there is none.
#[derive(PartialEq, Eq, Structural, Clone, Copy, Debug)]
pub enum WinnerType {
    Ind,
    Secondary,
    Other,
    Raw,
}

impl WinnerType {
    pub open spec fn label_spec(&self) -> Seq<char> {
        match self {
            WinnerType::Ind => "IND"@,
            WinnerType::Secondary => "SECONDARY"@,
            WinnerType::Other => "OTHER"@,
            WinnerType::Raw => "RAW"@,
        }
    }

    /// The name the reports use.
    pub fn label(&self) -> (r: String)
        ensures
            r@ == self.label_spec(),
    {
        match self {
            WinnerType::Ind => String::from_str("IND"),
            WinnerType::Secondary => String::from_str("SECONDARY"),
            WinnerType::Other => String::from_str("OTHER"),
            WinnerType::Raw => String::from_str("RAW"),
        }
    }

    /// The rank in winner selection: lower wins.
    pub open spec fn rank(&self) -> nat {
        match self {
            WinnerType::Ind => 1,
            WinnerType::Secondary => 2,
            _ => 99,
        }
    }
}

/// Some token occurs in `hay`.
pub open spec fn contains_any(hay: Seq<char>, tokens: Seq<Seq<char>>) -> bool {
    exists|i: int| 0 <= i < tokens.len() && is_substring(#[trigger] tokens[i], hay)
}

/// The class of a graded candidate path: `Ind` where the priority pattern
/// matches the lower-cased path, else `Secondary` where a secondary token
/// occurs in it, else `Other`.
pub open spec fn class_of(rules: &CompiledRules, candidate: Seq<char>) -> WinnerType {
    let lower = lower_of(candidate);
    if pattern_matches(rules.ind_re.pattern(), lower) {
        WinnerType::Ind
    } else if contains_any(lower, strs(rules.secondary_tokens@)) {
        WinnerType::Secondary
    } else {
        WinnerType::Other
    }
}

/// Candidate `a` goes before `b`: lower rank, then fewer UTF-8 bytes, then
/// the smaller string.
pub open spec fn before(rules: &CompiledRules, a: Seq<char>, b: Seq<char>) -> bool {
    let ra = class_of(rules, a).rank();
    let rb = class_of(rules, b).rank();
    ra < rb || (ra == rb && (utf8_len(a) < utf8_len(b) || (utf8_len(a) == utf8_len(b) && str_lt(a, b))))
}

fn any_contained(hay: &str, tokens: &Vec<String>) -> (r: bool)
    ensures
        r == contains_any(hay@, strs(tokens@)),
{
    let mut i: usize = 0;
    while i < tokens.len()
        invariant
            i <= tokens.len(),
            forall|j: int| 0 <= j < i ==> !is_substring(#[trigger] strs(tokens@)[j], hay@),
        decreases tokens.len() - i,
    {
        if contains_str(hay, tokens[i].as_str()) {
            assert(strs(tokens@)[i as int] == tokens@[i as int]@);
            return true;
        }
        i = i + 1;
    }
    false
}

pub fn classify_candidate(rules: &CompiledRules, candidate: &str) -> (r: WinnerType)
    ensures
        r == class_of(rules, candidate@),
{
    let lower = lowercase(candidate);
    if rules.ind_re.is_match(lower.as_str()) {
        WinnerType::Ind
    } else if any_contained(lower.as_str(), &rules.secondary_tokens) {
        WinnerType::Secondary
    } else {
        WinnerType::Other
    }
}

fn rank_of(t: WinnerType) -> (r: u8)
    ensures
        r as nat == t.rank(),
{
    match t {
        WinnerType::Ind => 1,
        WinnerType::Secondary => 2,
        _ => 99,
    }
}

/// The graded candidate chosen for a raw image.
#[derive(Clone, Debug)]
pub struct CandidateWinner {
    pub relpath: String,
    pub winner_type: WinnerType,
}

/// The candidate that goes before every other one, with its class.
pub open spec fn is_winner(rules: &CompiledRules, candidates: Seq<Seq<char>>, relpath: Seq<char>, t: WinnerType) -> bool {
    &&& candidates.contains(relpath)
    &&& t == class_of(rules, relpath)
    &&& forall|j: int| 0 <= j < candidates.len() ==> !before(rules, #[trigger] candidates[j], relpath)
}

/// Picks the winner among the graded candidates of a raw image; `None` where
/// there are none.
pub fn select_winner(rules: &CompiledRules, candidates: &Vec<String>) -> (r: Option<CandidateWinner>)
    ensures
        match r {
            Some(w) => is_winner(rules, strs(candidates@), w.relpath@, w.winner_type),
            None => candidates@.len() == 0,
        },
{
    if candidates.len() == 0 {
        return None;
    }
    let ghost cs = strs(candidates@);
    let mut best: usize = 0;
    let mut best_type = classify_candidate(rules, candidates[0].as_str());
    let mut best_len = byte_len(candidates[0].as_str());
    let mut i: usize = 1;
    proof {
        assert(cs[0] == candidates@[0]@);
        crate::text::lemma_str_lt_irreflexive(cs[0]);
    }
    while i < candidates.len()
        invariant
            cs == strs(candidates@),
            1 <= i <= candidates.len(),
            best < i,
            best_type == class_of(rules, cs[best as int]),
            best_len as nat == utf8_len(cs[best as int]),
            forall|j: int| 0 <= j < i ==> !before(rules, #[trigger] cs[j], cs[best as int]),
        decreases candidates.len() - i,
    {
        let t = classify_candidate(rules, candidates[i].as_str());
        let len = byte_len(candidates[i].as_str());
        let rt = rank_of(t);
        let rb = rank_of(best_type);
        let wins = rt < rb || (rt == rb && (len < best_len || (len == best_len && less_than(
            candidates[i].as_str(),
            candidates[best].as_str(),
        ))));
        proof {
            assert(cs[i as int] == candidates@[i as int]@);
            assert(cs[best as int] == candidates@[best as int]@);
        }
        if wins {
            proof {
                assert forall|j: int| 0 <= j < i + 1 implies !before(rules, #[trigger] cs[j], cs[i as int]) by {
                    if j < i {
                        assert(!before(rules, cs[j], cs[best as int]));
                        lemma_before_transitive(rules, cs[j], cs[i as int], cs[best as int]);
                    } else {
                        crate::text::lemma_str_lt_irreflexive(cs[j]);
                    }
                }
            }
            best = i;
            best_type = t;
            best_len = len;
        } else {
            proof {
                if cs[i as int] != cs[best as int] {
                    crate::text::lemma_str_lt_total(cs[i as int], cs[best as int]);
                }
            }
        }
        i = i + 1;
    }
    proof {
        assert(cs.contains(cs[best as int]));
    }
    Some(CandidateWinner { relpath: candidates[best].clone(), winner_type: best_type })
}

/// Where `a` does not go before `c` and `b` goes before `c`, `a` does not go
/// before `b` either.
proof fn lemma_before_transitive(rules: &CompiledRules, a: Seq<char>, b: Seq<char>, c: Seq<char>)
    requires
        !before(rules, a, c),
        before(rules, b, c),
    ensures
        !before(rules, a, b),
{
    if before(rules, a, b) {
        if class_of(rules, a).rank() == class_of(rules, b).rank() && utf8_len(a) == utf8_len(b)
            && class_of(rules, b).rank() == class_of(rules, c).rank() && utf8_len(b) == utf8_len(c) {
            crate::text::lemma_str_lt_transitive(a, b, c);
        }
    }
}

/// The wildcard token `*` is among the tokens.
pub open spec fn has_wildcard(tokens: Seq<Seq<char>>) -> bool {
    tokens.contains(single('*'))
}

/// A token list matches the candidates: it is not empty, and it holds the
/// wildcard or a token that occurs in some lower-cased candidate.
pub open spec fn tokens_match(candidates: Seq<Seq<char>>, tokens: Seq<Seq<char>>) -> bool {
    &&& tokens.len() > 0
    &&& (has_wildcard(tokens) || exists|i: int|
        0 <= i < candidates.len() && contains_any(lower_of(#[trigger] candidates[i]), tokens))
}

fn has_wildcard_token(tokens: &Vec<String>) -> (r: bool)
    ensures
        r == has_wildcard(strs(tokens@)),
{
    let mut i: usize = 0;
    while i < tokens.len()
        invariant
            i <= tokens.len(),
            forall|j: int| 0 <= j < i ==> #[trigger] strs(tokens@)[j] != single('*'),
        decreases tokens.len() - i,
    {
        if is_single_char(tokens[i].as_str(), '*') {
            assert(strs(tokens@)[i as int] == single('*'));
            return true;
        }
        i = i + 1;
    }
    false
}

pub fn any_token_match(candidates: &Vec<String>, tokens: &Vec<String>) -> (r: bool)
    ensures
        r == tokens_match(strs(candidates@), strs(tokens@)),
{
    if tokens.len() == 0 {
        return false;
    }
    if has_wildcard_token(tokens) {
        return true;
    }
    let ghost cs = strs(candidates@);
    let mut i: usize = 0;
    while i < candidates.len()
        invariant
            i <= candidates.len(),
            cs == strs(candidates@),
            forall|j: int| 0 <= j < i ==> !contains_any(lower_of(#[trigger] cs[j]), strs(tokens@)),
        decreases candidates.len() - i,
    {
        let lower = lowercase(candidates[i].as_str());
        if any_contained(lower.as_str(), tokens) {
            assert(cs[i as int] == candidates@[i as int]@);
            return true;
        }
        assert(cs[i as int] == candidates@[i as int]@);
        i = i + 1;
    }
    false
}

/// The retain flag of a raw image with these candidates: 1 where there is a
/// candidate, no negative token matches, and the positive tokens are empty,
/// hold the wildcard or match; else 0.
pub open spec fn retain_of(rules: &CompiledRules, candidates: Seq<Seq<char>>) -> u8 {
    let positive = strs(rules.positive_tokens@);
    if candidates.len() > 0 && !tokens_match(candidates, strs(rules.negative_tokens@)) && (
    positive.len() == 0 || has_wildcard(positive) || tokens_match(candidates, positive)) {
        1
    } else {
        0
    }
}

pub fn retain_flag(rules: &CompiledRules, candidates: &Vec<String>) -> (r: u8)
    ensures
        r == retain_of(rules, strs(candidates@)),
{
    if candidates.len() == 0 {
        return 0;
    }
    let has_negative = any_token_match(candidates, &rules.negative_tokens);
    let positive_ok = rules.positive_tokens.len() == 0 || has_wildcard_token(
        &rules.positive_tokens,
    ) || any_token_match(candidates, &rules.positive_tokens);
    if !has_negative && positive_ok {
        1
    } else {
        0
    }
}

/// One report row: the outcome for one raw image.
#[derive(Clone, Debug)]
pub struct CsvRow {
    pub survey_id_base: String,
    pub raw_relpath: String,
    pub filename: String,
    pub dolphin: u8,
    pub graded_relpath: String,
    pub graded_hits: u64,
    pub graded_winner_type: WinnerType,
    pub survey_id_raw_detected: Option<String>,
    pub survey_id_graded_detected: Option<String>,
}

pub struct CsvRowView {
    pub survey_id_base: Seq<char>,
    pub raw_relpath: Seq<char>,
    pub filename: Seq<char>,
    pub dolphin: u8,
    pub graded_relpath: Seq<char>,
    pub graded_hits: u64,
    pub graded_winner_type: WinnerType,
    pub survey_id_raw_detected: Option<Seq<char>>,
    pub survey_id_graded_detected: Option<Seq<char>>,
}

impl View for CsvRow {
    type V = CsvRowView;

    open spec fn view(&self) -> CsvRowView {
        CsvRowView {
            survey_id_base: self.survey_id_base@,
            raw_relpath: self.raw_relpath@,
            filename: self.filename@,
            dolphin: self.dolphin,
            graded_relpath: self.graded_relpath@,
            graded_hits: self.graded_hits,
            graded_winner_type: self.graded_winner_type,
            survey_id_raw_detected: opt_str(self.survey_id_raw_detected),
            survey_id_graded_detected: opt_str(self.survey_id_graded_detected),
        }
    }
}

/// A graded image under its identity key.
#[derive(Clone, Debug)]
pub struct GradedImage {
    pub id: String,
    pub relpath: String,
}

/// The files of an allowed extension, in the order given.
pub open spec fn supported_files(rules: &CompiledRules, files: Seq<ImageFile>) -> Seq<ImageFile>
    decreases files.len(),
{
    if files.len() == 0 {
        Seq::empty()
    } else {
        let rest = supported_files(rules, files.drop_last());
        if supported_spec(rules, opt_str(files.last().extension)) {
            rest.push(files.last())
        } else {
            rest
        }
    }
}

pub open spec fn id_of(rules: &CompiledRules, f: ImageFile) -> (Seq<char>, bool) {
    file_id_of(rules, f.file_stem@, f.file_name@, f.size)
}

/// How many of the files get an ambiguous identity key.
pub open spec fn ambiguous_count(rules: &CompiledRules, files: Seq<ImageFile>) -> nat
    decreases files.len(),
{
    if files.len() == 0 {
        0
    } else {
        ambiguous_count(rules, files.drop_last()) + if id_of(rules, files.last()).1 {
            1nat
        } else {
            0nat
        }
    }
}

/// The relative paths of the graded images whose key is `id`, in order.
pub open spec fn candidates_of(rules: &CompiledRules, root: Seq<char>, graded: Seq<ImageFile>, id: Seq<char>) -> Seq<Seq<char>>
    decreases graded.len(),
{
    if graded.len() == 0 {
        Seq::empty()
    } else {
        let rest = candidates_of(rules, root, graded.drop_last(), id);
        if id_of(rules, graded.last()).0 == id {
            rest.push(relpath_of(graded.last().path@, root))
        } else {
            rest
        }
    }
}

pub open spec fn index_matches(rules: &CompiledRules, root: Seq<char>, graded: Seq<ImageFile>, index: Seq<GradedImage>) -> bool {
    &&& index.len() == graded.len()
    &&& forall|i: int|
        0 <= i < index.len() ==> (#[trigger] index[i]).id@ == id_of(rules, graded[i]).0
            && index[i].relpath@ == relpath_of(graded[i].path@, root)
}

/// The row of one raw image.
pub open spec fn row_of(
    rules: &CompiledRules,
    base_key: Seq<char>,
    raw: &SurveyFolder,
    graded: &SurveyFolder,
    graded_files: Seq<ImageFile>,
    f: ImageFile,
    winner: (Seq<char>, WinnerType),
) -> CsvRowView {
    let cands = candidates_of(rules, graded.path@, supported_files(rules, graded_files), id_of(rules, f).0);
    CsvRowView {
        survey_id_base: base_key,
        raw_relpath: relpath_of(f.path@, raw.path@),
        filename: f.file_name@,
        dolphin: retain_of(rules, cands),
        graded_relpath: winner.0,
        graded_hits: cands.len() as u64,
        graded_winner_type: winner.1,
        survey_id_raw_detected: opt_str(raw.detected_id),
        survey_id_graded_detected: opt_str(graded.detected_id),
    }
}

/// The winner of a row is `RAW`, of type `Raw`, where there is no candidate,
/// and the candidate that goes before all others otherwise.
pub open spec fn row_winner_ok(rules: &CompiledRules, cands: Seq<Seq<char>>, winner: (Seq<char>, WinnerType)) -> bool {
    if cands.len() == 0 {
        winner == ("RAW"@, WinnerType::Raw)
    } else {
        is_winner(rules, cands, winner.0, winner.1)
    }
}

/// The rows of one survey pair and the number of ambiguous identity keys met.
#[derive(Clone, Debug)]
pub struct PairResult {
    pub rows: Vec<CsvRow>,
    pub ambiguity_warnings: u64,
}

/// What processing a pair gives: one row per raw image of an allowed
/// extension, in the order given, each as `row_of` says with its winner; and
/// the ambiguous keys among the graded and the raw images of allowed
/// extensions.
pub open spec fn pair_spec(
    rules: &CompiledRules,
    base_key: Seq<char>,
    raw: &SurveyFolder,
    graded: &SurveyFolder,
    raw_files: Seq<ImageFile>,
    graded_files: Seq<ImageFile>,
    r: PairResult,
) -> bool {
    let sraw = supported_files(rules, raw_files);
    let sgraded = supported_files(rules, graded_files);
    &&& r.rows@.len() == sraw.len()
    &&& forall|i: int|
        0 <= i < sraw.len() ==> {
            let w = ((#[trigger] r.rows@[i]).graded_relpath@, r.rows@[i].graded_winner_type);
            &&& r.rows@[i]@ == row_of(rules, base_key, raw, graded, graded_files, sraw[i], w)
            &&& row_winner_ok(
                rules,
                candidates_of(rules, graded.path@, sgraded, id_of(rules, sraw[i]).0),
                w,
            )
        }
    &&& r.ambiguity_warnings as nat == ambiguous_count(rules, sgraded) + ambiguous_count(rules, sraw)
}

proof fn lemma_ambiguous_bound(rules: &CompiledRules, files: Seq<ImageFile>)
    ensures
        ambiguous_count(rules, files) <= files.len(),
    decreases files.len(),
{
    if files.len() > 0 {
        lemma_ambiguous_bound(rules, files.drop_last());
    }
}

proof fn lemma_supported_bound(rules: &CompiledRules, files: Seq<ImageFile>)
    ensures
        supported_files(rules, files).len() <= files.len(),
    decreases files.len(),
{
    if files.len() > 0 {
        lemma_supported_bound(rules, files.drop_last());
    }
}

/// The identity key and relative path of every graded image of an allowed
/// extension, and how many keys were ambiguous.
fn build_graded_index(rules: &CompiledRules, graded: &SurveyFolder, files: &Vec<ImageFile>) -> (r: (
    Vec<GradedImage>,
    u64,
))
    requires
        files@.len() <= u64::MAX,
    ensures
        index_matches(rules, graded.path@, supported_files(rules, files@), r.0@),
        r.1 as nat == ambiguous_count(rules, supported_files(rules, files@)),
{
    let mut index: Vec<GradedImage> = Vec::new();
    let mut ambiguous: u64 = 0;
    let mut i: usize = 0;
    while i < files.len()
        invariant
            i <= files.len(),
            files@.len() <= u64::MAX,
            index_matches(rules, graded.path@, supported_files(rules, files@.subrange(0, i as int)), index@),
            ambiguous as nat == ambiguous_count(rules, supported_files(rules, files@.subrange(0, i as int))),
        decreases files.len() - i,
    {
        let ghost pre = files@.subrange(0, i + 1);
        proof {
            assert(pre.drop_last() =~= files@.subrange(0, i as int));
            assert(pre.last() == files@[i as int]);
            lemma_ambiguous_bound(rules, supported_files(rules, files@.subrange(0, i as int)));
            lemma_supported_bound(rules, files@.subrange(0, i as int));
        }
        let f = &files[i];
        if is_supported_image(rules, &f.extension) {
            let (id, is_ambiguous) = compute_file_id(rules, f);
            if is_ambiguous {
                ambiguous = ambiguous + 1;
            }
            let relpath = normalize_relpath(f.path.as_str(), graded.path.as_str());
            index.push(GradedImage { id, relpath });
            proof {
                let sp = supported_files(rules, pre);
                assert(sp.drop_last() == supported_files(rules, files@.subrange(0, i as int)));
            }
        }
        i = i + 1;
    }
    assert(files@.subrange(0, files.len() as int) =~= files@);
    (index, ambiguous)
}

/// The relative paths of the indexed graded images whose key is `id`.
fn find_candidates(
    index: &Vec<GradedImage>,
    id: &String,
    Ghost(rules): Ghost<&CompiledRules>,
    Ghost(root): Ghost<Seq<char>>,
    Ghost(graded): Ghost<Seq<ImageFile>>,
) -> (r: Vec<String>)
    requires
        index_matches(rules, root, graded, index@),
    ensures
        strs(r@) == candidates_of(rules, root, graded, id@),
{
    let mut out: Vec<String> = Vec::new();
    let mut j: usize = 0;
    while j < index.len()
        invariant
            j <= index.len(),
            index_matches(rules, root, graded, index@),
            strs(out@) == candidates_of(rules, root, graded.subrange(0, j as int), id@),
        decreases index.len() - j,
    {
        proof {
            let pre = graded.subrange(0, j + 1);
            assert(pre.drop_last() =~= graded.subrange(0, j as int));
            assert(pre.last() == graded[j as int]);
            assert(index@[j as int].id@ == id_of(rules, graded[j as int]).0);
        }
        if index[j].id == *id {
            let ghost before = out@;
            out.push(index[j].relpath.clone());
            proof {
                assert(strs(out@) =~= strs(before).push(index@[j as int].relpath@));
            }
        }
        j = j + 1;
    }
    assert(graded.subrange(0, index.len() as int) =~= graded);
    out
}

/// Reconciles one survey pair. `raw_files` and `graded_files` are the files
/// found under the raw and the graded folder; rows follow the order of
/// `raw_files`.
pub fn process_pair(
    rules: &CompiledRules,
    base_key: &str,
    raw: &SurveyFolder,
    graded: &SurveyFolder,
    raw_files: &Vec<ImageFile>,
    graded_files: &Vec<ImageFile>,
) -> (r: PairResult)
    requires
        raw_files@.len() + graded_files@.len() <= u64::MAX,
    ensures
        pair_spec(rules, base_key@, raw, graded, raw_files@, graded_files@, r),
{
    let (index, graded_ambiguous) = build_graded_index(rules, graded, graded_files);
    let ghost sgraded = supported_files(rules, graded_files@);
    proof {
        lemma_ambiguous_bound(rules, sgraded);
        lemma_supported_bound(rules, graded_files@);
    }
    let mut ambiguity_warnings = graded_ambiguous;
    let mut rows: Vec<CsvRow> = Vec::new();
    let mut i: usize = 0;
    while i < raw_files.len()
        invariant
            i <= raw_files.len(),
            raw_files@.len() + graded_files@.len() <= u64::MAX,
            sgraded == supported_files(rules, graded_files@),
            sgraded.len() <= graded_files@.len(),
            index_matches(rules, graded.path@, sgraded, index@),
            ambiguity_warnings as nat == ambiguous_count(rules, sgraded) + ambiguous_count(
                rules,
                supported_files(rules, raw_files@.subrange(0, i as int)),
            ),
            ambiguous_count(rules, sgraded) <= sgraded.len(),
            ({
                let sraw = supported_files(rules, raw_files@.subrange(0, i as int));
                &&& rows@.len() == sraw.len()
                &&& forall|k: int|
                    0 <= k < sraw.len() ==> {
                        let w = ((#[trigger] rows@[k]).graded_relpath@, rows@[k].graded_winner_type);
                        &&& rows@[k]@ == row_of(rules, base_key@, raw, graded, graded_files@, sraw[k], w)
                        &&& row_winner_ok(
                            rules,
                            candidates_of(rules, graded.path@, sgraded, id_of(rules, sraw[k]).0),
                            w,
                        )
                    }
            }),
        decreases raw_files.len() - i,
    {
        let ghost pre = raw_files@.subrange(0, i + 1);
        let ghost sprev = supported_files(rules, raw_files@.subrange(0, i as int));
        proof {
            assert(pre.drop_last() =~= raw_files@.subrange(0, i as int));
            assert(pre.last() == raw_files@[i as int]);
            lemma_ambiguous_bound(rules, sprev);
            lemma_supported_bound(rules, raw_files@.subrange(0, i as int));
        }
        let f = &raw_files[i];
        if is_supported_image(rules, &f.extension) {
            let (id, is_ambiguous) = compute_file_id(rules, f);
            if is_ambiguous {
                ambiguity_warnings = ambiguity_warnings + 1;
            }
            let candidates = find_candidates(&index, &id, Ghost(rules), Ghost(graded.path@), Ghost(sgraded));
            let dolphin = retain_flag(rules, &candidates);
            let (graded_relpath, graded_winner_type) = match select_winner(rules, &candidates) {
                Some(w) => (w.relpath, w.winner_type),
                None => {
                    proof { reveal_strlit("RAW"); }
                    (String::from_str("RAW"), WinnerType::Raw)
                },
            };
            let row = CsvRow {
                survey_id_base: String::from_str(base_key),
                raw_relpath: normalize_relpath(f.path.as_str(), raw.path.as_str()),
                filename: f.file_name.clone(),
                dolphin,
                graded_relpath,
                graded_hits: candidates.len() as u64,
                graded_winner_type,
                survey_id_raw_detected: copy_opt(&raw.detected_id),
                survey_id_graded_detected: copy_opt(&graded.detected_id),
            };
            let ghost before = rows@;
            rows.push(row);
            proof {
                let sraw = supported_files(rules, pre);
                assert(sraw == sprev.push(raw_files@[i as int]));
                assert(sraw.drop_last() =~= sprev);
                assert(sraw.last() == raw_files@[i as int]);
                assert(id_of(rules, raw_files@[i as int]).1 == is_ambiguous);
                assert forall|k: int| 0 <= k < sraw.len() implies {
                    let w = ((#[trigger] rows@[k]).graded_relpath@, rows@[k].graded_winner_type);
                    &&& rows@[k]@ == row_of(rules, base_key@, raw, graded, graded_files@, sraw[k], w)
                    &&& row_winner_ok(
                        rules,
                        candidates_of(rules, graded.path@, sgraded, id_of(rules, sraw[k]).0),
                        w,
                    )
                } by {
                    if k < sprev.len() {
                        assert(rows@[k] == before[k]);
                        assert(sraw[k] == sprev[k]);
                    }
                }
            }
        }
        i = i + 1;
    }
    assert(raw_files@.subrange(0, raw_files.len() as int) =~= raw_files@);
    PairResult { rows, ambiguity_warnings }
}

proof fn lemma_before_total(rules: &CompiledRules, a: Seq<char>, b: Seq<char>)
    requires
        a != b,
    ensures
        before(rules, a, b) || before(rules, b, a),
{
    crate::text::lemma_str_lt_total(a, b);
}

/// A list of candidates has one winner at most.
pub proof fn lemma_winner_unique(
    rules: &CompiledRules,
    candidates: Seq<Seq<char>>,
    a: Seq<char>,
    ta: WinnerType,
    b: Seq<char>,
    tb: WinnerType,
)
    requires
        is_winner(rules, candidates, a, ta),
        is_winner(rules, candidates, b, tb),
    ensures
        a == b,
        ta == tb,
{
    let i = choose|i: int| 0 <= i < candidates.len() && candidates[i] == a;
    let j = choose|j: int| 0 <= j < candidates.len() && candidates[j] == b;
    assert(!before(rules, candidates[i], b));
    assert(!before(rules, candidates[j], a));
    if a != b {
        lemma_before_total(rules, a, b);
    }
}

/// Processing one survey pair twice on the same rules and files gives the
/// same rows, in the same order, and the same ambiguity count.
pub proof fn lemma_pair_deterministic(
    rules: &CompiledRules,
    base_key: Seq<char>,
    raw: &SurveyFolder,
    graded: &SurveyFolder,
    raw_files: Seq<ImageFile>,
    graded_files: Seq<ImageFile>,
    r1: PairResult,
    r2: PairResult,
)
    requires
        pair_spec(rules, base_key, raw, graded, raw_files, graded_files, r1),
        pair_spec(rules, base_key, raw, graded, raw_files, graded_files, r2),
    ensures
        r1.rows@.len() == r2.rows@.len(),
        forall|i: int| 0 <= i < r1.rows@.len() ==> (#[trigger] r1.rows@[i])@ == r2.rows@[i]@,
        r1.ambiguity_warnings == r2.ambiguity_warnings,
{
    let sraw = supported_files(rules, raw_files);
    let sgraded = supported_files(rules, graded_files);
    assert forall|i: int| 0 <= i < r1.rows@.len() implies (#[trigger] r1.rows@[i])@ == r2.rows@[i]@ by {
        let w1 = (r1.rows@[i].graded_relpath@, r1.rows@[i].graded_winner_type);
        let w2 = (r2.rows@[i].graded_relpath@, r2.rows@[i].graded_winner_type);
        let cands = candidates_of(rules, graded.path@, sgraded, id_of(rules, sraw[i]).0);
        assert(row_winner_ok(rules, cands, w1));
        assert(row_winner_ok(rules, cands, w2));
        if cands.len() > 0 {
            lemma_winner_unique(rules, cands, w1.0, w1.1, w2.0, w2.1);
        }
        assert(w1 == w2);
    }
}

} // verus!
