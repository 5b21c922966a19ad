//! The rule document and its compiled form.

use vstd::prelude::*;
use vstd::string::*;
use crate::text::{
    lower_of, lowercase, opt_str, single, starts_with_char, strs, trim_of, trimmed,
};

verus! {

#[verifier::external_type_specification]
#[verifier::external_body]
pub struct ExRegex(regex::Regex);

#[verifier::external_type_specification]
#[verifier::external_body]
pub struct ExRegexError(regex::Error);

/// Whether `regex::Regex::new` accepts the pattern.
pub uninterp spec fn pattern_compiles(pattern: Seq<char>) -> bool;

/// The first capture group of the last of the successive non-overlapping
/// matches of `pattern` in `text`, if there is a match and the group took part.
pub uninterp spec fn last_capture_of(pattern: Seq<char>, text: Seq<char>) -> Option<Seq<char>>;

/// The first capture group of the leftmost match of `pattern` in `text`, if
/// there is a match and the group took part.
pub uninterp spec fn first_capture_of(pattern: Seq<char>, text: Seq<char>) -> Option<Seq<char>>;

/// Whether `pattern` matches anywhere in `text`.
pub uninterp spec fn pattern_matches(pattern: Seq<char>, text: Seq<char>) -> bool;

/// Relies on `regex::Regex::new`: compiles the pattern or says why it cannot.
#[verifier::external_body]
fn compile_pattern(pattern: &str) -> (r: Result<regex::Regex, regex::Error>)
    ensures
        r is Ok <==> pattern_compiles(pattern@),
{
    regex::Regex::new(pattern)
}

/// A compiled pattern together with the text it was compiled from.
///
/// The fields are private: a `Matcher` only comes from `Matcher::new`, so its
/// regex is always the one compiled from its pattern.
#[derive(Debug)]
pub struct Matcher {
    pattern: String,
    re: regex::Regex,
}

impl Matcher {
    /// The pattern this matcher was compiled from.
    pub closed spec fn pattern(&self) -> Seq<char> {
        self.pattern@
    }

    pub fn new(pattern: &str) -> (r: Result<Matcher, regex::Error>)
        ensures
            r is Ok <==> pattern_compiles(pattern@),
            r matches Ok(m) ==> m.pattern() == pattern@,
    {
        match compile_pattern(pattern) {
            Ok(re) => Ok(Matcher { pattern: String::from_str(pattern), re }),
            Err(e) => Err(e),
        }
    }

    /// Relies on `regex::Regex::captures_iter` and `regex::Captures::get`:
    /// group one of the last match.
    #[verifier::external_body]
    pub(crate) fn last_capture(&self, text: &str) -> (r: Option<String>)
        ensures
            opt_str(r) == last_capture_of(self.pattern(), text@),
    {
        self.re.captures_iter(text).last().and_then(|c| c.get(1)).map(|m| m.as_str().to_string())
    }

    /// Relies on `regex::Regex::captures` and `regex::Captures::get`: group one
    /// of the leftmost match.
    #[verifier::external_body]
    pub(crate) fn first_capture(&self, text: &str) -> (r: Option<String>)
        ensures
            opt_str(r) == first_capture_of(self.pattern(), text@),
    {
        self.re.captures(text).and_then(|c| c.get(1)).map(|m| m.as_str().to_string())
    }

    /// Relies on `regex::Regex::is_match`: whether the pattern matches anywhere.
    #[verifier::external_body]
    pub(crate) fn is_match(&self, text: &str) -> (r: bool)
        ensures
            r == pattern_matches(self.pattern(), text@),
    {
        self.re.is_match(text)
    }
}

/// An error of the library.
#[derive(Debug)]
pub enum AppError {
    /// A request the library cannot serve, in words.
    Message(String),
    /// A pattern of the rule document that does not compile.
    Regex(regex::Error),
}

/// The user-editable rule document.
#[derive(Clone, Debug)]
pub struct Rules {
    pub extensions: Vec<String>,
    pub survey_id_regex_detected: String,
    pub survey_id_regex_base: String,
    pub image_id_regex: String,
    pub graded_priority_ind_regex: String,
    pub graded_priority_secondary_tokens: Vec<String>,
    pub graded_negative_contains_any: Vec<String>,
    pub graded_positive_contains_any: Vec<String>,
}

/// The compiled rules that every other step reads.
#[derive(Debug)]
pub struct CompiledRules {
    /// Allowed extensions, lower-cased, each with a leading dot.
    pub extensions: Vec<String>,
    pub detected_re: Matcher,
    pub base_re: Matcher,
    pub image_id_re: Matcher,
    pub ind_re: Matcher,
    pub secondary_tokens: Vec<String>,
    pub negative_tokens: Vec<String>,
    pub positive_tokens: Vec<String>,
}

pub open spec fn default_image_id_pattern() -> Seq<char> {
    "^(.+?_\\d{3,5})(?:[ _][A-Za-z0-9]+)*$"@
}

/// The image identity pattern used where a rule document gives none.
pub fn default_image_id_regex() -> (r: String)
    ensures
        r@ == default_image_id_pattern(),
{
    String::from_str("^(.+?_\\d{3,5})(?:[ _][A-Za-z0-9]+)*$")
}

/// An extension trimmed, lower-cased and given a leading dot.
pub open spec fn norm_extension(ext: Seq<char>) -> Seq<char> {
    let t = lower_of(trim_of(ext));
    if t.len() > 0 && t[0] == '.' {
        t
    } else {
        single('.') + t
    }
}

/// Tokens trimmed and lower-cased, the empty ones dropped, order kept.
pub open spec fn norm_tokens(ts: Seq<Seq<char>>) -> Seq<Seq<char>>
    decreases ts.len(),
{
    if ts.len() == 0 {
        Seq::empty()
    } else {
        let rest = norm_tokens(ts.drop_last());
        let t = lower_of(trim_of(ts.last()));
        if t.len() > 0 {
            rest.push(t)
        } else {
            rest
        }
    }
}

pub fn normalize_extension(ext: &str) -> (r: String)
    ensures
        r@ == norm_extension(ext@),
{
    let t = trimmed(ext);
    let lower = lowercase(t.as_str());
    if starts_with_char(lower.as_str(), '.') {
        lower
    } else {
        proof { reveal_strlit("."); }
        let dot = String::from_str(".");
        dot.concat(lower.as_str())
    }
}

pub fn normalize_tokens(tokens: &Vec<String>) -> (r: Vec<String>)
    ensures
        strs(r@) == norm_tokens(strs(tokens@)),
{
    let mut out: Vec<String> = Vec::new();
    let mut i: usize = 0;
    while i < tokens.len()
        invariant
            i <= tokens.len(),
            strs(out@) == norm_tokens(strs(tokens@.subrange(0, i as int))),
        decreases tokens.len() - i,
    {
        let t = lowercase(trimmed(tokens[i].as_str()).as_str());
        proof {
            let pre = strs(tokens@.subrange(0, i + 1));
            assert(pre.drop_last() =~= strs(tokens@.subrange(0, i as int)));
            assert(pre.last() == tokens@[i as int]@);
        }
        if t.unicode_len() > 0 {
            let ghost before = out@;
            out.push(t);
            proof {
                assert(strs(out@) =~= strs(before).push(t@));
            }
        }
        i = i + 1;
    }
    assert(tokens@.subrange(0, tokens.len() as int) =~= tokens@);
    out
}

impl CompiledRules {
    /// What compiling `rules` gives: normalised extensions and tokens, and a
    /// matcher for each pattern.
    pub open spec fn compiled_from(&self, rules: &Rules) -> bool {
        &&& strs(self.extensions@) == strs(rules.extensions@).map_values(
            |e: Seq<char>| norm_extension(e),
        )
        &&& self.detected_re.pattern() == rules.survey_id_regex_detected@
        &&& self.base_re.pattern() == rules.survey_id_regex_base@
        &&& self.image_id_re.pattern() == rules.image_id_regex@
        &&& self.ind_re.pattern() == rules.graded_priority_ind_regex@
        &&& strs(self.secondary_tokens@) == norm_tokens(strs(rules.graded_priority_secondary_tokens@))
        &&& strs(self.negative_tokens@) == norm_tokens(strs(rules.graded_negative_contains_any@))
        &&& strs(self.positive_tokens@) == norm_tokens(strs(rules.graded_positive_contains_any@))
    }

    /// Two compiled rule sets that every step treats alike: the same patterns,
    /// extensions and token lists.
    pub open spec fn same_behaviour(&self, other: &CompiledRules) -> bool {
        &&& strs(self.extensions@) == strs(other.extensions@)
        &&& self.detected_re.pattern() == other.detected_re.pattern()
        &&& self.base_re.pattern() == other.base_re.pattern()
        &&& self.image_id_re.pattern() == other.image_id_re.pattern()
        &&& self.ind_re.pattern() == other.ind_re.pattern()
        &&& strs(self.secondary_tokens@) == strs(other.secondary_tokens@)
        &&& strs(self.negative_tokens@) == strs(other.negative_tokens@)
        &&& strs(self.positive_tokens@) == strs(other.positive_tokens@)
    }
}

/// Every pattern of the rule document compiles.
pub open spec fn rules_compile(rules: &Rules) -> bool {
    &&& pattern_compiles(rules.survey_id_regex_detected@)
    &&& pattern_compiles(rules.survey_id_regex_base@)
    &&& pattern_compiles(rules.image_id_regex@)
    &&& pattern_compiles(rules.graded_priority_ind_regex@)
}

fn compile_matcher(pattern: &String) -> (r: Result<Matcher, AppError>)
    ensures
        r is Ok <==> pattern_compiles(pattern@),
        r matches Ok(m) ==> m.pattern() == pattern@,
        r matches Err(e) ==> e is Regex,
{
    match Matcher::new(pattern.as_str()) {
        Ok(m) => Ok(m),
        Err(e) => Err(AppError::Regex(e)),
    }
}

/// Compiles a rule document. Fails with `AppError::Regex` exactly when one of
/// its patterns does not compile.
pub fn compile_rules(rules: &Rules) -> (r: Result<CompiledRules, AppError>)
    ensures
        r is Ok <==> rules_compile(rules),
        r matches Ok(c) ==> c.compiled_from(rules),
        r matches Err(e) ==> e is Regex,
{
    let mut extensions: Vec<String> = Vec::new();
    let mut i: usize = 0;
    while i < rules.extensions.len()
        invariant
            i <= rules.extensions.len(),
            extensions@.len() == i,
            forall|j: int|
                0 <= j < i ==> #[trigger] extensions@[j]@ == norm_extension(rules.extensions@[j]@),
        decreases rules.extensions.len() - i,
    {
        let n = normalize_extension(rules.extensions[i].as_str());
        extensions.push(n);
        i = i + 1;
    }
    assert(strs(extensions@) =~= strs(rules.extensions@).map_values(
        |e: Seq<char>| norm_extension(e),
    ));
    let detected_re = compile_matcher(&rules.survey_id_regex_detected)?;
    let base_re = compile_matcher(&rules.survey_id_regex_base)?;
    let image_id_re = compile_matcher(&rules.image_id_regex)?;
    let ind_re = compile_matcher(&rules.graded_priority_ind_regex)?;
    Ok(
        CompiledRules {
            extensions,
            detected_re,
            base_re,
            image_id_re,
            ind_re,
            secondary_tokens: normalize_tokens(&rules.graded_priority_secondary_tokens),
            negative_tokens: normalize_tokens(&rules.graded_negative_contains_any),
            positive_tokens: normalize_tokens(&rules.graded_positive_contains_any),
        },
    )
}

/// Compiling one rule document twice gives rule sets that behave alike.
pub proof fn lemma_compile_deterministic(rules: &Rules, a: &CompiledRules, b: &CompiledRules)
    requires
        a.compiled_from(rules),
        b.compiled_from(rules),
    ensures
        a.same_behaviour(b),
{
}

} // verus!
