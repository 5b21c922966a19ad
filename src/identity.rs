//! Survey identities of directories and identity keys of image files.

use vstd::prelude::*;
use vstd::string::*;
use crate::rules::{CompiledRules, Matcher, first_capture_of, last_capture_of};
use crate::text::{
    copy_opt, decimal, decimal_string, has_prefix, lower_of, lowercase, opt_str, single, upper_of, uppercase,
};

verus! {

/// A directory that claims a survey, with the full identity found in its path.
#[derive(Clone, Debug)]
pub struct SurveyFolder {
    pub path: String,
    pub detected_id: Option<String>,
}

pub struct SurveyFolderView {
    pub path: Seq<char>,
    pub detected_id: Option<Seq<char>>,
}

impl View for SurveyFolder {
    type V = SurveyFolderView;

    open spec fn view(&self) -> SurveyFolderView {
        SurveyFolderView { path: self.path@, detected_id: opt_str(self.detected_id) }
    }
}

impl SurveyFolder {
    /// A copy with the same path and identity.
    pub fn duplicate(&self) -> (r: SurveyFolder)
        ensures
            r@ == self@,
    {
        SurveyFolder { path: self.path.clone(), detected_id: copy_opt(&self.detected_id) }
    }
}

/// A survey folder found in a tree, under its base key.
#[derive(Clone, Debug)]
pub struct DiscoveredFolder {
    pub base_key: String,
    pub folder: SurveyFolder,
}

/// The full identity found in `text`: group one of the pattern's last match.
pub open spec fn detected_of(pattern: Seq<char>, text: Seq<char>) -> Option<Seq<char>> {
    last_capture_of(pattern, text)
}

/// The base key of `text`: group one of the pattern's last match, upper-cased.
pub open spec fn base_key_of(pattern: Seq<char>, text: Seq<char>) -> Option<Seq<char>> {
    match last_capture_of(pattern, text) {
        Some(c) => Some(upper_of(c)),
        None => None,
    }
}

/// The base key under which a directory is claimed: that of its detected
/// identity where one is detected, else that of its path.
pub open spec fn claim_key_of(rules: &CompiledRules, path: Seq<char>) -> Option<Seq<char>> {
    match detected_of(rules.detected_re.pattern(), path) {
        Some(d) => base_key_of(rules.base_re.pattern(), d),
        None => base_key_of(rules.base_re.pattern(), path),
    }
}

pub fn extract_detected_id(path: &str, regex: &Matcher) -> (r: Option<String>)
    ensures
        opt_str(r) == detected_of(regex.pattern(), path@),
{
    regex.last_capture(path)
}

pub fn extract_base_key(value: &str, regex: &Matcher) -> (r: Option<String>)
    ensures
        opt_str(r) == base_key_of(regex.pattern(), value@),
{
    match regex.last_capture(value) {
        Some(c) => Some(uppercase(c.as_str())),
        None => None,
    }
}

/// Decides whether the directory at `path` claims a survey. Where it does,
/// the walk records it under the key and does not descend below it; where it
/// does not, the walk goes on into its children.
pub fn claim_directory(rules: &CompiledRules, path: &str) -> (r: Option<DiscoveredFolder>)
    ensures
        match r {
            Some(d) => claim_key_of(rules, path@) == Some(d.base_key@) && d.folder@
                == (SurveyFolderView {
                path: path@,
                detected_id: detected_of(rules.detected_re.pattern(), path@),
            }),
            None => claim_key_of(rules, path@) is None,
        },
{
    let detected_id = extract_detected_id(path, &rules.detected_re);
    let base_key = match &detected_id {
        Some(d) => extract_base_key(d.as_str(), &rules.base_re),
        None => extract_base_key(path, &rules.base_re),
    };
    match base_key {
        Some(b) => Some(
            DiscoveredFolder {
                base_key: b,
                folder: SurveyFolder { path: String::from_str(path), detected_id },
            },
        ),
        None => None,
    }
}

/// An image file as the walk found it: its full path, its name, its name
/// without extension, its extension, and its size where metadata was readable.
#[derive(Clone, Debug)]
pub struct ImageFile {
    pub path: String,
    pub file_name: String,
    pub file_stem: String,
    pub extension: Option<String>,
    pub size: Option<u64>,
}

/// An extension, lower-cased and dotted, is one of the allowed ones.
pub open spec fn supported_spec(rules: &CompiledRules, extension: Option<Seq<char>>) -> bool {
    match extension {
        Some(e) => exists|i: int|
            0 <= i < rules.extensions@.len() && #[trigger] rules.extensions@[i]@ == single('.')
                + lower_of(e),
        None => false,
    }
}

pub fn is_supported_image(rules: &CompiledRules, extension: &Option<String>) -> (r: bool)
    ensures
        r == supported_spec(rules, opt_str(*extension)),
{
    match extension {
        None => false,
        Some(e) => {
            proof { reveal_strlit("."); }
            let dotted = String::from_str(".").concat(lowercase(e.as_str()).as_str());
            let mut i: usize = 0;
            while i < rules.extensions.len()
                invariant
                    i <= rules.extensions.len(),
                    dotted@ == single('.') + lower_of(e@),
                    opt_str(*extension) == Some(e@),
                    forall|j: int| 0 <= j < i ==> #[trigger] rules.extensions@[j]@ != dotted@,
                decreases rules.extensions.len() - i,
            {
                let allowed: &String = &rules.extensions[i];
                if allowed.eq(&dotted) {
                    assert(rules.extensions@[i as int]@ == dotted@);

                    return true;
                }
                i = i + 1;
            }
            false
        },
    }
}

/// The identity key of an image and whether it is ambiguous: group one of the
/// image-identity pattern on the stem, lower-cased; else the lower-cased name
/// with `|` and the size; else, without a size, the lower-cased name alone,
/// flagged ambiguous.
pub open spec fn file_id_of(
    rules: &CompiledRules,
    stem: Seq<char>,
    name: Seq<char>,
    size: Option<u64>,
) -> (Seq<char>, bool) {
    match first_capture_of(rules.image_id_re.pattern(), stem) {
        Some(c) => (lower_of(c), false),
        None => match size {
            Some(n) => (lower_of(name) + single('|') + decimal(n as nat), false),
            None => (lower_of(name), true),
        },
    }
}

pub fn compute_file_id(rules: &CompiledRules, file: &ImageFile) -> (r: (String, bool))
    ensures
        (r.0@, r.1) == file_id_of(rules, file.file_stem@, file.file_name@, file.size),
{
    match rules.image_id_re.first_capture(file.file_stem.as_str()) {
        Some(c) => (lowercase(c.as_str()), false),
        None => {
            let lower = lowercase(file.file_name.as_str());
            match file.size {
                Some(n) => {
                    proof { reveal_strlit("|"); }
                    let with_bar = lower.concat("|");
                    (with_bar.concat(decimal_string(n).as_str()), false)
                },
                None => (lower, true),
            }
        },
    }
}

/// Whether a character separates path components: a slash, or a backslash
/// as Windows writes it.
pub open spec fn is_separator(c: char) -> bool {
    c == '/' || c == '\\'
}

/// `path` relative to `root`: the part after `root` and one separator where
/// `root` is a leading directory of it (nothing where they are equal), else
/// `path` itself.
pub open spec fn strip_root(path: Seq<char>, root: Seq<char>) -> Seq<char> {
    if root.len() <= path.len() && path.subrange(0, root.len() as int) == root {
        let rest = path.subrange(root.len() as int, path.len() as int);
        if rest.len() == 0 || (root.len() > 0 && is_separator(root.last())) {
            rest
        } else if is_separator(rest[0]) {
            rest.drop_first()
        } else {
            path
        }
    } else {
        path
    }
}

/// Backslashes turned into forward slashes.
pub open spec fn forward_slashes(s: Seq<char>) -> Seq<char> {
    s.map_values(|c: char| if c == '\\' { '/' } else { c })
}

pub open spec fn relpath_of(path: Seq<char>, root: Seq<char>) -> Seq<char> {
    forward_slashes(strip_root(path, root))
}

/// The path of a file relative to the folder it was found under, with `/` as
/// separator.
pub fn normalize_relpath(path: &str, root: &str) -> (r: String)
    ensures
        r@ == relpath_of(path@, root@),
{
    let n = path.unicode_len();
    let m = root.unicode_len();
    let mut start: usize = 0;
    if has_prefix(path, root) {
        if m == n || (m > 0 && (root.get_char(m - 1) == '/' || root.get_char(m - 1) == '\\')) {
            start = m;
        } else if path.get_char(m) == '/' || path.get_char(m) == '\\' {
            start = m + 1;
        }
    }
    assert(strip_root(path@, root@) =~= path@.subrange(start as int, n as int));
    let ghost stripped = path@.subrange(start as int, n as int);
    let mut out = String::new();
    let mut i: usize = start;
    while i < n
        invariant
            n == path@.len(),
            start <= i <= n,
            stripped == path@.subrange(start as int, n as int),
            out@ == forward_slashes(path@.subrange(start as int, i as int)),
        decreases n - i,
    {
        let c = path.get_char(i);
        if c == '\\' {
            proof { reveal_strlit("/"); }
            out.append("/");
        } else {
            out.append(path.substring_char(i, i + 1));
        }
        proof {
            assert(forward_slashes(path@.subrange(start as int, i + 1)) =~= forward_slashes(
                path@.subrange(start as int, i as int),
            ).push(if c == '\\' { '/' } else { c }));
        }
        i = i + 1;
    }
    out
}

} // verus!
