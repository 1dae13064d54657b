//! Request-path normalization and the path security check: a path must lie
//! under the site's web root, and its file part must not match a blocked
//! pattern unless the whole path matches a whitelisted one.

use vstd::prelude::*;
use crate::file_util::clean_root;
use crate::text::{
    chars_of, fold_backslashes, fold_backslashes_vec, push_char, starts_with, string_of,
    string_of_range, trim_end_len, trim_start, trim_start_from,
};

verus! {

/// What the `wildcard` crate makes of `pattern` (case-insensitive, `*`,
/// `?` and `\` as its metasymbols) against `input`: `None` when the
/// pattern does not parse, else whether `input` matches.
pub uninterp spec fn wildcard_outcome(pattern: Seq<char>, input: Seq<char>) -> Option<bool>;

/// Relies on `wildcard::WildcardBuilder::build` (case-insensitive) and
/// `wildcard::Wildcard::is_match` on the UTF-8 bytes of both strings.
#[verifier::external_body]
fn wildcard_match(pattern: &str, input: &str) -> (r: Option<bool>)
    ensures
        r == wildcard_outcome(pattern@, input@),
{
    match wildcard::WildcardBuilder::new(pattern.as_bytes()).case_insensitive(true).build() {
        Ok(w) => Some(w.is_match(input.as_bytes())),
        Err(_) => None,
    }
}

/// Whether one of `patterns` parses and matches `input`.
pub open spec fn any_pattern_matches(patterns: Seq<String>, input: Seq<char>) -> bool {
    exists|i: int| 0 <= i < patterns.len() && wildcard_outcome(#[trigger] patterns[i]@, input) == Some(true)
}

pub(crate) fn matches_any(patterns: &Vec<String>, input: &str) -> (r: bool)
    ensures
        r == any_pattern_matches(patterns@, input@),
{
    let mut i: usize = 0;
    while i < patterns.len()
        invariant
            i <= patterns@.len(),
            forall|j: int| 0 <= j < i ==> wildcard_outcome(#[trigger] patterns@[j]@, input@) != Some(true),
        decreases patterns@.len() - i,
    {
        if wildcard_match(patterns[i].as_str(), input) == Some(true) {
            return true;
        }
        i += 1;
    }
    false
}

/// File patterns that the path check refuses to serve (matched against the part
/// of the path below the web root). A pattern that does not parse matches
/// nothing.
pub struct BlockedFilePatternMatching {
    pub patterns: Vec<String>,
}

impl BlockedFilePatternMatching {
    pub fn new(patterns: Vec<String>) -> (r: Self)
        ensures
            r.patterns@ == patterns@,
    {
        BlockedFilePatternMatching { patterns }
    }

    pub fn is_file_pattern_blocked(&self, file_name: &str) -> (r: bool)
        ensures
            r == any_pattern_matches(self.patterns@, file_name@),
    {
        matches_any(&self.patterns, file_name)
    }
}

/// Path patterns that the path check always lets through (matched against the
/// whole path). A pattern that does not parse matches nothing.
pub struct WhitelistedFilePatternMatching {
    pub patterns: Vec<String>,
}

impl WhitelistedFilePatternMatching {
    pub fn new(patterns: Vec<String>) -> (r: Self)
        ensures
            r.patterns@ == patterns@,
    {
        WhitelistedFilePatternMatching { patterns }
    }

    pub fn is_file_pattern_whitelisted(&self, path: &str) -> (r: bool)
        ensures
            r == any_pattern_matches(self.patterns@, path@),
    {
        matches_any(&self.patterns, path)
    }
}

/// The pair `split_path` returns: the cleaned base and the rest of the
/// cleaned path without its leading slashes, or an empty base and the
/// cleaned path when the path lies outside the base.
pub open spec fn split_rel_spec(base: Seq<char>, path: Seq<char>) -> (Seq<char>, Seq<char>) {
    let b = clean_root(base);
    let p = fold_backslashes(path);
    if b.is_prefix_of(p) {
        (b, trim_start(p.subrange(b.len() as int, p.len() as int), '/'))
    } else {
        (Seq::empty(), p)
    }
}

/// Splits `path_str` at `base_path` into the cleaned base and the relative
/// rest (no leading slash); a path outside the base gives an empty base and
/// the whole cleaned path.
pub fn split_path(base_path: &str, path_str: &str) -> (r: (String, String))
    ensures
        (r.0@, r.1@) == split_rel_spec(base_path@, path_str@),
{
    let base_raw = chars_of(base_path);
    let base_folded = fold_backslashes_vec(&base_raw);
    let k = trim_end_len(&base_folded, '/');
    let base_clean = string_of_range(&base_folded, 0, k);
    let base = chars_of(base_clean.as_str());
    let path_raw = chars_of(path_str);
    let path = fold_backslashes_vec(&path_raw);
    if starts_with(&path, &base) {
        let start = trim_start_from(&path, base.len(), '/');
        let rest = string_of_range(&path, start, path.len());
        (base_clean, rest)
    } else {
        (String::new(), string_of(&path))
    }
}

/// Whether `c` separates path segments (either slash).
pub open spec fn is_sep(c: char) -> bool {
    c == '/' || c == '\\'
}

/// Whether a segment survives normalization: not empty, `.` or `..`.
pub open spec fn kept_segment(seg: Seq<char>) -> bool {
    seg.len() > 0 && seg != seq!['.'] && seg != seq!['.', '.']
}

/// `out` followed by `/` and `seg` when the segment is kept.
pub open spec fn emit_segment(out: Seq<char>, seg: Seq<char>) -> Seq<char> {
    if kept_segment(seg) {
        out + seq!['/'] + seg
    } else {
        out
    }
}

/// Reading `s` left to right: the kept segments so far, each after a
/// slash, and the segment being read.
pub open spec fn scan_segments(s: Seq<char>) -> (Seq<char>, Seq<char>)
    decreases s.len(),
{
    if s.len() == 0 {
        (Seq::empty(), Seq::empty())
    } else {
        let (out, cur) = scan_segments(s.drop_last());
        if is_sep(s.last()) {
            (emit_segment(out, cur), Seq::empty())
        } else {
            (out, cur.push(s.last()))
        }
    }
}

/// The kept segments of `s`, each after a slash.
pub open spec fn joined_segments(s: Seq<char>) -> Seq<char> {
    emit_segment(scan_segments(s).0, scan_segments(s).1)
}

/// `s` normalized: backslashes folded, empty, `.` and `..` segments
/// dropped, one slash between segments, a leading slash kept when `s` had
/// one.
pub open spec fn normalize_path_spec(s: Seq<char>) -> Seq<char> {
    let j = joined_segments(s);
    if s.len() > 0 && is_sep(s[0]) {
        if j.len() == 0 {
            seq!['/']
        } else {
            j
        }
    } else if j.len() == 0 {
        j
    } else {
        j.drop_first()
    }
}

fn kept_segment_exec(seg: &Vec<char>) -> (r: bool)
    ensures
        r == kept_segment(seg@),
{
    if seg.len() == 0 {
        return false;
    }
    if seg.len() == 1 && seg[0] == '.' {
        assert(seg@ =~= seq!['.']);
        return false;
    }
    if seg.len() == 2 && seg[0] == '.' && seg[1] == '.' {
        assert(seg@ =~= seq!['.', '.']);
        return false;
    }
    proof {
        if seg@ == seq!['.'] {
            assert(seg@[0] == '.');
        }
        if seg@ == seq!['.', '.'] {
            assert(seg@[0] == '.' && seg@[1] == '.');
        }
    }
    true
}

/// Normalizes a path: backslashes become slashes, empty, `.` and `..`
/// segments are dropped and segments are joined by one slash; an input
/// that starts with a slash keeps one.
pub fn normalize_path(path: &str) -> (r: String)
    ensures
        r@ == normalize_path_spec(path@),
{
    let s = chars_of(path);
    let mut out: Vec<char> = Vec::new();
    let mut cur: Vec<char> = Vec::new();
    let mut i: usize = 0;
    while i < s.len()
        invariant
            i <= s@.len(),
            (out@, cur@) == scan_segments(s@.subrange(0, i as int)),
        decreases s@.len() - i,
    {
        let c = s[i];
        proof {
            assert(s@.subrange(0, i + 1).drop_last() =~= s@.subrange(0, i as int));
        }
        if c == '/' || c == '\\' {
            if kept_segment_exec(&cur) {
                out.push('/');
                out.append(&mut cur);
            }
            cur = Vec::new();
        } else {
            cur.push(c);
        }
        i += 1;
    }
    proof {
        assert(s@.subrange(0, s@.len() as int) =~= s@);
    }
    if kept_segment_exec(&cur) {
        out.push('/');
        out.append(&mut cur);
    }
    let absolute = s.len() > 0 && (s[0] == '/' || s[0] == '\\');
    if absolute {
        if out.len() == 0 {
            out.push('/');
            proof {
                assert(out@ =~= seq!['/']);
            }
        }
        string_of(&out)
    } else if out.len() == 0 {
        string_of(&out)
    } else {
        string_of_range(&out, 1, out.len())
    }
}

/// Whether `s` names an absolute path: it starts with a slash or with a
/// drive letter and a colon.
pub open spec fn is_absolute_path(s: Seq<char>) -> bool {
    (s.len() > 0 && is_sep(s[0])) || (s.len() >= 2 && s[1] == ':' && (('a' <= s[0] && s[0]
        <= 'z') || ('A' <= s[0] && s[0] <= 'Z')))
}

/// The absolute, normalized form of `input_path`: relative paths are taken
/// from `current_dir`.
pub open spec fn full_file_path_spec(current_dir: Seq<char>, input_path: Seq<char>) -> Seq<char> {
    if is_absolute_path(input_path) {
        normalize_path_spec(input_path)
    } else {
        normalize_path_spec(current_dir + seq!['/'] + input_path)
    }
}

/// Resolves `input_path` against `current_dir` (when it is relative) and
/// normalizes the result.
pub fn full_file_path(current_dir: &str, input_path: &str) -> (r: String)
    ensures
        r@ == full_file_path_spec(current_dir@, input_path@),
{
    let s = chars_of(input_path);
    let absolute = (s.len() > 0 && (s[0] == '/' || s[0] == '\\')) || (s.len() >= 2 && s[1] == ':'
        && (('a' <= s[0] && s[0] <= 'z') || ('A' <= s[0] && s[0] <= 'Z')));
    assert(absolute == is_absolute_path(input_path@));
    if absolute {
        normalize_path(input_path)
    } else {
        let mut joined = String::from_str(current_dir);
        push_char(&mut joined, '/');
        joined.append(input_path);
        assert(joined@ == current_dir@ + seq!['/'] + input_path@);
        normalize_path(joined.as_str())
    }
}

/// The part of the cleaned `test` path below the cleaned `base`, without
/// leading slashes.
pub open spec fn file_part(base: Seq<char>, test: Seq<char>) -> Seq<char> {
    split_rel_spec(base, test).1
}

/// Whether the cleaned `test` path lies inside the cleaned `base`: it is
/// the root itself, or the root followed by a slash and more.
pub open spec fn under_root(base: Seq<char>, test: Seq<char>) -> bool {
    let b = clean_root(base);
    let t = fold_backslashes(test);
    t == b || (b + seq!['/']).is_prefix_of(t)
}

/// The path check's verdict once the pattern lookups are known: the path must be
/// under the root, and then it passes when whitelisted or not blocked.
pub fn secure_path_verdict(base_path: &str, test_path: &str, is_whitelisted: bool, is_blocked: bool) -> (r: bool)
    ensures
        r == (under_root(base_path@, test_path@) && (is_whitelisted || !is_blocked)),
{
    let base_raw = chars_of(base_path);
    let base_folded = fold_backslashes_vec(&base_raw);
    let k = trim_end_len(&base_folded, '/');
    let base = chars_of(string_of_range(&base_folded, 0, k).as_str());
    let test_raw = chars_of(test_path);
    let test = fold_backslashes_vec(&test_raw);
    let mut base_slash = chars_of(string_of_range(&base_folded, 0, k).as_str());
    base_slash.push('/');
    let same = test.len() == base.len() && starts_with(&test, &base);
    proof {
        if same {
            assert(test@ =~= base@.subrange(0, base@.len() as int));
            assert(test@ =~= base@);
        }
        if test@ == base@ {
            assert(base@.is_prefix_of(test@)) by {
                assert(test@.subrange(0, base@.len() as int) =~= base@);
            }
        }
    }
    (same || starts_with(&test, &base_slash)) && (is_whitelisted || !is_blocked)
}

/// Whether the path check lets `test_path` through for a site rooted at
/// `base_path`: the cleaned path must be the cleaned root or lie below it
/// (root, slash, more); then a
/// whitelisted path (whole path) passes, and otherwise the path passes
/// unless its part below the root matches a blocked pattern.
pub fn check_path_secure(
    base_path: &str,
    test_path: &str,
    whitelist: &WhitelistedFilePatternMatching,
    blocklist: &BlockedFilePatternMatching,
) -> (r: bool)
    ensures
        r == (under_root(base_path@, test_path@) && (any_pattern_matches(
            whitelist.patterns@,
            fold_backslashes(test_path@),
        ) || !any_pattern_matches(blocklist.patterns@, file_part(base_path@, test_path@)))),
        !under_root(base_path@, test_path@) ==> !r,
{
    let test_raw = chars_of(test_path);
    let test_clean = string_of(&fold_backslashes_vec(&test_raw));
    let (_base, file) = split_path(base_path, test_path);
    let whitelisted = whitelist.is_file_pattern_whitelisted(test_clean.as_str());
    let blocked = blocklist.is_file_pattern_blocked(file.as_str());
    secure_path_verdict(base_path, test_path, whitelisted, blocked)
}

/// Splitting `base/rel` at `base` gives back `base` and `rel`, for a clean
/// base and a relative part without backslashes or a leading slash.
pub proof fn lemma_split_join(base: Seq<char>, rel: Seq<char>)
    requires
        clean_root(base) == base,
        fold_backslashes(rel) == rel,
        rel.len() > 0 ==> rel[0] != '/',
    ensures
        split_rel_spec(base, base + seq!['/'] + rel) == (base, rel),
{
    let p = base + seq!['/'] + rel;
    assert(!base.contains('\\')) by {
        if base.contains('\\') {
            let i = choose|i: int| 0 <= i < base.len() && base[i] == '\\';
            assert(fold_backslashes(base)[i] == '/');
            lemma_trim_end_prefix(fold_backslashes(base), '/');
            assert(base[i] == fold_backslashes(base).subrange(0, base.len() as int)[i]);
        }
    }
    assert(fold_backslashes(p) =~= p) by {
        assert forall|i: int| 0 <= i < p.len() implies fold_backslashes(p)[i] == p[i] by {
            if i < base.len() {
                assert(p[i] == base[i]);
                assert(base.contains(base[i]));
            } else if i > base.len() {
                assert(p[i] == rel[i - base.len() - 1]);
                assert(fold_backslashes(rel)[i - base.len() - 1] == rel[i - base.len() - 1]);
            }
        }
    }
    assert(p.subrange(0, base.len() as int) =~= base);
    let tail = seq!['/'] + rel;
    assert(p.subrange(base.len() as int, p.len() as int) =~= tail);
    assert(tail.drop_first() =~= rel);
    assert(trim_start(tail, '/') == trim_start(rel, '/'));
}

/// Trimming the end of a sequence keeps a prefix of it.
proof fn lemma_trim_end_prefix(s: Seq<char>, c: char)
    ensures
        crate::text::trim_end(s, c).is_prefix_of(s),
    decreases s.len(),
{
    if s.len() > 0 && s.last() == c {
        lemma_trim_end_prefix(s.drop_last(), c);
        let t = crate::text::trim_end(s.drop_last(), c);
        assert(t =~= s.subrange(0, t.len() as int));
    } else {
        assert(s =~= s.subrange(0, s.len() as int));
    }
}

} // verus!
