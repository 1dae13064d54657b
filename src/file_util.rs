//! Splitting a path at a web root and moving a path from one web root to
//! another.

use vstd::prelude::*;
use crate::text::{
    chars_of, fold_backslashes, fold_backslashes_vec, starts_with, push_char, string_of, string_of_range,
    trim_end, trim_end_len, trim_start, trim_start_from,
};

verus! {

/// A web root with forward slashes and without trailing slashes.
pub open spec fn clean_root(root: Seq<char>) -> Seq<char> {
    trim_end(fold_backslashes(root), '/')
}

/// The pair `split_path` returns: the cleaned base and what follows it in
/// the cleaned path, or an empty base and the cleaned path when the path
/// lies outside the base.
pub open spec fn split_path_spec(base: Seq<char>, path: Seq<char>) -> (Seq<char>, Seq<char>) {
    let b = clean_root(base);
    let p = fold_backslashes(path);
    if b.is_prefix_of(p) {
        (b, p.subrange(b.len() as int, p.len() as int))
    } else {
        (Seq::empty(), p)
    }
}

/// Splits `path_str` at `base_path`. When the path starts with the base
/// (both with backslashes folded, the base without trailing slashes), the
/// result is the base and the rest of the path, its leading slash kept;
/// otherwise it is an empty base and the whole path.
pub fn split_path(base_path: &str, path_str: &str) -> (r: (String, String))
    ensures
        (r.0@, r.1@) == split_path_spec(base_path@, path_str@),
{
    let base_raw = chars_of(base_path);
    let base_folded = fold_backslashes_vec(&base_raw);
    let k = trim_end_len(&base_folded, '/');
    let base_clean = string_of_range(&base_folded, 0, k);
    let base = chars_of(base_clean.as_str());
    let path_raw = chars_of(path_str);
    let path = fold_backslashes_vec(&path_raw);
    if starts_with(&path, &base) {
        let rest = string_of_range(&path, base.len(), path.len());
        (base_clean, rest)
    } else {
        (String::new(), string_of(&path))
    }
}

/// The path `replace_web_root_in_path` returns: when `path` starts with the
/// cleaned old root, the cleaned new root followed by the rest of the path
/// (its leading slashes removed, joined with one slash); otherwise `path`.
pub open spec fn replace_web_root_spec(
    path: Seq<char>,
    old_root: Seq<char>,
    new_root: Seq<char>,
) -> Seq<char> {
    let o = clean_root(old_root);
    let n = clean_root(new_root);
    if o.is_prefix_of(path) {
        let rel = trim_start(path.subrange(o.len() as int, path.len() as int), '/');
        if rel.len() == 0 {
            n
        } else {
            n + seq!['/'] + rel
        }
    } else {
        path
    }
}

/// Moves `original_path` from `old_web_root` to `new_web_root`. Both roots
/// are cleaned (backslashes folded, trailing slashes removed); a path that
/// does not start with the old root comes back unchanged.
pub fn replace_web_root_in_path(
    original_path: &str,
    old_web_root: &str,
    new_web_root: &str,
) -> (r: String)
    ensures
        r@ == replace_web_root_spec(original_path@, old_web_root@, new_web_root@),
{
    let old_raw = chars_of(old_web_root);
    let old_folded = fold_backslashes_vec(&old_raw);
    let ko = trim_end_len(&old_folded, '/');
    let old_clean = chars_of(string_of_range(&old_folded, 0, ko).as_str());
    let new_raw = chars_of(new_web_root);
    let new_folded = fold_backslashes_vec(&new_raw);
    let kn = trim_end_len(&new_folded, '/');
    let mut result = string_of_range(&new_folded, 0, kn);
    let path = chars_of(original_path);
    if starts_with(&path, &old_clean) {
        let start = trim_start_from(&path, old_clean.len(), '/');
        if start == path.len() {
            proof {
                assert(path@.subrange(start as int, path@.len() as int).len() == 0);
            }
            result
        } else {
            push_char(&mut result, '/');
            let rel = string_of_range(&path, start, path.len());
            result.append(rel.as_str());
            result
        }
    } else {
        string_of(&path)
    }
}

/// Moving a path from root `a` to root `b` and back gives the path again,
/// for clean roots (forward slashes, no trailing slash) and a path that is
/// `a` itself or `a`, one slash and a non-empty rest not starting with a
/// slash.
pub proof fn lemma_replace_web_root_round_trip(p: Seq<char>, a: Seq<char>, b: Seq<char>, rel: Seq<char>)
    requires
        clean_root(a) == a,
        clean_root(b) == b,
        p == a || (p == a + seq!['/'] + rel && rel.len() > 0 && rel[0] != '/'),
    ensures
        replace_web_root_spec(replace_web_root_spec(p, a, b), b, a) == p,
{
    assert(a.is_prefix_of(p)) by {
        if p != a {
            assert(p.subrange(0, a.len() as int) =~= a);
        }
    }
    if p == a {
        assert(p.subrange(a.len() as int, p.len() as int) =~= Seq::<char>::empty());
        assert(b.subrange(b.len() as int, b.len() as int) =~= Seq::<char>::empty());
        assert(b.is_prefix_of(b)) by {
            assert(b.subrange(0, b.len() as int) =~= b);
        }
    } else {
        let tail = seq!['/'] + rel;
        assert(p.subrange(a.len() as int, p.len() as int) =~= tail);
        assert(tail.drop_first() =~= rel);
        assert(trim_start(tail, '/') == trim_start(rel, '/'));
        assert(trim_start(rel, '/') == rel);
        let q = b + seq!['/'] + rel;
        assert(q.subrange(0, b.len() as int) =~= b);
        assert(q.subrange(b.len() as int, q.len() as int) =~= tail);
    }
}

} // verus!
