//! Reasoning about `/`-separated path strings: the fixed exclusion list,
//! segment-exact matching against it, and file-extension extraction.

use vstd::prelude::*;
use crate::text::{eq_str, first_index_of, last_index_of, lemma_first_index_of, lemma_last_index_of};

verus! {

/// Directory names whose whole subtree is never scanned: dependency
/// vendors, build outputs, generated code and version-control metadata.
pub open spec fn excluded_names() -> Seq<Seq<char>> {
    seq![
        "node_modules"@,
        "build"@,
        "target"@,
        "bin"@,
        "obj"@,
        "__generated__"@,
        "generated"@,
        "Pods"@,
        ".git"@,
        "Resources"@,
    ]
}

/// Whether `seg` is, in full, one of the excluded directory names.
pub open spec fn is_excluded_name(seg: Seq<char>) -> bool {
    excluded_names().contains(seg)
}

/// Whether some full `/`-separated segment of `p` is an excluded name.
/// Matching is segment-exact: a segment merely containing an excluded
/// name as a substring does not match.
pub open spec fn skip_spec(p: Seq<char>) -> bool
    decreases p.len(),
{
    let k = first_index_of(p, '/');
    if 0 <= k < p.len() {
        is_excluded_name(p.subrange(0, k)) || skip_spec(p.subrange(k + 1, p.len() as int))
    } else {
        is_excluded_name(p)
    }
}

/// The part of `p` after its last `/` (all of `p` when it has none).
pub open spec fn filename_of(p: Seq<char>) -> Seq<char> {
    p.subrange(last_index_of(p, '/') + 1, p.len() as int)
}

/// The extension of a file name: what follows the last `.`, provided that
/// dot is neither absent nor the leading character. A name such as
/// `archive.tar` yields `tar`; a dotfile such as `.gitignore` has none.
pub open spec fn extension_of(name: Seq<char>) -> Option<Seq<char>> {
    let d = last_index_of(name, '.');
    if 0 < d < name.len() {
        Some(name.subrange(d + 1, name.len() as int))
    } else {
        None
    }
}

/// The extension of the file named by path `p`.
pub open spec fn path_extension(p: Seq<char>) -> Option<Seq<char>> {
    extension_of(filename_of(p))
}

/// Locates the first occurrence of `c` in `s`.
fn find_first(s: &str, c: char) -> (r: Option<usize>)
    ensures
        r is None ==> first_index_of(s@, c) == -1,
        r matches Some(k) ==> first_index_of(s@, c) == k as int,
{
    proof {
        lemma_first_index_of(s@, c);
    }
    let n = s.unicode_len();
    for i in 0..n
        invariant
            n == s@.len(),
            forall|k: int| 0 <= k < i ==> s@[k] != c,
            -1 <= first_index_of(s@, c) < s@.len(),
            first_index_of(s@, c) >= 0 ==> s@[first_index_of(s@, c)] == c,
            forall|k: int| 0 <= k < first_index_of(s@, c) ==> s@[k] != c,
            first_index_of(s@, c) == -1 ==> forall|k: int| 0 <= k < s@.len() ==> s@[k] != c,
    {
        if s.get_char(i) == c {
            return Some(i);
        }
    }
    None
}

/// Locates the last occurrence of `c` in `s`.
fn find_last(s: &str, c: char) -> (r: Option<usize>)
    ensures
        r is None ==> last_index_of(s@, c) == -1,
        r matches Some(k) ==> last_index_of(s@, c) == k as int,
{
    proof {
        lemma_last_index_of(s@, c);
    }
    let n = s.unicode_len();
    let mut i: usize = n;
    while i > 0
        invariant
            i <= n,
            n == s@.len(),
            forall|k: int| i <= k < n ==> s@[k] != c,
            -1 <= last_index_of(s@, c) < s@.len(),
            last_index_of(s@, c) >= 0 ==> s@[last_index_of(s@, c)] == c,
            forall|k: int| last_index_of(s@, c) < k < s@.len() ==> s@[k] != c,
        decreases i,
    {
        i = i - 1;
        if s.get_char(i) == c {
            return Some(i);
        }
    }
    None
}

/// Whether `seg` is, in full, one of the excluded directory names.
fn is_excluded_segment(seg: &str) -> (r: bool)
    ensures
        r == is_excluded_name(seg@),
{
    let r = eq_str(seg, "node_modules") || eq_str(seg, "build") || eq_str(seg, "target")
        || eq_str(seg, "bin") || eq_str(seg, "obj") || eq_str(seg, "__generated__")
        || eq_str(seg, "generated") || eq_str(seg, "Pods") || eq_str(seg, ".git")
        || eq_str(seg, "Resources");
    proof {
        if r {
            assert(excluded_names().contains(seg@));
        } else {
            assert(forall|k: int| 0 <= k < excluded_names().len() ==> excluded_names()[k] != seg@);
        }
    }
    r
}

/// Whether the path contains, as a full segment, one of the excluded
/// directory names; such a path is never descended into.
pub fn should_skip_path(path: &str) -> (r: bool)
    ensures
        r == skip_spec(path@),
    decreases path@.len(),
{
    proof {
        lemma_first_index_of(path@, '/');
    }
    let n = path.unicode_len();
    match find_first(path, '/') {
        None => is_excluded_segment(path),
        Some(k) => {
            let head = path.substring_char(0, k);
            if is_excluded_segment(head) {
                true
            } else {
                let tail = path.substring_char(k + 1, n);
                should_skip_path(tail)
            }
        },
    }
}

/// Extracts the extension of the file named by `path`, if it has one.
pub fn extract_extension<'a>(path: &'a str) -> (r: Option<&'a str>)
    ensures
        r is None ==> path_extension(path@) is None,
        r matches Some(e) ==> path_extension(path@) == Some(e@),
{
    proof {
        lemma_last_index_of(path@, '/');
    }
    let n = path.unicode_len();
    let start = match find_last(path, '/') {
        None => 0,
        Some(k) => k + 1,
    };
    let name = path.substring_char(start, n);
    proof {
        assert(name@ == filename_of(path@));
        lemma_last_index_of(name@, '.');
    }
    let name_len = name.unicode_len();
    match find_last(name, '.') {
        None => None,
        Some(d) => {
            if d == 0 {
                None
            } else {
                Some(name.substring_char(d + 1, name_len))
            }
        },
    }
}

} // verus!
