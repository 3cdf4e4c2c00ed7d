//! The library's model of paths: strings that are split at their slashes,
//! forward or backward.
//!
//! Two paths are taken for the same file when their normalized forms are
//! equal: lower case, with every backslash turned into a forward slash.

use vstd::prelude::*;
use crate::text::{chars_of, lowercase_of, replace_char, replaced, string_of_range};

verus! {

/// The form of `path` under which paths are compared.
pub open spec fn normalized(path: Seq<char>) -> Seq<char> {
    replaced(lowercase_of(path), '\\', '/')
}

/// The form of `path` under which paths are compared: lower case, with
/// forward slashes only.
pub fn normalize_path(path: &str) -> (r: String)
    ensures
        r@ == normalized(path@),
{
    let lower = path.to_lowercase();
    replace_char(lower.as_str(), '\\', '/')
}

/// Whether `c` parts the names of a path: a forward or a backward slash.
pub open spec fn is_separator(c: char) -> bool {
    c == '/' || c == '\\'
}

/// Whether `c` parts the names of a path.
pub fn is_separator_char(c: char) -> (b: bool)
    ensures
        b == is_separator(c),
{
    c == '/' || c == '\\'
}

/// The index of the last separator in `s`, or -1 where `s` holds none.
pub open spec fn last_separator(s: Seq<char>) -> int
    decreases s.len(),
{
    if s.len() == 0 {
        -1
    } else if is_separator(s.last()) {
        s.len() - 1
    } else {
        last_separator(s.drop_last())
    }
}

/// The last separator is a separator, and none follows it.
pub proof fn lemma_last_separator(s: Seq<char>)
    ensures
        -1 <= last_separator(s) < s.len(),
        last_separator(s) >= 0 ==> is_separator(s[last_separator(s)]),
        forall|i: int| last_separator(s) < i < s.len() ==> !is_separator(#[trigger] s[i]),
    decreases s.len(),
{
    if s.len() > 0 && !is_separator(s.last()) {
        lemma_last_separator(s.drop_last());
        assert forall|i: int| last_separator(s) < i < s.len() implies !is_separator(
            #[trigger] s[i],
        ) by {
            if i < s.len() - 1 {
                assert(s[i] == s.drop_last()[i]);
            }
        }
    }
}

/// The index of the last separator in `v`, if it holds one.
pub fn find_last_separator(v: &Vec<char>) -> (r: Option<usize>)
    ensures
        match r {
            Some(k) => k == last_separator(v@),
            None => last_separator(v@) == -1,
        },
{
    let mut i: usize = v.len();
    assert(v@.take(i as int) == v@);
    while i > 0
        invariant
            i <= v.len(),
            last_separator(v@) == last_separator(v@.take(i as int)),
        decreases i,
    {
        proof {
            assert(v@.take(i as int).drop_last() == v@.take(i - 1));
            assert(v@.take(i as int).last() == v@[i - 1]);
        }
        if is_separator_char(v[i - 1]) {
            return Some(i - 1);
        }
        i -= 1;
    }
    None
}

/// The number of separators in `s`.
pub open spec fn separators_in(s: Seq<char>) -> nat
    decreases s.len(),
{
    if s.len() == 0 {
        0
    } else {
        separators_in(s.drop_last()) + if is_separator(s.last()) {
            1nat
        } else {
            0nat
        }
    }
}

/// The number of separators in `v`.
pub fn count_separators(v: &Vec<char>) -> (n: usize)
    ensures
        n == separators_in(v@),
{
    let mut n: usize = 0;
    let mut i: usize = 0;
    while i < v.len()
        invariant
            i <= v.len(),
            n == separators_in(v@.take(i as int)),
            n <= i,
        decreases v.len() - i,
    {
        proof {
            assert(v@.take(i + 1).drop_last() == v@.take(i as int));
        }
        if is_separator_char(v[i]) {
            n += 1;
        }
        i += 1;
    }
    assert(v@.take(v.len() as int) == v@);
    n
}

/// The directory that holds `path`: what stands before its last separator.
/// A path without a separator lies in the directory with the empty name, a
/// path directly under the root in the root; the root and the empty path
/// lie in no directory.
pub open spec fn parent_of(path: Seq<char>) -> Option<Seq<char>> {
    let k = last_separator(path);
    if k < 0 {
        if path.len() == 0 {
            None
        } else {
            Some(Seq::empty())
        }
    } else if k == 0 {
        if path.len() == 1 {
            None
        } else {
            Some(path.take(1))
        }
    } else {
        Some(path.take(k))
    }
}

/// The directory that holds `path`, if it lies in one.
pub fn parent_dir(path: &str) -> (r: Option<String>)
    ensures
        match r {
            Some(d) => parent_of(path@) == Some(d@),
            None => parent_of(path@) is None,
        },
{
    let v = chars_of(path);
    proof {
        lemma_last_separator(v@);
    }
    match find_last_separator(&v) {
        None => {
            if v.len() == 0 {
                None
            } else {
                let d = string_of_range(&v, 0, 0);
                assert(d@ == Seq::<char>::empty());
                Some(d)
            }
        },
        Some(k) => {
            if k == 0 {
                if v.len() == 1 {
                    None
                } else {
                    Some(string_of_range(&v, 0, 1))
                }
            } else {
                Some(string_of_range(&v, 0, k))
            }
        },
    }
}

/// The name of the file at `path`: what stands behind its last separator.
pub open spec fn file_name_of(path: Seq<char>) -> Seq<char> {
    path.skip(last_separator(path) + 1)
}

/// The name of the file at `path`.
pub fn file_name(path: &str) -> (r: String)
    ensures
        r@ == file_name_of(path@),
{
    let v = chars_of(path);
    proof {
        lemma_last_separator(v@);
    }
    match find_last_separator(&v) {
        None => string_of_range(&v, 0, v.len()),
        Some(k) => string_of_range(&v, k + 1, v.len()),
    }
}

/// The key under which a file is found again by its name alone: the file
/// name of its normalized path. Case plays no part in it.
pub open spec fn name_key_of(path: Seq<char>) -> Seq<char> {
    file_name_of(normalized(path))
}

/// The key under which a file is found again by its name alone.
pub fn name_key(path: &str) -> (r: String)
    ensures
        r@ == name_key_of(path@),
{
    let normalized_path = normalize_path(path);
    file_name(normalized_path.as_str())
}

/// How deep the directory `dir` lies: the number of separators in it.
pub open spec fn depth_of(dir: Seq<char>) -> nat {
    separators_in(dir)
}

/// How deep the directory `dir` lies.
pub fn depth(dir: &str) -> (n: usize)
    ensures
        n == depth_of(dir@),
{
    let v = chars_of(dir);
    count_separators(&v)
}

/// Whether `path` is complete by itself: it begins with a separator, or
/// with the name of a drive, a colon and a separator.
pub open spec fn is_absolute(path: Seq<char>) -> bool {
    ||| path.len() > 0 && is_separator(path[0])
    ||| path.len() >= 3 && path[1] == ':' && is_separator(path[2])
}

/// Whether the characters `p` are a path that is complete by itself.
pub fn is_absolute_path(p: &Vec<char>) -> (b: bool)
    ensures
        b == is_absolute(p@),
{
    (p.len() > 0 && is_separator_char(p[0])) || (p.len() >= 3 && p[1] == ':'
        && is_separator_char(p[2]))
}

/// `path` seen from the directory `current_dir`: itself where it is
/// complete by itself, else `current_dir`, a `/` unless it ends in a
/// separator or is empty, and `path`.
pub open spec fn absolute_of(path: Seq<char>, current_dir: Seq<char>) -> Seq<char> {
    if is_absolute(path) {
        path
    } else if current_dir.len() > 0 && !is_separator(current_dir.last()) {
        current_dir.push('/') + path
    } else {
        current_dir + path
    }
}

/// `path` resolved against the directory `current_dir`.
pub fn to_absolute_path(path: &str, current_dir: &str) -> (r: String)
    ensures
        r@ == absolute_of(path@, current_dir@),
{
    let p = chars_of(path);
    if is_absolute_path(&p) {
        return path.to_owned();
    }
    let d = chars_of(current_dir);
    let mut r = current_dir.to_owned();
    if d.len() > 0 && !is_separator_char(d[d.len() - 1]) {
        r.push('/');
    }
    r.append(path);
    r
}

/// A path resolved against a directory that is complete by itself is
/// complete by itself, and resolving it once more changes nothing.
pub proof fn lemma_resolved_path_is_absolute(path: Seq<char>, current_dir: Seq<char>)
    requires
        is_absolute(current_dir),
    ensures
        is_absolute(absolute_of(path, current_dir)),
        absolute_of(absolute_of(path, current_dir), current_dir) == absolute_of(path, current_dir),
{
    let r = absolute_of(path, current_dir);
    if !is_absolute(path) {
        if !is_separator(current_dir.last()) {
            let joined = current_dir.push('/') + path;
            assert(joined[0] == current_dir[0]);
            if current_dir.len() >= 3 {
                assert(joined[1] == current_dir[1] && joined[2] == current_dir[2]);
            }
        } else {
            let joined = current_dir + path;
            assert(joined[0] == current_dir[0]);
            if current_dir.len() >= 3 {
                assert(joined[1] == current_dir[1] && joined[2] == current_dir[2]);
            }
        }
    }
}

/// A path that is complete by itself is what it resolves to, whatever the
/// directory.
pub proof fn lemma_absolute_path_resolves_to_itself(path: Seq<char>, current_dir: Seq<char>)
    requires
        is_absolute(path),
    ensures
        absolute_of(path, current_dir) == path,
{
}

} // verus!
