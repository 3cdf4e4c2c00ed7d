//! Input lines are split into paths to include and exclusion patterns, and
//! paths are filtered through a matcher.

use vstd::prelude::*;
use crate::error::Result;
use crate::pattern::ExclusionMatcher;
use crate::seq_lemmas::{lemma_filter_empty, lemma_filter_members, lemma_filter_step};
use crate::text::{chars_of, string_of_range, texts};

verus! {

/// Whether `line` is an exclusion pattern: it begins with `!`.
pub open spec fn is_exclusion(line: Seq<char>) -> bool {
    line.len() > 0 && line[0] == '!'
}

/// Whether `line` is a path to include: not empty and no exclusion pattern.
pub open spec fn is_include(line: Seq<char>) -> bool {
    line.len() > 0 && line[0] != '!'
}

/// The paths to include among `lines`, in their order.
pub open spec fn include_lines(lines: Seq<Seq<char>>) -> Seq<Seq<char>> {
    lines.filter(|l: Seq<char>| is_include(l))
}

/// The exclusion patterns among `lines`, in their order, each without its
/// `!`.
pub open spec fn exclusion_lines(lines: Seq<Seq<char>>) -> Seq<Seq<char>> {
    lines.filter(|l: Seq<char>| is_exclusion(l)).map_values(|l: Seq<char>| l.drop_first())
}

/// Splits `paths` into the paths to include and the exclusion patterns. A
/// line that begins with `!` gives its remainder as a pattern; every other
/// line that is not empty is a path. The order of each kind is kept.
pub fn extract_exclusion_patterns(paths: &[String]) -> (r: (Vec<String>, Vec<String>))
    ensures
        texts(r.0@) == include_lines(texts(paths@)),
        texts(r.1@) == exclusion_lines(texts(paths@)),
{
    let ghost lines = texts(paths@);
    let ghost inc = |l: Seq<char>| is_include(l);
    let ghost exc = |l: Seq<char>| is_exclusion(l);
    let ghost rest = |l: Seq<char>| l.drop_first();
    let mut include_paths: Vec<String> = Vec::new();
    let mut exclude_patterns: Vec<String> = Vec::new();
    proof {
        lemma_filter_empty(lines.take(0), inc);
        lemma_filter_empty(lines.take(0), exc);
        assert(texts(include_paths@) =~= lines.take(0).filter(inc));
        assert(texts(exclude_patterns@) =~= lines.take(0).filter(exc).map_values(rest));
    }
    let mut i: usize = 0;
    while i < paths.len()
        invariant
            i <= paths.len(),
            lines == texts(paths@),
            inc == |l: Seq<char>| is_include(l),
            exc == |l: Seq<char>| is_exclusion(l),
            rest == |l: Seq<char>| l.drop_first(),
            texts(include_paths@) == lines.take(i as int).filter(inc),
            texts(exclude_patterns@) == lines.take(i as int).filter(exc).map_values(rest),
        decreases paths.len() - i,
    {
        let line = &paths[i];
        let v = chars_of(line.as_str());
        proof {
            lemma_filter_step(lines, inc, i as int);
            lemma_filter_step(lines, exc, i as int);
            assert(lines[i as int] == v@);
        }
        let ghost inc_before = include_paths@;
        let ghost exc_before = exclude_patterns@;
        if v.len() > 0 {
            if v[0] == '!' {
                let pattern = string_of_range(&v, 1, v.len());
                exclude_patterns.push(pattern);
                proof {
                    assert(v@.subrange(1, v.len() as int) == v@.drop_first());
                    assert(texts(exclude_patterns@) =~= texts(exc_before).push(v@.drop_first()));
                    assert(lines.take(i as int).filter(exc).push(v@).map_values(rest)
                        =~= lines.take(i as int).filter(exc).map_values(rest).push(
                        v@.drop_first(),
                    ));
                }
            } else {
                include_paths.push(line.clone());
                proof {
                    assert(texts(include_paths@) =~= texts(inc_before).push(v@));
                }
            }
        }
        i += 1;
    }
    assert(lines.take(paths.len() as int) == lines);
    (include_paths, exclude_patterns)
}

/// Whether `matcher` excludes `path` when asked about one of `patterns`.
pub open spec fn excluded_by<M: ExclusionMatcher>(
    matcher: &M,
    path: Seq<char>,
    patterns: Seq<Seq<char>>,
) -> bool {
    exists|j: int| 0 <= j < patterns.len() && matcher.excludes(path, #[trigger] patterns[j])
}

/// Whether `matcher` excludes `path` when asked about one of `patterns`.
pub fn is_excluded<M: ExclusionMatcher>(matcher: &M, path: &str, patterns: &[String]) -> (b: bool)
    ensures
        b == excluded_by(matcher, path@, texts(patterns@)),
{
    let mut j: usize = 0;
    while j < patterns.len()
        invariant
            j <= patterns.len(),
            forall|k: int| 0 <= k < j ==> !matcher.excludes(path@, #[trigger] texts(patterns@)[k]),
        decreases patterns.len() - j,
    {
        assert(texts(patterns@)[j as int] == patterns[j as int]@);
        if matcher.matches(path, patterns[j].as_str()) {
            return true;
        }
        j += 1;
    }
    false
}

/// The paths among `paths` that `matcher` does not exclude, in their order.
pub open spec fn kept_paths<M: ExclusionMatcher>(
    matcher: &M,
    paths: Seq<Seq<char>>,
    patterns: Seq<Seq<char>>,
) -> Seq<Seq<char>> {
    paths.filter(|p: Seq<char>| !excluded_by(matcher, p, patterns))
}

/// Holds exclusion patterns apart from paths and applies them through a
/// matcher.
pub struct ExclusionService<M: ExclusionMatcher> {
    pub matcher: M,
}

impl<M: ExclusionMatcher> ExclusionService<M> {
    pub fn new(matcher: M) -> (s: Self)
        ensures
            s.matcher == matcher,
    {
        ExclusionService { matcher }
    }

    /// Splits `paths` into the paths to include and the exclusion patterns.
    pub fn extract_exclusion_patterns(&self, paths: &[String]) -> (r: (Vec<String>, Vec<String>))
        ensures
            texts(r.0@) == include_lines(texts(paths@)),
            texts(r.1@) == exclusion_lines(texts(paths@)),
    {
        extract_exclusion_patterns(paths)
    }

    /// The paths that the matcher excludes for none of `exclude_patterns`,
    /// in their order.
    pub fn filter_excluded_paths(&self, paths: &[String], exclude_patterns: &[String]) -> (r:
        Result<Vec<String>>)
        ensures
            r matches Ok(kept) && texts(kept@) == kept_paths(
                &self.matcher,
                texts(paths@),
                texts(exclude_patterns@),
            ),
    {
        let ghost all = texts(paths@);
        let ghost keep = |p: Seq<char>| !excluded_by(&self.matcher, p, texts(exclude_patterns@));
        let mut filtered_paths: Vec<String> = Vec::new();
        proof {
            lemma_filter_empty(all.take(0), keep);
            assert(texts(filtered_paths@) =~= all.take(0).filter(keep));
        }
        let mut i: usize = 0;
        while i < paths.len()
            invariant
                i <= paths.len(),
                all == texts(paths@),
                keep == |p: Seq<char>| !excluded_by(&self.matcher, p, texts(exclude_patterns@)),
                texts(filtered_paths@) == all.take(i as int).filter(keep),
            decreases paths.len() - i,
        {
            let path = &paths[i];
            proof {
                lemma_filter_step(all, keep, i as int);
                assert(all[i as int] == path@);
            }
            let ghost before = filtered_paths@;
            if !is_excluded(&self.matcher, path.as_str(), exclude_patterns) {
                filtered_paths.push(path.clone());
                proof {
                    assert(texts(filtered_paths@) =~= texts(before).push(path@));
                }
            }
            i += 1;
        }
        assert(all.take(paths.len() as int) == all);
        Ok(filtered_paths)
    }

    /// Splits `paths` and filters the paths to include by the patterns found
    /// among them. Returns what is kept and how many paths were excluded.
    pub fn apply_exclusions(&self, paths: &[String]) -> (r: Result<(Vec<String>, usize)>)
        ensures
            r matches Ok((kept, excluded)) && {
                let wanted = include_lines(texts(paths@));
                let patterns = exclusion_lines(texts(paths@));
                &&& texts(kept@) == kept_paths(&self.matcher, wanted, patterns)
                &&& excluded == wanted.len() - texts(kept@).len()
            },
    {
        let (include_paths, exclude_patterns) = self.extract_exclusion_patterns(paths);
        let ghost wanted = texts(include_paths@);
        let ghost patterns = texts(exclude_patterns@);
        if exclude_patterns.len() == 0 {
            proof {
                let keep = |p: Seq<char>| !excluded_by(&self.matcher, p, patterns);
                assert forall|i: int| 0 <= i < wanted.len() implies keep(#[trigger] wanted[i]) by {}
                lemma_filter_all(wanted, keep);
            }
            return Ok((include_paths, 0));
        }
        let included_count = include_paths.len();
        let filtered_paths = match self.filter_excluded_paths(
            include_paths.as_slice(),
            exclude_patterns.as_slice(),
        ) {
            Ok(kept) => kept,
            Err(e) => {
                return Err(e);
            },
        };
        proof {
            let keep = |p: Seq<char>| !excluded_by(&self.matcher, p, patterns);
            wanted.lemma_filter_len(keep);
        }
        let excluded_count = included_count - filtered_paths.len();
        Ok((filtered_paths, excluded_count))
    }

    /// A line that names the matcher.
    pub fn matcher_info(&self) -> (s: &'static str)
        ensures
            s@ == self.matcher.description_text(),
    {
        self.matcher.description()
    }
}

/// A path that the matcher excludes for one of the patterns is not among
/// the paths kept, and every path kept is one of the paths given.
pub proof fn lemma_excluded_paths_are_dropped<M: ExclusionMatcher>(
    matcher: &M,
    paths: Seq<Seq<char>>,
    patterns: Seq<Seq<char>>,
)
    ensures
        forall|path: Seq<char>| #[trigger]
            kept_paths(matcher, paths, patterns).contains(path) <==> paths.contains(path)
                && !excluded_by(matcher, path, patterns),
{
    lemma_filter_members(paths, |p: Seq<char>| !excluded_by(matcher, p, patterns));
}

/// A filter that every element passes changes nothing.
pub proof fn lemma_filter_all<A>(s: Seq<A>, pred: spec_fn(A) -> bool)
    requires
        forall|i: int| 0 <= i < s.len() ==> pred(#[trigger] s[i]),
    ensures
        s.filter(pred) == s,
    decreases s.len(),
{
    reveal(Seq::filter);
    if s.len() > 0 {
        let t = s.drop_last();
        assert forall|i: int| 0 <= i < t.len() implies pred(#[trigger] t[i]) by {
            assert(t[i] == s[i]);
        }
        lemma_filter_all(t, pred);
        assert(pred(s[s.len() - 1]));
        assert(t.push(s.last()) =~= s);
    }
}

} // verus!
