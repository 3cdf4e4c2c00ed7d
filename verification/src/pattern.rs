//! Wildcard exclusion patterns, compiled to anchored regular expressions.
//!
//! A pattern is made of literal characters, `*` for any run of characters and
//! `?` for exactly one, as the expression `.` of the regex crate takes a
//! character. Pattern and path are both normalized before they are matched,
//! so that neither the case of a letter nor the kind of a slash tells two
//! apart.

use vstd::prelude::*;
use regex::Regex;
use crate::error::{ArchtreeError, Result};
use crate::paths::{normalize_path, normalized};
use crate::text::{chars_of, contains_run, has_run, texts};

verus! {

/// `Regex` of the regex crate: a compiled regular expression. Nothing is
/// known of what it holds.
#[verifier::external_type_specification]
#[verifier::external_body]
pub struct ExRegex(regex::Regex);

/// `Error` of the regex crate: why an expression was not compiled. Nothing
/// is known of what it holds.
#[verifier::external_type_specification]
#[verifier::external_body]
pub struct ExRegexError(regex::Error);

/// What `Regex::new` of the regex crate returns for the expression `expr`.
pub uninterp spec fn regex_new(expr: Seq<char>) -> core::result::Result<Regex, regex::Error>;

/// What `Regex::is_match` of the regex crate returns for `re` on `text`.
pub uninterp spec fn regex_is_match(re: Regex, text: Seq<char>) -> bool;

/// `Regex::new` of the regex crate: compiles `expr`, or says why it cannot.
/// The outcome is a function of the expression alone.
#[verifier::external_body]
fn compile(expr: &str) -> (r: core::result::Result<Regex, regex::Error>)
    ensures
        r == regex_new(expr@),
{
    Regex::new(expr)
}

/// `Regex::is_match` of the regex crate: whether `re` matches somewhere in
/// `text`. The outcome is a function of the two alone.
#[verifier::external_body]
fn is_match(re: &Regex, text: &str) -> (b: bool)
    ensures
        b == regex_is_match(*re, text@),
{
    re.is_match(text)
}

/// The text with which the regex crate presents a compile error. Nothing is
/// claimed of it.
#[verifier::external_body]
fn compile_error_text(e: &regex::Error) -> (s: String) {
    format!("{}", e)
}

/// Whether `c` has a meaning of its own in a regular expression and is
/// therefore escaped.
pub open spec fn is_meta(c: char) -> bool {
    c == '.' || c == '^' || c == '$' || c == '(' || c == ')' || c == '[' || c == ']' || c == '{'
        || c == '}' || c == '|' || c == '+' || c == '\\'
}

/// What one character of a pattern becomes in the expression.
pub open spec fn translated_char(c: char) -> Seq<char> {
    if c == '*' {
        seq!['.', '*']
    } else if c == '?' {
        seq!['.']
    } else if is_meta(c) {
        seq!['\\', c]
    } else {
        seq![c]
    }
}

/// What the characters of a pattern become in the expression, one after the
/// other.
pub open spec fn translated(pattern: Seq<char>) -> Seq<char>
    decreases pattern.len(),
{
    if pattern.len() == 0 {
        Seq::empty()
    } else {
        translated(pattern.drop_last()) + translated_char(pattern.last())
    }
}

/// The regular expression for `pattern`: its translation, anchored at both
/// ends.
pub open spec fn wildcard_expr(pattern: Seq<char>) -> Seq<char> {
    seq!['^'] + translated(pattern) + seq!['$']
}

/// The regular expression that is compiled for `pattern`: that of its
/// normalized form.
pub open spec fn compiled_expr(pattern: Seq<char>) -> Seq<char> {
    wildcard_expr(normalized(pattern))
}

/// Whether `pattern` can be compiled.
pub open spec fn compiles(pattern: Seq<char>) -> bool {
    regex_new(compiled_expr(pattern)) is Ok
}

/// Whether `path` matches `pattern`: the compiled expression of the
/// normalized pattern matches the normalized path.
pub open spec fn pattern_matches(pattern: Seq<char>, path: Seq<char>) -> bool {
    match regex_new(compiled_expr(pattern)) {
        Ok(re) => regex_is_match(re, normalized(path)),
        Err(_) => false,
    }
}

/// Whether `path` matches one of `patterns`.
pub open spec fn any_pattern_matches(patterns: Seq<Seq<char>>, path: Seq<char>) -> bool {
    exists|i: int| 0 <= i < patterns.len() && pattern_matches(#[trigger] patterns[i], path)
}

/// A strategy that decides whether a path is excluded.
pub trait ExclusionMatcher {
    /// Whether the matcher excludes `path`, asked about `pattern`.
    spec fn excludes(&self, path: Seq<char>, pattern: Seq<char>) -> bool;

    /// Whether `path` is excluded. A matcher may judge by `pattern`, by
    /// patterns of its own, or by both.
    fn matches(&self, path: &str, pattern: &str) -> (b: bool)
        ensures
            b == self.excludes(path@, pattern@),
    ;

    /// The name of the strategy.
    spec fn description_text(&self) -> Seq<char>;

    /// A line that names the strategy.
    fn description(&self) -> (s: &'static str)
        ensures
            s@ == self.description_text(),
    ;
}

/// A set of wildcard patterns, each kept with its compiled expression.
pub struct WildcardMatcher {
    compiled_patterns: Vec<(String, Regex)>,
}

impl WildcardMatcher {
    #[verifier::type_invariant]
    spec fn compiled_from_patterns(self) -> bool {
        forall|i: int|
            0 <= i < self.compiled_patterns.len() ==> regex_new(
                compiled_expr((#[trigger] self.compiled_patterns[i]).0@),
            ) == Ok::<Regex, regex::Error>(self.compiled_patterns[i].1)
    }

    /// The patterns of the matcher, in the order in which they were given.
    pub closed spec fn patterns(self) -> Seq<Seq<char>> {
        Seq::new(self.compiled_patterns@.len(), |i: int| self.compiled_patterns@[i].0@)
    }

    /// A matcher without patterns: it excludes nothing.
    pub fn new() -> (m: Self)
        ensures
            m.patterns() == Seq::<Seq<char>>::empty(),
    {
        WildcardMatcher { compiled_patterns: Vec::new() }
    }

    /// A matcher for `patterns`, each compiled in its normalized form. The
    /// first pattern that cannot be compiled gives a path-processing error
    /// that names it.
    pub fn with_patterns(patterns: &[String]) -> (r: Result<Self>)
        ensures
            match r {
                Ok(m) => {
                    &&& m.patterns() == texts(patterns@)
                    &&& forall|i: int| 0 <= i < patterns.len() ==> compiles(#[trigger] patterns[i]@)
                },
                Err(e) => exists|k: int|
                    {
                        &&& 0 <= k < patterns.len()
                        &&& !compiles(#[trigger] patterns[k]@)
                        &&& forall|i: int| 0 <= i < k ==> compiles(#[trigger] patterns[i]@)
                        &&& e is PathProcessing
                        &&& e.message_text() == "Invalid exclusion pattern: "@ + patterns[k]@
                        &&& e.subject_text() == Some(patterns[k]@)
                        &&& e.source_text() is Some
                    },
            },
    {
        let mut compiled_patterns: Vec<(String, Regex)> = Vec::new();
        let mut k: usize = 0;
        while k < patterns.len()
            invariant
                k <= patterns.len(),
                compiled_patterns.len() == k,
                forall|i: int|
                    0 <= i < k ==> (#[trigger] compiled_patterns[i]).0@ == patterns[i]@
                        && regex_new(compiled_expr(patterns[i]@)) == Ok::<Regex, regex::Error>(
                        compiled_patterns[i].1,
                    ),
            decreases patterns.len() - k,
        {
            let pattern = &patterns[k];
            let normalized_pattern = normalize_path(pattern.as_str());
            let expr = Self::wildcard_to_regex(normalized_pattern.as_str());
            match compile(expr.as_str()) {
                Ok(regex) => {
                    compiled_patterns.push((pattern.clone(), regex));
                },
                Err(e) => {
                    let message = "Invalid exclusion pattern: ".to_owned().concat(
                        pattern.as_str(),
                    );
                    let source = compile_error_text(&e);
                    let error = ArchtreeError::path_processing_with_source(
                        message.as_str(),
                        Some(pattern.as_str()),
                        source.as_str(),
                    );
                    assert(!compiles(patterns[k as int]@));
                    assert forall|i: int| 0 <= i < k implies compiles(#[trigger] patterns[i]@) by {
                        assert(compiled_patterns[i].0@ == patterns[i]@);
                    }
                    return Err(error);
                },
            }
            k += 1;
        }
        let m = WildcardMatcher { compiled_patterns };
        proof {
            assert(m.patterns() =~= texts(patterns@));
            assert forall|i: int| 0 <= i < patterns.len() implies compiles(
                #[trigger] patterns[i]@,
            ) by {
                assert(m.compiled_patterns[i].0@ == patterns[i]@);
            }
        }
        Ok(m)
    }

    /// The anchored regular expression for the wildcard `pattern`.
    pub fn wildcard_to_regex(pattern: &str) -> (regex: String)
        ensures
            regex@ == wildcard_expr(pattern@),
    {
        let v = chars_of(pattern);
        let mut regex = String::new();
        regex.push('^');
        let mut i: usize = 0;
        while i < v.len()
            invariant
                i <= v.len(),
                regex@ == seq!['^'] + translated(v@.take(i as int)),
            decreases v.len() - i,
        {
            let c = v[i];
            proof {
                assert(v@.take(i + 1).drop_last() == v@.take(i as int));
                assert(v@.take(i + 1).last() == c);
            }
            let ghost before = regex@;
            if c == '*' {
                regex.push('.');
                regex.push('*');
            } else if c == '?' {
                regex.push('.');
            } else if c == '.' || c == '^' || c == '$' || c == '(' || c == ')' || c == '['
                || c == ']' || c == '{' || c == '}' || c == '|' || c == '+' || c == '\\' {
                regex.push('\\');
                regex.push(c);
            } else {
                regex.push(c);
            }
            assert(regex@ == before + translated_char(c));
            i += 1;
        }
        assert(v@.take(v.len() as int) == v@);
        regex.push('$');
        regex
    }
}

impl Default for WildcardMatcher {
    fn default() -> (m: Self)
        ensures
            m.patterns() == Seq::<Seq<char>>::empty(),
    {
        Self::new()
    }
}

impl ExclusionMatcher for WildcardMatcher {
    /// A wildcard matcher excludes the paths that match one of its own
    /// patterns; the pattern it is asked about plays no part.
    open spec fn excludes(&self, path: Seq<char>, pattern: Seq<char>) -> bool {
        any_pattern_matches(self.patterns(), path)
    }

    fn matches(&self, path: &str, pattern: &str) -> (b: bool) {
        proof {
            use_type_invariant(self);
        }
        let normalized_path = normalize_path(path);
        let mut i: usize = 0;
        while i < self.compiled_patterns.len()
            invariant
                i <= self.compiled_patterns.len(),
                normalized_path@ == normalized(path@),
                self.compiled_from_patterns(),
                forall|j: int|
                    0 <= j < i ==> !pattern_matches(#[trigger] self.patterns()[j], path@),
            decreases self.compiled_patterns.len() - i,
        {
            let entry = &self.compiled_patterns[i];
            assert(self.patterns()[i as int] == entry.0@);
            if is_match(&entry.1, normalized_path.as_str()) {
                assert(pattern_matches(self.patterns()[i as int], path@));
                return true;
            }
            i += 1;
        }
        false
    }

    open spec fn description_text(&self) -> Seq<char> {
        "Wildcard pattern matcher (supports * and ? wildcards)"@
    }

    fn description(&self) -> (s: &'static str) {
        "Wildcard pattern matcher (supports * and ? wildcards)"
    }
}

/// A wildcard matcher excludes every path that matches one of its patterns,
/// whatever pattern it is asked about, and no other path.
pub proof fn lemma_wildcard_matcher_excludes(
    matcher: &WildcardMatcher,
    path: Seq<char>,
    asked: Seq<char>,
)
    ensures
        matcher.excludes(path, asked) <==> exists|p: Seq<char>|
            matcher.patterns().contains(p) && #[trigger] pattern_matches(p, path),
{
    let patterns = matcher.patterns();
    if matcher.excludes(path, asked) {
        let i = choose|i: int|
            0 <= i < patterns.len() && pattern_matches(#[trigger] patterns[i], path);
        assert(patterns.contains(patterns[i]));
    }
    if exists|p: Seq<char>| patterns.contains(p) && #[trigger] pattern_matches(p, path) {
        let p = choose|p: Seq<char>| patterns.contains(p) && #[trigger] pattern_matches(p, path);
        let i = choose|i: int| 0 <= i < patterns.len() && patterns[i] == p;
        assert(pattern_matches(patterns[i], path));
    }
}

/// Whether `path` matches `pattern`, or, where the pattern cannot be
/// compiled, holds it as it is; both are normalized first.
pub open spec fn matches_normalized(pattern: Seq<char>, path: Seq<char>) -> bool {
    if compiles(pattern) {
        pattern_matches(pattern, path)
    } else {
        contains_run(normalized(path), normalized(pattern))
    }
}

/// A matcher without patterns of its own: it judges a path by the pattern
/// it is asked about, which it compiles each time.
#[derive(Debug, Clone, Copy)]
pub struct SimpleWildcardMatcher;

impl SimpleWildcardMatcher {
    pub fn new() -> Self {
        SimpleWildcardMatcher
    }
}

impl Default for SimpleWildcardMatcher {
    fn default() -> Self {
        Self::new()
    }
}

impl ExclusionMatcher for SimpleWildcardMatcher {
    open spec fn excludes(&self, path: Seq<char>, pattern: Seq<char>) -> bool {
        matches_normalized(pattern, path)
    }

    fn matches(&self, path: &str, pattern: &str) -> (b: bool) {
        let normalized_path = normalize_path(path);
        let normalized_pattern = normalize_path(pattern);
        let regex_pattern = WildcardMatcher::wildcard_to_regex(normalized_pattern.as_str());
        match compile(regex_pattern.as_str()) {
            Ok(regex) => is_match(&regex, normalized_path.as_str()),
            Err(_) => {
                let text = chars_of(normalized_path.as_str());
                let needle = chars_of(normalized_pattern.as_str());
                has_run(&text, &needle)
            },
        }
    }

    open spec fn description_text(&self) -> Seq<char> {
        "Wildcard pattern matcher (supports * and ? wildcards)"@
    }

    fn description(&self) -> (s: &'static str) {
        "Wildcard pattern matcher (supports * and ? wildcards)"
    }
}

/// A matcher for patterns in the style of ignore files. It knows no pattern
/// yet and excludes nothing.
pub struct GitIgnoreMatcher;

impl GitIgnoreMatcher {
    pub fn new() -> Self {
        GitIgnoreMatcher
    }
}

impl Default for GitIgnoreMatcher {
    fn default() -> Self {
        Self::new()
    }
}

impl ExclusionMatcher for GitIgnoreMatcher {
    open spec fn excludes(&self, path: Seq<char>, pattern: Seq<char>) -> bool {
        false
    }

    fn matches(&self, path: &str, pattern: &str) -> (b: bool) {
        false
    }

    open spec fn description_text(&self) -> Seq<char> {
        "GitIgnore-style pattern matcher (future enhancement)"@
    }

    fn description(&self) -> (s: &'static str) {
        "GitIgnore-style pattern matcher (future enhancement)"
    }
}

} // verus!
