//! The lines that present missing files to a user.

use vstd::prelude::*;
use crate::consolidate::consolidated_report;
use crate::diff::VerificationResult;
use crate::text::texts;

verus! {

/// A line of a list: `item` behind four spaces, a dash and a space.
pub open spec fn bullet_of(item: Seq<char>) -> Seq<char> {
    "    - "@ + item
}

/// The lines of a list of `items`, one line for each.
pub open spec fn bullets_of(items: Seq<Seq<char>>) -> Seq<Seq<char>> {
    items.map_values(|m: Seq<char>| bullet_of(m))
}

/// The lines of a list of `items`.
pub fn bullet_lines(items: &[String]) -> (lines: Vec<String>)
    ensures
        texts(lines@) == bullets_of(texts(items@)),
{
    let mut lines: Vec<String> = Vec::new();
    let mut i: usize = 0;
    assert(texts(lines@) =~= bullets_of(texts(items@).take(0)));
    while i < items.len()
        invariant
            i <= items.len(),
            texts(lines@) == bullets_of(texts(items@).take(i as int)),
        decreases items.len() - i,
    {
        let ghost before = texts(lines@);
        lines.push("    - ".to_owned().concat(items[i].as_str()));
        proof {
            assert(texts(lines@) =~= before.push(bullet_of(items[i as int]@)));
            assert(bullets_of(texts(items@).take(i + 1)) =~= bullets_of(
                texts(items@).take(i as int),
            ).push(bullet_of(items[i as int]@)));
        }
        i += 1;
    }
    assert(texts(items@).take(items.len() as int) == texts(items@));
    lines
}

/// A way of presenting the missing files of a result.
pub trait MissingFileDisplayStrategy {
    /// The lines that present the missing files `missing` out of the
    /// expected files `expected`.
    spec fn lines_for(&self, missing: Seq<Seq<char>>, expected: Seq<Seq<char>>) -> Seq<Seq<char>>;

    /// The lines that present the missing files of `result`.
    fn display_missing_files(&self, result: &VerificationResult) -> (lines: Vec<String>)
        ensures
            texts(lines@) == self.lines_for(result.missing(), result.expected()),
    ;

    /// The name of the strategy.
    spec fn name_text(&self) -> Seq<char>;

    /// The name of the strategy.
    fn name(&self) -> (s: &'static str)
        ensures
            s@ == self.name_text(),
    ;
}

/// Presents every missing file by a line of its own.
#[derive(Debug, Clone, Copy)]
pub struct DetailedDisplayStrategy;

impl MissingFileDisplayStrategy for DetailedDisplayStrategy {
    open spec fn lines_for(&self, missing: Seq<Seq<char>>, expected: Seq<Seq<char>>) -> Seq<
        Seq<char>,
    > {
        bullets_of(missing)
    }

    fn display_missing_files(&self, result: &VerificationResult) -> (lines: Vec<String>) {
        bullet_lines(result.missing_files.as_slice())
    }

    open spec fn name_text(&self) -> Seq<char> {
        "detailed"@
    }

    fn name(&self) -> (s: &'static str) {
        "detailed"
    }
}

/// Presents the consolidated report: a directory by one line where every
/// file expected in it is missing.
#[derive(Debug, Clone, Copy)]
pub struct ConsolidatedDisplayStrategy;

impl MissingFileDisplayStrategy for ConsolidatedDisplayStrategy {
    open spec fn lines_for(&self, missing: Seq<Seq<char>>, expected: Seq<Seq<char>>) -> Seq<
        Seq<char>,
    > {
        bullets_of(consolidated_report(missing, expected))
    }

    fn display_missing_files(&self, result: &VerificationResult) -> (lines: Vec<String>) {
        let consolidated_missing = result.get_consolidated_missing_files();
        bullet_lines(consolidated_missing.as_slice())
    }

    open spec fn name_text(&self) -> Seq<char> {
        "consolidated"@
    }

    fn name(&self) -> (s: &'static str) {
        "consolidated"
    }
}

/// One of the ways of presenting missing files.
#[derive(Debug, Clone, Copy)]
pub enum DisplayStrategy {
    Detailed(DetailedDisplayStrategy),
    Consolidated(ConsolidatedDisplayStrategy),
}

impl MissingFileDisplayStrategy for DisplayStrategy {
    open spec fn lines_for(&self, missing: Seq<Seq<char>>, expected: Seq<Seq<char>>) -> Seq<
        Seq<char>,
    > {
        match self {
            DisplayStrategy::Detailed(s) => s.lines_for(missing, expected),
            DisplayStrategy::Consolidated(s) => s.lines_for(missing, expected),
        }
    }

    fn display_missing_files(&self, result: &VerificationResult) -> (lines: Vec<String>) {
        match self {
            DisplayStrategy::Detailed(s) => s.display_missing_files(result),
            DisplayStrategy::Consolidated(s) => s.display_missing_files(result),
        }
    }

    open spec fn name_text(&self) -> Seq<char> {
        match self {
            DisplayStrategy::Detailed(s) => s.name_text(),
            DisplayStrategy::Consolidated(s) => s.name_text(),
        }
    }

    fn name(&self) -> (s: &'static str) {
        match self {
            DisplayStrategy::Detailed(s) => s.name(),
            DisplayStrategy::Consolidated(s) => s.name(),
        }
    }
}

/// Presents missing files by the strategy it holds.
pub struct MissingFileDisplayContext {
    pub strategy: DisplayStrategy,
}

impl MissingFileDisplayContext {
    /// A context that presents by `strategy`.
    pub fn new(strategy: DisplayStrategy) -> (c: Self)
        ensures
            c.strategy == strategy,
    {
        MissingFileDisplayContext { strategy }
    }

    /// A context that presents every missing file.
    pub fn with_detailed_strategy() -> (c: Self)
        ensures
            c.strategy == DisplayStrategy::Detailed(DetailedDisplayStrategy),
    {
        Self::new(DisplayStrategy::Detailed(DetailedDisplayStrategy))
    }

    /// A context that presents the consolidated report.
    pub fn with_consolidated_strategy() -> (c: Self)
        ensures
            c.strategy == DisplayStrategy::Consolidated(ConsolidatedDisplayStrategy),
    {
        Self::new(DisplayStrategy::Consolidated(ConsolidatedDisplayStrategy))
    }

    /// The lines that present the missing files of `result`.
    pub fn display_missing_files(&self, result: &VerificationResult) -> (lines: Vec<String>)
        ensures
            texts(lines@) == self.strategy.lines_for(result.missing(), result.expected()),
    {
        self.strategy.display_missing_files(result)
    }

    /// The name of the strategy.
    pub fn strategy_name(&self) -> (s: &'static str)
        ensures
            s@ == self.strategy.name_text(),
    {
        self.strategy.name()
    }

    /// Changes the strategy.
    pub fn set_strategy(&mut self, strategy: DisplayStrategy)
        ensures
            final(self).strategy == strategy,
    {
        self.strategy = strategy;
    }
}

} // verus!
