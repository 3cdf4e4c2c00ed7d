//! The decisions of a backup run. The caller reads the input, looks at the
//! file system and runs the archive tool; the service decides what the
//! input asks for, whether there is anything to archive, and remembers the
//! files of the run.

use vstd::prelude::*;
use crate::archiver::Archiver;
use crate::config::Config;
use crate::error::{ArchtreeError, Result};
use crate::exclusion::{exclusion_lines, extract_exclusion_patterns, include_lines};
use crate::expand::{PathProcessor, ProcessingStatus, ProcessorView};
use crate::pattern::{compiles, WildcardMatcher};
use crate::text::texts;

verus! {

/// How many paths were added, excluded and found invalid.
#[derive(Debug, Clone, Copy, PartialEq, Eq)]
pub struct ProcessingSummary {
    pub added: usize,
    pub excluded: usize,
    pub invalid: usize,
}

/// `n + 1`, or `n` where that is the greatest number.
pub open spec fn next_count(n: usize) -> usize {
    if n < usize::MAX {
        (n + 1) as usize
    } else {
        n
    }
}

fn count_up(n: usize) -> (r: usize)
    ensures
        r == next_count(n),
{
    if n < usize::MAX {
        n + 1
    } else {
        n
    }
}

impl ProcessingSummary {
    /// A summary of nothing.
    pub fn new() -> (s: Self)
        ensures
            s == (ProcessingSummary { added: 0, excluded: 0, invalid: 0 }),
    {
        ProcessingSummary { added: 0, excluded: 0, invalid: 0 }
    }

    /// Counts one path with the status `status`.
    pub fn record(&mut self, status: &ProcessingStatus)
        ensures
            *final(self) == match *status {
                ProcessingStatus::Added => ProcessingSummary {
                    added: next_count(old(self).added),
                    ..*old(self)
                },
                ProcessingStatus::Excluded => ProcessingSummary {
                    excluded: next_count(old(self).excluded),
                    ..*old(self)
                },
                ProcessingStatus::Invalid(_) => ProcessingSummary {
                    invalid: next_count(old(self).invalid),
                    ..*old(self)
                },
            },
    {
        match status {
            ProcessingStatus::Added => {
                self.added = count_up(self.added);
            },
            ProcessingStatus::Excluded => {
                self.excluded = count_up(self.excluded);
            },
            ProcessingStatus::Invalid(_) => {
                self.invalid = count_up(self.invalid);
            },
        }
    }
}

/// What the input of a run asks for: the processor of its paths and the
/// matcher of its exclusion patterns.
pub struct InputPlan {
    pub processor: PathProcessor,
    pub matcher: WildcardMatcher,
}

/// A backup run.
pub struct BackupService<A: Archiver> {
    archiver: A,
    config: Config,
    /// The files of the run. They are set once; what is set stays.
    processed_paths: Option<Vec<String>>,
}

impl<A: Archiver> BackupService<A> {
    /// The archive tool of the run.
    pub closed spec fn tool(self) -> A {
        self.archiver
    }

    /// The settings of the run.
    pub closed spec fn settings(self) -> Config {
        self.config
    }

    /// The archive tool of the run.
    pub fn archiver(&self) -> (a: &A)
        ensures
            *a == self.tool(),
    {
        &self.archiver
    }

    /// The settings of the run.
    pub fn config(&self) -> (c: &Config)
        ensures
            *c == self.settings(),
    {
        &self.config
    }

    /// The files of the run, once they are known.
    pub closed spec fn remembered(self) -> Option<Seq<Seq<char>>> {
        match self.processed_paths {
            Some(paths) => Some(texts(paths@)),
            None => None,
        }
    }

    /// A run that knows no files yet.
    pub fn new(archiver: A, config: Config) -> (s: Self)
        ensures
            s.tool() == archiver,
            s.settings() == config,
            s.remembered() is None,
    {
        BackupService { archiver, config, processed_paths: None }
    }

    /// The files of the run, once they are known.
    pub fn get_input_paths(&self) -> (r: Option<Vec<String>>)
        ensures
            match r {
                Some(paths) => self.remembered() == Some(texts(paths@)),
                None => self.remembered() is None,
            },
    {
        match &self.processed_paths {
            Some(paths) => {
                let mut copy: Vec<String> = Vec::new();
                let mut i: usize = 0;
                assert(texts(copy@) =~= texts(paths@).take(0));
                while i < paths.len()
                    invariant
                        i <= paths.len(),
                        texts(copy@) == texts(paths@).take(i as int),
                    decreases paths.len() - i,
                {
                    let ghost before = texts(copy@);
                    copy.push(paths[i].clone());
                    assert(texts(copy@) =~= before.push(paths[i as int]@));
                    assert(texts(paths@).take(i + 1) =~= texts(paths@).take(i as int).push(
                        paths[i as int]@,
                    ));
                    i += 1;
                }
                assert(texts(paths@).take(paths.len() as int) == texts(paths@));
                Some(copy)
            },
            None => None,
        }
    }

    /// Remembers the files of the run, unless files are remembered already.
    pub fn remember_paths(&mut self, paths: Vec<String>)
        ensures
            final(self).remembered() == match old(self).remembered() {
                Some(before) => Some(before),
                None => Some(texts(paths@)),
            },
            final(self).tool() == old(self).tool(),
            final(self).settings() == old(self).settings(),
    {
        if self.processed_paths.is_none() {
            self.processed_paths = Some(paths);
        }
    }

    /// Fails where the archive tool cannot be run.
    pub fn check_available(&self, available: bool) -> (r: Result<()>)
        ensures
            match r {
                Ok(_) => available,
                Err(e) => !available && e is ExternalTool && e.tool_text() == Some(
                    self.tool().name_text(),
                ) && e.message_text() == self.tool().name_text()
                    + " is not available on this system"@,
            },
    {
        if !available {
            let name = self.archiver.name();
            let message = name.to_owned().concat(" is not available on this system");
            return Err(ArchtreeError::external_tool(name, message.as_str()));
        }
        Ok(())
    }

    /// Reads what the input lines ask for. Fails with a configuration error
    /// where there is no line, where no line names a path to include, or
    /// where an exclusion pattern cannot be compiled.
    pub fn process_input_paths(&self, input_paths: &[String]) -> (r: Result<InputPlan>)
        ensures
            match r {
                Ok(plan) => {
                    &&& input_paths@.len() > 0
                    &&& include_lines(texts(input_paths@)).len() > 0
                    &&& plan.processor@ == (ProcessorView {
                        inputs: include_lines(texts(input_paths@)),
                        patterns: exclusion_lines(texts(input_paths@)),
                        index: 0,
                        pending: Seq::empty(),
                        yielded: Seq::empty(),
                    })
                    &&& plan.matcher.patterns() == exclusion_lines(texts(input_paths@))
                },
                Err(e) => {
                    &&& e is Config
                    &&& if input_paths@.len() == 0 {
                        e.message_text() == "No input paths provided"@
                    } else if include_lines(texts(input_paths@)).len() == 0 {
                        e.message_text() == "No include paths found after filtering exclusions"@
                    } else {
                        &&& e.message_text() == "Failed to create wildcard matcher"@
                        &&& exists|k: int|
                            0 <= k < exclusion_lines(texts(input_paths@)).len() && !compiles(
                                #[trigger] exclusion_lines(texts(input_paths@))[k],
                            )
                    }
                },
            },
    {
        if input_paths.len() == 0 {
            return Err(ArchtreeError::config("No input paths provided"));
        }
        let (include_paths, exclude_patterns) = extract_exclusion_patterns(input_paths);
        if include_paths.len() == 0 {
            return Err(
                ArchtreeError::config("No include paths found after filtering exclusions"),
            );
        }
        let matcher = match WildcardMatcher::with_patterns(exclude_patterns.as_slice()) {
            Ok(matcher) => matcher,
            Err(cause) => {
                proof {
                    let k = choose|k: int|
                        0 <= k < exclude_patterns@.len() && !compiles(
                            #[trigger] exclude_patterns@[k]@,
                        );
                    assert(texts(exclude_patterns@)[k] == exclude_patterns@[k]@);
                }
                let source = cause.to_string();
                return Err(
                    ArchtreeError::config_with_source(
                        "Failed to create wildcard matcher",
                        source.as_str(),
                    ),
                );
            },
        };
        let processor = match PathProcessor::new(include_paths, exclude_patterns) {
            Ok(processor) => processor,
            Err(e) => {
                return Err(e);
            },
        };
        Ok(InputPlan { processor, matcher })
    }

    /// Ends the expansion of a run: remembers `processed_paths` as the files
    /// of the run and hands them out for the archive tool. Fails with a
    /// configuration error, and remembers nothing, where there is no file.
    pub fn accept_paths(&mut self, processed_paths: Vec<String>) -> (r: Result<Vec<String>>)
        ensures
            match r {
                Ok(paths) => {
                    &&& processed_paths@.len() > 0
                    &&& paths == processed_paths
                    &&& final(self).remembered() == match old(self).remembered() {
                        Some(before) => Some(before),
                        None => Some(texts(processed_paths@)),
                    }
                },
                Err(e) => {
                    &&& processed_paths@.len() == 0
                    &&& e is Config
                    &&& e.message_text() == "No valid paths found to archive"@
                    &&& final(self).remembered() == old(self).remembered()
                },
            },
            final(self).tool() == old(self).tool(),
            final(self).settings() == old(self).settings(),
    {
        if processed_paths.len() == 0 {
            return Err(ArchtreeError::config("No valid paths found to archive"));
        }
        if self.processed_paths.is_none() {
            let mut copy: Vec<String> = Vec::new();
            let mut i: usize = 0;
            assert(texts(copy@) =~= texts(processed_paths@).take(0));
            while i < processed_paths.len()
                invariant
                    i <= processed_paths.len(),
                    texts(copy@) == texts(processed_paths@).take(i as int),
                decreases processed_paths.len() - i,
            {
                let ghost before = texts(copy@);
                copy.push(processed_paths[i].clone());
                assert(texts(copy@) =~= before.push(processed_paths[i as int]@));
                assert(texts(processed_paths@).take(i + 1) =~= texts(processed_paths@).take(
                    i as int,
                ).push(processed_paths[i as int]@));
                i += 1;
            }
            assert(texts(processed_paths@).take(processed_paths.len() as int) == texts(
                processed_paths@,
            ));
            self.processed_paths = Some(copy);
        }
        Ok(processed_paths)
    }
}

} // verus!
