//! Which paths exist. The caller asks the file system; a validator judges
//! the answers.

use vstd::prelude::*;
use crate::error::{ArchtreeError, Result};
use crate::text::texts;

verus! {

/// What the file system answered when it was asked about a path.
#[derive(Debug, Clone)]
pub enum PathProbe {
    /// The path exists.
    Found,
    /// Nothing exists at the path.
    NotFound,
    /// The question failed; the text says why.
    Failed(String),
}

/// The answer for the path at `i`; a path without an answer was not found.
pub open spec fn probe_at(probes: Seq<PathProbe>, i: int) -> PathProbe {
    if 0 <= i < probes.len() {
        probes[i]
    } else {
        PathProbe::NotFound
    }
}

/// The index of the first verdict that is none.
pub open spec fn first_unknown(verdicts: Seq<Option<bool>>) -> Option<int>
    decreases verdicts.len(),
{
    if verdicts.len() == 0 {
        None
    } else {
        match first_unknown(verdicts.drop_last()) {
            Some(k) => Some(k),
            None => if verdicts.last() is None {
                Some(verdicts.len() - 1)
            } else {
                None
            },
        }
    }
}

/// The paths whose verdict is that they are valid, in order.
pub open spec fn passed(paths: Seq<Seq<char>>, verdicts: Seq<Option<bool>>) -> Seq<Seq<char>>
    decreases verdicts.len(),
{
    if verdicts.len() == 0 {
        Seq::empty()
    } else {
        let front = passed(paths, verdicts.drop_last());
        if verdicts.last() == Some(true) {
            front.push(paths[verdicts.len() - 1])
        } else {
            front
        }
    }
}

/// A way of deciding which paths are valid.
pub trait PathValidator {
    /// Whether the path is valid, given the answer of the file system; none
    /// where the validator cannot tell.
    spec fn verdict(&self, path: Seq<char>, probe: PathProbe) -> Option<bool>;

    /// Whether the path is valid, given the answer of the file system.
    /// Fails where the validator cannot tell.
    fn validate(&self, path: &str, probe: &PathProbe) -> (r: Result<bool>)
        ensures
            match self.verdict(path@, *probe) {
                Some(valid) => r == Ok::<bool, ArchtreeError>(valid),
                None => r is Err,
            },
    ;

    /// The valid paths among `paths`, in order. `probes` gives the answer of
    /// the file system for the path at the same index. Fails where the
    /// validator cannot tell of one of them.
    fn validate_paths(&self, paths: &[String], probes: &[PathProbe]) -> (r: Result<Vec<String>>)
        ensures
            ({
                let verdicts = Seq::new(
                    paths@.len(),
                    |i: int| self.verdict(paths@[i]@, probe_at(probes@, i)),
                );
                match r {
                    Ok(valid) => first_unknown(verdicts) is None && texts(valid@) == passed(
                        texts(paths@),
                        verdicts,
                    ),
                    Err(_) => first_unknown(verdicts) is Some,
                }
            }),
    ;

    /// The name of the strategy.
    spec fn description_text(&self) -> Seq<char>;

    /// A line that names the strategy.
    fn description(&self) -> (s: &'static str)
        ensures
            s@ == self.description_text(),
    ;
}

/// Judges paths by what the file system holds.
#[derive(Debug, Clone, Copy)]
pub struct FileSystemValidator;

impl FileSystemValidator {
    pub fn new() -> Self {
        FileSystemValidator
    }

    /// Whether the path exists, given the answer of the file system: a
    /// question that failed counts as a path that does not exist.
    pub fn is_valid_path(&self, probe: &PathProbe) -> (b: bool)
        ensures
            b == (*probe is Found),
    {
        match probe {
            PathProbe::Found => true,
            _ => false,
        }
    }
}

impl Default for FileSystemValidator {
    fn default() -> Self {
        Self::new()
    }
}

impl PathValidator for FileSystemValidator {
    /// A path is valid where it was found and not valid where it was not;
    /// where the question failed, the validator cannot tell.
    open spec fn verdict(&self, path: Seq<char>, probe: PathProbe) -> Option<bool> {
        match probe {
            PathProbe::Found => Some(true),
            PathProbe::NotFound => Some(false),
            PathProbe::Failed(_) => None,
        }
    }

    /// Where the question failed, the error is a path-processing error that
    /// names the path and keeps the reason.
    fn validate(&self, path: &str, probe: &PathProbe) -> (r: Result<bool>)
        ensures
            *probe matches PathProbe::Failed(reason) ==> r matches Err(e) && e is PathProcessing
                && e.message_text() == "Failed to validate path"@ && e.subject_text() == Some(
                path@,
            ) && e.source_text() == Some(reason@),
    {
        match probe {
            PathProbe::Found => Ok(true),
            PathProbe::NotFound => Ok(false),
            PathProbe::Failed(reason) => Err(
                ArchtreeError::path_processing_with_source(
                    "Failed to validate path",
                    Some(path),
                    reason.as_str(),
                ),
            ),
        }
    }

    /// The error is that of the first path whose question failed.
    fn validate_paths(&self, paths: &[String], probes: &[PathProbe]) -> (r: Result<Vec<String>>)
        ensures
            r matches Err(e) ==> first_unknown(
                Seq::new(paths@.len(), |i: int| self.verdict(paths@[i]@, probe_at(probes@, i))),
            ) matches Some(k) && e is PathProcessing && e.subject_text() == Some(paths@[k]@),
    {
        let ghost all = texts(paths@);
        let ghost verdicts = Seq::new(
            paths@.len(),
            |i: int| self.verdict(paths@[i]@, probe_at(probes@, i)),
        );
        let mut valid: Vec<String> = Vec::new();
        let mut i: usize = 0;
        assert(texts(valid@) =~= passed(all, verdicts.take(0)));
        while i < paths.len()
            invariant
                i <= paths.len(),
                all == texts(paths@),
                verdicts == Seq::new(
                    paths@.len(),
                    |i: int| self.verdict(paths@[i]@, probe_at(probes@, i)),
                ),
                first_unknown(verdicts.take(i as int)) is None,
                texts(valid@) == passed(all, verdicts.take(i as int)),
            decreases paths.len() - i,
        {
            let ghost before = texts(valid@);
            let not_found = PathProbe::NotFound;
            let probe = if i < probes.len() {
                &probes[i]
            } else {
                &not_found
            };
            proof {
                assert(*probe == probe_at(probes@, i as int));
                assert(all[i as int] == paths[i as int]@);
                assert(verdicts.take(i + 1).drop_last() == verdicts.take(i as int));
                assert(verdicts.take(i + 1).last() == verdicts[i as int]);
            }
            match self.validate(paths[i].as_str(), probe) {
                Ok(found) => {
                    if found {
                        valid.push(paths[i].clone());
                        assert(texts(valid@) =~= before.push(paths[i as int]@));
                    }
                },
                Err(e) => {
                    proof {
                        lemma_first_unknown_stays(verdicts, i as int + 1);
                    }
                    return Err(e);
                },
            }
            i += 1;
        }
        assert(verdicts.take(paths.len() as int) == verdicts);
        Ok(valid)
    }

    open spec fn description_text(&self) -> Seq<char> {
        "File system validator (checks if path exists and is accessible)"@
    }

    fn description(&self) -> (s: &'static str) {
        "File system validator (checks if path exists and is accessible)"
    }
}

/// The first verdict that is none among the first `n` is the first one
/// that is none among all.
pub proof fn lemma_first_unknown_stays(verdicts: Seq<Option<bool>>, n: int)
    requires
        0 <= n <= verdicts.len(),
        first_unknown(verdicts.take(n)) is Some,
    ensures
        first_unknown(verdicts) == first_unknown(verdicts.take(n)),
    decreases verdicts.len() - n,
{
    if n < verdicts.len() {
        assert(verdicts.take(n + 1).drop_last() == verdicts.take(n));
        lemma_first_unknown_stays(verdicts, n + 1);
    } else {
        assert(verdicts.take(n) == verdicts);
    }
}

} // verus!
