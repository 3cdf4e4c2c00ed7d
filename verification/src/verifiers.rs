//! Verifiers: they read the listing of an archive and compare it with the
//! files that were expected. The caller runs the tool and reads its output.

use vstd::prelude::*;
use vstd::utf8::{decode_utf8, valid_utf8};
use std::string::FromUtf8Error;
use crate::diff::{found_of, missing_of, verify, VerificationResult};
use crate::entry::{entry_views, file_paths, ArchiveEntry, EntryView, Timestamp};
use crate::error::{ArchtreeError, Result};
use crate::expand::{concatenated, expand_input_paths, list_texts, resolved};
use crate::freshness::{
    files_upto, outdated_upto, outdated_views, verify_archive_freshness, Freshness,
    FreshnessVerificationResult,
};
use crate::lists::unique;
use crate::paths::{normalize_path, normalized};
use crate::report::{
    lemma_stamps_set_times_only, local_stamps, parse_report, report_entries, stamps_fit,
    without_times,
};
use crate::text::{lossy_text, lossy_text_of, texts};

verus! {

/// `FromUtf8Error` of std: the error of bytes that are not valid UTF-8.
/// Nothing is known of what it holds.
#[verifier::external_type_specification]
#[verifier::external_body]
pub struct ExFromUtf8Error(std::string::FromUtf8Error);

/// `String::from_utf8` of std: the string that the bytes encode, if and
/// only if they are valid UTF-8.
pub assume_specification[ String::from_utf8 ](vec: Vec<u8>) -> (r: core::result::Result<
    String,
    FromUtf8Error,
>)
    ensures
        r is Ok <==> valid_utf8(vec@),
        r matches Ok(s) ==> s@ == decode_utf8(vec@),
;

/// The error of a listing that the tool failed to give: an external-tool
/// error for `7z` whose message ends in what the tool wrote to its error
/// output.
pub open spec fn is_listing_failure(e: ArchtreeError, stderr: Seq<u8>) -> bool {
    e is ExternalTool && e.tool_text() == Some("7z"@) && e.message_text()
        == "7z list command failed: "@ + lossy_text_of(stderr)
}

fn listing_failure(stderr: &[u8]) -> (e: ArchtreeError)
    ensures
        is_listing_failure(e, stderr@),
{
    let message = "7z list command failed: ".to_owned().concat(lossy_text(stderr).as_str());
    ArchtreeError::external_tool("7z", message.as_str())
}

/// The error of a tool that cannot be run: an external-tool error for the
/// tool `name` with the message `is not available`.
pub open spec fn is_unavailable_error(e: ArchtreeError, name: Seq<char>) -> bool {
    e is ExternalTool && e.tool_text() == Some(name) && e.message_text() == "is not available"@
}

/// A strategy that reads the listing of an archive.
pub trait ArchiveVerifier {
    /// The entries that the verifier reads from the listing `report` of the
    /// archive at `archive_path`; `stamps` gives the instants for the times
    /// of the report's lines. None where the verifier cannot read the
    /// listing.
    spec fn entries_of(
        &self,
        report: Seq<char>,
        archive_path: Seq<char>,
        stamps: Seq<Option<Timestamp>>,
    ) -> Option<Seq<EntryView>>;

    /// The entries of the archive, files and directories. Fails where the
    /// verifier cannot read the listing.
    fn list_archive_entries(
        &self,
        report: &str,
        archive_path: &str,
        stamps: &[Option<Timestamp>],
    ) -> (r: Result<Vec<ArchiveEntry>>)
        ensures
            match self.entries_of(report@, archive_path@, stamps@) {
                Some(listed) => r matches Ok(entries) && entry_views(entries@) == listed,
                None => r is Err,
            },
    ;

    /// The name of the verifier.
    spec fn name_text(&self) -> Seq<char>;

    /// The name of the verifier.
    fn name(&self) -> (s: &'static str)
        ensures
            s@ == self.name_text(),
    ;
}

/// The 7-Zip command line tool as a verifier.
#[derive(Debug, Clone)]
pub struct SevenZipVerifier {
    pub executable_path: String,
}

/// The arguments of a run of the tool that lists `archive_path` in full,
/// with its output in UTF-8.
pub open spec fn list_arguments_of(archive_path: Seq<char>) -> Seq<Seq<char>> {
    seq!["l"@, "-slt"@, "-sccUTF-8"@, archive_path]
}

/// The arguments of a run of the tool that lists `archive_path` in full,
/// with its output in the encoding of the system.
pub open spec fn legacy_list_arguments_of(archive_path: Seq<char>) -> Seq<Seq<char>> {
    seq!["l"@, "-slt"@, archive_path]
}

impl SevenZipVerifier {
    /// The tool under its usual name.
    pub fn new() -> (v: Self)
        ensures
            v.executable_path@ == "7z.exe"@,
    {
        SevenZipVerifier { executable_path: "7z.exe".to_owned() }
    }

    /// The tool at `executable_path`.
    pub fn with_path(executable_path: String) -> (v: Self)
        ensures
            v.executable_path == executable_path,
    {
        SevenZipVerifier { executable_path }
    }

    /// The arguments that list `archive_path` with UTF-8 output.
    pub fn list_arguments(&self, archive_path: &str) -> (arguments: Vec<String>)
        ensures
            texts(arguments@) == list_arguments_of(archive_path@),
    {
        let mut arguments: Vec<String> = Vec::new();
        arguments.push("l".to_owned());
        arguments.push("-slt".to_owned());
        arguments.push("-sccUTF-8".to_owned());
        arguments.push(archive_path.to_owned());
        assert(texts(arguments@) =~= list_arguments_of(archive_path@));
        arguments
    }

    /// The arguments that list `archive_path` in the system's encoding, for
    /// a tool whose UTF-8 output cannot be read.
    pub fn legacy_list_arguments(&self, archive_path: &str) -> (arguments: Vec<String>)
        ensures
            texts(arguments@) == legacy_list_arguments_of(archive_path@),
    {
        let mut arguments: Vec<String> = Vec::new();
        arguments.push("l".to_owned());
        arguments.push("-slt".to_owned());
        arguments.push(archive_path.to_owned());
        assert(texts(arguments@) =~= legacy_list_arguments_of(archive_path@));
        arguments
    }

    /// The text of a listing that was asked for with UTF-8 output.
    /// `succeeded` says whether the tool ended well. Fails where it did not,
    /// and where its output is not valid UTF-8.
    pub fn utf8_listing(&self, succeeded: bool, stdout: Vec<u8>, stderr: &[u8]) -> (r: Result<
        String,
    >)
        ensures
            match r {
                Ok(text) => succeeded && valid_utf8(stdout@) && text@ == decode_utf8(stdout@),
                Err(e) => if !succeeded {
                    is_listing_failure(e, stderr@)
                } else {
                    !valid_utf8(stdout@) && e is ExternalTool && e.tool_text() == Some("7z"@)
                        && e.message_text() == "Invalid UTF-8 output"@
                },
            },
    {
        if !succeeded {
            return Err(listing_failure(stderr));
        }
        match String::from_utf8(stdout) {
            Ok(text) => Ok(text),
            Err(_) => Err(ArchtreeError::external_tool("7z", "Invalid UTF-8 output")),
        }
    }

    /// The text of a listing that was asked for in the system's encoding:
    /// what can be read as UTF-8, with the rest replaced. Output that is
    /// valid UTF-8 gives the text that `utf8_listing` gives. Fails where the
    /// tool did not end well.
    pub fn legacy_listing(&self, succeeded: bool, stdout: &[u8], stderr: &[u8]) -> (r: Result<
        String,
    >)
        ensures
            match r {
                Ok(text) => succeeded && text@ == lossy_text_of(stdout@) && (valid_utf8(stdout@)
                    ==> text@ == decode_utf8(stdout@)),
                Err(e) => !succeeded && is_listing_failure(e, stderr@),
            },
    {
        if !succeeded {
            return Err(listing_failure(stderr));
        }
        Ok(lossy_text(stdout))
    }

    /// Reads the listing report `stdout` of the archive at `archive_path`.
    /// The times of the report are taken for times of this machine's time
    /// zone; a time for which no instant or more than one fits is passed
    /// over. The entries are those of the report for some instants that fit
    /// its lines.
    pub fn parse_seven_zip_output(&self, stdout: &str, archive_path: &str) -> (r: Result<
        Vec<ArchiveEntry>,
    >)
        ensures
            r matches Ok(entries) && exists|stamps: Seq<Option<Timestamp>>|
                stamps_fit(stdout@, stamps) && entry_views(entries@) == #[trigger] report_entries(
                    stdout@,
                    archive_path@,
                    stamps,
                ),
            r matches Ok(entries) && without_times(entry_views(entries@)) == without_times(
                report_entries(stdout@, archive_path@, Seq::empty()),
            ),
    {
        let stamps = local_stamps(stdout);
        proof {
            lemma_stamps_set_times_only(stdout@, archive_path@, stamps@, Seq::empty());
        }
        Ok(parse_report(stdout, archive_path, stamps.as_slice()))
    }

    /// Compares the expected files with the entries of the archive. Fails
    /// where the tool is not available.
    pub fn verify_archive(
        &self,
        available: bool,
        entries: &[ArchiveEntry],
        expected_files: &[String],
    ) -> (r: Result<VerificationResult>)
        ensures
            match r {
                Ok(result) => {
                    &&& available
                    &&& result.missing() == missing_of(
                        texts(expected_files@),
                        file_paths(entry_views(entries@)),
                    )
                    &&& result.archived() == found_of(
                        texts(expected_files@),
                        file_paths(entry_views(entries@)),
                    )
                    &&& result.expected() == texts(expected_files@)
                    &&& result.total_expected == expected_files@.len()
                    &&& result.total_archived == file_paths(entry_views(entries@)).len()
                    &&& result.partitions()
                },
                Err(e) => !available && is_unavailable_error(e, self.name_text()),
            },
    {
        if !available {
            return Err(ArchtreeError::external_tool(self.name(), "is not available"));
        }
        Ok(verify(expected_files, entries))
    }

    /// Compares the time of each expected file with the time of its
    /// archived copy. Fails where the tool is not available.
    pub fn verify_archive_freshness(
        &self,
        available: bool,
        entries: &[ArchiveEntry],
        expected_files: &[String],
        filesystem_modified: &[Option<Timestamp>],
    ) -> (r: Result<FreshnessVerificationResult>)
        ensures
            match r {
                Ok(result) => {
                    &&& available
                    &&& outdated_views(result.outdated_files@) == outdated_upto(
                        texts(expected_files@),
                        entry_views(entries@),
                        filesystem_modified@,
                        expected_files@.len() as int,
                    )
                    &&& texts(result.up_to_date_files@) == files_upto(
                        texts(expected_files@),
                        entry_views(entries@),
                        filesystem_modified@,
                        Freshness::UpToDate,
                        expected_files@.len() as int,
                    )
                    &&& texts(result.unverifiable_files@) == files_upto(
                        texts(expected_files@),
                        entry_views(entries@),
                        filesystem_modified@,
                        Freshness::Unverifiable,
                        expected_files@.len() as int,
                    )
                    &&& result.total_checked == expected_files@.len()
                },
                Err(e) => !available && is_unavailable_error(e, self.name_text()),
            },
    {
        if !available {
            return Err(ArchtreeError::external_tool(self.name(), "is not available"));
        }
        Ok(verify_archive_freshness(expected_files, entries, filesystem_modified))
    }
}

impl Default for SevenZipVerifier {
    fn default() -> (v: Self)
        ensures
            v.executable_path@ == "7z.exe"@,
    {
        Self::new()
    }
}

impl ArchiveVerifier for SevenZipVerifier {
    /// The verifier reads every listing.
    open spec fn entries_of(
        &self,
        report: Seq<char>,
        archive_path: Seq<char>,
        stamps: Seq<Option<Timestamp>>,
    ) -> Option<Seq<EntryView>> {
        Some(report_entries(report, archive_path, stamps))
    }

    fn list_archive_entries(
        &self,
        report: &str,
        archive_path: &str,
        stamps: &[Option<Timestamp>],
    ) -> (r: Result<Vec<ArchiveEntry>>) {
        Ok(parse_report(report, archive_path, stamps))
    }

    open spec fn name_text(&self) -> Seq<char> {
        "7-Zip Verifier"@
    }

    fn name(&self) -> (s: &'static str) {
        "7-Zip Verifier"
    }
}

/// Verifies archives through a verifier.
pub struct VerificationService<V: ArchiveVerifier> {
    pub verifier: V,
}

impl<V: ArchiveVerifier> VerificationService<V> {
    pub fn new(verifier: V) -> (s: Self)
        ensures
            s.verifier == verifier,
    {
        VerificationService { verifier }
    }

    /// Compares the expected files with the archive whose listing is
    /// `report`. Fails where the tool is not available, with an error of
    /// kind `Other` that names the verifier, and where the verifier cannot
    /// read the listing.
    pub fn verify_archive(
        &self,
        available: bool,
        report: &str,
        archive_path: &str,
        expected_files: &[String],
    ) -> (r: Result<VerificationResult>)
        ensures
            match r {
                Ok(result) => {
                    &&& available
                    &&& self.verifier.entries_of(
                        report@,
                        archive_path@,
                        Seq::<Option<Timestamp>>::empty(),
                    ) matches Some(listed)
                    &&& result.missing() == missing_of(texts(expected_files@), file_paths(listed))
                    &&& result.archived() == found_of(texts(expected_files@), file_paths(listed))
                    &&& result.expected() == texts(expected_files@)
                    &&& result.total_expected == expected_files@.len()
                    &&& result.total_archived == file_paths(listed).len()
                    &&& result.partitions()
                },
                Err(e) => if !available {
                    e is Other && e.message_text() == self.verifier.name_text()
                        + " is not available"@
                } else {
                    self.verifier.entries_of(
                        report@,
                        archive_path@,
                        Seq::<Option<Timestamp>>::empty(),
                    ) is None
                },
            },
    {
        if !available {
            let message = self.verifier.name().to_owned().concat(" is not available");
            return Err(ArchtreeError::other(message.as_str()));
        }
        let stamps: Vec<Option<Timestamp>> = Vec::new();
        assert(stamps@ =~= Seq::<Option<Timestamp>>::empty());
        let entries = match self.verifier.list_archive_entries(
            report,
            archive_path,
            stamps.as_slice(),
        ) {
            Ok(entries) => entries,
            Err(e) => {
                return Err(e);
            },
        };
        Ok(verify(expected_files, entries.as_slice()))
    }

    /// The files of the expansions of all input paths, resolved against
    /// the directory `current_dir`, each once.
    pub fn expand_paths(&self, expansions: &[Vec<String>], current_dir: &str) -> (r: Result<
        Vec<String>,
    >)
        ensures
            r matches Ok(files) && texts(files@) == unique(
                resolved(concatenated(list_texts(expansions@)), current_dir@),
            ) && texts(files@).no_duplicates(),
    {
        expand_input_paths(expansions, current_dir)
    }

    /// The form of `path` under which paths are compared.
    pub fn normalize_path(&self, path: &str) -> (r: String)
        ensures
            r@ == normalized(path@),
    {
        normalize_path(path)
    }
}

} // verus!
