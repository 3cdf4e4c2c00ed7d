//! The command lines with which the archive tool is run. The caller runs
//! the tool; the library says with which arguments.

use vstd::prelude::*;
use crate::error::{ArchtreeError, Result};
use crate::text::{lossy_text, lossy_text_of, texts};

verus! {

/// `items` joined by `separator`.
pub open spec fn joined(items: Seq<Seq<char>>, separator: Seq<char>) -> Seq<char>
    decreases items.len(),
{
    if items.len() == 0 {
        Seq::empty()
    } else if items.len() == 1 {
        items[0]
    } else {
        joined(items.drop_last(), separator) + separator + items.last()
    }
}

/// `items` joined by `separator`.
pub fn join_texts(items: &[String], separator: &str) -> (r: String)
    ensures
        r@ == joined(texts(items@), separator@),
{
    let mut r = String::new();
    let mut i: usize = 0;
    assert(texts(items@).take(0) =~= Seq::<Seq<char>>::empty());
    while i < items.len()
        invariant
            i <= items.len(),
            r@ == joined(texts(items@).take(i as int), separator@),
        decreases items.len() - i,
    {
        proof {
            assert(texts(items@).take(i + 1).drop_last() == texts(items@).take(i as int));
            assert(texts(items@).take(i + 1).last() == items[i as int]@);
            if i == 0 {
                assert(texts(items@).take(1)[0] == items[0]@);
                assert(r@ + items[0]@ =~= items[0]@);
            }
        }
        if i > 0 {
            r.append(separator);
        }
        r.append(items[i].as_str());
        i += 1;
    }
    assert(texts(items@).take(items.len() as int) == texts(items@));
    r
}

/// The arguments of a run of the tool that packs the files named in the
/// list file `list_path` into `archive_path`; `command` is `a` to create an
/// archive and `u` to update one.
pub open spec fn pack_arguments(
    command: Seq<char>,
    archive_path: Seq<char>,
    list_path: Seq<char>,
) -> Seq<Seq<char>> {
    seq![command, "-spf"@, "-sccUTF-8"@, "-tzip"@, archive_path, "@"@ + list_path]
}

fn pack_command(command: &str, archive_path: &str, list_path: &str) -> (arguments: Vec<String>)
    ensures
        texts(arguments@) == pack_arguments(command@, archive_path@, list_path@),
{
    let mut arguments: Vec<String> = Vec::new();
    arguments.push(command.to_owned());
    arguments.push("-spf".to_owned());
    arguments.push("-sccUTF-8".to_owned());
    arguments.push("-tzip".to_owned());
    arguments.push(archive_path.to_owned());
    arguments.push("@".to_owned().concat(list_path));
    assert(texts(arguments@) =~= pack_arguments(command@, archive_path@, list_path@));
    arguments
}

/// The message of a run of the tool that failed: `headline`, then what the
/// tool wrote to its error output and to its output.
pub open spec fn failure_message(headline: Seq<char>, stderr: Seq<u8>, stdout: Seq<u8>) -> Seq<
    char,
> {
    headline + "\nStderr: "@ + lossy_text_of(stderr) + "\nStdout: "@ + lossy_text_of(stdout)
}

/// Judges a run of the tool: an external-tool error for `7z` with the
/// failure message where the run failed.
fn run_outcome(headline: &str, succeeded: bool, stdout: &[u8], stderr: &[u8]) -> (r: Result<()>)
    ensures
        match r {
            Ok(_) => succeeded,
            Err(e) => !succeeded && e is ExternalTool && e.tool_text() == Some("7z"@)
                && e.message_text() == failure_message(headline@, stderr@, stdout@),
        },
{
    if succeeded {
        return Ok(());
    }
    let message = headline.to_owned().concat("\nStderr: ").concat(
        lossy_text(stderr).as_str(),
    ).concat("\nStdout: ").concat(lossy_text(stdout).as_str());
    Err(ArchtreeError::external_tool("7z", message.as_str()))
}

/// A tool that packs files into archives.
pub trait Archiver {
    /// The name of the tool.
    spec fn name_text(&self) -> Seq<char>;

    /// The name of the tool.
    fn name(&self) -> (s: &'static str)
        ensures
            s@ == self.name_text(),
    ;

    /// The program to run.
    spec fn program_text(&self) -> Seq<char>;

    /// The program to run.
    fn program(&self) -> (s: String)
        ensures
            s@ == self.program_text(),
    ;

    /// The text of the list file that names `paths`.
    spec fn list_content_of(&self, paths: Seq<Seq<char>>) -> Seq<char>;

    /// The text of the list file that names `paths`.
    fn list_content(&self, paths: &[String]) -> (content: String)
        ensures
            content@ == self.list_content_of(texts(paths@)),
    ;

    /// The arguments that create the archive `output_path` from the files
    /// named in the list file `list_path`.
    spec fn create_arguments_of(&self, output_path: Seq<char>, list_path: Seq<char>) -> Seq<
        Seq<char>,
    >;

    /// The arguments that create the archive `output_path` from the files
    /// named in the list file `list_path`.
    fn create_arguments(&self, output_path: &str, list_path: &str) -> (arguments: Vec<String>)
        ensures
            texts(arguments@) == self.create_arguments_of(output_path@, list_path@),
    ;

    /// The arguments that add the files named in the list file `list_path`
    /// to the archive `archive_path`.
    spec fn add_arguments_of(&self, archive_path: Seq<char>, list_path: Seq<char>) -> Seq<
        Seq<char>,
    >;

    /// The arguments that add the files named in the list file `list_path`
    /// to the archive `archive_path`.
    fn add_arguments(&self, archive_path: &str, list_path: &str) -> (arguments: Vec<String>)
        ensures
            texts(arguments@) == self.add_arguments_of(archive_path@, list_path@),
    ;

    /// Judges the run that was to create an archive: it failed exactly
    /// where the tool did not end well.
    fn create_archive(&self, succeeded: bool, stdout: &[u8], stderr: &[u8]) -> (r: Result<()>)
        ensures
            r is Ok <==> succeeded,
    ;

    /// Judges the run that was to add files to an archive: it failed
    /// exactly where the tool did not end well.
    fn add_to_archive(&self, succeeded: bool, stdout: &[u8], stderr: &[u8]) -> (r: Result<()>)
        ensures
            r is Ok <==> succeeded,
    ;
}

/// The 7-Zip command line tool as an archiver.
#[derive(Debug, Clone)]
pub struct SevenZipArchiver {
    pub executable_path: String,
}

impl SevenZipArchiver {
    /// The tool under its usual name.
    pub fn new() -> (a: Self)
        ensures
            a.executable_path@ == "7z.exe"@,
    {
        SevenZipArchiver { executable_path: "7z.exe".to_owned() }
    }

    /// The tool at `executable_path`.
    pub fn with_path(executable_path: String) -> (a: Self)
        ensures
            a.executable_path == executable_path,
    {
        SevenZipArchiver { executable_path }
    }
}

impl Default for SevenZipArchiver {
    fn default() -> (a: Self)
        ensures
            a.executable_path@ == "7z.exe"@,
    {
        Self::new()
    }
}

impl Archiver for SevenZipArchiver {
    open spec fn name_text(&self) -> Seq<char> {
        "7-Zip"@
    }

    fn name(&self) -> (s: &'static str) {
        "7-Zip"
    }

    open spec fn program_text(&self) -> Seq<char> {
        self.executable_path@
    }

    fn program(&self) -> (s: String) {
        self.executable_path.clone()
    }

    /// One path to a line, the lines joined by a carriage return and a line
    /// feed.
    open spec fn list_content_of(&self, paths: Seq<Seq<char>>) -> Seq<char> {
        joined(paths, "\r\n"@)
    }

    fn list_content(&self, paths: &[String]) -> (content: String) {
        join_texts(paths, "\r\n")
    }

    open spec fn create_arguments_of(&self, output_path: Seq<char>, list_path: Seq<char>) -> Seq<
        Seq<char>,
    > {
        pack_arguments("a"@, output_path, list_path)
    }

    fn create_arguments(&self, output_path: &str, list_path: &str) -> (arguments: Vec<String>) {
        pack_command("a", output_path, list_path)
    }

    open spec fn add_arguments_of(&self, archive_path: Seq<char>, list_path: Seq<char>) -> Seq<
        Seq<char>,
    > {
        pack_arguments("u"@, archive_path, list_path)
    }

    fn add_arguments(&self, archive_path: &str, list_path: &str) -> (arguments: Vec<String>) {
        pack_command("u", archive_path, list_path)
    }

    /// A run that failed gives an external-tool error for `7z` with what
    /// the tool wrote.
    fn create_archive(&self, succeeded: bool, stdout: &[u8], stderr: &[u8]) -> (r: Result<()>)
        ensures
            r matches Err(e) ==> e is ExternalTool && e.tool_text() == Some("7z"@)
                && e.message_text() == failure_message("7z command failed:"@, stderr@, stdout@),
    {
        run_outcome("7z command failed:", succeeded, stdout, stderr)
    }

    /// A run that failed gives an external-tool error for `7z` with what
    /// the tool wrote.
    fn add_to_archive(&self, succeeded: bool, stdout: &[u8], stderr: &[u8]) -> (r: Result<()>)
        ensures
            r matches Err(e) ==> e is ExternalTool && e.tool_text() == Some("7z"@)
                && e.message_text() == failure_message(
                "7z update command failed:"@,
                stderr@,
                stdout@,
            ),
    {
        run_outcome("7z update command failed:", succeeded, stdout, stderr)
    }
}

} // verus!
