//! The error kinds of the library.

use vstd::prelude::*;

verus! {

/// An error of one of the library's components. Each kind carries a message;
/// `source` holds the text of an underlying cause where there is one.
#[derive(Debug, Clone)]
pub enum ArchtreeError {
    /// The configuration is unusable.
    Config { message: String, source: Option<String> },
    /// Reading or writing failed.
    Io { message: String, source: Option<String> },
    /// A path or an exclusion pattern could not be processed.
    PathProcessing { message: String, path: Option<String>, source: Option<String> },
    /// The archive could not be verified.
    Verification { message: String, archive_path: Option<String>, source: Option<String> },
    /// The external tool is missing or reported a failure.
    ExternalTool { tool: String, message: String, source: Option<String> },
    /// Anything else.
    Other { message: String, source: Option<String> },
}

/// The result type of the library's fallible functions.
pub type Result<T> = core::result::Result<T, ArchtreeError>;

/// The text of an optional string.
pub open spec fn text_of(s: Option<String>) -> Option<Seq<char>> {
    match s {
        Some(t) => Some(t@),
        None => None,
    }
}

/// A copy of the optional string `s`.
pub fn owned_text(s: Option<&str>) -> (r: Option<String>)
    ensures
        match s {
            Some(t) => r matches Some(o) && o@ == t@,
            None => r is None,
        },
{
    match s {
        Some(t) => Some(t.to_owned()),
        None => None,
    }
}

impl ArchtreeError {
    /// The message the error was made with.
    pub open spec fn message_text(self) -> Seq<char> {
        match self {
            ArchtreeError::Config { message, .. } => message@,
            ArchtreeError::Io { message, .. } => message@,
            ArchtreeError::PathProcessing { message, .. } => message@,
            ArchtreeError::Verification { message, .. } => message@,
            ArchtreeError::ExternalTool { message, .. } => message@,
            ArchtreeError::Other { message, .. } => message@,
        }
    }

    /// The text of the underlying cause, if the error has one.
    pub open spec fn source_text(self) -> Option<Seq<char>> {
        match self {
            ArchtreeError::Config { source, .. } => text_of(source),
            ArchtreeError::Io { source, .. } => text_of(source),
            ArchtreeError::PathProcessing { source, .. } => text_of(source),
            ArchtreeError::Verification { source, .. } => text_of(source),
            ArchtreeError::ExternalTool { source, .. } => text_of(source),
            ArchtreeError::Other { source, .. } => text_of(source),
        }
    }

    /// The path of a path-processing error or the archive of a verification
    /// error, if it was given.
    pub open spec fn subject_text(self) -> Option<Seq<char>> {
        match self {
            ArchtreeError::PathProcessing { path, .. } => text_of(path),
            ArchtreeError::Verification { archive_path, .. } => text_of(archive_path),
            _ => None,
        }
    }

    /// The tool of an external-tool error.
    pub open spec fn tool_text(self) -> Option<Seq<char>> {
        match self {
            ArchtreeError::ExternalTool { tool, .. } => Some(tool@),
            _ => None,
        }
    }

    /// The line that presents the error to a user.
    pub open spec fn display_text(self) -> Seq<char> {
        match self {
            ArchtreeError::Config { message, .. } => "Configuration error: "@ + message@,
            ArchtreeError::Io { message, .. } => "I/O error: "@ + message@,
            ArchtreeError::PathProcessing { message, path, .. } => match path {
                Some(p) => "Path processing error for '"@ + p@ + "': "@ + message@,
                None => "Path processing error: "@ + message@,
            },
            ArchtreeError::Verification { message, archive_path, .. } => match archive_path {
                Some(a) => "Verification error for '"@ + a@ + "': "@ + message@,
                None => "Verification error: "@ + message@,
            },
            ArchtreeError::ExternalTool { tool, message, .. } => "External tool error ("@ + tool@
                + "): "@ + message@,
            ArchtreeError::Other { message, .. } => "Error: "@ + message@,
        }
    }

    /// A configuration error.
    pub fn config(message: &str) -> (e: Self)
        ensures
            e is Config,
            e.message_text() == message@,
            e.source_text() is None,
    {
        ArchtreeError::Config { message: message.to_owned(), source: None }
    }

    /// A configuration error with the text of its cause.
    pub fn config_with_source(message: &str, source: &str) -> (e: Self)
        ensures
            e is Config,
            e.message_text() == message@,
            e.source_text() == Some(source@),
    {
        ArchtreeError::Config { message: message.to_owned(), source: Some(source.to_owned()) }
    }

    /// An I/O error.
    pub fn io(message: &str) -> (e: Self)
        ensures
            e is Io,
            e.message_text() == message@,
            e.source_text() is None,
    {
        ArchtreeError::Io { message: message.to_owned(), source: None }
    }

    /// An I/O error with the text of its cause.
    pub fn io_with_source(message: &str, source: &str) -> (e: Self)
        ensures
            e is Io,
            e.message_text() == message@,
            e.source_text() == Some(source@),
    {
        ArchtreeError::Io { message: message.to_owned(), source: Some(source.to_owned()) }
    }

    /// A path-processing error, with the path it is about where there is one.
    pub fn path_processing(message: &str, path: Option<&str>) -> (e: Self)
        ensures
            e is PathProcessing,
            e.message_text() == message@,
            e.subject_text() == match path {
                Some(p) => Some(p@),
                None => None,
            },
            e.source_text() is None,
    {
        ArchtreeError::PathProcessing {
            message: message.to_owned(),
            path: owned_text(path),
            source: None,
        }
    }

    /// A path-processing error with the text of its cause.
    pub fn path_processing_with_source(message: &str, path: Option<&str>, source: &str) -> (e:
        Self)
        ensures
            e is PathProcessing,
            e.message_text() == message@,
            e.subject_text() == match path {
                Some(p) => Some(p@),
                None => None,
            },
            e.source_text() == Some(source@),
    {
        ArchtreeError::PathProcessing {
            message: message.to_owned(),
            path: owned_text(path),
            source: Some(source.to_owned()),
        }
    }

    /// A verification error, with the archive it is about where there is one.
    pub fn verification(message: &str, archive_path: Option<&str>) -> (e: Self)
        ensures
            e is Verification,
            e.message_text() == message@,
            e.subject_text() == match archive_path {
                Some(a) => Some(a@),
                None => None,
            },
            e.source_text() is None,
    {
        ArchtreeError::Verification {
            message: message.to_owned(),
            archive_path: owned_text(archive_path),
            source: None,
        }
    }

    /// An error of the external tool `tool`.
    pub fn external_tool(tool: &str, message: &str) -> (e: Self)
        ensures
            e is ExternalTool,
            e.tool_text() == Some(tool@),
            e.message_text() == message@,
            e.source_text() is None,
    {
        ArchtreeError::ExternalTool {
            tool: tool.to_owned(),
            message: message.to_owned(),
            source: None,
        }
    }

    /// An error of the external tool `tool` with the text of its cause.
    pub fn external_tool_with_source(tool: &str, message: &str, source: &str) -> (e: Self)
        ensures
            e is ExternalTool,
            e.tool_text() == Some(tool@),
            e.message_text() == message@,
            e.source_text() == Some(source@),
    {
        ArchtreeError::ExternalTool {
            tool: tool.to_owned(),
            message: message.to_owned(),
            source: Some(source.to_owned()),
        }
    }

    /// An error of no other kind, made from the text of a foreign error.
    pub fn other(message: &str) -> (e: Self)
        ensures
            e is Other,
            e.message_text() == message@,
            e.source_text() == Some(message@),
    {
        ArchtreeError::Other { message: message.to_owned(), source: Some(message.to_owned()) }
    }

    /// The line that presents the error to a user.
    pub fn to_string(&self) -> (s: String)
        ensures
            s@ == self.display_text(),
    {
        match self {
            ArchtreeError::Config { message, .. } => {
                "Configuration error: ".to_owned().concat(message.as_str())
            },
            ArchtreeError::Io { message, .. } => "I/O error: ".to_owned().concat(message.as_str()),
            ArchtreeError::PathProcessing { message, path, .. } => match path {
                Some(p) => "Path processing error for '".to_owned().concat(p.as_str()).concat(
                    "': ",
                ).concat(message.as_str()),
                None => "Path processing error: ".to_owned().concat(message.as_str()),
            },
            ArchtreeError::Verification { message, archive_path, .. } => match archive_path {
                Some(a) => "Verification error for '".to_owned().concat(a.as_str()).concat(
                    "': ",
                ).concat(message.as_str()),
                None => "Verification error: ".to_owned().concat(message.as_str()),
            },
            ArchtreeError::ExternalTool { tool, message, .. } => {
                "External tool error (".to_owned().concat(tool.as_str()).concat("): ").concat(
                    message.as_str(),
                )
            },
            ArchtreeError::Other { message, .. } => "Error: ".to_owned().concat(message.as_str()),
        }
    }
}

/// Adds the library's context to the error of a result: each method keeps an
/// `Ok` and replaces the error's text `E` by an error of the named kind.
pub trait ErrorContext<T> {
    /// The text of the error, if the value is one.
    spec fn failure(&self) -> Option<Seq<char>>;

    fn context_config(self, message: &str) -> (r: Result<T>)
        ensures
            self.failure() is None <==> r is Ok,
            r matches Err(e) ==> e is Config && e.message_text() == message@ && e.source_text()
                == self.failure(),
    ;

    fn context_io(self, message: &str) -> (r: Result<T>)
        ensures
            self.failure() is None <==> r is Ok,
            r matches Err(e) ==> e is Io && e.message_text() == message@ && e.source_text()
                == self.failure(),
    ;

    fn context_path(self, message: &str, path: &str) -> (r: Result<T>)
        ensures
            self.failure() is None <==> r is Ok,
            r matches Err(e) ==> e is PathProcessing && e.message_text() == message@
                && e.subject_text() == Some(path@) && e.source_text() == self.failure(),
    ;

    fn context_verification(self, message: &str, archive: &str) -> (r: Result<T>)
        ensures
            self.failure() is None <==> r is Ok,
            r matches Err(e) ==> e is Verification && e.message_text() == message@
                && e.subject_text() == Some(archive@) && e.source_text() is None,
    ;

    fn context_external(self, tool: &str, message: &str) -> (r: Result<T>)
        ensures
            self.failure() is None <==> r is Ok,
            r matches Err(e) ==> e is ExternalTool && e.tool_text() == Some(tool@)
                && e.message_text() == message@ && e.source_text() == self.failure(),
    ;
}

impl<T> ErrorContext<T> for core::result::Result<T, String> {
    open spec fn failure(&self) -> Option<Seq<char>> {
        match self {
            Ok(_) => None,
            Err(e) => Some(e@),
        }
    }

    fn context_config(self, message: &str) -> (r: Result<T>) {
        match self {
            Ok(v) => Ok(v),
            Err(e) => Err(ArchtreeError::config_with_source(message, e.as_str())),
        }
    }

    fn context_io(self, message: &str) -> (r: Result<T>) {
        match self {
            Ok(v) => Ok(v),
            Err(e) => Err(ArchtreeError::io_with_source(message, e.as_str())),
        }
    }

    fn context_path(self, message: &str, path: &str) -> (r: Result<T>) {
        match self {
            Ok(v) => Ok(v),
            Err(e) => Err(
                ArchtreeError::path_processing_with_source(message, Some(path), e.as_str()),
            ),
        }
    }

    fn context_verification(self, message: &str, archive: &str) -> (r: Result<T>) {
        match self {
            Ok(v) => Ok(v),
            Err(_e) => Err(ArchtreeError::verification(message, Some(archive))),
        }
    }

    fn context_external(self, tool: &str, message: &str) -> (r: Result<T>) {
        match self {
            Ok(v) => Ok(v),
            Err(e) => Err(ArchtreeError::external_tool_with_source(tool, message, e.as_str())),
        }
    }
}

} // verus!
