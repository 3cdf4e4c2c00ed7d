//! The settings of a run.

use vstd::prelude::*;
use crate::error::{ArchtreeError, Result};
use crate::text::{chars_of, string_of_range, trim_range, trimmed};

verus! {

/// The settings of a run.
#[derive(Debug, Clone)]
pub struct Config {
    /// Where the archive is written.
    pub output_path: String,
    /// Whether progress is shown.
    pub show_progress: bool,
    /// Where the archive tool is found, if it is not on the search path.
    pub seven_zip_path: Option<String>,
}

impl Config {
    /// A builder without settings.
    pub fn builder() -> (b: ConfigBuilder)
        ensures
            b.output_text() is None,
            b.tool_text() is None,
            !b.shows_progress(),
    {
        ConfigBuilder::new()
    }
}

/// Gathers the settings of a run.
pub struct ConfigBuilder {
    output_path: Option<String>,
    show_progress: bool,
    seven_zip_path: Option<String>,
}

/// `s` without the white space around it.
pub fn trim_text(s: &str) -> (r: String)
    ensures
        r@ == trimmed(s@),
{
    let v = chars_of(s);
    let (a, b) = trim_range(&v, 0, v.len());
    assert(v@.subrange(0, v@.len() as int) == v@);
    string_of_range(&v, a, b)
}

/// The setting chosen from a value given directly and a value of the
/// environment: the value given, as it is, where it holds more than white
/// space; else the value of the environment without the white space around
/// it, where there is one; else what was set before.
pub open spec fn chosen_setting(
    before: Option<Seq<char>>,
    given: Option<Seq<char>>,
    environment: Option<Seq<char>>,
) -> Option<Seq<char>> {
    match given {
        Some(p) if trimmed(p).len() > 0 => Some(p),
        _ => match environment {
            Some(e) => Some(trimmed(e)),
            None => before,
        },
    }
}

/// The setting chosen from a value given directly and a value of the
/// environment.
fn choose_setting(before: Option<String>, given: Option<&str>, environment: Option<&str>) -> (r:
    Option<String>)
    ensures
        crate::error::text_of(r) == chosen_setting(
            crate::error::text_of(before),
            match given {
                Some(p) => Some(p@),
                None => None,
            },
            match environment {
                Some(e) => Some(e@),
                None => None,
            },
        ),
{
    match given {
        Some(p) => {
            let t = trim_text(p);
            if t.as_str().unicode_len() > 0 {
                return Some(p.to_owned());
            }
        },
        None => {},
    }
    match environment {
        Some(e) => Some(trim_text(e)),
        None => before,
    }
}

impl ConfigBuilder {
    /// The output path set so far.
    pub closed spec fn output_text(self) -> Option<Seq<char>> {
        crate::error::text_of(self.output_path)
    }

    /// The path of the archive tool set so far.
    pub closed spec fn tool_text(self) -> Option<Seq<char>> {
        crate::error::text_of(self.seven_zip_path)
    }

    /// Whether progress is to be shown.
    pub closed spec fn shows_progress(self) -> bool {
        self.show_progress
    }

    /// A builder without settings.
    pub fn new() -> (b: Self)
        ensures
            b.output_text() is None,
            b.tool_text() is None,
            !b.shows_progress(),
    {
        ConfigBuilder { output_path: None, show_progress: false, seven_zip_path: None }
    }

    /// Sets the output path from `path` or, failing that, from the value
    /// `environment` that the caller read from the environment.
    pub fn output_path(self, path: Option<&str>, environment: Option<&str>) -> (b: Self)
        ensures
            b.output_text() == chosen_setting(
                self.output_text(),
                match path {
                    Some(p) => Some(p@),
                    None => None,
                },
                match environment {
                    Some(e) => Some(e@),
                    None => None,
                },
            ),
            b.tool_text() == self.tool_text(),
            b.shows_progress() == self.shows_progress(),
    {
        ConfigBuilder {
            output_path: choose_setting(self.output_path, path, environment),
            show_progress: self.show_progress,
            seven_zip_path: self.seven_zip_path,
        }
    }

    /// Sets whether progress is shown.
    pub fn show_progress(self, show: bool) -> (b: Self)
        ensures
            b.shows_progress() == show,
            b.output_text() == self.output_text(),
            b.tool_text() == self.tool_text(),
    {
        ConfigBuilder {
            output_path: self.output_path,
            show_progress: show,
            seven_zip_path: self.seven_zip_path,
        }
    }

    /// Sets the path of the archive tool from `path` or, failing that, from
    /// the value `environment` that the caller read from the environment.
    pub fn seven_zip_path(self, path: Option<&str>, environment: Option<&str>) -> (b: Self)
        ensures
            b.tool_text() == chosen_setting(
                self.tool_text(),
                match path {
                    Some(p) => Some(p@),
                    None => None,
                },
                match environment {
                    Some(e) => Some(e@),
                    None => None,
                },
            ),
            b.output_text() == self.output_text(),
            b.shows_progress() == self.shows_progress(),
    {
        ConfigBuilder {
            output_path: self.output_path,
            show_progress: self.show_progress,
            seven_zip_path: choose_setting(self.seven_zip_path, path, environment),
        }
    }

    /// The settings, with the output path trimmed. Fails with a
    /// configuration error where no output path is set or where it holds
    /// nothing but white space.
    pub fn build(self) -> (r: Result<Config>)
        ensures
            match r {
                Ok(config) => {
                    &&& self.output_text() matches Some(p)
                    &&& trimmed(p).len() > 0
                    &&& config.output_path@ == trimmed(p)
                    &&& config.show_progress == self.shows_progress()
                    &&& crate::error::text_of(config.seven_zip_path) == self.tool_text()
                },
                Err(e) => {
                    &&& e is Config
                    &&& match self.output_text() {
                        None => e.message_text() == "Output path must be set"@,
                        Some(p) => trimmed(p).len() == 0 && e.message_text()
                            == "Output path cannot be empty"@,
                    }
                },
            },
    {
        let output_path = match self.output_path {
            Some(p) => trim_text(p.as_str()),
            None => {
                return Err(ArchtreeError::config("Output path must be set"));
            },
        };
        if output_path.as_str().unicode_len() == 0 {
            return Err(ArchtreeError::config("Output path cannot be empty"));
        }
        Ok(
            Config {
                output_path,
                show_progress: self.show_progress,
                seven_zip_path: self.seven_zip_path,
            },
        )
    }
}

impl Default for ConfigBuilder {
    fn default() -> (b: Self)
        ensures
            b.output_text() is None,
            b.tool_text() is None,
            !b.shows_progress(),
    {
        Self::new()
    }
}

} // verus!
