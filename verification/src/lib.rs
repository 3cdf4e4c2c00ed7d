//! Path resolution and archive verification for a backup tool.
//!
//! The library turns the lines of an input into the files to archive, reads
//! the listing of an archive, compares the two, and says what is missing or
//! out of date. It looks at no file and runs no program itself: its caller
//! reads the input, asks the file system and runs the archive tool, and
//! hands over what it found.
//!
//! * `pattern`, `exclusion`: wildcard patterns and the filtering of paths.
//! * `expand`, `run`: the expansion of input paths into files, step by step
//!   and as a whole.
//! * `report`: the parser of the archive tool's listing.
//! * `diff`: the comparison of expected files with an archive.
//! * `consolidate`, `consolidate_safety`: the report of missing files by
//!   directory, and what it stands for.
//! * `freshness`: the comparison of the times of files and their copies.
//! * `flow`, `service`: the course of a verification and of a backup run.
//! * `archiver`, `verifiers`, `input`, `validation`, `display`, `config`,
//!   `error`: the tool's command lines, readers, validators, presentation,
//!   settings and errors.
//! * `paths`, `text`, `lists`, `numbers`, `seq_lemmas`, `entry`: the
//!   model of paths, and what the other modules share.

pub mod archiver;
pub mod config;
pub mod consolidate;
pub mod consolidate_safety;
pub mod diff;
pub mod display;
pub mod entry;
pub mod error;
pub mod exclusion;
pub mod expand;
pub mod flow;
pub mod freshness;
pub mod input;
pub mod lists;
pub mod numbers;
pub mod paths;
pub mod pattern;
pub mod report;
pub mod run;
pub mod seq_lemmas;
pub mod service;
pub mod text;
pub mod validation;
pub mod verifiers;
