//! The input of a run: the lines that name paths and exclusion patterns.
//!
//! The caller reads the source; a reader turns what was read into lines.

use vstd::prelude::*;
use crate::error::Result;
use crate::report::{line_ranges, lines_of};
use crate::seq_lemmas::{lemma_filter_empty, lemma_filter_step};
use crate::text::{chars_of, string_of_range, texts, trim_range, trimmed};

verus! {

/// The lines of `content` that hold more than white space, each without the
/// white space around it, in order.
pub open spec fn input_lines(content: Seq<char>) -> Seq<Seq<char>> {
    lines_of(content).map_values(|l: Seq<char>| trimmed(l)).filter(|l: Seq<char>| l.len() > 0)
}

/// The lines of `content` that hold more than white space, each without the
/// white space around it.
pub fn parse_paths(content: &str) -> (paths: Vec<String>)
    ensures
        texts(paths@) == input_lines(content@),
{
    let v = chars_of(content);
    let ranges = line_ranges(&v);
    let ghost trim = |l: Seq<char>| trimmed(l);
    let ghost full = |l: Seq<char>| l.len() > 0;
    let ghost all = lines_of(v@).map_values(trim);
    let mut paths: Vec<String> = Vec::new();
    let mut i: usize = 0;
    proof {
        lemma_filter_empty(all.take(0), full);
        assert(texts(paths@) =~= all.take(0).filter(full));
    }
    while i < ranges.len()
        invariant
            i <= ranges.len(),
            v@ == content@,
            trim == |l: Seq<char>| trimmed(l),
            full == |l: Seq<char>| l.len() > 0,
            all == lines_of(v@).map_values(trim),
            ranges@.len() == lines_of(v@).len(),
            forall|k: int|
                0 <= k < ranges@.len() ==> (#[trigger] ranges@[k]).0 <= ranges@[k].1 <= v@.len()
                    && v@.subrange(ranges@[k].0 as int, ranges@[k].1 as int) == lines_of(v@)[k],
            texts(paths@) == all.take(i as int).filter(full),
        decreases ranges.len() - i,
    {
        let (from, to) = ranges[i];
        assert(ranges@[i as int].0 == from && ranges@[i as int].1 == to);
        let (a, b) = trim_range(&v, from, to);
        let ghost before = texts(paths@);
        proof {
            lemma_filter_step(all, full, i as int);
            assert(all[i as int] == trimmed(lines_of(v@)[i as int]));
        }
        if a < b {
            paths.push(string_of_range(&v, a, b));
            assert(texts(paths@) =~= before.push(all[i as int]));
        }
        i += 1;
    }
    assert(all.take(ranges.len() as int) == all);
    paths
}

/// A source of input lines.
pub trait InputReader {
    /// The lines that the reader gives for the text `source` of its source;
    /// none where it cannot read the text.
    spec fn lines_from(&self, source: Seq<char>) -> Option<Seq<Seq<char>>>;

    /// The lines of the input. `source` is the text that the caller read
    /// from the reader's source.
    fn read_paths(&self, source: &str) -> (r: Result<Vec<String>>)
        ensures
            match self.lines_from(source@) {
                Some(lines) => r matches Ok(paths) && texts(paths@) == lines,
                None => r is Err,
            },
    ;
}

/// Reads the lines of the standard input.
#[derive(Debug, Clone, Copy)]
pub struct StdinReader;

impl StdinReader {
    pub fn new() -> Self {
        StdinReader
    }
}

impl Default for StdinReader {
    fn default() -> Self {
        Self::new()
    }
}

impl InputReader for StdinReader {
    open spec fn lines_from(&self, source: Seq<char>) -> Option<Seq<Seq<char>>> {
        Some(input_lines(source))
    }

    fn read_paths(&self, source: &str) -> (r: Result<Vec<String>>) {
        Ok(parse_paths(source))
    }
}

/// Reads the lines of a file.
#[derive(Debug, Clone)]
pub struct FileReader {
    pub file_path: String,
}

impl FileReader {
    /// A reader of the file at `file_path`.
    pub fn new(file_path: &str) -> (r: Self)
        ensures
            r.file_path@ == file_path@,
    {
        FileReader { file_path: file_path.to_owned() }
    }
}

impl InputReader for FileReader {
    open spec fn lines_from(&self, source: Seq<char>) -> Option<Seq<Seq<char>>> {
        Some(input_lines(source))
    }

    fn read_paths(&self, source: &str) -> (r: Result<Vec<String>>) {
        Ok(parse_paths(source))
    }
}

/// Gives the lines it was made with, whatever the source holds.
#[derive(Debug, Clone)]
pub struct VecReader {
    pub paths: Vec<String>,
}

impl VecReader {
    /// A reader that gives `paths`.
    pub fn new(paths: Vec<String>) -> (r: Self)
        ensures
            r.paths == paths,
    {
        VecReader { paths }
    }
}

impl InputReader for VecReader {
    open spec fn lines_from(&self, source: Seq<char>) -> Option<Seq<Seq<char>>> {
        Some(texts(self.paths@))
    }

    fn read_paths(&self, source: &str) -> (r: Result<Vec<String>>) {
        let mut paths: Vec<String> = Vec::new();
        let mut i: usize = 0;
        assert(texts(paths@) =~= texts(self.paths@).take(0));
        while i < self.paths.len()
            invariant
                i <= self.paths.len(),
                texts(paths@) == texts(self.paths@).take(i as int),
            decreases self.paths.len() - i,
        {
            let ghost before = texts(paths@);
            paths.push(self.paths[i].clone());
            assert(texts(paths@) =~= before.push(self.paths[i as int]@));
            assert(texts(self.paths@).take(i + 1) =~= texts(self.paths@).take(i as int).push(
                self.paths[i as int]@,
            ));
            i += 1;
        }
        assert(texts(self.paths@).take(self.paths.len() as int) == texts(self.paths@));
        Ok(paths)
    }
}

} // verus!
