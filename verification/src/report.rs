//! The parser of the archive tool's listing report.
//!
//! The report describes each archived item by a group of lines of the form
//! `key = value`, ended by a blank line. Lines are read one after the other;
//! a line that fits no rule is passed over.

use vstd::prelude::*;
use chrono::{Local, NaiveDateTime, TimeZone};
use crate::entry::{entry_views, ArchiveEntry, EntryView, Timestamp};
use crate::numbers::{parse_u64_range, parsed_u64};
use crate::text::{
    chars_of, range_contains, range_starts_with, string_of_range, trim_range, trimmed,
};

verus! {

/// `NaiveDateTime` of the chrono crate: a date and a time of day without a
/// time zone. Nothing is known of what it holds.
#[verifier::external_type_specification]
#[verifier::external_body]
pub struct ExNaiveDateTime(chrono::NaiveDateTime);

/// `ParseError` of the chrono crate: why a text gives no date and time.
/// Nothing is known of what it holds.
#[verifier::external_type_specification]
#[verifier::external_body]
pub struct ExParseError(chrono::ParseError);

/// What `NaiveDateTime::parse_from_str` of the chrono crate returns for the
/// text `s` and the format `format`.
pub uninterp spec fn naive_datetime_parse(s: Seq<char>, format: Seq<char>) -> core::result::Result<
    NaiveDateTime,
    chrono::ParseError,
>;

/// `NaiveDateTime::parse_from_str` of the chrono crate: the date and time of
/// day that `s` writes in the format `format`, or why it writes none. The
/// outcome is a function of the two texts alone.
#[verifier::external_body]
fn parse_naive_datetime(s: &str, format: &str) -> (r: core::result::Result<
    NaiveDateTime,
    chrono::ParseError,
>)
    ensures
        r == naive_datetime_parse(s@, format@),
{
    NaiveDateTime::parse_from_str(s, format)
}

/// `TimeZone::from_local_datetime` of the chrono crate, for the time zone
/// `Local` of this machine: the instant that the date and time of day
/// stand for there, as the seconds and nanoseconds that `timestamp` and
/// `timestamp_subsec_nanos` give for it; none where no instant or more than
/// one fits. The outcome depends on the time zone of the machine: nothing is
/// claimed of it.
#[verifier::external_body]
fn local_instant(time: &NaiveDateTime) -> (r: Option<Timestamp>) {
    match Local.from_local_datetime(time) {
        chrono::LocalResult::Single(t) => Some(
            Timestamp { secs: t.timestamp(), nanos: t.timestamp_subsec_nanos() },
        ),
        chrono::LocalResult::Ambiguous(_, _) => None,
        chrono::LocalResult::None => None,
    }
}

/// The pieces of `s` between its line feeds. There is one piece more than
/// there are line feeds; the last one is what follows the last line feed.
pub open spec fn pieces_of(s: Seq<char>) -> Seq<Seq<char>>
    decreases s.len(),
{
    if s.len() == 0 {
        seq![Seq::empty()]
    } else {
        let front = pieces_of(s.drop_last());
        if s.last() == '\n' {
            front.push(Seq::empty())
        } else {
            front.drop_last().push(front.last().push(s.last()))
        }
    }
}

/// The lines of `s`: its pieces, without the last one where it is empty.
pub open spec fn lines_of(s: Seq<char>) -> Seq<Seq<char>> {
    let pieces = pieces_of(s);
    if pieces.last().len() == 0 {
        pieces.drop_last()
    } else {
        pieces
    }
}

/// The bounds of the lines of `v`, in order.
pub fn line_ranges(v: &Vec<char>) -> (ranges: Vec<(usize, usize)>)
    ensures
        ranges@.len() == lines_of(v@).len(),
        forall|i: int|
            0 <= i < ranges@.len() ==> (#[trigger] ranges@[i]).0 <= ranges@[i].1 <= v@.len()
                && v@.subrange(ranges@[i].0 as int, ranges@[i].1 as int) == lines_of(v@)[i],
{
    let mut ranges: Vec<(usize, usize)> = Vec::new();
    let mut start: usize = 0;
    let mut i: usize = 0;
    proof {
        assert(v@.take(0) =~= Seq::<char>::empty());
        assert(v@.subrange(0, 0) =~= Seq::<char>::empty());
    }
    while i < v.len()
        invariant
            start <= i <= v.len(),
            ranges@.len() + 1 == pieces_of(v@.take(i as int)).len(),
            pieces_of(v@.take(i as int)).last() == v@.subrange(start as int, i as int),
            forall|k: int|
                0 <= k < ranges@.len() ==> (#[trigger] ranges@[k]).0 <= ranges@[k].1 <= i
                    && v@.subrange(ranges@[k].0 as int, ranges@[k].1 as int) == pieces_of(
                    v@.take(i as int),
                )[k],
        decreases v.len() - i,
    {
        let ghost before = pieces_of(v@.take(i as int));
        proof {
            assert(v@.take(i + 1).drop_last() == v@.take(i as int));
            assert(v@.take(i + 1).last() == v@[i as int]);
        }
        if v[i] == '\n' {
            ranges.push((start, i));
            start = i + 1;
            proof {
                let after = pieces_of(v@.take(i + 1));
                assert(after == before.push(Seq::empty()));
                assert(v@.subrange(i + 1, i + 1) =~= Seq::<char>::empty());
            }
        } else {
            proof {
                let after = pieces_of(v@.take(i + 1));
                assert(after == before.drop_last().push(before.last().push(v@[i as int])));
                assert(v@.subrange(start as int, i + 1) =~= v@.subrange(
                    start as int,
                    i as int,
                ).push(v@[i as int]));
            }
        }
        i += 1;
    }
    assert(v@.take(v.len() as int) == v@);
    if start < v.len() {
        ranges.push((start, v.len()));
    }
    proof {
        let pieces = pieces_of(v@);
        assert forall|k: int| 0 <= k < ranges@.len() implies (#[trigger] ranges@[k]).0
            <= ranges@[k].1 <= v@.len() && v@.subrange(ranges@[k].0 as int, ranges@[k].1 as int)
            == lines_of(v@)[k] by {
            if k < pieces.len() - 1 {
            }
        }
    }
    ranges
}

/// The key of the line that opens an entry and gives its path.
pub open spec fn path_key() -> Seq<char> {
    "Path = "@
}

/// The key of the line that gives the attributes of an entry.
pub open spec fn attributes_key() -> Seq<char> {
    "Attributes = "@
}

/// The key of the line that gives the size of an entry.
pub open spec fn size_key() -> Seq<char> {
    "Size = "@
}

/// The key of the line that gives the time of the last change of an entry.
pub open spec fn modified_key() -> Seq<char> {
    "Modified = "@
}

/// The format in which the report writes a time.
pub open spec fn timestamp_format() -> Seq<char> {
    "%Y-%m-%d %H:%M:%S"@
}

/// Where the parser stands: the entries that are closed, and the entry that
/// is open, if one is.
pub struct ParserView {
    pub entries: Seq<EntryView>,
    pub open: Option<EntryView>,
}

/// The entries of a parser with its open entry closed.
pub open spec fn closed(state: ParserView) -> Seq<EntryView> {
    match state.open {
        Some(e) => state.entries.push(e),
        None => state.entries,
    }
}

/// The parser after the line `raw_line`. `stamp` is the instant that the
/// line's time stands for, if it gives a time that stands for one;
/// `archive_path` is the path of the archive itself.
///
/// * `Path = <value>` closes the open entry and opens one with that path,
///   unless the value is empty or the path of the archive.
/// * `Attributes = <value>` marks the open entry as a directory if and only
///   if the value holds a `D`.
/// * `Size = <value>` sets the size of the open entry where the value
///   writes a number.
/// * `Modified = <value>` sets the time of the open entry where `stamp`
///   gives one.
/// * A blank line closes the open entry.
///
/// The line is taken without the white space around it. The last four rules
/// apply only while an entry is open.
pub open spec fn parse_step(
    state: ParserView,
    raw_line: Seq<char>,
    archive_path: Seq<char>,
    stamp: Option<Timestamp>,
) -> ParserView {
    let line = trimmed(raw_line);
    if path_key().is_prefix_of(line) {
        let path = line.skip(path_key().len() as int);
        if path != archive_path && path.len() > 0 {
            ParserView {
                entries: closed(state),
                open: Some(EntryView { path, is_directory: false, size: 0, modified: None }),
            }
        } else {
            state
        }
    } else {
        match state.open {
            None => state,
            Some(e) => {
                if attributes_key().is_prefix_of(line) {
                    let value = line.skip(attributes_key().len() as int);
                    ParserView {
                        entries: state.entries,
                        open: Some(
                            EntryView {
                                path: e.path,
                                is_directory: value.contains('D'),
                                size: e.size,
                                modified: e.modified,
                            },
                        ),
                    }
                } else if size_key().is_prefix_of(line) {
                    match parsed_u64(line.skip(size_key().len() as int)) {
                        Some(n) => ParserView {
                            entries: state.entries,
                            open: Some(
                                EntryView {
                                    path: e.path,
                                    is_directory: e.is_directory,
                                    size: n,
                                    modified: e.modified,
                                },
                            ),
                        },
                        None => state,
                    }
                } else if modified_key().is_prefix_of(line) {
                    match stamp {
                        Some(t) => ParserView {
                            entries: state.entries,
                            open: Some(
                                EntryView {
                                    path: e.path,
                                    is_directory: e.is_directory,
                                    size: e.size,
                                    modified: Some(t),
                                },
                            ),
                        },
                        None => state,
                    }
                } else if line.len() == 0 {
                    ParserView { entries: state.entries.push(e), open: None }
                } else {
                    state
                }
            },
        }
    }
}

/// The instant given for the line at `i`, if one is given.
pub open spec fn stamp_at(stamps: Seq<Option<Timestamp>>, i: int) -> Option<Timestamp> {
    if 0 <= i < stamps.len() {
        stamps[i]
    } else {
        None
    }
}

/// The parser after `lines`, read in order from a parser without entries.
pub open spec fn parse_lines(
    lines: Seq<Seq<char>>,
    archive_path: Seq<char>,
    stamps: Seq<Option<Timestamp>>,
) -> ParserView
    decreases lines.len(),
{
    if lines.len() == 0 {
        ParserView { entries: Seq::empty(), open: None }
    } else {
        parse_step(
            parse_lines(lines.drop_last(), archive_path, stamps),
            lines.last(),
            archive_path,
            stamp_at(stamps, lines.len() - 1),
        )
    }
}

/// The entries that the report `text` describes. An entry that is still
/// open at the end of the report is closed there.
pub open spec fn report_entries(
    text: Seq<char>,
    archive_path: Seq<char>,
    stamps: Seq<Option<Timestamp>>,
) -> Seq<EntryView> {
    closed(parse_lines(lines_of(text), archive_path, stamps))
}

/// The text of the time that the line gives, if it is a `Modified` line.
pub open spec fn timestamp_text(raw_line: Seq<char>) -> Option<Seq<char>> {
    let line = trimmed(raw_line);
    if modified_key().is_prefix_of(line) {
        Some(line.skip(modified_key().len() as int))
    } else {
        None
    }
}

/// The date and time of day that the line gives, if it is a `Modified` line
/// with a time in the format of the report.
pub open spec fn timestamp_of_line(raw_line: Seq<char>) -> Option<NaiveDateTime> {
    match timestamp_text(raw_line) {
        Some(value) => match naive_datetime_parse(value, timestamp_format()) {
            Ok(t) => Some(t),
            Err(_) => None,
        },
        None => None,
    }
}

/// The keys of the report's lines, as characters.
struct Keys {
    path: Vec<char>,
    attributes: Vec<char>,
    size: Vec<char>,
    modified: Vec<char>,
}

impl Keys {
    spec fn wf(self) -> bool {
        &&& self.path@ == path_key()
        &&& self.attributes@ == attributes_key()
        &&& self.size@ == size_key()
        &&& self.modified@ == modified_key()
    }

    fn new() -> (k: Self)
        ensures
            k.wf(),
    {
        Keys {
            path: chars_of("Path = "),
            attributes: chars_of("Attributes = "),
            size: chars_of("Size = "),
            modified: chars_of("Modified = "),
        }
    }
}

/// Whether `v[from..to]` is the text of `w`.
fn range_equals(v: &Vec<char>, from: usize, to: usize, w: &Vec<char>) -> (b: bool)
    requires
        from <= to <= v.len(),
    ensures
        b == (v@.subrange(from as int, to as int) == w@),
{
    if to - from != w.len() {
        return false;
    }
    let b = range_starts_with(v, from, to, w);
    proof {
        let s = v@.subrange(from as int, to as int);
        assert(s.subrange(0, w@.len() as int) == s);
    }
    b
}

/// The parser of a listing report: the entries read so far, and the entry
/// whose lines are being read.
pub struct ReportParser {
    entries: Vec<ArchiveEntry>,
    current: Option<ArchiveEntry>,
}

impl View for ReportParser {
    type V = ParserView;

    closed spec fn view(&self) -> ParserView {
        ParserView {
            entries: entry_views(self.entries@),
            open: match self.current {
                Some(e) => Some(e@),
                None => None,
            },
        }
    }
}

impl ReportParser {
    /// A parser that has read nothing.
    pub fn new() -> (p: Self)
        ensures
            p@ == (ParserView { entries: Seq::empty(), open: None }),
    {
        let p = ReportParser { entries: Vec::new(), current: None };
        assert(p@.entries =~= Seq::<EntryView>::empty());
        p
    }

    /// Reads the line `v[from..to]`.
    fn read_range(
        self,
        keys: &Keys,
        v: &Vec<char>,
        from: usize,
        to: usize,
        archive_path: &Vec<char>,
        stamp: Option<Timestamp>,
    ) -> (next: Self)
        requires
            keys.wf(),
            from <= to <= v.len(),
        ensures
            next@ == parse_step(self@, v@.subrange(from as int, to as int), archive_path@, stamp),
    {
        let ghost raw = v@.subrange(from as int, to as int);
        let (a, b) = trim_range(v, from, to);
        let ghost line = v@.subrange(a as int, b as int);
        let mut entries = self.entries;
        let current = self.current;
        if range_starts_with(v, a, b, &keys.path) {
            let start = a + keys.path.len();
            assert(v@.subrange(start as int, b as int) == line.skip(path_key().len() as int));
            if !range_equals(v, start, b, archive_path) && start < b {
                let ghost before = entry_views(entries@);
                match current {
                    Some(e) => {
                        entries.push(e);
                        assert(entry_views(entries@) =~= before.push(e@));
                    },
                    None => {},
                }
                let opened = ArchiveEntry {
                    path: string_of_range(v, start, b),
                    is_directory: false,
                    size: 0,
                    modified: None,
                };
                return ReportParser { entries, current: Some(opened) };
            }
            return ReportParser { entries, current };
        }
        match current {
            None => ReportParser { entries, current: None },
            Some(e) => {
                if range_starts_with(v, a, b, &keys.attributes) {
                    let start = a + keys.attributes.len();
                    assert(v@.subrange(start as int, b as int) == line.skip(
                        attributes_key().len() as int,
                    ));
                    let is_directory = range_contains(v, start, b, 'D');
                    ReportParser {
                        entries,
                        current: Some(
                            ArchiveEntry {
                                path: e.path,
                                is_directory,
                                size: e.size,
                                modified: e.modified,
                            },
                        ),
                    }
                } else if range_starts_with(v, a, b, &keys.size) {
                    let start = a + keys.size.len();
                    assert(v@.subrange(start as int, b as int) == line.skip(
                        size_key().len() as int,
                    ));
                    match parse_u64_range(v, start, b) {
                        Some(size) => ReportParser {
                            entries,
                            current: Some(
                                ArchiveEntry {
                                    path: e.path,
                                    is_directory: e.is_directory,
                                    size,
                                    modified: e.modified,
                                },
                            ),
                        },
                        None => ReportParser { entries, current: Some(e) },
                    }
                } else if range_starts_with(v, a, b, &keys.modified) {
                    match stamp {
                        Some(t) => ReportParser {
                            entries,
                            current: Some(
                                ArchiveEntry {
                                    path: e.path,
                                    is_directory: e.is_directory,
                                    size: e.size,
                                    modified: Some(t),
                                },
                            ),
                        },
                        None => ReportParser { entries, current: Some(e) },
                    }
                } else if a == b {
                    let ghost before = entry_views(entries@);
                    entries.push(e);
                    assert(entry_views(entries@) =~= before.push(e@));
                    ReportParser { entries, current: None }
                } else {
                    ReportParser { entries, current: Some(e) }
                }
            },
        }
    }

    /// Reads one line of the report. `stamp` is the instant that the line's
    /// time stands for, if it gives a time that stands for one.
    pub fn read_line(self, line: &str, archive_path: &str, stamp: Option<Timestamp>) -> (next: Self)
        ensures
            next@ == parse_step(self@, line@, archive_path@, stamp),
    {
        let keys = Keys::new();
        let v = chars_of(line);
        let archive = chars_of(archive_path);
        assert(v@.subrange(0, v@.len() as int) == v@);
        self.read_range(&keys, &v, 0, v.len(), &archive, stamp)
    }

    /// Ends the report: the open entry is closed, and the entries are handed
    /// out.
    pub fn finish(self) -> (entries: Vec<ArchiveEntry>)
        ensures
            entry_views(entries@) == closed(self@),
    {
        let mut entries = self.entries;
        let ghost before = entry_views(entries@);
        match self.current {
            Some(e) => {
                entries.push(e);
                assert(entry_views(entries@) =~= before.push(e@));
            },
            None => {},
        }
        entries
    }
}

/// For each line of the report `text`, the date and time of day that it
/// gives, if it is a `Modified` line with a time in the format of the
/// report. The time is written in local time and is not yet an instant.
pub fn modified_fields(text: &str) -> (fields: Vec<Option<NaiveDateTime>>)
    ensures
        fields@.len() == lines_of(text@).len(),
        forall|i: int|
            0 <= i < fields@.len() ==> #[trigger] fields@[i] == timestamp_of_line(
                lines_of(text@)[i],
            ),
{
    let keys = Keys::new();
    let v = chars_of(text);
    let ranges = line_ranges(&v);
    let mut fields: Vec<Option<NaiveDateTime>> = Vec::new();
    let mut i: usize = 0;
    while i < ranges.len()
        invariant
            i <= ranges.len(),
            keys.wf(),
            v@ == text@,
            ranges@.len() == lines_of(v@).len(),
            forall|k: int|
                0 <= k < ranges@.len() ==> (#[trigger] ranges@[k]).0 <= ranges@[k].1 <= v@.len()
                    && v@.subrange(ranges@[k].0 as int, ranges@[k].1 as int) == lines_of(v@)[k],
            fields@.len() == i,
            forall|k: int|
                0 <= k < i ==> #[trigger] fields@[k] == timestamp_of_line(lines_of(text@)[k]),
        decreases ranges.len() - i,
    {
        let (from, to) = ranges[i];
        assert(ranges@[i as int].0 == from && ranges@[i as int].1 == to);
        let (a, b) = trim_range(&v, from, to);
        let ghost line = v@.subrange(a as int, b as int);
        let field = if range_starts_with(&v, a, b, &keys.modified) {
            let start = a + keys.modified.len();
            assert(v@.subrange(start as int, b as int) == line.skip(modified_key().len() as int));
            let value = string_of_range(&v, start, b);
            match parse_naive_datetime(value.as_str(), "%Y-%m-%d %H:%M:%S") {
                Ok(t) => Some(t),
                Err(_) => None,
            }
        } else {
            None
        };
        fields.push(field);
        i += 1;
    }
    fields
}

/// Whether `stamps` gives an instant only for lines of `text` that give a
/// time, and gives at most one for each line.
pub open spec fn stamps_fit(text: Seq<char>, stamps: Seq<Option<Timestamp>>) -> bool {
    &&& stamps.len() == lines_of(text).len()
    &&& forall|i: int|
        0 <= i < stamps.len() && (#[trigger] stamps[i]) is Some ==> timestamp_of_line(
            lines_of(text)[i],
        ) is Some
}

/// For each line of the report `text`, the instant that its time stands for
/// in the time zone of this machine, if the line gives a time and exactly
/// one instant fits it.
pub fn local_stamps(text: &str) -> (stamps: Vec<Option<Timestamp>>)
    ensures
        stamps_fit(text@, stamps@),
{
    let fields = modified_fields(text);
    let mut stamps: Vec<Option<Timestamp>> = Vec::new();
    let mut i: usize = 0;
    while i < fields.len()
        invariant
            i <= fields.len(),
            fields@.len() == lines_of(text@).len(),
            forall|k: int|
                0 <= k < fields@.len() ==> #[trigger] fields@[k] == timestamp_of_line(
                    lines_of(text@)[k],
                ),
            stamps@.len() == i,
            forall|k: int|
                0 <= k < i && (#[trigger] stamps@[k]) is Some ==> timestamp_of_line(
                    lines_of(text@)[k],
                ) is Some,
        decreases fields.len() - i,
    {
        let stamp = match &fields[i] {
            Some(time) => local_instant(time),
            None => None,
        };
        assert(fields@[i as int] == timestamp_of_line(lines_of(text@)[i as int]));
        stamps.push(stamp);
        i += 1;
    }
    stamps
}

/// Reads the listing report `stdout` of the archive at `archive_path`.
/// `stamps` gives, for each line, the instant that the line's time stands
/// for; a line for which it gives none sets no time.
pub fn parse_report(stdout: &str, archive_path: &str, stamps: &[Option<Timestamp>]) -> (entries:
    Vec<ArchiveEntry>)
    ensures
        entry_views(entries@) == report_entries(stdout@, archive_path@, stamps@),
{
    let keys = Keys::new();
    let v = chars_of(stdout);
    let archive = chars_of(archive_path);
    let ranges = line_ranges(&v);
    let ghost lines = lines_of(v@);
    let mut parser = ReportParser::new();
    let mut i: usize = 0;
    assert(lines.take(0) =~= Seq::<Seq<char>>::empty());
    while i < ranges.len()
        invariant
            i <= ranges.len(),
            keys.wf(),
            v@ == stdout@,
            archive@ == archive_path@,
            lines == lines_of(v@),
            ranges@.len() == lines.len(),
            forall|k: int|
                0 <= k < ranges@.len() ==> (#[trigger] ranges@[k]).0 <= ranges@[k].1 <= v@.len()
                    && v@.subrange(ranges@[k].0 as int, ranges@[k].1 as int) == lines[k],
            parser@ == parse_lines(lines.take(i as int), archive_path@, stamps@),
        decreases ranges.len() - i,
    {
        let (from, to) = ranges[i];
        assert(ranges@[i as int].0 == from && ranges@[i as int].1 == to);
        let stamp = if i < stamps.len() {
            stamps[i]
        } else {
            None
        };
        proof {
            assert(lines.take(i + 1).drop_last() == lines.take(i as int));
            assert(lines.take(i + 1).last() == lines[i as int]);
        }
        parser = parser.read_range(&keys, &v, from, to, &archive, stamp);
        i += 1;
    }
    assert(lines.take(ranges.len() as int) == lines);
    parser.finish()
}

/// `e` without its time.
pub open spec fn untimed(e: EntryView) -> EntryView {
    EntryView { path: e.path, is_directory: e.is_directory, size: e.size, modified: None }
}

/// The entries `entries`, each without its time.
pub open spec fn without_times(entries: Seq<EntryView>) -> Seq<EntryView> {
    entries.map_values(|e: EntryView| untimed(e))
}

/// Whether two parsers differ in nothing but the times of their entries.
spec fn same_but_times(a: ParserView, b: ParserView) -> bool {
    &&& without_times(a.entries) == without_times(b.entries)
    &&& match (a.open, b.open) {
        (Some(x), Some(y)) => untimed(x) == untimed(y),
        (None, None) => true,
        _ => false,
    }
}

proof fn lemma_step_same_but_times(
    a: ParserView,
    b: ParserView,
    line: Seq<char>,
    archive_path: Seq<char>,
    s1: Option<Timestamp>,
    s2: Option<Timestamp>,
)
    requires
        same_but_times(a, b),
    ensures
        same_but_times(
            parse_step(a, line, archive_path, s1),
            parse_step(b, line, archive_path, s2),
        ),
{
    let next_a = parse_step(a, line, archive_path, s1);
    let next_b = parse_step(b, line, archive_path, s2);
    match (a.open, b.open) {
        (Some(x), Some(y)) => {
            assert(without_times(a.entries.push(x)) =~= without_times(a.entries).push(untimed(x)));
            assert(without_times(b.entries.push(y)) =~= without_times(b.entries).push(untimed(y)));
        },
        _ => {},
    }
}

proof fn lemma_lines_same_but_times(
    lines: Seq<Seq<char>>,
    archive_path: Seq<char>,
    s1: Seq<Option<Timestamp>>,
    s2: Seq<Option<Timestamp>>,
)
    ensures
        same_but_times(
            parse_lines(lines, archive_path, s1),
            parse_lines(lines, archive_path, s2),
        ),
    decreases lines.len(),
{
    if lines.len() > 0 {
        lemma_lines_same_but_times(lines.drop_last(), archive_path, s1, s2);
        lemma_step_same_but_times(
            parse_lines(lines.drop_last(), archive_path, s1),
            parse_lines(lines.drop_last(), archive_path, s2),
            lines.last(),
            archive_path,
            stamp_at(s1, lines.len() - 1),
            stamp_at(s2, lines.len() - 1),
        );
    } else {
        assert(without_times(Seq::<EntryView>::empty()) =~= Seq::<EntryView>::empty());
    }
}

/// The instants that are given for the times of a report set the times of
/// its entries and nothing else: the entries of a report are the same for
/// all instants, but for their times.
pub proof fn lemma_stamps_set_times_only(
    text: Seq<char>,
    archive_path: Seq<char>,
    s1: Seq<Option<Timestamp>>,
    s2: Seq<Option<Timestamp>>,
)
    ensures
        without_times(report_entries(text, archive_path, s1)) == without_times(
            report_entries(text, archive_path, s2),
        ),
{
    let a = parse_lines(lines_of(text), archive_path, s1);
    let b = parse_lines(lines_of(text), archive_path, s2);
    lemma_lines_same_but_times(lines_of(text), archive_path, s1, s2);
    match (a.open, b.open) {
        (Some(x), Some(y)) => {
            assert(without_times(a.entries.push(x)) =~= without_times(a.entries).push(untimed(x)));
            assert(without_times(b.entries.push(y)) =~= without_times(b.entries).push(untimed(y)));
        },
        _ => {},
    }
}

/// Whether each entry of the parser has a path, and none the path of the
/// archive.
spec fn paths_are_named(state: ParserView, archive_path: Seq<char>) -> bool {
    &&& forall|i: int|
        0 <= i < state.entries.len() ==> (#[trigger] state.entries[i]).path.len() > 0
            && state.entries[i].path != archive_path
    &&& state.open matches Some(e) ==> e.path.len() > 0 && e.path != archive_path
}

proof fn lemma_lines_name_paths(
    lines: Seq<Seq<char>>,
    archive_path: Seq<char>,
    stamps: Seq<Option<Timestamp>>,
)
    ensures
        paths_are_named(parse_lines(lines, archive_path, stamps), archive_path),
    decreases lines.len(),
{
    if lines.len() > 0 {
        lemma_lines_name_paths(lines.drop_last(), archive_path, stamps);
    }
}

/// Each entry of a report has a path, and none has the path of the archive
/// itself.
pub proof fn lemma_entries_are_named(
    text: Seq<char>,
    archive_path: Seq<char>,
    stamps: Seq<Option<Timestamp>>,
)
    ensures
        forall|i: int|
            0 <= i < report_entries(text, archive_path, stamps).len() ==> (#[trigger] report_entries(
                text,
                archive_path,
                stamps,
            )[i]).path.len() > 0 && report_entries(text, archive_path, stamps)[i].path
                != archive_path,
{
    lemma_lines_name_paths(lines_of(text), archive_path, stamps);
}

} // verus!
