//! Whether the archived copy of a file is as recent as the file itself.

use vstd::hash_map::StringHashMap;
use vstd::prelude::*;
use crate::entry::{entry_views, ArchiveEntry, EntryView, Timestamp};
use crate::report::stamp_at;
use crate::text::texts;

verus! {

/// By how many whole seconds a file may be newer than its archived copy and
/// still count as up to date.
pub const FRESHNESS_TOLERANCE_SECONDS: u64 = 2;

/// How the archived copy of a file compares with the file.
#[derive(Debug, Clone, Copy, PartialEq, Eq)]
pub enum Freshness {
    /// The file is not newer than its copy by more than the tolerance.
    UpToDate,
    /// The file is newer than its copy by more than the tolerance.
    Outdated,
    /// One of the two times is not known.
    Unverifiable,
}

/// A file that is newer than its archived copy.
#[derive(Debug, Clone)]
pub struct OutdatedFile {
    /// The path of the file.
    pub path: String,
    /// When the archived copy was last modified.
    pub archive_modified: Option<Timestamp>,
    /// When the file was last modified.
    pub filesystem_modified: Option<Timestamp>,
}

/// An `OutdatedFile` with its path as a sequence of characters.
pub struct OutdatedView {
    pub path: Seq<char>,
    pub archive_modified: Option<Timestamp>,
    pub filesystem_modified: Option<Timestamp>,
}

impl View for OutdatedFile {
    type V = OutdatedView;

    open spec fn view(&self) -> OutdatedView {
        OutdatedView {
            path: self.path@,
            archive_modified: self.archive_modified,
            filesystem_modified: self.filesystem_modified,
        }
    }
}

/// The views of a list of outdated files, in order.
pub open spec fn outdated_views(list: Seq<OutdatedFile>) -> Seq<OutdatedView> {
    Seq::new(list.len(), |i: int| list[i]@)
}

/// What a comparison of the times of the expected files found.
#[derive(Debug, Clone)]
pub struct FreshnessVerificationResult {
    /// The files that are newer than their archived copies.
    pub outdated_files: Vec<OutdatedFile>,
    /// The files whose archived copies are recent enough.
    pub up_to_date_files: Vec<String>,
    /// The files of which a time is not known.
    pub unverifiable_files: Vec<String>,
    /// The number of expected files.
    pub total_checked: usize,
}

/// The tolerance in nanoseconds.
pub open spec fn tolerance_nanos() -> int {
    FRESHNESS_TOLERANCE_SECONDS * 1_000_000_000
}

/// By how many nanoseconds the instant `filesystem` lies after the instant
/// `archive`; negative where it lies before it.
pub open spec fn nanos_newer(filesystem: Timestamp, archive: Timestamp) -> int {
    filesystem.total_nanos() - archive.total_nanos()
}

/// How a copy last modified at `archive` compares with a file last modified
/// at `filesystem`: the file is outdated where it is newer than its copy by
/// more than the tolerance, be it by a nanosecond.
pub open spec fn freshness_of(
    archive: Option<Timestamp>,
    filesystem: Option<Timestamp>,
) -> Freshness {
    match (archive, filesystem) {
        (Some(a), Some(f)) => if nanos_newer(f, a) > tolerance_nanos() {
            Freshness::Outdated
        } else {
            Freshness::UpToDate
        },
        _ => Freshness::Unverifiable,
    }
}

/// Compares the time of an archived copy with the time of the file.
pub fn classify(archive_modified: Option<Timestamp>, filesystem_modified: Option<Timestamp>) -> (r:
    Freshness)
    ensures
        r == freshness_of(archive_modified, filesystem_modified),
{
    match (archive_modified, filesystem_modified) {
        (Some(a), Some(f)) => {
            let archive_nanos: i128 = a.secs as i128 * 1_000_000_000 + a.nanos as i128;
            let filesystem_nanos: i128 = f.secs as i128 * 1_000_000_000 + f.nanos as i128;
            let tolerance: i128 = FRESHNESS_TOLERANCE_SECONDS as i128 * 1_000_000_000;
            if filesystem_nanos - archive_nanos > tolerance {
                Freshness::Outdated
            } else {
                Freshness::UpToDate
            }
        },
        _ => Freshness::Unverifiable,
    }
}

/// How old a copy is, in the unit in which its age is presented.
#[derive(Debug, Clone, Copy, PartialEq, Eq)]
pub enum Age {
    /// More than an hour: the age in seconds, to be presented in hours.
    Hours(u64),
    /// More than a minute: the whole minutes.
    Minutes(u64),
    /// The seconds.
    Seconds(u64),
}

/// By how many seconds the copy is older, counted between the whole seconds
/// of the two instants from the Unix epoch; 0 where it is not older.
pub open spec fn age_seconds(archive: Timestamp, filesystem: Timestamp) -> int {
    if filesystem.seconds_from_epoch() > archive.seconds_from_epoch() {
        filesystem.seconds_from_epoch() - archive.seconds_from_epoch()
    } else {
        0
    }
}

/// The age of a copy of `seconds` seconds, in its unit.
pub open spec fn age_of(seconds: int) -> Age {
    if seconds > 3600 {
        Age::Hours(seconds as u64)
    } else if seconds > 60 {
        Age::Minutes((seconds / 60) as u64)
    } else {
        Age::Seconds(seconds as u64)
    }
}

impl OutdatedFile {
    /// How much older the copy is than the file, where both times are
    /// known.
    pub fn age(&self) -> (r: Option<Age>)
        ensures
            r == match (self.archive_modified, self.filesystem_modified) {
                (Some(a), Some(f)) => Some(age_of(age_seconds(a, f))),
                _ => None,
            },
    {
        match (self.archive_modified, self.filesystem_modified) {
            (Some(a), Some(f)) => {
                let archive_secs = a.epoch_seconds();
                let fs_secs = f.epoch_seconds();
                let time_diff: u64 = if fs_secs > archive_secs {
                    fs_secs - archive_secs
                } else {
                    0
                };
                if time_diff > 3600 {
                    Some(Age::Hours(time_diff))
                } else if time_diff > 60 {
                    Some(Age::Minutes(time_diff / 60))
                } else {
                    Some(Age::Seconds(time_diff))
                }
            },
            _ => None,
        }
    }
}

/// A file is outdated exactly when it is newer than its copy by more than
/// two seconds: a file that is newer by exactly the tolerance is up to date,
/// one that is newer by a second more is outdated, and so is one that is
/// newer by two seconds and a half.
pub proof fn lemma_tolerance_boundary(archive: Timestamp, filesystem: Timestamp)
    ensures
        freshness_of(Some(archive), Some(filesystem)) == Freshness::Outdated
            <==> filesystem.total_nanos() - archive.total_nanos() > 2_000_000_000,
        filesystem.total_nanos() - archive.total_nanos() == 2_000_000_000 ==> freshness_of(
            Some(archive),
            Some(filesystem),
        ) == Freshness::UpToDate,
        filesystem.total_nanos() - archive.total_nanos() == 3_000_000_000 ==> freshness_of(
            Some(archive),
            Some(filesystem),
        ) == Freshness::Outdated,
        filesystem.total_nanos() - archive.total_nanos() == 2_500_000_000 ==> freshness_of(
            Some(archive),
            Some(filesystem),
        ) == Freshness::Outdated,
        freshness_of(Some(archive), Some(filesystem)) != Freshness::Unverifiable,
{
}

/// The entry that stands for the file `path` in the archive: the last entry
/// that is no directory and has this very path.
pub open spec fn archived_entry_of(entries: Seq<EntryView>, path: Seq<char>) -> Option<EntryView>
    decreases entries.len(),
{
    if entries.len() == 0 {
        None
    } else if !entries.last().is_directory && entries.last().path == path {
        Some(entries.last())
    } else {
        archived_entry_of(entries.drop_last(), path)
    }
}

/// The index of the entry that stands for the file `path` in the archive,
/// if the archive holds the file.
pub fn find_archived(entries: &[ArchiveEntry], path: &str) -> (r: Option<usize>)
    ensures
        match r {
            Some(k) => k < entries@.len() && archived_entry_of(entry_views(entries@), path@)
                == Some(entries@[k as int]@),
            None => archived_entry_of(entry_views(entries@), path@) is None,
        },
{
    let ghost views = entry_views(entries@);
    let needle = path.to_owned();
    let mut i: usize = entries.len();
    assert(views.take(i as int) == views);
    while i > 0
        invariant
            i <= entries.len(),
            needle@ == path@,
            views == entry_views(entries@),
            archived_entry_of(views, path@) == archived_entry_of(views.take(i as int), path@),
        decreases i,
    {
        proof {
            assert(views.take(i as int).drop_last() == views.take(i - 1));
            assert(views.take(i as int).last() == entries@[i - 1]@);
        }
        if !entries[i - 1].is_directory && entries[i - 1].path == needle {
            return Some(i - 1);
        }
        i -= 1;
    }
    None
}

/// Whether `index` gives, for each path, the place of the entry that stands
/// for it among `entries`.
spec fn indexes(index: Map<Seq<char>, usize>, entries: Seq<EntryView>) -> bool {
    forall|path: Seq<char>|
        match archived_entry_of(entries, path) {
            Some(e) => #[trigger] index.contains_key(path) && index[path] < entries.len()
                && entries[index[path] as int] == e,
            None => !index.contains_key(path),
        }
}

/// For each path of a file in the archive, the place of the entry that
/// stands for it.
fn index_entries(entries: &[ArchiveEntry]) -> (index: StringHashMap<usize>)
    ensures
        indexes(index@, entry_views(entries@)),
{
    let ghost views = entry_views(entries@);
    let mut index: StringHashMap<usize> = StringHashMap::new();
    let mut i: usize = 0;
    assert(indexes(index@, views.take(0)));
    while i < entries.len()
        invariant
            i <= entries.len(),
            views == entry_views(entries@),
            indexes(index@, views.take(i as int)),
        decreases entries.len() - i,
    {
        let ghost before = index@;
        proof {
            assert(views.take(i + 1).drop_last() == views.take(i as int));
            assert(views.take(i + 1).last() == entries@[i as int]@);
        }
        if !entries[i].is_directory {
            index.insert(entries[i].path.clone(), i);
        }
        proof {
            assert forall|path: Seq<char>|
                match archived_entry_of(views.take(i + 1), path) {
                    Some(e) => #[trigger] index@.contains_key(path) && index@[path] < i + 1
                        && views.take(i + 1)[index@[path] as int] == e,
                    None => !index@.contains_key(path),
                } by {
                if !entries@[i as int].is_directory && entries@[i as int].path@ == path {
                } else {
                    assert(archived_entry_of(views.take(i + 1), path) == archived_entry_of(
                        views.take(i as int),
                        path,
                    ));
                    if before.contains_key(path) {
                        let k = before[path] as int;
                        assert(views.take(i as int)[k] == views.take(i + 1)[k]);
                    }
                }
            }
        }
        i += 1;
    }
    assert(views.take(entries.len() as int) == views);
    index
}

/// How the expected file at `i` compares with its archived copy; nothing
/// where the archive does not hold the file.
pub open spec fn freshness_at(
    expected: Seq<Seq<char>>,
    entries: Seq<EntryView>,
    filesystem: Seq<Option<Timestamp>>,
    i: int,
) -> Option<Freshness> {
    match archived_entry_of(entries, expected[i]) {
        Some(e) => Some(freshness_of(e.modified, stamp_at(filesystem, i))),
        None => None,
    }
}

/// The outdated files among the first `n` expected files, in order.
pub open spec fn outdated_upto(
    expected: Seq<Seq<char>>,
    entries: Seq<EntryView>,
    filesystem: Seq<Option<Timestamp>>,
    n: int,
) -> Seq<OutdatedView>
    decreases n,
{
    if n <= 0 {
        Seq::empty()
    } else {
        let front = outdated_upto(expected, entries, filesystem, n - 1);
        if freshness_at(expected, entries, filesystem, n - 1) == Some(Freshness::Outdated) {
            front.push(
                OutdatedView {
                    path: expected[n - 1],
                    archive_modified: archived_entry_of(entries, expected[n - 1])->0.modified,
                    filesystem_modified: stamp_at(filesystem, n - 1),
                },
            )
        } else {
            front
        }
    }
}

/// Among the first `n` expected files, those that compare as `kind` with
/// their archived copies, in order.
pub open spec fn files_upto(
    expected: Seq<Seq<char>>,
    entries: Seq<EntryView>,
    filesystem: Seq<Option<Timestamp>>,
    kind: Freshness,
    n: int,
) -> Seq<Seq<char>>
    decreases n,
{
    if n <= 0 {
        Seq::empty()
    } else {
        let front = files_upto(expected, entries, filesystem, kind, n - 1);
        if freshness_at(expected, entries, filesystem, n - 1) == Some(kind) {
            front.push(expected[n - 1])
        } else {
            front
        }
    }
}

/// Compares the time of each expected file with the time of its archived
/// copy. `filesystem_modified` gives the time of the expected file at the
/// same index, where it is known. A file that the archive does not hold is
/// passed over. A file is outdated when it is newer than its copy by more
/// than the tolerance, up to date when it is not, and unverifiable when one
/// of the two times is not known.
pub fn verify_archive_freshness(
    expected: &[String],
    archived: &[ArchiveEntry],
    filesystem_modified: &[Option<Timestamp>],
) -> (result: FreshnessVerificationResult)
    ensures
        outdated_views(result.outdated_files@) == outdated_upto(
            texts(expected@),
            entry_views(archived@),
            filesystem_modified@,
            expected@.len() as int,
        ),
        texts(result.up_to_date_files@) == files_upto(
            texts(expected@),
            entry_views(archived@),
            filesystem_modified@,
            Freshness::UpToDate,
            expected@.len() as int,
        ),
        texts(result.unverifiable_files@) == files_upto(
            texts(expected@),
            entry_views(archived@),
            filesystem_modified@,
            Freshness::Unverifiable,
            expected@.len() as int,
        ),
        result.total_checked == expected@.len(),
{
    let ghost all = texts(expected@);
    let ghost views = entry_views(archived@);
    let ghost times = filesystem_modified@;
    let index = index_entries(archived);
    let mut outdated_files: Vec<OutdatedFile> = Vec::new();
    let mut up_to_date_files: Vec<String> = Vec::new();
    let mut unverifiable_files: Vec<String> = Vec::new();
    let mut i: usize = 0;
    proof {
        assert(outdated_views(outdated_files@) =~= outdated_upto(all, views, times, 0));
        assert(texts(up_to_date_files@) =~= files_upto(all, views, times, Freshness::UpToDate, 0));
        assert(texts(unverifiable_files@) =~= files_upto(
            all,
            views,
            times,
            Freshness::Unverifiable,
            0,
        ));
    }
    while i < expected.len()
        invariant
            i <= expected.len(),
            all == texts(expected@),
            views == entry_views(archived@),
            times == filesystem_modified@,
            indexes(index@, views),
            outdated_views(outdated_files@) == outdated_upto(all, views, times, i as int),
            texts(up_to_date_files@) == files_upto(
                all,
                views,
                times,
                Freshness::UpToDate,
                i as int,
            ),
            texts(unverifiable_files@) == files_upto(
                all,
                views,
                times,
                Freshness::Unverifiable,
                i as int,
            ),
        decreases expected.len() - i,
    {
        let file_path = &expected[i];
        assert(all[i as int] == file_path@);
        let ghost outdated_before = outdated_views(outdated_files@);
        let ghost current_before = texts(up_to_date_files@);
        let ghost unknown_before = texts(unverifiable_files@);
        assert(index@.contains_key(file_path@) || !index@.contains_key(file_path@));
        match index.get(file_path.as_str()) {
            Some(k) => {
                assert(views[*k as int] == archived@[*k as int]@);
                let archive_modified = archived[*k].modified;
                let filesystem_time = if i < filesystem_modified.len() {
                    filesystem_modified[i]
                } else {
                    None
                };
                match classify(archive_modified, filesystem_time) {
                    Freshness::Outdated => {
                        outdated_files.push(
                            OutdatedFile {
                                path: file_path.clone(),
                                archive_modified,
                                filesystem_modified: filesystem_time,
                            },
                        );
                        assert(outdated_views(outdated_files@) =~= outdated_before.push(
                            OutdatedView {
                                path: file_path@,
                                archive_modified,
                                filesystem_modified: filesystem_time,
                            },
                        ));
                    },
                    Freshness::UpToDate => {
                        up_to_date_files.push(file_path.clone());
                        assert(texts(up_to_date_files@) =~= current_before.push(file_path@));
                    },
                    Freshness::Unverifiable => {
                        unverifiable_files.push(file_path.clone());
                        assert(texts(unverifiable_files@) =~= unknown_before.push(file_path@));
                    },
                }
            },
            None => {},
        }
        i += 1;
    }
    FreshnessVerificationResult {
        outdated_files,
        up_to_date_files,
        unverifiable_files,
        total_checked: expected.len(),
    }
}

} // verus!
