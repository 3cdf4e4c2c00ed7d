//! What an archive listing says of one archived item.

use vstd::prelude::*;

verus! {

/// An instant, as a count of seconds and nanoseconds from the Unix epoch.
/// The instant is `secs` seconds plus `nanos` nanoseconds; `nanos` may hold
/// a whole second or more.
#[derive(Debug, Clone, Copy, PartialEq, Eq)]
pub struct Timestamp {
    pub secs: i64,
    pub nanos: u32,
}

impl Timestamp {
    /// The instant in nanoseconds from the Unix epoch.
    pub open spec fn total_nanos(self) -> int {
        self.secs * 1_000_000_000 + self.nanos
    }

    /// The instant `secs` seconds after the Unix epoch.
    pub fn from_secs(secs: i64) -> (t: Self)
        ensures
            t.secs == secs,
            t.nanos == 0,
    {
        Timestamp { secs, nanos: 0 }
    }

    /// The instant that lies `secs` seconds and `nanos` nanoseconds after
    /// the Unix epoch. Seconds beyond the greatest count count as the
    /// greatest count.
    pub fn after_epoch(secs: u64, nanos: u32) -> (t: Self)
        ensures
            secs <= i64::MAX ==> t.total_nanos() == secs * 1_000_000_000 + nanos,
            secs > i64::MAX ==> t == (Timestamp { secs: i64::MAX, nanos }),
    {
        if secs <= i64::MAX as u64 {
            Timestamp { secs: secs as i64, nanos }
        } else {
            Timestamp { secs: i64::MAX, nanos }
        }
    }

    /// The instant that lies `secs` seconds and `nanos` nanoseconds before
    /// the Unix epoch. An instant that lies more seconds before the epoch
    /// than can be counted counts as the earliest count.
    pub fn before_epoch(secs: u64, nanos: u32) -> (t: Self)
        ensures
            secs * 1_000_000_000 + nanos <= i64::MAX * 1_000_000_000 ==> t.total_nanos() == -(secs
                * 1_000_000_000 + nanos),
            secs * 1_000_000_000 + nanos > i64::MAX * 1_000_000_000 ==> t == (Timestamp {
                secs: i64::MIN,
                nanos: 0,
            }),
            t.nanos < 1_000_000_000,
    {
        let distance: u128 = secs as u128 * 1_000_000_000 + nanos as u128;
        if distance > i64::MAX as u128 * 1_000_000_000 {
            return Timestamp { secs: i64::MIN, nanos: 0 };
        }
        let whole: u128 = (distance + 999_999_999) / 1_000_000_000;
        assert(whole * 1_000_000_000 >= distance && whole * 1_000_000_000 - distance
            < 1_000_000_000 && whole <= i64::MAX) by (nonlinear_arith)
            requires
                whole == (distance + 999_999_999) / 1_000_000_000,
                distance <= i64::MAX * 1_000_000_000,
        ;
        let rest: u128 = whole * 1_000_000_000 - distance;
        Timestamp { secs: -(whole as i64), nanos: rest as u32 }
    }

    /// The whole seconds from the Unix epoch to the instant; 0 for an
    /// instant before the epoch.
    pub open spec fn seconds_from_epoch(self) -> int {
        if self.total_nanos() >= 0 {
            self.total_nanos() / 1_000_000_000
        } else {
            0
        }
    }

    /// The whole seconds from the Unix epoch to the instant; 0 for an
    /// instant before the epoch.
    pub fn epoch_seconds(&self) -> (n: u64)
        ensures
            n == self.seconds_from_epoch(),
    {
        let total: i128 = self.secs as i128 * 1_000_000_000 + self.nanos as i128;
        if total >= 0 {
            (total / 1_000_000_000) as u64
        } else {
            0
        }
    }
}

/// One item of an archive listing.
#[derive(Debug, Clone)]
pub struct ArchiveEntry {
    /// The path of the item in the archive.
    pub path: String,
    /// Whether the item is a directory.
    pub is_directory: bool,
    /// The size of the item in bytes; 0 where the listing gives none.
    pub size: u64,
    /// When the item was last modified, where the listing says so.
    pub modified: Option<Timestamp>,
}

/// An `ArchiveEntry` with its path as a sequence of characters.
pub struct EntryView {
    pub path: Seq<char>,
    pub is_directory: bool,
    pub size: u64,
    pub modified: Option<Timestamp>,
}

impl View for ArchiveEntry {
    type V = EntryView;

    open spec fn view(&self) -> EntryView {
        EntryView {
            path: self.path@,
            is_directory: self.is_directory,
            size: self.size,
            modified: self.modified,
        }
    }
}

/// The views of a list of entries, in order.
pub open spec fn entry_views(entries: Seq<ArchiveEntry>) -> Seq<EntryView> {
    Seq::new(entries.len(), |i: int| entries[i]@)
}

/// The paths of the entries that are files, in order.
pub open spec fn file_paths(entries: Seq<EntryView>) -> Seq<Seq<char>> {
    entries.filter(|e: EntryView| !e.is_directory).map_values(|e: EntryView| e.path)
}

} // verus!
