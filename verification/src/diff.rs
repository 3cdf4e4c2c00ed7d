//! The comparison of the files that were expected with the files that an
//! archive holds.

use vstd::prelude::*;
use crate::entry::{entry_views, file_paths, ArchiveEntry, EntryView};
use crate::paths::{name_key, name_key_of, normalize_path, normalized};
use crate::seq_lemmas::{
    lemma_filter_empty, lemma_filter_members, lemma_filter_step, lemma_push_to_set,
};
use vstd::hash_set::StringHashSet;
use crate::lists::text_set;
use crate::text::texts;

verus! {

/// The paths of the entries that are files, in order.
pub fn list_archive_contents(entries: &[ArchiveEntry]) -> (files: Vec<String>)
    ensures
        texts(files@) == file_paths(entry_views(entries@)),
{
    let ghost views = entry_views(entries@);
    let ghost is_file = |e: EntryView| !e.is_directory;
    let ghost path = |e: EntryView| e.path;
    let mut files: Vec<String> = Vec::new();
    proof {
        lemma_filter_empty(views.take(0), is_file);
        assert(texts(files@) =~= views.take(0).filter(is_file).map_values(path));
    }
    let mut i: usize = 0;
    while i < entries.len()
        invariant
            i <= entries.len(),
            views == entry_views(entries@),
            is_file == |e: EntryView| !e.is_directory,
            path == |e: EntryView| e.path,
            texts(files@) == views.take(i as int).filter(is_file).map_values(path),
        decreases entries.len() - i,
    {
        proof {
            lemma_filter_step(views, is_file, i as int);
            assert(views[i as int] == entries[i as int]@);
        }
        let ghost before = files@;
        if !entries[i].is_directory {
            files.push(entries[i].path.clone());
            proof {
                assert(texts(files@) =~= texts(before).push(entries[i as int].path@));
                assert(views.take(i as int).filter(is_file).push(views[i as int]).map_values(path)
                    =~= views.take(i as int).filter(is_file).map_values(path).push(
                    views[i as int].path,
                ));
            }
        }
        i += 1;
    }
    assert(views.take(entries.len() as int) == views);
    files
}

/// The expected files that `archived` holds, letter for letter.
pub open spec fn listed_files(expected: Seq<Seq<char>>, archived: Seq<Seq<char>>) -> Seq<
    Seq<char>,
> {
    expected.filter(|p: Seq<char>| archived.contains(p))
}

/// The expected files that `archived` does not hold, letter for letter.
pub open spec fn unlisted_files(expected: Seq<Seq<char>>, archived: Seq<Seq<char>>) -> Seq<
    Seq<char>,
> {
    expected.filter(|p: Seq<char>| !archived.contains(p))
}

/// Splits `expected` into the files that `archived` does not hold and those
/// that it holds, comparing the paths letter for letter. Returns the missing
/// files first; each list keeps the order of `expected`.
pub fn compare_file_lists(expected: &[String], archived: &[String]) -> (r: (
    Vec<String>,
    Vec<String>,
))
    ensures
        texts(r.0@) == unlisted_files(texts(expected@), texts(archived@)),
        texts(r.1@) == listed_files(texts(expected@), texts(archived@)),
{
    let ghost all = texts(expected@);
    let ghost held = texts(archived@);
    let ghost found = |p: Seq<char>| held.contains(p);
    let ghost lost = |p: Seq<char>| !held.contains(p);
    let archived_set = text_set(archived);
    let mut missing_files: Vec<String> = Vec::new();
    let mut found_files: Vec<String> = Vec::new();
    proof {
        lemma_filter_empty(all.take(0), found);
        lemma_filter_empty(all.take(0), lost);
        assert(texts(missing_files@) =~= all.take(0).filter(lost));
        assert(texts(found_files@) =~= all.take(0).filter(found));
    }
    let mut i: usize = 0;
    while i < expected.len()
        invariant
            i <= expected.len(),
            all == texts(expected@),
            held == texts(archived@),
            archived_set@ == held.to_set(),
            found == |p: Seq<char>| held.contains(p),
            lost == |p: Seq<char>| !held.contains(p),
            texts(missing_files@) == all.take(i as int).filter(lost),
            texts(found_files@) == all.take(i as int).filter(found),
        decreases expected.len() - i,
    {
        let file = &expected[i];
        proof {
            lemma_filter_step(all, found, i as int);
            lemma_filter_step(all, lost, i as int);
            assert(all[i as int] == file@);
        }
        let ghost missing_before = missing_files@;
        let ghost found_before = found_files@;
        if archived_set.contains(file.as_str()) {
            found_files.push(file.clone());
            assert(texts(found_files@) =~= texts(found_before).push(file@));
        } else {
            missing_files.push(file.clone());
            assert(texts(missing_files@) =~= texts(missing_before).push(file@));
        }
        i += 1;
    }
    assert(all.take(expected.len() as int) == all);
    (missing_files, found_files)
}

/// Whether the archive with the files `archived` holds the expected file
/// `path`: one of its files has the same normalized path, or the same file
/// name without regard to case.
pub open spec fn is_archived(path: Seq<char>, archived: Seq<Seq<char>>) -> bool {
    ||| archived.map_values(|f: Seq<char>| normalized(f)).contains(normalized(path))
    ||| archived.map_values(|f: Seq<char>| name_key_of(f)).contains(name_key_of(path))
}

/// The expected files that the archive does not hold, in order.
pub open spec fn missing_of(expected: Seq<Seq<char>>, archived: Seq<Seq<char>>) -> Seq<
    Seq<char>,
> {
    expected.filter(|p: Seq<char>| !is_archived(p, archived))
}

/// The expected files that the archive holds, in order.
pub open spec fn found_of(expected: Seq<Seq<char>>, archived: Seq<Seq<char>>) -> Seq<Seq<char>> {
    expected.filter(|p: Seq<char>| is_archived(p, archived))
}

/// What a comparison of expected files with an archive found.
#[derive(Debug, Clone)]
pub struct VerificationResult {
    /// The expected files that the archive does not hold.
    pub missing_files: Vec<String>,
    /// The expected files that the archive holds.
    pub archived_files: Vec<String>,
    /// Every expected file.
    pub all_expected_files: Vec<String>,
    /// The number of expected files.
    pub total_expected: usize,
    /// The number of files in the archive.
    pub total_archived: usize,
}

impl VerificationResult {
    /// The missing files as texts.
    pub open spec fn missing(self) -> Seq<Seq<char>> {
        texts(self.missing_files@)
    }

    /// The files found as texts.
    pub open spec fn archived(self) -> Seq<Seq<char>> {
        texts(self.archived_files@)
    }

    /// The expected files as texts.
    pub open spec fn expected(self) -> Seq<Seq<char>> {
        texts(self.all_expected_files@)
    }

    /// Whether the missing files and the files found part the expected
    /// files: no file is in both, and together they are the expected files.
    pub open spec fn partitions(self) -> bool {
        &&& self.missing().to_set().disjoint(self.archived().to_set())
        &&& self.missing().to_set().union(self.archived().to_set()) == self.expected().to_set()
    }

    /// Whether no expected file is missing.
    pub fn is_complete(&self) -> (b: bool)
        ensures
            b == (self.missing_files@.len() == 0),
    {
        self.missing_files.len() == 0
    }
}

/// The missing files and the files found part the expected files, whatever
/// the archive holds.
pub proof fn lemma_diff_partitions(expected: Seq<Seq<char>>, archived: Seq<Seq<char>>)
    ensures
        missing_of(expected, archived).to_set().disjoint(found_of(expected, archived).to_set()),
        missing_of(expected, archived).to_set().union(found_of(expected, archived).to_set())
            == expected.to_set(),
{
    let lost = |p: Seq<char>| !is_archived(p, archived);
    let found = |p: Seq<char>| is_archived(p, archived);
    lemma_filter_members(expected, lost);
    lemma_filter_members(expected, found);
    let m = expected.filter(lost);
    let f = expected.filter(found);
    assert forall|p: Seq<char>| !(m.to_set().contains(p) && f.to_set().contains(p)) by {
        if m.contains(p) && f.contains(p) {
            assert(lost(p) && found(p));
        }
    }
    assert forall|p: Seq<char>|
        m.to_set().union(f.to_set()).contains(p) <==> expected.to_set().contains(p) by {
        if expected.contains(p) {
            if found(p) {
                assert(f.contains(p));
            } else {
                assert(lost(p));
                assert(m.contains(p));
            }
        }
        if m.contains(p) || f.contains(p) {
            assert(expected.contains(p));
        }
    }
    assert(m.to_set().union(f.to_set()) =~= expected.to_set());
}

/// Letter-for-letter comparison parts the expected files too.
pub proof fn lemma_compare_partitions(expected: Seq<Seq<char>>, archived: Seq<Seq<char>>)
    ensures
        unlisted_files(expected, archived).to_set().disjoint(
            listed_files(expected, archived).to_set(),
        ),
        unlisted_files(expected, archived).to_set().union(
            listed_files(expected, archived).to_set(),
        ) == expected.to_set(),
{
    let lost = |p: Seq<char>| !archived.contains(p);
    let found = |p: Seq<char>| archived.contains(p);
    lemma_filter_members(expected, lost);
    lemma_filter_members(expected, found);
    let m = expected.filter(lost);
    let f = expected.filter(found);
    assert forall|p: Seq<char>| !(m.to_set().contains(p) && f.to_set().contains(p)) by {
        if m.contains(p) && f.contains(p) {
            assert(lost(p) && found(p));
        }
    }
    assert forall|p: Seq<char>|
        m.to_set().union(f.to_set()).contains(p) <==> expected.to_set().contains(p) by {
        if expected.contains(p) {
            if found(p) {
                assert(f.contains(p));
            } else {
                assert(lost(p));
                assert(m.contains(p));
            }
        }
        if m.contains(p) || f.contains(p) {
            assert(expected.contains(p));
        }
    }
    assert(m.to_set().union(f.to_set()) =~= expected.to_set());
}

/// A path with the two keys under which it is compared.
#[derive(Debug, Clone)]
pub struct KeyedPath {
    /// The path as it was given.
    pub path: String,
    /// The key of the whole path.
    pub normalized: String,
    /// The key of the file name.
    pub name_key: String,
}

/// A `KeyedPath` with its strings as sequences of characters.
pub struct KeyedView {
    pub path: Seq<char>,
    pub normalized: Seq<char>,
    pub name_key: Seq<char>,
}

impl View for KeyedPath {
    type V = KeyedView;

    open spec fn view(&self) -> KeyedView {
        KeyedView { path: self.path@, normalized: self.normalized@, name_key: self.name_key@ }
    }
}

/// The views of a list of keyed paths, in order.
pub open spec fn keyed_views(list: Seq<KeyedPath>) -> Seq<KeyedView> {
    Seq::new(list.len(), |i: int| list[i]@)
}

/// The paths of `list`, in order.
pub open spec fn paths_of(list: Seq<KeyedView>) -> Seq<Seq<char>> {
    list.map_values(|k: KeyedView| k.path)
}

/// Whether the archive with the keyed files `archived` holds the file `k`:
/// one of its files has the same key of the whole path, or the same key of
/// the file name.
pub open spec fn is_held(k: KeyedView, archived: Seq<KeyedView>) -> bool {
    ||| archived.map_values(|a: KeyedView| a.normalized).contains(k.normalized)
    ||| archived.map_values(|a: KeyedView| a.name_key).contains(k.name_key)
}

/// The path `path` with the keys that the library gives it.
pub open spec fn key_of(path: Seq<char>) -> KeyedView {
    KeyedView { path, normalized: normalized(path), name_key: name_key_of(path) }
}

/// The path `path` with the keys that the library gives it.
pub fn keyed(path: &str) -> (k: KeyedPath)
    ensures
        k@ == key_of(path@),
{
    KeyedPath {
        path: path.to_owned(),
        normalized: normalize_path(path),
        name_key: name_key(path),
    }
}

/// Compares expected files with the files of an archive by the keys that
/// they come with. An expected file is found when a file of the archive has
/// the same key of the whole path or the same key of the file name. Each
/// list of the result keeps the order of `expected`; `total_archived` counts
/// the files of the archive.
pub fn compare_keyed(expected: &[KeyedPath], archived: &[KeyedPath]) -> (result: VerificationResult)
    ensures
        result.missing() == paths_of(
            keyed_views(expected@).filter(|k: KeyedView| !is_held(k, keyed_views(archived@))),
        ),
        result.archived() == paths_of(
            keyed_views(expected@).filter(|k: KeyedView| is_held(k, keyed_views(archived@))),
        ),
        result.expected() == paths_of(keyed_views(expected@)),
        result.total_expected == expected@.len(),
        result.total_archived == archived@.len(),
{
    let ghost all = keyed_views(expected@);
    let ghost held = keyed_views(archived@);
    let ghost by_path = |a: KeyedView| a.normalized;
    let ghost by_name = |a: KeyedView| a.name_key;
    let ghost found = |k: KeyedView| is_held(k, held);
    let ghost lost = |k: KeyedView| !is_held(k, held);

    let mut archived_paths = StringHashSet::new();
    let mut archived_names = StringHashSet::new();
    let mut k: usize = 0;
    proof {
        assert(held.take(0).map_values(by_path).to_set() =~= Set::<Seq<char>>::empty());
        assert(held.take(0).map_values(by_name).to_set() =~= Set::<Seq<char>>::empty());
    }
    while k < archived.len()
        invariant
            k <= archived.len(),
            held == keyed_views(archived@),
            by_path == |a: KeyedView| a.normalized,
            by_name == |a: KeyedView| a.name_key,
            archived_paths@ == held.take(k as int).map_values(by_path).to_set(),
            archived_names@ == held.take(k as int).map_values(by_name).to_set(),
        decreases archived.len() - k,
    {
        assert(held[k as int] == archived[k as int]@);
        proof {
            assert(held.take(k + 1) == held.take(k as int).push(held[k as int]));
            assert(held.take(k + 1).map_values(by_path) =~= held.take(k as int).map_values(
                by_path,
            ).push(held[k as int].normalized));
            assert(held.take(k + 1).map_values(by_name) =~= held.take(k as int).map_values(
                by_name,
            ).push(held[k as int].name_key));
            lemma_push_to_set(held.take(k as int).map_values(by_path), held[k as int].normalized);
            lemma_push_to_set(held.take(k as int).map_values(by_name), held[k as int].name_key);
        }
        archived_paths.insert(archived[k].normalized.clone());
        archived_names.insert(archived[k].name_key.clone());
        k += 1;
    }
    assert(held.take(archived.len() as int) == held);

    let mut missing_files: Vec<String> = Vec::new();
    let mut archived_files: Vec<String> = Vec::new();
    let mut all_expected_files: Vec<String> = Vec::new();
    proof {
        lemma_filter_empty(all.take(0), found);
        lemma_filter_empty(all.take(0), lost);
        assert(texts(missing_files@) =~= paths_of(all.take(0).filter(lost)));
        assert(texts(archived_files@) =~= paths_of(all.take(0).filter(found)));
        assert(texts(all_expected_files@) =~= paths_of(all.take(0)));
    }
    let mut i: usize = 0;
    while i < expected.len()
        invariant
            i <= expected.len(),
            all == keyed_views(expected@),
            by_path == |a: KeyedView| a.normalized,
            by_name == |a: KeyedView| a.name_key,
            found == |k: KeyedView| is_held(k, held),
            lost == |k: KeyedView| !is_held(k, held),
            archived_paths@ == held.map_values(by_path).to_set(),
            archived_names@ == held.map_values(by_name).to_set(),
            texts(missing_files@) == paths_of(all.take(i as int).filter(lost)),
            texts(archived_files@) == paths_of(all.take(i as int).filter(found)),
            texts(all_expected_files@) == paths_of(all.take(i as int)),
        decreases expected.len() - i,
    {
        let file = &expected[i];
        proof {
            lemma_filter_step(all, found, i as int);
            lemma_filter_step(all, lost, i as int);
            assert(all[i as int] == file@);
        }
        let ghost missing_before = texts(missing_files@);
        let ghost found_before = texts(archived_files@);
        let ghost all_before = texts(all_expected_files@);
        let held_by_path = archived_paths.contains(file.normalized.as_str());
        let held_by_name = archived_names.contains(file.name_key.as_str());
        if held_by_path || held_by_name {
            archived_files.push(file.path.clone());
            proof {
                assert(texts(archived_files@) =~= found_before.push(file.path@));
                assert(paths_of(all.take(i as int).filter(found).push(file@)) =~= paths_of(
                    all.take(i as int).filter(found),
                ).push(file.path@));
            }
        } else {
            missing_files.push(file.path.clone());
            proof {
                assert(texts(missing_files@) =~= missing_before.push(file.path@));
                assert(paths_of(all.take(i as int).filter(lost).push(file@)) =~= paths_of(
                    all.take(i as int).filter(lost),
                ).push(file.path@));
            }
        }
        all_expected_files.push(file.path.clone());
        proof {
            assert(texts(all_expected_files@) =~= all_before.push(file.path@));
            assert(paths_of(all.take(i + 1)) =~= paths_of(all.take(i as int)).push(file.path@));
        }
        i += 1;
    }
    assert(all.take(expected.len() as int) == all);
    VerificationResult {
        missing_files,
        archived_files,
        all_expected_files,
        total_expected: expected.len(),
        total_archived: archived.len(),
    }
}

/// The paths `paths`, each with the keys that the library gives it.
pub open spec fn keys_of(paths: Seq<Seq<char>>) -> Seq<KeyedView> {
    paths.map_values(|p: Seq<char>| key_of(p))
}

/// With the keys that the library gives, a file is held by its keys exactly
/// where it is archived.
pub proof fn lemma_held_by_own_keys(path: Seq<char>, archived: Seq<Seq<char>>)
    ensures
        is_held(key_of(path), keys_of(archived)) == is_archived(path, archived),
{
    assert(keys_of(archived).map_values(|a: KeyedView| a.normalized) =~= archived.map_values(
        |f: Seq<char>| normalized(f),
    ));
    assert(keys_of(archived).map_values(|a: KeyedView| a.name_key) =~= archived.map_values(
        |f: Seq<char>| name_key_of(f),
    ));
}

/// With the keys that the library gives, the comparison by keys gives the
/// files that are archived and those that are not.
pub proof fn lemma_keyed_comparison(expected: Seq<Seq<char>>, archived: Seq<Seq<char>>)
    ensures
        paths_of(keys_of(expected).filter(|k: KeyedView| is_held(k, keys_of(archived))))
            == found_of(expected, archived),
        paths_of(keys_of(expected).filter(|k: KeyedView| !is_held(k, keys_of(archived))))
            == missing_of(expected, archived),
    decreases expected.len(),
{
    reveal(Seq::filter);
    let found_k = |k: KeyedView| is_held(k, keys_of(archived));
    let lost_k = |k: KeyedView| !is_held(k, keys_of(archived));
    if expected.len() > 0 {
        let front = expected.drop_last();
        lemma_keyed_comparison(front, archived);
        lemma_held_by_own_keys(expected.last(), archived);
        assert(keys_of(expected).drop_last() =~= keys_of(front));
        assert(keys_of(expected).last() == key_of(expected.last()));
        let f = keys_of(front).filter(found_k);
        let l = keys_of(front).filter(lost_k);
        assert(paths_of(f.push(key_of(expected.last()))) =~= paths_of(f).push(expected.last()));
        assert(paths_of(l.push(key_of(expected.last()))) =~= paths_of(l).push(expected.last()));
    } else {
        assert(paths_of(keys_of(expected).filter(found_k)) =~= found_of(expected, archived));
        assert(paths_of(keys_of(expected).filter(lost_k)) =~= missing_of(expected, archived));
    }
}

/// The strings of `list`, each with the keys that the library gives it.
fn keyed_list(list: &[String]) -> (keys: Vec<KeyedPath>)
    ensures
        keyed_views(keys@) == keys_of(texts(list@)),
{
    let mut keys: Vec<KeyedPath> = Vec::new();
    let mut i: usize = 0;
    assert(keyed_views(keys@) =~= keys_of(texts(list@).take(0)));
    while i < list.len()
        invariant
            i <= list.len(),
            keyed_views(keys@) == keys_of(texts(list@).take(i as int)),
        decreases list.len() - i,
    {
        let ghost before = keyed_views(keys@);
        keys.push(keyed(list[i].as_str()));
        proof {
            assert(keyed_views(keys@) =~= before.push(key_of(list[i as int]@)));
            assert(keys_of(texts(list@).take(i + 1)) =~= keys_of(texts(list@).take(i as int)).push(
                key_of(list[i as int]@),
            ));
        }
        i += 1;
    }
    assert(texts(list@).take(list.len() as int) == texts(list@));
    keys
}

/// Compares the expected files with the entries of an archive. Directory
/// entries are left out. An expected file is found when an archived file has
/// the same normalized path or, failing that, the same file name without
/// regard to case. `total_archived` counts the files of the archive, not the
/// expected files found.
pub fn verify(expected: &[String], archived: &[ArchiveEntry]) -> (result: VerificationResult)
    ensures
        result.missing() == missing_of(texts(expected@), file_paths(entry_views(archived@))),
        result.archived() == found_of(texts(expected@), file_paths(entry_views(archived@))),
        result.expected() == texts(expected@),
        result.total_expected == expected@.len(),
        result.total_archived == file_paths(entry_views(archived@)).len(),
        result.partitions(),
{
    let files = list_archive_contents(archived);
    let expected_keys = keyed_list(expected);
    let archived_keys = keyed_list(files.as_slice());
    let result = compare_keyed(expected_keys.as_slice(), archived_keys.as_slice());
    proof {
        let all = texts(expected@);
        let held = texts(files@);
        lemma_keyed_comparison(all, held);
        lemma_diff_partitions(all, held);
        assert(paths_of(keys_of(all)) =~= all);
        assert(keys_of(held).len() == held.len());
    }
    result
}

impl VerificationResult {
    /// The success rate in percent as a fraction: the files found times a
    /// hundred, over the expected files; a hundred over one where no file is
    /// expected.
    pub open spec fn success_rate(self) -> (int, int) {
        if self.total_expected == 0 {
            (100, 1)
        } else {
            ((self.archived_files@.len() * 100) as int, self.total_expected as int)
        }
    }

    /// The success rate in percent as a fraction: its numerator and its
    /// denominator, which is not 0.
    pub fn success_rate_parts(&self) -> (r: (u128, u128))
        ensures
            (r.0 as int, r.1 as int) == self.success_rate(),
            r.1 > 0,
    {
        if self.total_expected == 0 {
            (100, 1)
        } else {
            (self.archived_files.len() as u128 * 100, self.total_expected as u128)
        }
    }
}

} // verus!
