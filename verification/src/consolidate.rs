//! Missing files are gathered by directory, so that a report names a
//! directory once where every file expected in it is missing.

use vstd::prelude::*;
use crate::diff::VerificationResult;
use vstd::seq_lib::lemma_sorted_unique;
use crate::lists::{
    is_sorted, lemma_lex_le_total_ordering, lex_le, sort_texts, unique, unique_texts,
    OrderedPathSet,
};
use crate::paths::{depth, depth_of, parent_dir, parent_of};
use crate::seq_lemmas::{lemma_filter_empty, lemma_filter_step};
use crate::text::{char_texts, chars_of, range_starts_with, texts};

verus! {

/// A directory with the missing files that lie directly in it.
#[derive(Debug, Clone)]
pub struct DirectoryMissingFiles {
    /// The directory.
    pub directory: String,
    /// The missing files of the directory, in the order of the report.
    pub missing_files: Vec<String>,
    /// How many different files were expected in the directory.
    pub total_files: usize,
    /// Whether every file expected in the directory is missing.
    pub is_complete_directory: bool,
}

/// A `DirectoryMissingFiles` with its strings as sequences of characters.
pub struct DirectoryView {
    pub directory: Seq<char>,
    pub missing_files: Seq<Seq<char>>,
    pub total_files: nat,
    pub is_complete_directory: bool,
}

impl View for DirectoryMissingFiles {
    type V = DirectoryView;

    open spec fn view(&self) -> DirectoryView {
        DirectoryView {
            directory: self.directory@,
            missing_files: texts(self.missing_files@),
            total_files: self.total_files as nat,
            is_complete_directory: self.is_complete_directory,
        }
    }
}

/// The views of a list of directories, in order.
pub open spec fn directory_views(list: Seq<DirectoryMissingFiles>) -> Seq<DirectoryView> {
    Seq::new(list.len(), |i: int| list[i]@)
}

/// Whether `path` lies directly in the directory `dir`.
pub open spec fn in_dir(path: Seq<char>, dir: Seq<char>) -> bool {
    parent_of(path) == Some(dir)
}

/// The files of `list` that lie directly in `dir`, in order.
pub open spec fn files_in(list: Seq<Seq<char>>, dir: Seq<char>) -> Seq<Seq<char>> {
    list.filter(|p: Seq<char>| in_dir(p, dir))
}

/// The directories that hold a file of `missing`, each once, in the order in
/// which they first occur.
pub open spec fn missing_dirs(missing: Seq<Seq<char>>) -> Seq<Seq<char>>
    decreases missing.len(),
{
    if missing.len() == 0 {
        Seq::empty()
    } else {
        let front = missing_dirs(missing.drop_last());
        match parent_of(missing.last()) {
            Some(d) => if front.contains(d) {
                front
            } else {
                front.push(d)
            },
            None => front,
        }
    }
}

/// How many different files of `expected` lie directly in `dir`.
pub open spec fn expected_count(expected: Seq<Seq<char>>, dir: Seq<char>) -> nat {
    files_in(unique(expected), dir).len()
}

/// Whether every file expected in `dir` is missing: as many files of `dir`
/// are missing as were expected in it, and at least one.
pub open spec fn is_complete(
    missing: Seq<Seq<char>>,
    expected: Seq<Seq<char>>,
    dir: Seq<char>,
) -> bool {
    files_in(missing, dir).len() == expected_count(expected, dir) && expected_count(expected, dir)
        > 0
}

/// What is known of the directory `dir`.
pub open spec fn summary_of(
    missing: Seq<Seq<char>>,
    expected: Seq<Seq<char>>,
    dir: Seq<char>,
) -> DirectoryView {
    DirectoryView {
        directory: dir,
        missing_files: files_in(missing, dir),
        total_files: expected_count(expected, dir),
        is_complete_directory: is_complete(missing, expected, dir),
    }
}

/// What is known of each directory that holds a missing file.
pub open spec fn analysis_of(missing: Seq<Seq<char>>, expected: Seq<Seq<char>>) -> Seq<
    DirectoryView,
> {
    missing_dirs(missing).map_values(|d: Seq<char>| summary_of(missing, expected, d))
}

/// `missing_dirs` holds each directory of a missing file, and none twice.
pub proof fn lemma_missing_dirs(missing: Seq<Seq<char>>)
    ensures
        missing_dirs(missing).no_duplicates(),
        missing_dirs(missing).len() <= missing.len(),
        forall|d: Seq<char>| #[trigger]
            missing_dirs(missing).contains(d) <==> exists|k: int|
                0 <= k < missing.len() && in_dir(#[trigger] missing[k], d),
    decreases missing.len(),
{
    if missing.len() > 0 {
        let rest = missing.drop_last();
        let front = missing_dirs(rest);
        let all = missing_dirs(missing);
        lemma_missing_dirs(rest);
        assert forall|d: Seq<char>| #[trigger]
            all.contains(d) <==> exists|k: int|
                0 <= k < missing.len() && in_dir(#[trigger] missing[k], d) by {
            if all.contains(d) {
                let j = choose|j: int| 0 <= j < all.len() && all[j] == d;
                if j < front.len() {
                    assert(front[j] == d);
                    assert(front.contains(d));
                    let k = choose|k: int| 0 <= k < rest.len() && in_dir(#[trigger] rest[k], d);
                    assert(in_dir(missing[k], d));
                } else {
                    assert(in_dir(missing[missing.len() - 1], d));
                }
            }
            if exists|k: int| 0 <= k < missing.len() && in_dir(#[trigger] missing[k], d) {
                let k = choose|k: int| 0 <= k < missing.len() && in_dir(#[trigger] missing[k], d);
                if k < missing.len() - 1 {
                    assert(in_dir(rest[k], d));
                    assert(front.contains(d));
                    let j = choose|j: int| 0 <= j < front.len() && front[j] == d;
                    assert(all[j] == d);
                } else if front.contains(d) {
                } else {
                    assert(all[front.len() as int] == d);
                }
            }
        }
    }
}

/// A list without a file of `dir` gives no file for it.
pub proof fn lemma_files_in_none(list: Seq<Seq<char>>, dir: Seq<char>)
    requires
        forall|k: int| 0 <= k < list.len() ==> !in_dir(#[trigger] list[k], dir),
    ensures
        files_in(list, dir) == Seq::<Seq<char>>::empty(),
    decreases list.len(),
{
    reveal(Seq::filter);
    if list.len() > 0 {
        let rest = list.drop_last();
        assert forall|k: int| 0 <= k < rest.len() implies !in_dir(#[trigger] rest[k], dir) by {
            assert(rest[k] == list[k]);
        }
        lemma_files_in_none(rest, dir);
        assert(!in_dir(list[list.len() - 1], dir));
    }
}

/// Gathers the missing files by the directory that holds them and counts
/// the different files expected in each. Returns the directories as a set
/// too.
fn analyze(missing_files: &[String], expected_files: &[String]) -> (r: (
    Vec<DirectoryMissingFiles>,
    OrderedPathSet,
))
    ensures
        directory_views(r.0@) == analysis_of(texts(missing_files@), texts(expected_files@)),
        r.1@ == missing_dirs(texts(missing_files@)),
{
    let ghost m = texts(missing_files@);
    let ghost e = texts(expected_files@);
    let mut analysis: Vec<DirectoryMissingFiles> = Vec::new();
    let mut dirs = OrderedPathSet::new();
    assert(dirs@ =~= missing_dirs(m.take(0)));
    let mut i: usize = 0;
    while i < missing_files.len()
        invariant
            i <= missing_files.len(),
            m == texts(missing_files@),
            dirs@ == missing_dirs(m.take(i as int)),
            analysis.len() == dirs@.len(),
            forall|j: int|
                0 <= j < dirs@.len() ==> (#[trigger] analysis[j]).directory@ == dirs@[j] && texts(
                    analysis[j].missing_files@,
                ) == files_in(m.take(i as int), dirs@[j]),
        decreases missing_files.len() - i,
    {
        let file = &missing_files[i];
        let ghost before = m.take(i as int);
        let ghost after = m.take(i + 1);
        let ghost old_dirs = dirs@;
        let ghost old_analysis = analysis@;
        proof {
            assert(after.drop_last() == before);
            assert(after.last() == file@);
            lemma_missing_dirs(before);
            assert forall|j: int| 0 <= j < old_dirs.len() implies files_in(after, old_dirs[j])
                == if in_dir(file@, old_dirs[j]) {
                files_in(before, old_dirs[j]).push(file@)
            } else {
                files_in(before, old_dirs[j])
            } by {
                lemma_filter_step(m, |p: Seq<char>| in_dir(p, old_dirs[j]), i as int);
            }
        }
        match parent_dir(file.as_str()) {
            None => {},
            Some(d) => {
                match dirs.position(d.as_str()) {
                    Some(j) => {
                        assert(old_dirs.contains(d@));
                        let ghost files_before = texts(analysis[j as int].missing_files@);
                        analysis[j].missing_files.push(file.clone());
                        proof {
                            assert(texts(analysis[j as int].missing_files@) =~= files_before.push(
                                file@,
                            ));
                            assert forall|k: int| 0 <= k < dirs@.len() implies (
                            #[trigger] analysis[k]).directory@ == dirs@[k] && texts(
                                analysis[k].missing_files@,
                            ) == files_in(after, dirs@[k]) by {
                                if k != j {
                                    assert(analysis[k] == old_analysis[k]);
                                    assert(old_dirs[k] != old_dirs[j as int]);
                                }
                            }
                        }
                    },
                    None => {
                        proof {
                            assert forall|k: int| 0 <= k < before.len() implies !in_dir(
                                #[trigger] before[k],
                                d@,
                            ) by {
                                if in_dir(before[k], d@) {
                                    assert(missing_dirs(before).contains(d@));
                                }
                            }
                            lemma_files_in_none(before, d@);
                            lemma_filter_step(m, |p: Seq<char>| in_dir(p, d@), i as int);
                        }
                        let mut files: Vec<String> = Vec::new();
                        files.push(file.clone());
                        assert(texts(files@) =~= Seq::<Seq<char>>::empty().push(file@));
                        let (next, _) = dirs.insert(d.as_str());
                        dirs = next;
                        analysis.push(
                            DirectoryMissingFiles {
                                directory: d,
                                missing_files: files,
                                total_files: 0,
                                is_complete_directory: false,
                            },
                        );
                        proof {
                            assert forall|k: int| 0 <= k < dirs@.len() implies (
                            #[trigger] analysis[k]).directory@ == dirs@[k] && texts(
                                analysis[k].missing_files@,
                            ) == files_in(after, dirs@[k]) by {
                                if k < old_dirs.len() {
                                    assert(analysis[k] == old_analysis[k]);
                                    assert(old_dirs[k] == dirs@[k]);
                                    if old_dirs[k] == d@ {
                                        assert(old_dirs.contains(d@));
                                    }
                                }
                            }
                        }
                    },
                }
            },
        }
        i += 1;
    }
    proof {
        assert(m.take(missing_files.len() as int) == m);
        lemma_missing_dirs(m);
    }

    let unique_expected = unique_texts(expected_files);
    let ghost ue = texts(unique_expected@);
    let n = analysis.len();
    let mut counts: Vec<usize> = Vec::new();
    let mut c: usize = 0;
    while c < n
        invariant
            c <= n,
            counts.len() == c,
            forall|j: int| 0 <= j < c ==> #[trigger] counts[j] == 0,
        decreases n - c,
    {
        counts.push(0);
        c += 1;
    }
    proof {
        assert forall|j: int| 0 <= j < n implies #[trigger] counts[j] == files_in(
            ue.take(0),
            dirs@[j],
        ).len() by {
            lemma_filter_empty(ue.take(0), |p: Seq<char>| in_dir(p, dirs@[j]));
        }
    }
    let mut k: usize = 0;
    while k < unique_expected.len()
        invariant
            k <= unique_expected.len(),
            ue == texts(unique_expected@),
            n == dirs@.len(),
            counts.len() == n,
            dirs@.no_duplicates(),
            forall|j: int|
                0 <= j < n ==> #[trigger] counts[j] == files_in(ue.take(k as int), dirs@[j]).len(),
            forall|j: int| 0 <= j < n ==> #[trigger] counts[j] <= k,
        decreases unique_expected.len() - k,
    {
        let ghost old_counts = counts@;
        assert(ue[k as int] == unique_expected[k as int]@);
        proof {
            assert forall|j: int| 0 <= j < n implies files_in(ue.take(k + 1), dirs@[j]).len()
                == files_in(ue.take(k as int), dirs@[j]).len() + if in_dir(ue[k as int], dirs@[j]) {
                1int
            } else {
                0int
            } by {
                lemma_filter_step(ue, |p: Seq<char>| in_dir(p, dirs@[j]), k as int);
            }
        }
        match parent_dir(unique_expected[k].as_str()) {
            Some(d) => {
                match dirs.position(d.as_str()) {
                    Some(j) => {
                        let count = counts[j];
                        counts[j] = count + 1;
                        proof {
                            assert forall|x: int| 0 <= x < n implies #[trigger] counts[x]
                                == files_in(ue.take(k + 1), dirs@[x]).len() by {
                                if x != j {
                                    assert(counts[x] == old_counts[x]);
                                    assert(dirs@[x] != dirs@[j as int]);
                                }
                            }
                        }
                    },
                    None => {
                        proof {
                            assert forall|x: int| 0 <= x < n implies !in_dir(
                                ue[k as int],
                                #[trigger] dirs@[x],
                            ) by {
                                if in_dir(ue[k as int], dirs@[x]) {
                                    assert(dirs@.contains(d@));
                                }
                            }
                        }
                    },
                }
            },
            None => {},
        }
        k += 1;
    }
    assert(ue.take(unique_expected.len() as int) == ue);

    let mut j: usize = 0;
    while j < n
        invariant
            j <= n,
            n == analysis.len(),
            n == dirs@.len(),
            counts.len() == n,
            m == texts(missing_files@),
            e == texts(expected_files@),
            ue == unique(e),
            dirs@ == missing_dirs(m),
            forall|x: int| 0 <= x < n ==> #[trigger] counts[x] == files_in(ue, dirs@[x]).len(),
            forall|x: int|
                0 <= x < n ==> (#[trigger] analysis[x]).directory@ == dirs@[x] && texts(
                    analysis[x].missing_files@,
                ) == files_in(m, dirs@[x]),
            forall|x: int| 0 <= x < j ==> (#[trigger] analysis[x])@ == summary_of(m, e, dirs@[x]),
        decreases n - j,
    {
        let ghost d = dirs@[j as int];
        let ghost old_analysis = analysis@;
        let count = counts[j];
        let complete = analysis[j].missing_files.len() == count && count > 0;
        analysis[j].total_files = count;
        analysis[j].is_complete_directory = complete;
        proof {
            assert(analysis[j as int]@ =~= summary_of(m, e, d));
            assert forall|x: int| 0 <= x < n implies (#[trigger] analysis[x]).directory@ == dirs@[x]
                && texts(analysis[x].missing_files@) == files_in(m, dirs@[x]) by {
                if x != j {
                    assert(analysis[x] == old_analysis[x]);
                }
            }
            assert forall|x: int| 0 <= x < j + 1 implies (#[trigger] analysis[x])@ == summary_of(
                m,
                e,
                dirs@[x],
            ) by {
                if x != j {
                    assert(analysis[x] == old_analysis[x]);
                }
            }
        }
        j += 1;
    }
    proof {
        assert(directory_views(analysis@) =~= analysis_of(m, e));
    }
    (analysis, dirs)
}

/// Gathers the missing files by the directory that holds them and counts
/// the different files expected in each.
pub fn analyze_directories(missing_files: &[String], expected_files: &[String]) -> (analysis: Vec<
    DirectoryMissingFiles,
>)
    ensures
        directory_views(analysis@) == analysis_of(texts(missing_files@), texts(expected_files@)),
{
    let (analysis, _) = analyze(missing_files, expected_files);
    analysis
}

/// Whether the directory name `other` continues the name `dir`: `dir` is a
/// prefix of it, and it is not `dir`.
pub open spec fn lies_below(other: Seq<char>, dir: Seq<char>) -> bool {
    dir.is_prefix_of(other) && other != dir
}

/// Where the folding of directories stands: the directories shown as a
/// whole so far, and the directories that are dealt with.
pub struct Sweep {
    pub shown: Seq<Seq<char>>,
    pub processed: Set<Seq<char>>,
}

/// The directories of `analysis` whose names continue `dir`.
pub open spec fn directories_below(analysis: Seq<DirectoryView>, dir: Seq<char>) -> Set<
    Seq<char>,
> {
    Set::new(
        |o: Seq<char>|
            lies_below(o, dir) && exists|k: int|
                0 <= k < analysis.len() && (#[trigger] analysis[k]).directory == o,
    )
}

/// Whether the directory `d` is passed over: it is dealt with already, or
/// some file expected in it is not missing, or the directory that holds it
/// is dealt with.
pub open spec fn passed_over(state: Sweep, d: DirectoryView) -> bool {
    ||| state.processed.contains(d.directory)
    ||| !d.is_complete_directory
    ||| (parent_of(d.directory) matches Some(p) && state.processed.contains(p))
}

/// One step of the folding. A directory that is not passed over is shown as
/// a whole; it and every directory whose name continues its name are then
/// dealt with.
pub open spec fn sweep_step(state: Sweep, d: DirectoryView, analysis: Seq<DirectoryView>) -> Sweep {
    if passed_over(state, d) {
        state
    } else {
        Sweep {
            shown: state.shown.push(d.directory),
            processed: state.processed.insert(d.directory).union(
                directories_below(analysis, d.directory),
            ),
        }
    }
}

/// The folding of the directories `order`, one after the other.
pub open spec fn sweep_over(
    state: Sweep,
    order: Seq<DirectoryView>,
    analysis: Seq<DirectoryView>,
) -> Sweep
    decreases order.len(),
{
    if order.len() == 0 {
        state
    } else {
        sweep_step(sweep_over(state, order.drop_last(), analysis), order.last(), analysis)
    }
}

/// The directories of `analysis` at depth `k`, in order.
pub open spec fn at_level(analysis: Seq<DirectoryView>, k: nat) -> Seq<DirectoryView> {
    analysis.filter(|d: DirectoryView| depth_of(d.directory) == k)
}

/// The directories at the depths from `top` down to `k`, the deeper ones
/// first, those of one depth in the order of `analysis`.
pub open spec fn levels_from(analysis: Seq<DirectoryView>, top: nat, k: nat) -> Seq<DirectoryView>
    decreases top + 1 - k,
{
    if k > top {
        Seq::empty()
    } else {
        levels_from(analysis, top, k + 1) + at_level(analysis, k)
    }
}

/// The greatest depth of a directory of `analysis`.
pub open spec fn deepest(analysis: Seq<DirectoryView>) -> nat
    decreases analysis.len(),
{
    if analysis.len() == 0 {
        0
    } else {
        let rest = deepest(analysis.drop_last());
        let last = depth_of(analysis.last().directory);
        if last > rest {
            last
        } else {
            rest
        }
    }
}

/// The order in which directories are folded: from the deepest to the
/// shallowest.
pub open spec fn processing_order(analysis: Seq<DirectoryView>) -> Seq<DirectoryView> {
    levels_from(analysis, deepest(analysis), 0)
}

/// The outcome of the folding of all directories.
pub open spec fn sweep_of(analysis: Seq<DirectoryView>) -> Sweep {
    sweep_over(
        Sweep { shown: Seq::empty(), processed: Set::empty() },
        processing_order(analysis),
        analysis,
    )
}

/// The line that stands for every file of the directory `dir`.
pub open spec fn wildcard_of(dir: Seq<char>) -> Seq<char> {
    dir + seq!['/', '*']
}

/// Whether the missing file `path` is listed by itself: its directory is
/// not dealt with, and some file expected in it is not missing.
pub open spec fn listed_alone(
    path: Seq<char>,
    missing: Seq<Seq<char>>,
    expected: Seq<Seq<char>>,
) -> bool {
    match parent_of(path) {
        Some(d) => !sweep_of(analysis_of(missing, expected)).processed.contains(d) && !is_complete(
            missing,
            expected,
            d,
        ),
        None => false,
    }
}

/// The lines of the consolidated report before they are sorted: one for
/// each directory shown as a whole, then the missing files listed alone.
pub open spec fn consolidated_entries(missing: Seq<Seq<char>>, expected: Seq<Seq<char>>) -> Seq<
    Seq<char>,
> {
    sweep_of(analysis_of(missing, expected)).shown.map_values(|d: Seq<char>| wildcard_of(d))
        + missing.filter(|p: Seq<char>| listed_alone(p, missing, expected))
}

/// The consolidated report: its lines in lexicographic order.
pub open spec fn consolidated_report(missing: Seq<Seq<char>>, expected: Seq<Seq<char>>) -> Seq<
    Seq<char>,
> {
    consolidated_entries(missing, expected).sort_by(|a: Seq<char>, b: Seq<char>| lex_le(a, b))
}

/// Folding one list after another is folding their concatenation.
pub proof fn lemma_sweep_over_add(
    state: Sweep,
    a: Seq<DirectoryView>,
    b: Seq<DirectoryView>,
    analysis: Seq<DirectoryView>,
)
    ensures
        sweep_over(state, a + b, analysis) == sweep_over(
            sweep_over(state, a, analysis),
            b,
            analysis,
        ),
    decreases b.len(),
{
    if b.len() == 0 {
        assert(a + b == a);
    } else {
        lemma_sweep_over_add(state, a, b.drop_last(), analysis);
        assert((a + b).drop_last() == a + b.drop_last());
        assert((a + b).last() == b.last());
    }
}

/// No directory lies deeper than `deepest`.
pub proof fn lemma_deepest(analysis: Seq<DirectoryView>)
    ensures
        forall|k: int| 0 <= k < analysis.len() ==> depth_of((#[trigger] analysis[k]).directory)
            <= deepest(analysis),
    decreases analysis.len(),
{
    if analysis.len() > 0 {
        lemma_deepest(analysis.drop_last());
        assert forall|k: int| 0 <= k < analysis.len() implies depth_of(
            (#[trigger] analysis[k]).directory,
        ) <= deepest(analysis) by {
            if k < analysis.len() - 1 {
                assert(analysis.drop_last()[k] == analysis[k]);
            }
        }
    }
}

/// The names of the directories of `analysis`, in order.
pub open spec fn directory_names(analysis: Seq<DirectoryView>) -> Seq<Seq<char>> {
    analysis.map_values(|d: DirectoryView| d.directory)
}

/// What the folding has dealt with so far, as the flags of the directories.
pub open spec fn flags_match(flags: Seq<bool>, state: Sweep, analysis: Seq<DirectoryView>) -> bool {
    &&& flags.len() == analysis.len()
    &&& forall|j: int|
        0 <= j < analysis.len() ==> (#[trigger] flags[j] <==> state.processed.contains(
            analysis[j].directory,
        ))
    &&& forall|o: Seq<char>|
        state.processed.contains(o) ==> directory_names(analysis).contains(o)
}

/// One step of the folding, for the directory at `i`.
fn fold_directory(
    analysis: &Vec<DirectoryMissingFiles>,
    names: &Vec<Vec<char>>,
    dirs: &OrderedPathSet,
    i: usize,
    shown: &mut Vec<String>,
    processed: &mut Vec<bool>,
    Ghost(state): Ghost<Sweep>,
) -> (next: Ghost<Sweep>)
    requires
        i < analysis.len(),
        char_texts(names@) == directory_names(directory_views(analysis@)),
        dirs@ == directory_names(directory_views(analysis@)),
        dirs@.no_duplicates(),
        flags_match(old(processed)@, state, directory_views(analysis@)),
        texts(old(shown)@) == state.shown,
    ensures
        next@ == sweep_step(state, analysis[i as int]@, directory_views(analysis@)),
        flags_match(final(processed)@, next@, directory_views(analysis@)),
        texts(final(shown)@) == next@.shown,
{
    let ghost views = directory_views(analysis@);
    let ghost all = directory_names(views);
    let ghost d = analysis[i as int]@;
    assert(views[i as int] == d);
    assert(all[i as int] == d.directory);
    assert(names.len() == analysis.len()) by {
        assert(char_texts(names@).len() == all.len());
    }
    if processed[i] {
        return Ghost(state);
    }
    if !analysis[i].is_complete_directory {
        return Ghost(state);
    }
    match parent_dir(analysis[i].directory.as_str()) {
        Some(p) => {
            match dirs.position(p.as_str()) {
                Some(j) => {
                    assert(all[j as int] == views[j as int].directory);
                    if processed[j] {
                        return Ghost(state);
                    }
                },
                None => {
                    assert(!state.processed.contains(p@));
                },
            }
        },
        None => {},
    }
    let ghost next = sweep_step(state, d, views);
    let ghost old_flags = processed@;
    assert(names.len() == analysis.len()) by {
        assert(char_texts(names@).len() == all.len());
    }
    let ghost old_shown = texts(shown@);
    shown.push(analysis[i].directory.clone());
    assert(texts(shown@) =~= old_shown.push(d.directory));
    processed[i] = true;
    let mut o: usize = 0;
    while o < analysis.len()
        invariant
            o <= analysis.len(),
            i < analysis.len(),
            processed.len() == analysis.len(),
            old_flags.len() == analysis.len(),
            names.len() == analysis.len(),
            views == directory_views(analysis@),
            all == directory_names(views),
            d == analysis[i as int]@,
            char_texts(names@) == all,
            forall|j: int|
                0 <= j < o ==> (#[trigger] processed[j] <==> old_flags[j] || j == i || lies_below(
                    all[j],
                    d.directory,
                )),
            forall|j: int|
                o <= j < analysis.len() ==> (#[trigger] processed[j] <==> old_flags[j] || j == i),
        decreases analysis.len() - o,
    {
        let other = &names[o];
        let dir = &names[i];
        assert(char_texts(names@)[o as int] == other@);
        assert(char_texts(names@)[i as int] == dir@);
        assert(all[i as int] == d.directory);
        assert(other@.subrange(0, other@.len() as int) == other@);
        if other.len() != dir.len() && range_starts_with(other, 0, other.len(), dir) {
            processed[o] = true;
        } else {
            proof {
                if lies_below(other@, dir@) {
                    assert(other@.len() == dir@.len());
                    assert(other@ =~= other@.subrange(0, dir@.len() as int));
                }
            }
        }
        o += 1;
    }
    proof {
        assert forall|j: int| 0 <= j < views.len() implies (#[trigger] processed@[j]
            <==> next.processed.contains(views[j].directory)) by {
            assert(old_flags[j] <==> state.processed.contains(views[j].directory));
            assert(all[j] == views[j].directory);
            if j != i && views[j].directory == d.directory {
                assert(dirs@[j] == dirs@[i as int]);
            }
            if lies_below(all[j], d.directory) {
                assert(directories_below(views, d.directory).contains(all[j]));
            }
        }
        assert forall|x: Seq<char>| next.processed.contains(x) implies all.contains(x) by {
            if x == d.directory {
                assert(all[i as int] == x);
            } else if directories_below(views, d.directory).contains(x) {
                let k = choose|k: int| 0 <= k < views.len() && (#[trigger] views[k]).directory == x;
                assert(all[k] == x);
            }
        }
    }
    Ghost(next)
}

/// Folds the directories of `analysis`, whose names are `dirs`.
fn fold(analysis: &Vec<DirectoryMissingFiles>, dirs: &OrderedPathSet) -> (r: (
    Vec<String>,
    Vec<bool>,
))
    requires
        dirs@ == directory_names(directory_views(analysis@)),
    ensures
        texts(r.0@) == sweep_of(directory_views(analysis@)).shown,
        flags_match(r.1@, sweep_of(directory_views(analysis@)), directory_views(analysis@)),
{
    let ghost views = directory_views(analysis@);
    let ghost all = directory_names(views);
    let n = analysis.len();
    let count = dirs.len();
    let mut names: Vec<Vec<char>> = Vec::new();
    let mut depths: Vec<usize> = Vec::new();
    let mut processed: Vec<bool> = Vec::new();
    let mut top: usize = 0;
    let mut i: usize = 0;
    assert(char_texts(names@) =~= all.take(0));
    while i < n
        invariant
            i <= n,
            n == analysis.len(),
            views == directory_views(analysis@),
            all == directory_names(views),
            depths.len() == i,
            processed.len() == i,
            top == deepest(views.take(i as int)),
            char_texts(names@) == all.take(i as int),
            forall|j: int| 0 <= j < i ==> #[trigger] depths[j] == depth_of(all[j]),
            forall|j: int| 0 <= j < i ==> !#[trigger] processed[j],
        decreases n - i,
    {
        let name = chars_of(analysis[i].directory.as_str());
        let level = depth(analysis[i].directory.as_str());
        let ghost old_names = char_texts(names@);
        proof {
            assert(views.take(i + 1).drop_last() == views.take(i as int));
            assert(views.take(i + 1).last() == analysis[i as int]@);
            assert(views[i as int] == analysis[i as int]@);
            assert(all[i as int] == analysis[i as int].directory@);
        }
        if level > top {
            top = level;
        }
        names.push(name);
        depths.push(level);
        processed.push(false);
        proof {
            assert(char_texts(names@) =~= old_names.push(all[i as int]));
            assert(all.take(i + 1) =~= all.take(i as int).push(all[i as int]));
        }
        i += 1;
    }
    proof {
        assert(views.take(n as int) == views);
        assert(all.take(n as int) == all);
    }
    let mut shown: Vec<String> = Vec::new();
    let ghost start = Sweep { shown: Seq::empty(), processed: Set::empty() };
    let ghost mut state = start;
    assert(texts(shown@) =~= state.shown);
    let mut level: usize = top;
    let mut finished = false;
    proof {
        assert(levels_from(views, top as nat, (top + 1) as nat) =~= Seq::<DirectoryView>::empty());
        assert(flags_match(processed@, state, views));
    }
    while !finished
        invariant
            n == analysis.len(),
            views == directory_views(analysis@),
            all == directory_names(views),
            depths.len() == n,
            level <= top,
            top == deepest(views),
            start == (Sweep { shown: Seq::empty(), processed: Set::empty() }),
            char_texts(names@) == all,
            dirs@ == all,
            all.no_duplicates(),
            forall|j: int| 0 <= j < n ==> #[trigger] depths[j] == depth_of(all[j]),
            flags_match(processed@, state, views),
            texts(shown@) == state.shown,
            !finished ==> state == sweep_over(
                start,
                levels_from(views, top as nat, (level + 1) as nat),
                views,
            ),
            finished ==> state == sweep_of(views),
        decreases level + if finished { 0int } else { 1int },
    {
        let ghost at_start = state;
        let ghost here = |d: DirectoryView| depth_of(d.directory) == level as nat;
        proof {
            lemma_filter_empty(views.take(0), here);
        }
        let mut k: usize = 0;
        while k < n
            invariant
                k <= n,
                n == analysis.len(),
                views == directory_views(analysis@),
                all == directory_names(views),
                depths.len() == n,
                here == |d: DirectoryView| depth_of(d.directory) == level as nat,
                char_texts(names@) == all,
                dirs@ == all,
                all.no_duplicates(),
                forall|j: int| 0 <= j < n ==> #[trigger] depths[j] == depth_of(all[j]),
                flags_match(processed@, state, views),
                texts(shown@) == state.shown,
                state == sweep_over(at_start, views.take(k as int).filter(here), views),
            decreases n - k,
        {
            proof {
                lemma_filter_step(views, here, k as int);
                assert(views[k as int] == analysis[k as int]@);
                assert(all[k as int] == views[k as int].directory);
            }
            if depths[k] == level {
                let ghost before = views.take(k as int).filter(here);
                let next = fold_directory(
                    analysis,
                    &names,
                    dirs,
                    k,
                    &mut shown,
                    &mut processed,
                    Ghost(state),
                );
                proof {
                    assert(before.push(views[k as int]).drop_last() == before);
                    assert(before.push(views[k as int]).last() == views[k as int]);
                    state = next@;
                }
            }
            k += 1;
        }
        proof {
            assert(views.take(n as int) == views);
            assert(views.filter(here) == at_level(views, level as nat));
            lemma_sweep_over_add(
                start,
                levels_from(views, top as nat, (level + 1) as nat),
                at_level(views, level as nat),
                views,
            );
            assert(levels_from(views, top as nat, level as nat) == levels_from(
                views,
                top as nat,
                (level + 1) as nat,
            ) + at_level(views, level as nat));
        }
        if level == 0 {
            finished = true;
        } else {
            level -= 1;
        }
    }
    (shown, processed)
}

/// Folds the directories of `analysis`, from the deepest to the shallowest.
/// Returns the directories shown as a whole, and for each directory whether
/// it is dealt with. The directories of `analysis` differ from each other.
pub fn fold_directories(analysis: &Vec<DirectoryMissingFiles>) -> (r: (Vec<String>, Vec<bool>))
    requires
        directory_names(directory_views(analysis@)).no_duplicates(),
    ensures
        texts(r.0@) == sweep_of(directory_views(analysis@)).shown,
        flags_match(r.1@, sweep_of(directory_views(analysis@)), directory_views(analysis@)),
{
    let ghost all = directory_names(directory_views(analysis@));
    let mut dirs = OrderedPathSet::new();
    let mut j: usize = 0;
    assert(dirs@ =~= all.take(0));
    while j < analysis.len()
        invariant
            j <= analysis.len(),
            all == directory_names(directory_views(analysis@)),
            all.no_duplicates(),
            dirs@ == all.take(j as int),
        decreases analysis.len() - j,
    {
        proof {
            assert(directory_views(analysis@)[j as int] == analysis[j as int]@);
            assert(all[j as int] == analysis[j as int].directory@);
            if all.take(j as int).contains(all[j as int]) {
                let x = choose|x: int| 0 <= x < j && all.take(j as int)[x] == all[j as int];
                assert(all[x] == all[j as int]);
            }
            assert(all.take(j + 1) =~= all.take(j as int).push(all[j as int]));
        }
        let (next, _) = dirs.insert(analysis[j].directory.as_str());
        dirs = next;
        j += 1;
    }
    assert(all.take(analysis.len() as int) == all);
    fold(analysis, &dirs)
}

/// The consolidated report of the missing files: a line `<dir>/*` for each
/// directory in which every expected file is missing and which the folding
/// shows as a whole, and the path of each missing file whose directory is
/// neither complete nor dealt with. The lines are in lexicographic order.
pub fn consolidate_missing_files(missing_files: &[String], expected_files: &[String]) -> (report:
    Vec<String>)
    ensures
        is_sorted(texts(report@)),
        texts(report@).to_multiset() == consolidated_entries(
            texts(missing_files@),
            texts(expected_files@),
        ).to_multiset(),
        texts(report@) == consolidated_report(texts(missing_files@), texts(expected_files@)),
{
    let ghost m = texts(missing_files@);
    let ghost e = texts(expected_files@);
    let ghost views = analysis_of(m, e);
    let ghost all = missing_dirs(m);
    let ghost sweep = sweep_of(views);
    let ghost wild = |d: Seq<char>| wildcard_of(d);
    let ghost alone = |p: Seq<char>| listed_alone(p, m, e);
    let (analysis, dirs) = analyze(missing_files, expected_files);
    proof {
        lemma_missing_dirs(m);
        assert(directory_names(views) =~= all);
    }
    let (shown, processed) = fold(&analysis, &dirs);
    let mut consolidated: Vec<String> = Vec::new();
    let mut s: usize = 0;
    assert(texts(consolidated@) =~= sweep.shown.take(0).map_values(wild));
    while s < shown.len()
        invariant
            s <= shown.len(),
            texts(shown@) == sweep.shown,
            wild == |d: Seq<char>| wildcard_of(d),
            texts(consolidated@) == sweep.shown.take(s as int).map_values(wild),
        decreases shown.len() - s,
    {
        let ghost before = texts(consolidated@);
        assert(texts(shown@)[s as int] == shown[s as int]@);
        let mut line = shown[s].clone();
        line.push('/');
        line.push('*');
        assert(line@ =~= wildcard_of(shown[s as int]@));
        consolidated.push(line);
        proof {
            assert(texts(consolidated@) =~= before.push(wildcard_of(sweep.shown[s as int])));
            assert(sweep.shown.take(s + 1).map_values(wild) =~= sweep.shown.take(
                s as int,
            ).map_values(wild).push(wildcard_of(sweep.shown[s as int])));
        }
        s += 1;
    }
    assert(sweep.shown.take(shown.len() as int) == sweep.shown);
    let ghost lines = sweep.shown.map_values(wild);

    let mut i: usize = 0;
    proof {
        lemma_filter_empty(m.take(0), alone);
        assert(texts(consolidated@) =~= lines + m.take(0).filter(alone));
    }
    while i < missing_files.len()
        invariant
            i <= missing_files.len(),
            m == texts(missing_files@),
            views == analysis_of(m, e),
            directory_views(analysis@) == views,
            directory_names(views) == all,
            all == missing_dirs(m),
            dirs@ == all,
            sweep == sweep_of(views),
            flags_match(processed@, sweep, views),
            alone == |p: Seq<char>| listed_alone(p, m, e),
            texts(consolidated@) == lines + m.take(i as int).filter(alone),
        decreases missing_files.len() - i,
    {
        let file = &missing_files[i];
        let ghost before = texts(consolidated@);
        proof {
            lemma_filter_step(m, alone, i as int);
            assert(m[i as int] == file@);
            lemma_missing_dirs(m);
        }
        let keep = match parent_dir(file.as_str()) {
            Some(d) => match dirs.position(d.as_str()) {
                Some(k) => {
                    proof {
                        assert(views[k as int] == analysis[k as int]@);
                        assert(all[k as int] == views[k as int].directory);
                        assert(views[k as int] == summary_of(m, e, all[k as int]));
                    }
                    !processed[k] && !analysis[k].is_complete_directory
                },
                None => {
                    proof {
                        assert(in_dir(m[i as int], d@));
                        assert(all.contains(d@));
                    }
                    false
                },
            },
            None => false,
        };
        if keep {
            consolidated.push(file.clone());
            proof {
                assert(texts(consolidated@) =~= before.push(file@));
                assert(lines + m.take(i as int).filter(alone).push(file@) =~= (lines + m.take(
                    i as int,
                ).filter(alone)).push(file@));
            }
        }
        i += 1;
    }
    assert(m.take(missing_files.len() as int) == m);
    let report = sort_texts(consolidated);
    proof {
        let leq = |a: Seq<char>, b: Seq<char>| lex_le(a, b);
        lemma_lex_le_total_ordering();
        consolidated_entries(m, e).lemma_sort_by_ensures(leq);
        lemma_sorted_unique(texts(report@), consolidated_report(m, e), leq);
    }
    report
}

impl VerificationResult {
    /// The consolidated report of the missing files of this result.
    pub fn get_consolidated_missing_files(&self) -> (report: Vec<String>)
        ensures
            texts(report@) == consolidated_report(self.missing(), self.expected()),
    {
        consolidate_missing_files(
            self.missing_files.as_slice(),
            self.all_expected_files.as_slice(),
        )
    }
}

} // verus!
