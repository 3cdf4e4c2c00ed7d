//! What a consolidated report stands for.
//!
//! A line `<dir>/*` stands for every expected file that lies directly in
//! `dir`; any other line stands for the file it names. Read like this, a
//! report names each missing file once and no other file, as long as the
//! folding drops no directory.
//!
//! The folding drops a directory where its name continues the name of a
//! directory shown as a whole, be it a directory below that one or one
//! beside it, as `/d/sub2` beside `/d/sub`. With a line `<dir>/*` read as
//! every file in a directory whose name begins with `dir`, no missing file
//! is dropped, whatever the input: each is listed by a line of its own or
//! stands below a directory shown, and never both.

use vstd::prelude::*;
use vstd::seq_lib::seq_to_set_is_finite;
use vstd::set_lib::lemma_subset_equality;
use crate::consolidate::{
    analysis_of, at_level, deepest, directories_below, files_in, in_dir, is_complete,
    lemma_deepest, lemma_missing_dirs, levels_from, listed_alone, missing_dirs, passed_over,
    processing_order, summary_of, sweep_of, sweep_over, sweep_step, DirectoryView, Sweep,
};
use crate::lists::{lemma_unique, unique};
use crate::paths::{depth_of, lemma_last_separator, parent_of};
use crate::seq_lemmas::{lemma_filter_members, lemma_filter_no_duplicates};

verus! {

/// Whether the report stands for `file` through a directory shown as a
/// whole: `file` is expected, and the directory that holds it is shown.
pub open spec fn shown_as_whole(
    file: Seq<char>,
    missing: Seq<Seq<char>>,
    expected: Seq<Seq<char>>,
) -> bool {
    expected.contains(file) && match parent_of(file) {
        Some(d) => sweep_of(analysis_of(missing, expected)).shown.contains(d),
        None => false,
    }
}

/// Whether the report stands for `file`, through its directory or by a line
/// of its own.
pub open spec fn reported(
    file: Seq<char>,
    missing: Seq<Seq<char>>,
    expected: Seq<Seq<char>>,
) -> bool {
    shown_as_whole(file, missing, expected) || (missing.contains(file) && listed_alone(
        file,
        missing,
        expected,
    ))
}

/// Whether the folding drops no directory: each directory that holds a
/// missing file is shown as a whole or has its files listed.
pub open spec fn every_directory_reported(
    missing: Seq<Seq<char>>,
    expected: Seq<Seq<char>>,
) -> bool {
    let sweep = sweep_of(analysis_of(missing, expected));
    forall|d: Seq<char>| #[trigger]
        missing_dirs(missing).contains(d) ==> sweep.shown.contains(d) || (
        !sweep.processed.contains(d) && !is_complete(missing, expected, d))
}

/// Whether no directory of a missing file has a name that continues the
/// name of a directory in which every expected file is missing.
pub open spec fn no_directory_below_complete(
    missing: Seq<Seq<char>>,
    expected: Seq<Seq<char>>,
) -> bool {
    forall|d: Seq<char>, c: Seq<char>|
        #![trigger missing_dirs(missing).contains(d), missing_dirs(missing).contains(c)]
        missing_dirs(missing).contains(d) && missing_dirs(missing).contains(c) && d != c
            && is_complete(missing, expected, c) ==> !c.is_prefix_of(d)
}

/// What holds of a folding at every step: no directory is shown twice, and
/// each directory shown is dealt with, is one of `analysis`, and has every
/// expected file missing.
pub open spec fn sweep_sound(state: Sweep, analysis: Seq<DirectoryView>) -> bool {
    &&& state.shown.no_duplicates()
    &&& forall|d: Seq<char>| #[trigger]
        state.shown.contains(d) ==> state.processed.contains(d) && exists|k: int|
            0 <= k < analysis.len() && (#[trigger] analysis[k]).directory == d
                && analysis[k].is_complete_directory
}

proof fn lemma_sweep_step_sound(state: Sweep, d: DirectoryView, analysis: Seq<DirectoryView>)
    requires
        sweep_sound(state, analysis),
        analysis.contains(d),
    ensures
        sweep_sound(sweep_step(state, d, analysis), analysis),
{
    let next = sweep_step(state, d, analysis);
    if !passed_over(state, d) {
        let k0 = choose|k: int| 0 <= k < analysis.len() && analysis[k] == d;
        assert forall|x: Seq<char>| #[trigger] next.shown.contains(x) implies next.processed.contains(
            x,
        ) && exists|k: int|
            0 <= k < analysis.len() && (#[trigger] analysis[k]).directory == x
                && analysis[k].is_complete_directory by {
            let j = choose|j: int| 0 <= j < next.shown.len() && next.shown[j] == x;
            if j < state.shown.len() {
                assert(state.shown[j] == x);
                assert(state.shown.contains(x));
            } else {
                assert(analysis[k0].directory == x);
            }
        }
        assert forall|i: int, j: int|
            0 <= i < next.shown.len() && 0 <= j < next.shown.len() && i != j implies next.shown[i]
            != next.shown[j] by {
            if i == state.shown.len() {
                if state.shown[j] == d.directory {
                    assert(state.shown.contains(d.directory));
                }
            } else if j == state.shown.len() {
                if state.shown[i] == d.directory {
                    assert(state.shown.contains(d.directory));
                }
            }
        }
    }
}

proof fn lemma_sweep_over_sound(
    state: Sweep,
    order: Seq<DirectoryView>,
    analysis: Seq<DirectoryView>,
)
    requires
        sweep_sound(state, analysis),
        forall|i: int| 0 <= i < order.len() ==> analysis.contains(#[trigger] order[i]),
    ensures
        sweep_sound(sweep_over(state, order, analysis), analysis),
    decreases order.len(),
{
    if order.len() > 0 {
        let rest = order.drop_last();
        assert forall|i: int| 0 <= i < rest.len() implies analysis.contains(#[trigger] rest[i]) by {
            assert(rest[i] == order[i]);
        }
        lemma_sweep_over_sound(state, rest, analysis);
        assert(analysis.contains(order[order.len() - 1]));
        lemma_sweep_step_sound(sweep_over(state, rest, analysis), order.last(), analysis);
    }
}

proof fn lemma_levels_members(analysis: Seq<DirectoryView>, top: nat, k: nat)
    ensures
        forall|i: int|
            0 <= i < levels_from(analysis, top, k).len() ==> analysis.contains(
                #[trigger] levels_from(analysis, top, k)[i],
            ),
    decreases top + 1 - k,
{
    if k <= top {
        lemma_levels_members(analysis, top, k + 1);
        let upper = levels_from(analysis, top, k + 1);
        let here = at_level(analysis, k);
        lemma_filter_members(analysis, |d: DirectoryView| depth_of(d.directory) == k);
        assert forall|i: int| 0 <= i < (upper + here).len() implies analysis.contains(
            #[trigger] (upper + here)[i],
        ) by {
            if i >= upper.len() {
                assert(here.contains(here[i - upper.len()]));
            } else {
                assert((upper + here)[i] == upper[i]);
            }
        }
    }
}

/// The folding of all directories is sound.
pub proof fn lemma_sweep_of_sound(analysis: Seq<DirectoryView>)
    ensures
        sweep_sound(sweep_of(analysis), analysis),
{
    lemma_levels_members(analysis, deepest(analysis), 0);
    lemma_sweep_over_sound(
        Sweep { shown: Seq::empty(), processed: Set::empty() },
        processing_order(analysis),
        analysis,
    );
}

/// In a directory in which every expected file is missing, each expected
/// file is missing.
pub proof fn lemma_complete_directory(
    missing: Seq<Seq<char>>,
    expected: Seq<Seq<char>>,
    dir: Seq<char>,
    file: Seq<char>,
)
    requires
        missing.no_duplicates(),
        forall|x: Seq<char>| missing.contains(x) ==> expected.contains(x),
        is_complete(missing, expected, dir),
        expected.contains(file),
        in_dir(file, dir),
    ensures
        missing.contains(file),
{
    let here = |p: Seq<char>| in_dir(p, dir);
    let a = files_in(missing, dir);
    let b = files_in(unique(expected), dir);
    lemma_unique(expected);
    lemma_filter_no_duplicates(missing, here);
    lemma_filter_no_duplicates(unique(expected), here);
    lemma_filter_members(missing, here);
    lemma_filter_members(unique(expected), here);
    a.unique_seq_to_set();
    b.unique_seq_to_set();
    seq_to_set_is_finite(a);
    seq_to_set_is_finite(b);
    assert forall|x: Seq<char>| a.to_set().contains(x) implies b.to_set().contains(x) by {
        assert(a.contains(x));
        assert(missing.contains(x) && here(x));
        assert(unique(expected).contains(x));
        assert(b.contains(x));
    }
    lemma_subset_equality(a.to_set(), b.to_set());
    assert(unique(expected).contains(file));
    assert(here(file));
    assert(b.contains(file));
    assert(b.to_set().contains(file));
    assert(a.to_set().contains(file));
    assert(a.contains(file));
}

/// Every file expected in a directory is missing exactly where the
/// directory counts as complete: some file is expected in it, and each file
/// expected in it is missing. The missing files are taken to be expected
/// files, each named once.
pub proof fn lemma_complete_means_all_missing(
    missing: Seq<Seq<char>>,
    expected: Seq<Seq<char>>,
    dir: Seq<char>,
)
    requires
        missing.no_duplicates(),
        forall|x: Seq<char>| missing.contains(x) ==> expected.contains(x),
    ensures
        is_complete(missing, expected, dir) <==> (exists|f: Seq<char>|
            expected.contains(f) && #[trigger] in_dir(f, dir)) && (forall|f: Seq<char>|
            expected.contains(f) && #[trigger] in_dir(f, dir) ==> missing.contains(f)),
{
    let here = |p: Seq<char>| in_dir(p, dir);
    let a = files_in(missing, dir);
    let b = files_in(unique(expected), dir);
    lemma_unique(expected);
    lemma_filter_no_duplicates(missing, here);
    lemma_filter_no_duplicates(unique(expected), here);
    lemma_filter_members(missing, here);
    lemma_filter_members(unique(expected), here);
    a.unique_seq_to_set();
    b.unique_seq_to_set();
    seq_to_set_is_finite(a);
    seq_to_set_is_finite(b);
    if is_complete(missing, expected, dir) {
        assert(b.len() > 0);
        assert(b.contains(b[0]));
        assert(unique(expected).contains(b[0]) && here(b[0]));
        assert(expected.contains(b[0]) && in_dir(b[0], dir));
        assert forall|f: Seq<char>| expected.contains(f) && #[trigger] in_dir(
            f,
            dir,
        ) implies missing.contains(f) by {
            lemma_complete_directory(missing, expected, dir, f);
        }
    }
    if (exists|f: Seq<char>| expected.contains(f) && #[trigger] in_dir(f, dir)) && (forall|
        f: Seq<char>,
    |
        expected.contains(f) && #[trigger] in_dir(f, dir) ==> missing.contains(f)) {
        let f0 = choose|f: Seq<char>| expected.contains(f) && #[trigger] in_dir(f, dir);
        assert(unique(expected).contains(f0));
        assert(here(f0));
        assert(b.contains(f0));
        assert forall|x: Seq<char>| a.to_set().contains(x) <==> b.to_set().contains(x) by {
            if a.contains(x) {
                assert(missing.contains(x) && here(x));
                assert(unique(expected).contains(x));
                assert(b.contains(x));
            }
            if b.contains(x) {
                assert(unique(expected).contains(x) && here(x));
                assert(expected.contains(x) && in_dir(x, dir));
                assert(missing.contains(x));
                assert(a.contains(x));
            }
        }
        assert(a.to_set() =~= b.to_set());
    }
}

/// A consolidated report stands for exactly the missing files, and for none
/// of them twice, wherever the folding drops no directory: a file is
/// reported if and only if it is missing; no directory is shown twice; no
/// file is listed twice; and no file is reported both through its directory
/// and by a line of its own. The missing files are taken to be expected
/// files, each named once and each lying in a directory.
pub proof fn lemma_consolidation_covers_missing(missing: Seq<Seq<char>>, expected: Seq<Seq<char>>)
    requires
        missing.no_duplicates(),
        forall|f: Seq<char>| missing.contains(f) ==> expected.contains(f),
        forall|f: Seq<char>| missing.contains(f) ==> parent_of(f) is Some,
        every_directory_reported(missing, expected),
    ensures
        forall|f: Seq<char>| #[trigger] reported(f, missing, expected) <==> missing.contains(f),
        sweep_of(analysis_of(missing, expected)).shown.no_duplicates(),
        missing.filter(|p: Seq<char>| listed_alone(p, missing, expected)).no_duplicates(),
        forall|f: Seq<char>|
            !(#[trigger] shown_as_whole(f, missing, expected) && listed_alone(
                f,
                missing,
                expected,
            )),
{
    let analysis = analysis_of(missing, expected);
    let sweep = sweep_of(analysis);
    lemma_sweep_of_sound(analysis);
    lemma_missing_dirs(missing);
    lemma_filter_no_duplicates(missing, |p: Seq<char>| listed_alone(p, missing, expected));
    assert forall|f: Seq<char>| #[trigger] reported(f, missing, expected) <==> missing.contains(
        f,
    ) by {
        if shown_as_whole(f, missing, expected) {
            let d = parent_of(f)->0;
            assert(sweep.shown.contains(d));
            let k = choose|k: int|
                0 <= k < analysis.len() && (#[trigger] analysis[k]).directory == d
                    && analysis[k].is_complete_directory;
            assert(analysis[k] == summary_of(missing, expected, missing_dirs(missing)[k]));
            lemma_complete_directory(missing, expected, d, f);
        }
        if missing.contains(f) {
            let d = parent_of(f)->0;
            let k = choose|k: int| 0 <= k < missing.len() && missing[k] == f;
            assert(in_dir(missing[k], d));
            assert(missing_dirs(missing).contains(d));
        }
    }
    assert forall|f: Seq<char>|
        !(#[trigger] shown_as_whole(f, missing, expected) && listed_alone(
            f,
            missing,
            expected,
        )) by {
        if shown_as_whole(f, missing, expected) {
            let d = parent_of(f)->0;
            assert(sweep.shown.contains(d));
        }
    }
}


/// The directory that holds a path is a prefix of the path, and not the
/// path itself.
pub proof fn lemma_parent_is_prefix(path: Seq<char>)
    requires
        parent_of(path) is Some,
    ensures
        parent_of(path)->0.is_prefix_of(path),
        parent_of(path)->0 != path,
{
    lemma_last_separator(path);
    let p = parent_of(path)->0;
    assert(p.len() < path.len());
    assert(p =~= path.subrange(0, p.len() as int));
}

/// What holds of a folding in which no directory is dealt with on account
/// of another: the directories dealt with are the directories shown, and
/// each of `done` in which every expected file is missing is shown.
spec fn sweep_plain(state: Sweep, done: Seq<DirectoryView>) -> bool {
    &&& forall|d: Seq<char>| state.processed.contains(d) <==> state.shown.contains(d)
    &&& forall|i: int|
        0 <= i < done.len() && (#[trigger] done[i]).is_complete_directory ==> state.shown.contains(
            done[i].directory,
        )
}

proof fn lemma_sweep_over_plain(
    missing: Seq<Seq<char>>,
    expected: Seq<Seq<char>>,
    order: Seq<DirectoryView>,
)
    requires
        no_directory_below_complete(missing, expected),
        forall|i: int|
            0 <= i < order.len() ==> analysis_of(missing, expected).contains(#[trigger] order[i]),
    ensures
        sweep_plain(
            sweep_over(
                Sweep { shown: Seq::empty(), processed: Set::empty() },
                order,
                analysis_of(missing, expected),
            ),
            order,
        ),
        sweep_sound(
            sweep_over(
                Sweep { shown: Seq::empty(), processed: Set::empty() },
                order,
                analysis_of(missing, expected),
            ),
            analysis_of(missing, expected),
        ),
    decreases order.len(),
{
    let analysis = analysis_of(missing, expected);
    let dirs = missing_dirs(missing);
    let start = Sweep { shown: Seq::empty(), processed: Set::empty() };
    if order.len() > 0 {
        let rest = order.drop_last();
        let d = order.last();
        assert forall|i: int| 0 <= i < rest.len() implies analysis.contains(#[trigger] rest[i]) by {
            assert(rest[i] == order[i]);
        }
        lemma_sweep_over_plain(missing, expected, rest);
        let before = sweep_over(start, rest, analysis);
        let after = sweep_step(before, d, analysis);
        assert(analysis.contains(order[order.len() - 1]));
        lemma_sweep_step_sound(before, d, analysis);
        let k = choose|k: int| 0 <= k < analysis.len() && analysis[k] == d;
        assert(d == summary_of(missing, expected, dirs[k]));
        assert(dirs.contains(d.directory));
        if passed_over(before, d) {
            if d.is_complete_directory && !before.processed.contains(d.directory) {
                let p = parent_of(d.directory)->0;
                assert(before.shown.contains(p));
                let j = choose|j: int|
                    0 <= j < analysis.len() && (#[trigger] analysis[j]).directory == p
                        && analysis[j].is_complete_directory;
                assert(analysis[j] == summary_of(missing, expected, dirs[j]));
                assert(dirs.contains(p));
                lemma_parent_is_prefix(d.directory);
                assert(false);
            }
        } else {
            assert forall|o: Seq<char>| !directories_below(analysis, d.directory).contains(o) by {
                if directories_below(analysis, d.directory).contains(o) {
                    let j = choose|j: int|
                        0 <= j < analysis.len() && (#[trigger] analysis[j]).directory == o;
                    assert(analysis[j] == summary_of(missing, expected, dirs[j]));
                    assert(dirs.contains(o));
                    assert(false);
                }
            }
            assert forall|x: Seq<char>| after.processed.contains(x) <==> after.shown.contains(
                x,
            ) by {
                if after.shown.contains(x) {
                    let j = choose|j: int| 0 <= j < after.shown.len() && after.shown[j] == x;
                    if j < before.shown.len() {
                        assert(before.shown[j] == x);
                        assert(before.shown.contains(x));
                    }
                }
                if after.processed.contains(x) {
                    if x == d.directory {
                        assert(after.shown[before.shown.len() as int] == x);
                    } else {
                        assert(before.processed.contains(x));
                        assert(before.shown.contains(x));
                        let j = choose|j: int| 0 <= j < before.shown.len() && before.shown[j] == x;
                        assert(after.shown[j] == x);
                    }
                }
            }
        }
        assert forall|i: int|
            0 <= i < order.len() && (#[trigger] order[i]).is_complete_directory implies after.shown.contains(
            order[i].directory,
        ) by {
            if i < rest.len() {
                assert(rest[i] == order[i]);
                assert(before.shown.contains(order[i].directory));
                let j = choose|j: int|
                    0 <= j < before.shown.len() && before.shown[j] == order[i].directory;
                assert(after.shown[j] == order[i].directory);
            } else if passed_over(before, d) {
                assert(before.processed.contains(d.directory));
            } else {
                assert(after.shown[before.shown.len() as int] == d.directory);
            }
        }
    }
}

/// Each directory is taken at the level of its depth.
proof fn lemma_levels_hold_all(analysis: Seq<DirectoryView>, top: nat, k: nat, x: DirectoryView)
    requires
        analysis.contains(x),
        k <= depth_of(x.directory) <= top,
    ensures
        levels_from(analysis, top, k).contains(x),
    decreases top + 1 - k,
{
    let upper = levels_from(analysis, top, k + 1);
    let here = at_level(analysis, k);
    if depth_of(x.directory) == k {
        lemma_filter_members(analysis, |d: DirectoryView| depth_of(d.directory) == k);
        assert(here.contains(x));
        let j = choose|j: int| 0 <= j < here.len() && here[j] == x;
        assert((upper + here)[upper.len() + j] == x);
    } else {
        lemma_levels_hold_all(analysis, top, k + 1, x);
        let j = choose|j: int| 0 <= j < upper.len() && upper[j] == x;
        assert((upper + here)[j] == x);
    }
}

/// Where no directory of a missing file has a name that continues the name
/// of a directory in which every expected file is missing, the folding
/// drops no directory.
pub proof fn lemma_plain_directories_are_reported(
    missing: Seq<Seq<char>>,
    expected: Seq<Seq<char>>,
)
    requires
        no_directory_below_complete(missing, expected),
    ensures
        every_directory_reported(missing, expected),
{
    let analysis = analysis_of(missing, expected);
    let dirs = missing_dirs(missing);
    let order = processing_order(analysis);
    let sweep = sweep_of(analysis);
    lemma_levels_members(analysis, deepest(analysis), 0);
    lemma_sweep_over_plain(missing, expected, order);
    lemma_deepest(analysis);
    assert forall|d: Seq<char>| #[trigger] dirs.contains(d) implies sweep.shown.contains(d) || (
    !sweep.processed.contains(d) && !is_complete(missing, expected, d)) by {
        let k = choose|k: int| 0 <= k < dirs.len() && dirs[k] == d;
        let x = analysis[k];
        assert(x == summary_of(missing, expected, d));
        assert(analysis.contains(x));
        lemma_levels_hold_all(analysis, deepest(analysis), 0, x);
        let i = choose|i: int| 0 <= i < order.len() && order[i] == x;
        if x.is_complete_directory {
            assert(sweep.shown.contains(order[i].directory));
        } else if sweep.processed.contains(d) {
            assert(sweep.shown.contains(d));
            let j = choose|j: int|
                0 <= j < analysis.len() && (#[trigger] analysis[j]).directory == d
                    && analysis[j].is_complete_directory;
            assert(analysis[j] == summary_of(missing, expected, dirs[j]));
        }
    }
}

/// A consolidated report stands for exactly the missing files, and for none
/// of them twice, where no directory of a missing file has a name that
/// continues the name of a directory in which every expected file is
/// missing.
pub proof fn lemma_consolidation_of_plain_directories(
    missing: Seq<Seq<char>>,
    expected: Seq<Seq<char>>,
)
    requires
        missing.no_duplicates(),
        forall|f: Seq<char>| missing.contains(f) ==> expected.contains(f),
        forall|f: Seq<char>| missing.contains(f) ==> parent_of(f) is Some,
        no_directory_below_complete(missing, expected),
    ensures
        forall|f: Seq<char>| #[trigger] reported(f, missing, expected) <==> missing.contains(f),
        sweep_of(analysis_of(missing, expected)).shown.no_duplicates(),
        missing.filter(|p: Seq<char>| listed_alone(p, missing, expected)).no_duplicates(),
        forall|f: Seq<char>|
            !(#[trigger] shown_as_whole(f, missing, expected) && listed_alone(
                f,
                missing,
                expected,
            )),
{
    lemma_plain_directories_are_reported(missing, expected);
    lemma_consolidation_covers_missing(missing, expected);
}

/// Whether the report stands for `file` through a directory shown as a
/// whole, when a line `<dir>/*` is read as every file in a directory whose
/// name begins with `dir`.
pub open spec fn shown_from_above(
    file: Seq<char>,
    missing: Seq<Seq<char>>,
    expected: Seq<Seq<char>>,
) -> bool {
    match parent_of(file) {
        Some(d) => exists|s: Seq<char>| #[trigger]
            sweep_of(analysis_of(missing, expected)).shown.contains(s) && s.is_prefix_of(d),
        None => false,
    }
}

/// What holds of a folding at every step: the name of each directory dealt
/// with begins with the name of a directory shown, and each directory of
/// `analysis` whose name begins with the name of a directory shown is dealt
/// with.
spec fn sweep_covering(state: Sweep, analysis: Seq<DirectoryView>) -> bool {
    &&& forall|d: Seq<char>| #[trigger]
        state.processed.contains(d) ==> exists|s: Seq<char>| #[trigger]
            state.shown.contains(s) && s.is_prefix_of(d)
    &&& forall|s: Seq<char>, k: int|
        #![trigger state.shown.contains(s), analysis[k]]
        state.shown.contains(s) && 0 <= k < analysis.len() && s.is_prefix_of(analysis[k].directory)
            ==> state.processed.contains(analysis[k].directory)
}

/// Whether each directory of `done` is dealt with unless some file expected
/// in it is not missing.
spec fn all_dealt_with(state: Sweep, done: Seq<DirectoryView>) -> bool {
    forall|i: int|
        0 <= i < done.len() ==> state.processed.contains((#[trigger] done[i]).directory)
            || !done[i].is_complete_directory
}

proof fn lemma_sweep_step_covering(state: Sweep, d: DirectoryView, analysis: Seq<DirectoryView>)
    requires
        sweep_covering(state, analysis),
        analysis.contains(d),
    ensures
        sweep_covering(sweep_step(state, d, analysis), analysis),
        forall|x: Seq<char>|
            state.processed.contains(x) ==> sweep_step(state, d, analysis).processed.contains(x),
        sweep_step(state, d, analysis).processed.contains(d.directory) || !d.is_complete_directory,
{
    let next = sweep_step(state, d, analysis);
    let k0 = choose|k: int| 0 <= k < analysis.len() && analysis[k] == d;
    if passed_over(state, d) {
        if d.is_complete_directory && !state.processed.contains(d.directory) {
            let p = parent_of(d.directory)->0;
            lemma_parent_is_prefix(d.directory);
            let s = choose|s: Seq<char>| #[trigger] state.shown.contains(s) && s.is_prefix_of(p);
            assert(s.is_prefix_of(d.directory)) by {
                assert(s =~= d.directory.subrange(0, s.len() as int));
            }
            assert(state.shown.contains(s) && s.is_prefix_of(analysis[k0].directory));
        }
    } else {
        let own = d.directory;
        assert(next.shown.last() == own);
        assert(next.shown.contains(own));
        assert forall|x: Seq<char>| #[trigger] next.processed.contains(x) implies exists|
            s: Seq<char>,
        | #[trigger] next.shown.contains(s) && s.is_prefix_of(x) by {
            if state.processed.contains(x) {
                let s = choose|s: Seq<char>| #[trigger]
                    state.shown.contains(s) && s.is_prefix_of(x);
                let j = choose|j: int| 0 <= j < state.shown.len() && state.shown[j] == s;
                assert(next.shown[j] == s);
                assert(next.shown.contains(s) && s.is_prefix_of(x));
            } else {
                assert(own.is_prefix_of(x)) by {
                    if x == own {
                        assert(own =~= x.subrange(0, own.len() as int));
                    }
                }
                assert(next.shown.contains(own) && own.is_prefix_of(x));
            }
        }
        assert forall|s: Seq<char>, k: int|
            #![trigger next.shown.contains(s), analysis[k]]
            next.shown.contains(s) && 0 <= k < analysis.len() && s.is_prefix_of(
                analysis[k].directory,
            ) implies next.processed.contains(analysis[k].directory) by {
            let j = choose|j: int| 0 <= j < next.shown.len() && next.shown[j] == s;
            if j < state.shown.len() {
                assert(state.shown[j] == s);
                assert(state.shown.contains(s));
            } else {
                let o = analysis[k].directory;
                if o != own {
                    assert(directories_below(analysis, own).contains(o));
                }
            }
        }
    }
}

proof fn lemma_sweep_over_covering(order: Seq<DirectoryView>, analysis: Seq<DirectoryView>)
    requires
        forall|i: int| 0 <= i < order.len() ==> analysis.contains(#[trigger] order[i]),
    ensures
        sweep_covering(
            sweep_over(Sweep { shown: Seq::empty(), processed: Set::empty() }, order, analysis),
            analysis,
        ),
        all_dealt_with(
            sweep_over(Sweep { shown: Seq::empty(), processed: Set::empty() }, order, analysis),
            order,
        ),
    decreases order.len(),
{
    let start = Sweep { shown: Seq::empty(), processed: Set::empty() };
    if order.len() > 0 {
        let rest = order.drop_last();
        assert forall|i: int| 0 <= i < rest.len() implies analysis.contains(#[trigger] rest[i]) by {
            assert(rest[i] == order[i]);
        }
        lemma_sweep_over_covering(rest, analysis);
        assert(analysis.contains(order[order.len() - 1]));
        let before = sweep_over(start, rest, analysis);
        lemma_sweep_step_covering(before, order.last(), analysis);
        let after = sweep_over(start, order, analysis);
        assert forall|i: int| 0 <= i < order.len() implies after.processed.contains(
            (#[trigger] order[i]).directory,
        ) || !order[i].is_complete_directory by {
            if i < rest.len() {
                assert(rest[i] == order[i]);
            }
        }
    }
}

/// A consolidated report drops no missing file and names none twice, when a
/// line `<dir>/*` is read as every file in a directory whose name begins
/// with `dir`: each missing file is listed by a line of its own or stands
/// below a directory shown as a whole, and never both. The missing files are
/// taken to lie in directories.
pub proof fn lemma_consolidation_drops_no_file(missing: Seq<Seq<char>>, expected: Seq<Seq<char>>)
    requires
        forall|f: Seq<char>| missing.contains(f) ==> parent_of(f) is Some,
    ensures
        forall|f: Seq<char>| #[trigger]
            missing.contains(f) ==> (listed_alone(f, missing, expected) <==> !shown_from_above(
                f,
                missing,
                expected,
            )),
{
    let analysis = analysis_of(missing, expected);
    let dirs = missing_dirs(missing);
    let order = processing_order(analysis);
    let sweep = sweep_of(analysis);
    lemma_levels_members(analysis, deepest(analysis), 0);
    lemma_sweep_over_covering(order, analysis);
    lemma_deepest(analysis);
    lemma_missing_dirs(missing);
    assert forall|f: Seq<char>| #[trigger] missing.contains(f) implies (listed_alone(
        f,
        missing,
        expected,
    ) <==> !shown_from_above(f, missing, expected)) by {
        let d = parent_of(f)->0;
        let m = choose|m: int| 0 <= m < missing.len() && missing[m] == f;
        assert(in_dir(missing[m], d));
        assert(dirs.contains(d));
        let k = choose|k: int| 0 <= k < dirs.len() && dirs[k] == d;
        let x = analysis[k];
        assert(x == summary_of(missing, expected, d));
        assert(analysis.contains(x));
        lemma_levels_hold_all(analysis, deepest(analysis), 0, x);
        let i = choose|i: int| 0 <= i < order.len() && order[i] == x;
        assert(sweep.processed.contains(order[i].directory) || !order[i].is_complete_directory);
        if shown_from_above(f, missing, expected) {
            let s = choose|s: Seq<char>| #[trigger] sweep.shown.contains(s) && s.is_prefix_of(d);
            assert(sweep.shown.contains(s) && s.is_prefix_of(analysis[k].directory));
            assert(sweep.processed.contains(d));
        }
        if sweep.processed.contains(d) {
            let s = choose|s: Seq<char>| #[trigger] sweep.shown.contains(s) && s.is_prefix_of(d);
            assert(shown_from_above(f, missing, expected));
        }
    }
}

} // verus!
