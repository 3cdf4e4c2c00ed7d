//! The expansion of input paths into the files beneath them.
//!
//! The library decides; its caller looks at the file system. A
//! `PathProcessor` says what it needs to know next, a directory's listing or
//! what an input path is, and is told the answer. Directories are walked
//! depth first from a stack; a file is taken once, however often it is met,
//! and never when the matcher excludes it.

use vstd::prelude::*;
use crate::error::Result;
use crate::exclusion::{
    excluded_by, exclusion_lines, extract_exclusion_patterns, include_lines, is_excluded,
};
use crate::lists::{lemma_unique, lemma_unique_is_shorter, unique, OrderedPathSet};
use crate::paths::{absolute_of, to_absolute_path};
use crate::pattern::{
    lemma_wildcard_matcher_excludes, pattern_matches, ExclusionMatcher, WildcardMatcher,
};
use crate::text::texts;

verus! {

/// What became of a path that was looked at.
#[derive(Debug, Clone)]
pub enum ProcessingStatus {
    /// The path was taken into the result.
    Added,
    /// The path matches an exclusion pattern.
    Excluded,
    /// The path does not exist or cannot be reached; the text says why.
    Invalid(String),
}

/// What the file system holds at a path.
#[derive(Debug, Clone)]
pub enum PathKind {
    /// A file, or anything else that is no directory.
    File,
    /// A directory.
    Directory,
    /// Nothing that can be reached; the text says why.
    Missing(String),
}

/// One item of a directory's listing.
#[derive(Debug, Clone)]
pub struct ListedPath {
    /// The path of the item.
    pub path: String,
    /// Whether the item is a directory.
    pub is_directory: bool,
}

/// A `ListedPath` with its path as a sequence of characters.
pub struct ListedView {
    pub path: Seq<char>,
    pub is_directory: bool,
}

impl View for ListedPath {
    type V = ListedView;

    open spec fn view(&self) -> ListedView {
        ListedView { path: self.path@, is_directory: self.is_directory }
    }
}

/// The views of a listing, in order.
pub open spec fn listed_views(list: Seq<ListedPath>) -> Seq<ListedView> {
    Seq::new(list.len(), |i: int| list[i]@)
}

/// What a `PathProcessor` asks of its caller next.
#[derive(Debug, Clone)]
pub enum Request {
    /// The listing of this directory.
    ListDirectory(String),
    /// What the file system holds at this input path.
    ProbeInput(String),
    /// Nothing: every input path is dealt with.
    Finished,
}

/// The state of an expansion.
pub struct ProcessorView {
    /// The input paths.
    pub inputs: Seq<Seq<char>>,
    /// The exclusion patterns.
    pub patterns: Seq<Seq<char>>,
    /// How many input paths were asked about.
    pub index: nat,
    /// The directories that are still to be listed; the last one is next.
    pub pending: Seq<Seq<char>>,
    /// The files taken so far, in the order in which they were met.
    pub yielded: Seq<Seq<char>>,
}

/// Expands input paths into files, step by step.
pub struct PathProcessor {
    input_paths: Vec<String>,
    exclusion_patterns: Vec<String>,
    current_index: usize,
    pending: Vec<String>,
    yielded_paths: OrderedPathSet,
}

/// The state after the file `path` was met: it is taken unless it is
/// excluded or was taken before.
pub open spec fn file_met(state: ProcessorView, path: Seq<char>, excluded: bool) -> ProcessorView {
    if excluded || state.yielded.contains(path) {
        state
    } else {
        ProcessorView { yielded: state.yielded.push(path), ..state }
    }
}

/// The state after the input path `absolute` was found to be `kind`. An
/// excluded path changes nothing, whatever it is; a directory is put on the
/// stack; a file is met; a missing path changes nothing.
pub open spec fn input_met(
    state: ProcessorView,
    absolute: Seq<char>,
    kind: PathKind,
    excluded: bool,
) -> ProcessorView {
    if excluded {
        state
    } else {
        match kind {
            PathKind::Missing(_) => state,
            PathKind::Directory => ProcessorView { pending: state.pending.push(absolute), ..state },
            PathKind::File => file_met(state, absolute, false),
        }
    }
}

/// The status that is reported for the input path `absolute`, if one is.
pub open spec fn input_status(
    state: ProcessorView,
    absolute: Seq<char>,
    kind: PathKind,
    excluded: bool,
) -> Option<ProcessingStatus> {
    if excluded {
        Some(ProcessingStatus::Excluded)
    } else {
        match kind {
            PathKind::Missing(reason) => Some(ProcessingStatus::Invalid(reason)),
            PathKind::Directory => None,
            PathKind::File => if state.yielded.contains(absolute) {
                None
            } else {
                Some(ProcessingStatus::Added)
            },
        }
    }
}

/// The state after one item of a listing: a directory is put on the stack,
/// anything else is met as a file.
pub open spec fn listed_met(
    state: ProcessorView,
    item: ListedView,
    excluded: bool,
) -> ProcessorView {
    if item.is_directory {
        ProcessorView { pending: state.pending.push(item.path), ..state }
    } else {
        file_met(state, item.path, excluded)
    }
}

/// The state after the items `listing`, one after the other.
pub open spec fn listing_met<M: ExclusionMatcher>(
    state: ProcessorView,
    listing: Seq<ListedView>,
    matcher: &M,
) -> ProcessorView
    decreases listing.len(),
{
    if listing.len() == 0 {
        state
    } else {
        let before = listing_met(state, listing.drop_last(), matcher);
        listed_met(
            before,
            listing.last(),
            excluded_by(matcher, listing.last().path, state.patterns),
        )
    }
}

/// Whether an expansion in `state` is over.
pub open spec fn is_finished(state: ProcessorView) -> bool {
    state.pending.len() == 0 && state.index >= state.inputs.len()
}

impl View for PathProcessor {
    type V = ProcessorView;

    closed spec fn view(&self) -> ProcessorView {
        ProcessorView {
            inputs: texts(self.input_paths@),
            patterns: texts(self.exclusion_patterns@),
            index: self.current_index as nat,
            pending: texts(self.pending@),
            yielded: self.yielded_paths@,
        }
    }
}

impl PathProcessor {
    /// A processor for `input_paths` that has looked at nothing yet.
    pub fn new(input_paths: Vec<String>, exclusion_patterns: Vec<String>) -> (r: Result<Self>)
        ensures
            r matches Ok(p) && p@ == (ProcessorView {
                inputs: texts(input_paths@),
                patterns: texts(exclusion_patterns@),
                index: 0,
                pending: Seq::empty(),
                yielded: Seq::empty(),
            }),
    {
        let p = PathProcessor {
            input_paths,
            exclusion_patterns,
            current_index: 0,
            pending: Vec::new(),
            yielded_paths: OrderedPathSet::new(),
        };
        assert(p@.pending =~= Seq::<Seq<char>>::empty());
        Ok(p)
    }

    /// The exclusion patterns.
    pub fn exclusion_patterns(&self) -> (r: &[String])
        ensures
            texts(r@) == self@.patterns,
    {
        self.exclusion_patterns.as_slice()
    }

    /// The files taken so far. None of them is taken twice.
    pub fn yielded_paths(&self) -> (r: &[String])
        ensures
            texts(r@) == self@.yielded,
            self@.yielded.no_duplicates(),
    {
        self.yielded_paths.as_slice()
    }

    /// Splits `paths` into the paths to include and the exclusion patterns.
    pub fn extract_exclusion_patterns(paths: &[String]) -> (r: (Vec<String>, Vec<String>))
        ensures
            texts(r.0@) == include_lines(texts(paths@)),
            texts(r.1@) == exclusion_lines(texts(paths@)),
    {
        extract_exclusion_patterns(paths)
    }

    /// `path` resolved against the directory `current_dir`.
    pub fn to_absolute_path(path: &str, current_dir: &str) -> (r: String)
        ensures
            r@ == absolute_of(path@, current_dir@),
    {
        to_absolute_path(path, current_dir)
    }

    /// Whether `matcher` excludes `path` for one of the exclusion patterns.
    pub fn should_exclude<M: ExclusionMatcher>(&self, path: &str, matcher: &M) -> (b: bool)
        ensures
            b == excluded_by(matcher, path@, self@.patterns),
    {
        is_excluded(matcher, path, self.exclusion_patterns.as_slice())
    }

    /// Whether the expansion is over: no directory is left to be listed and
    /// no input path to be asked about.
    pub fn is_finished(&self) -> (b: bool)
        ensures
            b == is_finished(self@),
    {
        self.pending.len() == 0 && self.current_index >= self.input_paths.len()
    }

    /// What the processor needs to know next: the listing of the directory
    /// on top of the stack, or else what the next input path is.
    pub fn next_request(&mut self) -> (request: Request)
        ensures
            match request {
                Request::ListDirectory(dir) => old(self)@.pending.len() > 0 && dir@ == old(
                    self,
                )@.pending.last() && final(self)@ == (ProcessorView {
                    pending: old(self)@.pending.drop_last(),
                    ..old(self)@
                }),
                Request::ProbeInput(path) => old(self)@.pending.len() == 0 && old(self)@.index
                    < old(self)@.inputs.len() && path@ == old(self)@.inputs[old(self)@.index as int]
                    && final(self)@ == (ProcessorView {
                    index: old(self)@.index + 1,
                    ..old(self)@
                }),
                Request::Finished => old(self)@.pending.len() == 0 && old(self)@.index >= old(
                    self,
                )@.inputs.len() && final(self)@ == old(self)@,
            },
    {
        let ghost before = self@;
        match self.pending.pop() {
            Some(dir) => {
                assert(self@.pending =~= before.pending.drop_last());
                Request::ListDirectory(dir)
            },
            None => {
                assert(self@.pending =~= before.pending);
                if self.current_index < self.input_paths.len() {
                    let path = self.input_paths[self.current_index].clone();
                    self.current_index = self.current_index + 1;
                    Request::ProbeInput(path)
                } else {
                    Request::Finished
                }
            },
        }
    }

    /// Meets the file `path`.
    fn meet_file(&mut self, path: &str, excluded: bool) -> (added: bool)
        ensures
            final(self)@ == file_met(old(self)@, path@, excluded),
            added == (!excluded && !old(self)@.yielded.contains(path@)),
    {
        if excluded {
            return false;
        }
        let mut paths = OrderedPathSet::new();
        std::mem::swap(&mut paths, &mut self.yielded_paths);
        let (paths, added) = paths.insert(path);
        self.yielded_paths = paths;
        added
    }

    /// Is told what the file system holds at the input path `absolute`.
    /// Returns the status to report for it, if there is one. `found` is not
    /// looked at where the path is excluded.
    pub fn input_probed<M: ExclusionMatcher>(
        &mut self,
        absolute: &str,
        found: PathKind,
        matcher: &M,
    ) -> (status: Option<ProcessingStatus>)
        ensures
            final(self)@ == input_met(
                old(self)@,
                absolute@,
                found,
                excluded_by(matcher, absolute@, old(self)@.patterns),
            ),
            status == input_status(
                old(self)@,
                absolute@,
                found,
                excluded_by(matcher, absolute@, old(self)@.patterns),
            ),
            old(self)@.yielded.no_duplicates() ==> final(self)@.yielded.no_duplicates(),
            clear_of(old(self)@, matcher) ==> clear_of(final(self)@, matcher),
    {
        proof {
            lemma_input_met(old(self)@, absolute@, found, matcher);
        }
        let ghost before = self@;
        if self.should_exclude(absolute, matcher) {
            return Some(ProcessingStatus::Excluded);
        }
        match found {
            PathKind::Missing(reason) => Some(ProcessingStatus::Invalid(reason)),
            PathKind::Directory => {
                self.pending.push(absolute.to_owned());
                assert(self@.pending =~= before.pending.push(absolute@));
                None
            },
            PathKind::File => {
                if self.meet_file(absolute, false) {
                    Some(ProcessingStatus::Added)
                } else {
                    None
                }
            },
        }
    }

    /// Is told the listing of the directory that was asked about. Each item
    /// that is a directory is put on the stack; every other item is met as a
    /// file. Returns the statuses to report, in the order of the listing.
    pub fn directory_listed<M: ExclusionMatcher>(
        &mut self,
        listing: &[ListedPath],
        matcher: &M,
    ) -> (events: Vec<PathEvent>)
        ensures
            final(self)@ == listing_met(old(self)@, listed_views(listing@), matcher),
            event_views(events@) == listing_events(old(self)@, listed_views(listing@), matcher),
            old(self)@.yielded.no_duplicates() ==> final(self)@.yielded.no_duplicates(),
            clear_of(old(self)@, matcher) ==> clear_of(final(self)@, matcher),
    {
        proof {
            lemma_listing_met(old(self)@, listed_views(listing@), matcher);
        }
        let ghost start = self@;
        let ghost items = listed_views(listing@);
        let mut events: Vec<PathEvent> = Vec::new();
        let mut i: usize = 0;
        assert(event_views(events@) =~= listing_events(start, items.take(0), matcher));
        while i < listing.len()
            invariant
                i <= listing.len(),
                items == listed_views(listing@),
                self@ == listing_met(start, items.take(i as int), matcher),
                event_views(events@) == listing_events(start, items.take(i as int), matcher),
            decreases listing.len() - i,
        {
            let item = &listing[i];
            let ghost before = self@;
            let ghost events_before = event_views(events@);
            proof {
                assert(items.take(i + 1).drop_last() == items.take(i as int));
                assert(items.take(i + 1).last() == item@);
                lemma_listing_keeps_patterns(start, items.take(i as int), matcher);
            }
            if item.is_directory {
                self.pending.push(item.path.clone());
                assert(self@.pending =~= before.pending.push(item.path@));
            } else {
                let excluded = self.should_exclude(item.path.as_str(), matcher);
                let added = self.meet_file(item.path.as_str(), excluded);
                if excluded {
                    events.push(
                        PathEvent { path: item.path.clone(), status: ProcessingStatus::Excluded },
                    );
                    assert(event_views(events@) =~= events_before.push(
                        (item.path@, ProcessingStatus::Excluded),
                    ));
                } else if added {
                    events.push(
                        PathEvent { path: item.path.clone(), status: ProcessingStatus::Added },
                    );
                    assert(event_views(events@) =~= events_before.push(
                        (item.path@, ProcessingStatus::Added),
                    ));
                }
            }
            i += 1;
        }
        assert(items.take(listing.len() as int) == items);
        events
    }

    /// Ends the expansion and hands out the files taken, in the order in
    /// which they were met. None of them is taken twice.
    pub fn into_paths(self) -> (paths: Vec<String>)
        ensures
            texts(paths@) == self@.yielded,
            texts(paths@).no_duplicates(),
    {
        self.yielded_paths.into_vec()
    }
}

/// A path with the status that is reported for it.
#[derive(Debug, Clone)]
pub struct PathEvent {
    pub path: String,
    pub status: ProcessingStatus,
}

/// The events of a list as pairs of a path's characters and its status.
pub open spec fn event_views(events: Seq<PathEvent>) -> Seq<(Seq<char>, ProcessingStatus)> {
    Seq::new(events.len(), |i: int| (events[i].path@, events[i].status))
}

/// The statuses that are reported for the items `listing`, in order: an
/// excluded file is reported as excluded, a file that is taken as added;
/// directories and files taken before are not reported.
pub open spec fn listing_events<M: ExclusionMatcher>(
    state: ProcessorView,
    listing: Seq<ListedView>,
    matcher: &M,
) -> Seq<(Seq<char>, ProcessingStatus)>
    decreases listing.len(),
{
    if listing.len() == 0 {
        Seq::empty()
    } else {
        let before = listing_met(state, listing.drop_last(), matcher);
        let events = listing_events(state, listing.drop_last(), matcher);
        let item = listing.last();
        if item.is_directory {
            events
        } else if excluded_by(matcher, item.path, state.patterns) {
            events.push((item.path, ProcessingStatus::Excluded))
        } else if before.yielded.contains(item.path) {
            events
        } else {
            events.push((item.path, ProcessingStatus::Added))
        }
    }
}

/// A listing changes neither the input paths nor the patterns.
pub proof fn lemma_listing_keeps_patterns<M: ExclusionMatcher>(
    state: ProcessorView,
    listing: Seq<ListedView>,
    matcher: &M,
)
    ensures
        listing_met(state, listing, matcher).patterns == state.patterns,
        listing_met(state, listing, matcher).inputs == state.inputs,
        listing_met(state, listing, matcher).index == state.index,
    decreases listing.len(),
{
    if listing.len() > 0 {
        lemma_listing_keeps_patterns(state, listing.drop_last(), matcher);
    }
}

/// Whether no file taken so far is excluded by `matcher`.
pub open spec fn clear_of<M: ExclusionMatcher>(state: ProcessorView, matcher: &M) -> bool {
    forall|i: int|
        0 <= i < state.yielded.len() ==> !excluded_by(
            matcher,
            #[trigger] state.yielded[i],
            state.patterns,
        )
}

/// Meeting a file keeps each file once in the result and keeps excluded
/// files out of it; a file that is met and not excluded is in the result
/// afterwards.
pub proof fn lemma_file_met<M: ExclusionMatcher>(state: ProcessorView, path: Seq<char>, matcher: &M)
    ensures
        state.yielded.no_duplicates() ==> file_met(
            state,
            path,
            excluded_by(matcher, path, state.patterns),
        ).yielded.no_duplicates(),
        clear_of(state, matcher) ==> clear_of(
            file_met(state, path, excluded_by(matcher, path, state.patterns)),
            matcher,
        ),
        !excluded_by(matcher, path, state.patterns) ==> file_met(
            state,
            path,
            false,
        ).yielded.contains(path),
{
    let excluded = excluded_by(matcher, path, state.patterns);
    let next = file_met(state, path, excluded);
    if !excluded && !state.yielded.contains(path) {
        assert(next.yielded[state.yielded.len() as int] == path);
        if state.yielded.no_duplicates() {
            assert forall|i: int, j: int|
                0 <= i < next.yielded.len() && 0 <= j < next.yielded.len() && i
                    != j implies next.yielded[i] != next.yielded[j] by {
                if i == state.yielded.len() {
                    if state.yielded[j] == path {
                        assert(state.yielded.contains(path));
                    }
                } else if j == state.yielded.len() {
                    if state.yielded[i] == path {
                        assert(state.yielded.contains(path));
                    }
                }
            }
        }
    }
}

/// A listing keeps each file once in the result and keeps excluded files out
/// of it, however often a file is listed.
pub proof fn lemma_listing_met<M: ExclusionMatcher>(
    state: ProcessorView,
    listing: Seq<ListedView>,
    matcher: &M,
)
    ensures
        state.yielded.no_duplicates() ==> listing_met(
            state,
            listing,
            matcher,
        ).yielded.no_duplicates(),
        clear_of(state, matcher) ==> clear_of(listing_met(state, listing, matcher), matcher),
    decreases listing.len(),
{
    if listing.len() > 0 {
        let before = listing_met(state, listing.drop_last(), matcher);
        lemma_listing_met(state, listing.drop_last(), matcher);
        lemma_listing_keeps_patterns(state, listing.drop_last(), matcher);
        lemma_file_met(before, listing.last().path, matcher);
    }
}

/// An input path keeps each file once in the result and keeps excluded files
/// out of it.
pub proof fn lemma_input_met<M: ExclusionMatcher>(
    state: ProcessorView,
    absolute: Seq<char>,
    kind: PathKind,
    matcher: &M,
)
    ensures
        state.yielded.no_duplicates() ==> input_met(
            state,
            absolute,
            kind,
            excluded_by(matcher, absolute, state.patterns),
        ).yielded.no_duplicates(),
        clear_of(state, matcher) ==> clear_of(
            input_met(state, absolute, kind, excluded_by(matcher, absolute, state.patterns)),
            matcher,
        ),
{
    lemma_file_met(state, absolute, matcher);
}

/// A path that the matcher excludes is not in a result that is clear of the
/// matcher.
pub proof fn lemma_excluded_path_is_absent<M: ExclusionMatcher>(
    state: ProcessorView,
    path: Seq<char>,
    matcher: &M,
)
    requires
        clear_of(state, matcher),
        excluded_by(matcher, path, state.patterns),
    ensures
        !state.yielded.contains(path),
{
    if state.yielded.contains(path) {
        let i = choose|i: int| 0 <= i < state.yielded.len() && state.yielded[i] == path;
        assert(!excluded_by(matcher, state.yielded[i], state.patterns));
    }
}

/// A path that matches an exclusion pattern is not in the result of an
/// expansion: of one that uses a wildcard matcher made from its exclusion
/// patterns and that is clear of the matcher, as every expansion is from
/// its beginning.
pub proof fn lemma_matching_path_is_absent(
    state: ProcessorView,
    matcher: &WildcardMatcher,
    pattern: Seq<char>,
    path: Seq<char>,
)
    requires
        clear_of(state, matcher),
        matcher.patterns() == state.patterns,
        state.patterns.contains(pattern),
        pattern_matches(pattern, path),
    ensures
        !state.yielded.contains(path),
{
    lemma_wildcard_matcher_excludes(matcher, path, state.patterns[0]);
    assert(matcher.excludes(path, state.patterns[0]));
    lemma_excluded_path_is_absent(state, path, matcher);
}

/// The lists of `lists`, one after the other.
pub open spec fn concatenated(lists: Seq<Seq<Seq<char>>>) -> Seq<Seq<char>>
    decreases lists.len(),
{
    if lists.len() == 0 {
        Seq::empty()
    } else {
        concatenated(lists.drop_last()) + lists.last()
    }
}

/// The texts of each list of strings, in order.
pub open spec fn list_texts(lists: Seq<Vec<String>>) -> Seq<Seq<Seq<char>>> {
    Seq::new(lists.len(), |i: int| texts(lists[i]@))
}

/// The paths `paths`, each resolved against the directory `current_dir`.
pub open spec fn resolved(paths: Seq<Seq<char>>, current_dir: Seq<char>) -> Seq<Seq<char>> {
    paths.map_values(|p: Seq<char>| absolute_of(p, current_dir))
}

/// The files of the expansions of all input paths, resolved against the
/// directory `current_dir`: the files of each expansion in the order of the
/// input paths, with every resolved file kept where it occurs first and left
/// out where it occurs again. Two spellings that resolve to one path give
/// one file.
pub fn expand_input_paths(expansions: &[Vec<String>], current_dir: &str) -> (r: Result<
    Vec<String>,
>)
    ensures
        r matches Ok(files) && texts(files@) == unique(
            resolved(concatenated(list_texts(expansions@)), current_dir@),
        ) && texts(files@).no_duplicates(),
{
    let ghost lists = list_texts(expansions@);
    let ghost dir = current_dir@;
    let mut unique_files = OrderedPathSet::new();
    let mut i: usize = 0;
    assert(unique_files@ =~= unique(resolved(concatenated(lists.take(0)), dir)));
    while i < expansions.len()
        invariant
            i <= expansions.len(),
            lists == list_texts(expansions@),
            dir == current_dir@,
            unique_files@ == unique(resolved(concatenated(lists.take(i as int)), dir)),
        decreases expansions.len() - i,
    {
        let files = &expansions[i];
        let ghost done = concatenated(lists.take(i as int));
        let ghost these = texts(files@);
        proof {
            assert(lists.take(i + 1).drop_last() == lists.take(i as int));
            assert(lists.take(i + 1).last() == these);
            assert(done + these.take(0) =~= done);
        }
        let mut k: usize = 0;
        while k < files.len()
            invariant
                k <= files.len(),
                these == texts(files@),
                dir == current_dir@,
                unique_files@ == unique(resolved(done + these.take(k as int), dir)),
            decreases files.len() - k,
        {
            proof {
                let before = resolved(done + these.take(k as int), dir);
                let after = resolved(done + these.take(k + 1), dir);
                assert(after.drop_last() =~= before);
                assert(after.last() == absolute_of(files[k as int]@, dir));
            }
            let path = to_absolute_path(files[k].as_str(), current_dir);
            let (next, _) = unique_files.insert(path.as_str());
            unique_files = next;
            k += 1;
        }
        assert(these.take(files.len() as int) == these);
        i += 1;
    }
    proof {
        assert(lists.take(expansions.len() as int) == lists);
    }
    let unique_files = unique_files.into_vec();
    Ok(unique_files)
}

/// Paths that resolve to one path are one file of an expansion: the first
/// one of them stands in the result, the others do not add to it.
pub proof fn lemma_spellings_give_one_file(
    paths: Seq<Seq<char>>,
    current_dir: Seq<char>,
    i: int,
    j: int,
)
    requires
        0 <= i < j < paths.len(),
        absolute_of(paths[i], current_dir) == absolute_of(paths[j], current_dir),
    ensures
        unique(resolved(paths, current_dir)).no_duplicates(),
        unique(resolved(paths, current_dir)).contains(absolute_of(paths[i], current_dir)),
        unique(resolved(paths, current_dir)).len() < paths.len(),
{
    let all = resolved(paths, current_dir);
    lemma_unique(all);
    assert(all[i] == absolute_of(paths[i], current_dir));
    assert(all.contains(all[i]));
    lemma_unique_is_shorter(all, i, j);
}

} // verus!
