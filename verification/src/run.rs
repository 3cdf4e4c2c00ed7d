//! A whole expansion against a file system that is given as data.
//!
//! `PathProcessor::process_paths` asks the snapshot what the processor asks
//! for, request by request, until nothing is left to ask. Input paths are
//! resolved against the current directory, the items of a listing against
//! the directory that was listed.

use vstd::prelude::*;
use crate::error::{ArchtreeError, Result};
use crate::exclusion::excluded_by;
use crate::expand::{
    clear_of, event_views, input_met, input_status, is_finished, lemma_input_met,
    lemma_listing_keeps_patterns, lemma_listing_met, lemma_matching_path_is_absent, listed_views,
    listing_events, listing_met, ListedPath, ListedView, PathEvent, PathKind, PathProcessor,
    ProcessingStatus, ProcessorView, Request,
};
use crate::paths::{absolute_of, is_absolute, lemma_resolved_path_is_absolute, to_absolute_path};
use crate::pattern::{pattern_matches, ExclusionMatcher, GitIgnoreMatcher, WildcardMatcher};
use crate::text::texts;

verus! {

/// What a file system holds at one path.
#[derive(Debug, Clone)]
pub struct SnapshotEntry {
    /// The path.
    pub path: String,
    /// Whether a directory is there; anything else counts as a file.
    pub is_directory: bool,
    /// The items of the directory, where it is one.
    pub listing: Vec<ListedPath>,
}

/// A file system as far as it is known: what it holds at some paths, and
/// what it says of every other path.
#[derive(Debug, Clone)]
pub struct FileSystemSnapshot {
    /// What is held, path by path. Of two entries for one path the later
    /// one counts.
    pub entries: Vec<SnapshotEntry>,
    /// Why a path that has no entry cannot be reached.
    pub missing_reason: String,
}

/// The index of the entry that counts for `path` among the first `n`
/// entries.
pub open spec fn entry_index(fs: FileSystemSnapshot, path: Seq<char>, n: int) -> Option<int>
    decreases n,
{
    if n <= 0 {
        None
    } else if fs.entries@[n - 1].path@ == path {
        Some(n - 1)
    } else {
        entry_index(fs, path, n - 1)
    }
}

/// What the snapshot holds at `path`.
pub open spec fn kind_in(fs: FileSystemSnapshot, path: Seq<char>) -> PathKind {
    match entry_index(fs, path, fs.entries@.len() as int) {
        Some(k) => if fs.entries@[k].is_directory {
            PathKind::Directory
        } else {
            PathKind::File
        },
        None => PathKind::Missing(fs.missing_reason),
    }
}

/// `listing` with each path resolved against the directory `dir`.
pub open spec fn resolved_listing(listing: Seq<ListedView>, dir: Seq<char>) -> Seq<ListedView> {
    listing.map_values(
        |item: ListedView|
            ListedView { path: absolute_of(item.path, dir), is_directory: item.is_directory },
    )
}

/// The items that the snapshot lists for the directory `dir`, resolved
/// against it; none where it has no entry for `dir`.
pub open spec fn listing_in(fs: FileSystemSnapshot, dir: Seq<char>) -> Seq<ListedView> {
    match entry_index(fs, dir, fs.entries@.len() as int) {
        Some(k) => resolved_listing(listed_views(fs.entries@[k].listing@), dir),
        None => Seq::empty(),
    }
}

impl FileSystemSnapshot {
    /// The index of the entry that counts for `path`.
    pub fn find(&self, path: &str) -> (r: Option<usize>)
        ensures
            match r {
                Some(k) => entry_index(*self, path@, self.entries@.len() as int) == Some(k as int)
                    && k < self.entries@.len(),
                None => entry_index(*self, path@, self.entries@.len() as int) is None,
            },
    {
        let needle = path.to_owned();
        let mut i: usize = self.entries.len();
        while i > 0
            invariant
                i <= self.entries.len(),
                needle@ == path@,
                entry_index(*self, path@, self.entries@.len() as int) == entry_index(
                    *self,
                    path@,
                    i as int,
                ),
            decreases i,
        {
            if self.entries[i - 1].path == needle {
                return Some(i - 1);
            }
            i -= 1;
        }
        None
    }

    /// What the snapshot holds at `path`.
    pub fn probe(&self, path: &str) -> (kind: PathKind)
        ensures
            kind == kind_in(*self, path@),
    {
        match self.find(path) {
            Some(k) => if self.entries[k].is_directory {
                PathKind::Directory
            } else {
                PathKind::File
            },
            None => PathKind::Missing(self.missing_reason.clone()),
        }
    }

    /// The items that the snapshot lists for the directory `dir`, resolved
    /// against it.
    pub fn listing(&self, dir: &str) -> (items: Vec<ListedPath>)
        ensures
            listed_views(items@) == listing_in(*self, dir@),
    {
        let mut items: Vec<ListedPath> = Vec::new();
        match self.find(dir) {
            Some(k) => {
                let listing = &self.entries[k].listing;
                let ghost given = listed_views(listing@);
                let mut i: usize = 0;
                assert(listed_views(items@) =~= resolved_listing(given.take(0), dir@));
                while i < listing.len()
                    invariant
                        i <= listing.len(),
                        given == listed_views(listing@),
                        listed_views(items@) == resolved_listing(given.take(i as int), dir@),
                    decreases listing.len() - i,
                {
                    let ghost before = listed_views(items@);
                    let item = &listing[i];
                    let resolved = ListedPath {
                        path: to_absolute_path(item.path.as_str(), dir),
                        is_directory: item.is_directory,
                    };
                    items.push(resolved);
                    proof {
                        assert(given[i as int] == item@);
                        assert(listed_views(items@) =~= before.push(resolved@));
                        assert(resolved_listing(given.take(i + 1), dir@) =~= resolved_listing(
                            given.take(i as int),
                            dir@,
                        ).push(resolved@));
                    }
                    i += 1;
                }
                assert(given.take(listing.len() as int) == given);
            },
            None => {
                assert(listed_views(items@) =~= Seq::<ListedView>::empty());
            },
        }
        items
    }
}

/// The state after the next request of an expansion in `state` is answered
/// from the snapshot: the directory on top of the stack is listed, or else
/// the next input path is resolved against `current_dir` and looked up.
pub open spec fn step_state<M: ExclusionMatcher>(
    state: ProcessorView,
    fs: FileSystemSnapshot,
    current_dir: Seq<char>,
    matcher: &M,
) -> ProcessorView {
    if state.pending.len() > 0 {
        listing_met(
            ProcessorView { pending: state.pending.drop_last(), ..state },
            listing_in(fs, state.pending.last()),
            matcher,
        )
    } else {
        let absolute = absolute_of(state.inputs[state.index as int], current_dir);
        input_met(
            ProcessorView { index: state.index + 1, ..state },
            absolute,
            kind_in(fs, absolute),
            excluded_by(matcher, absolute, state.patterns),
        )
    }
}

/// The statuses that are reported when the next request is answered.
pub open spec fn step_events<M: ExclusionMatcher>(
    state: ProcessorView,
    fs: FileSystemSnapshot,
    current_dir: Seq<char>,
    matcher: &M,
) -> Seq<(Seq<char>, ProcessingStatus)> {
    if state.pending.len() > 0 {
        listing_events(
            ProcessorView { pending: state.pending.drop_last(), ..state },
            listing_in(fs, state.pending.last()),
            matcher,
        )
    } else {
        let absolute = absolute_of(state.inputs[state.index as int], current_dir);
        match input_status(
            ProcessorView { index: state.index + 1, ..state },
            absolute,
            kind_in(fs, absolute),
            excluded_by(matcher, absolute, state.patterns),
        ) {
            Some(status) => seq![(absolute, status)],
            None => Seq::empty(),
        }
    }
}

/// The state of an expansion after at most `requests` requests were
/// answered from the snapshot.
pub open spec fn run_state<M: ExclusionMatcher>(
    state: ProcessorView,
    fs: FileSystemSnapshot,
    current_dir: Seq<char>,
    matcher: &M,
    requests: nat,
) -> ProcessorView
    decreases requests,
{
    if requests == 0 || is_finished(state) {
        state
    } else {
        run_state(
            step_state(state, fs, current_dir, matcher),
            fs,
            current_dir,
            matcher,
            (requests - 1) as nat,
        )
    }
}

/// The statuses that are reported while at most `requests` requests are
/// answered from the snapshot, in order.
pub open spec fn run_events<M: ExclusionMatcher>(
    state: ProcessorView,
    fs: FileSystemSnapshot,
    current_dir: Seq<char>,
    matcher: &M,
    requests: nat,
) -> Seq<(Seq<char>, ProcessingStatus)>
    decreases requests,
{
    if requests == 0 || is_finished(state) {
        Seq::empty()
    } else {
        step_events(state, fs, current_dir, matcher) + run_events(
            step_state(state, fs, current_dir, matcher),
            fs,
            current_dir,
            matcher,
            (requests - 1) as nat,
        )
    }
}

/// The paths that `events` report as added, in order.
pub open spec fn added_paths(events: Seq<(Seq<char>, ProcessingStatus)>) -> Seq<Seq<char>> {
    events.filter(|e: (Seq<char>, ProcessingStatus)| e.1 is Added).map_values(
        |e: (Seq<char>, ProcessingStatus)| e.0,
    )
}

/// The paths that are reported as added by one list of events and then by
/// another.
pub proof fn lemma_added_paths_add(
    a: Seq<(Seq<char>, ProcessingStatus)>,
    b: Seq<(Seq<char>, ProcessingStatus)>,
)
    ensures
        added_paths(a + b) == added_paths(a) + added_paths(b),
{
    let added = |e: (Seq<char>, ProcessingStatus)| e.1 is Added;
    Seq::filter_distributes_over_add(a, b, added);
    assert(added_paths(a + b) =~= added_paths(a) + added_paths(b));
}

/// The files that a listing adds to the result are the files that it
/// reports as added, in order.
pub proof fn lemma_listing_adds_what_it_reports<M: ExclusionMatcher>(
    state: ProcessorView,
    listing: Seq<ListedView>,
    matcher: &M,
)
    ensures
        listing_met(state, listing, matcher).yielded == state.yielded + added_paths(
            listing_events(state, listing, matcher),
        ),
    decreases listing.len(),
{
    reveal(Seq::filter);
    let added = |e: (Seq<char>, ProcessingStatus)| e.1 is Added;
    if listing.len() > 0 {
        let front = listing.drop_last();
        lemma_listing_adds_what_it_reports(state, front, matcher);
        lemma_listing_keeps_patterns(state, front, matcher);
        let events = listing_events(state, front, matcher);
        let item = listing.last();
        let before = listing_met(state, front, matcher);
        if !item.is_directory {
            if excluded_by(matcher, item.path, state.patterns) {
                let e = (item.path, ProcessingStatus::Excluded);
                assert(events.push(e).drop_last() == events);
                assert(added_paths(events.push(e)) =~= added_paths(events));
            } else if !before.yielded.contains(item.path) {
                let e = (item.path, ProcessingStatus::Added);
                assert(events.push(e).drop_last() == events);
                assert(added_paths(events.push(e)) =~= added_paths(events).push(item.path));
                assert(before.yielded.push(item.path) =~= state.yielded + added_paths(
                    events.push(e),
                ));
            }
        }
    } else {
        assert(state.yielded + added_paths(listing_events(state, listing, matcher))
            =~= state.yielded);
    }
}

/// The files that a request adds to the result are the files that it
/// reports as added; it keeps the input paths and the patterns, keeps each
/// file once in the result, and keeps excluded files out of it.
pub proof fn lemma_step<M: ExclusionMatcher>(
    state: ProcessorView,
    fs: FileSystemSnapshot,
    current_dir: Seq<char>,
    matcher: &M,
)
    requires
        !is_finished(state),
    ensures
        step_state(state, fs, current_dir, matcher).yielded == state.yielded + added_paths(
            step_events(state, fs, current_dir, matcher),
        ),
        step_state(state, fs, current_dir, matcher).inputs == state.inputs,
        step_state(state, fs, current_dir, matcher).patterns == state.patterns,
        state.yielded.no_duplicates() ==> step_state(
            state,
            fs,
            current_dir,
            matcher,
        ).yielded.no_duplicates(),
        clear_of(state, matcher) ==> clear_of(step_state(state, fs, current_dir, matcher), matcher),
{
    reveal(Seq::filter);
    if state.pending.len() > 0 {
        let popped = ProcessorView { pending: state.pending.drop_last(), ..state };
        let listing = listing_in(fs, state.pending.last());
        lemma_listing_adds_what_it_reports(popped, listing, matcher);
        lemma_listing_keeps_patterns(popped, listing, matcher);
        lemma_listing_met(popped, listing, matcher);
        assert(clear_of(state, matcher) ==> clear_of(popped, matcher));
    } else {
        let asked = ProcessorView { index: state.index + 1, ..state };
        let absolute = absolute_of(state.inputs[state.index as int], current_dir);
        let kind = kind_in(fs, absolute);
        let excluded = excluded_by(matcher, absolute, state.patterns);
        lemma_input_met(asked, absolute, kind, matcher);
        assert(clear_of(state, matcher) ==> clear_of(asked, matcher));
        let events = step_events(state, fs, current_dir, matcher);
        match input_status(asked, absolute, kind, excluded) {
            Some(status) => {
                assert(events =~= seq![(absolute, status)]);
                let none = Seq::<(Seq<char>, ProcessingStatus)>::empty();
                let added = |e: (Seq<char>, ProcessingStatus)| e.1 is Added;
                assert(events.drop_last() =~= none);
                assert(events.last() == (absolute, status));
                assert(none.filter(added) =~= none);
                if status is Added {
                    assert(added_paths(events) =~= seq![absolute]);
                    assert(input_met(asked, absolute, kind, excluded).yielded =~= state.yielded
                        + seq![absolute]);
                } else {
                    assert(added_paths(events) =~= Seq::<Seq<char>>::empty());
                    assert(state.yielded + added_paths(events) =~= state.yielded);
                }
            },
            None => {
                assert(added_paths(events) =~= Seq::<Seq<char>>::empty());
                assert(state.yielded + added_paths(events) =~= state.yielded);
            },
        }
    }
}

/// Whether each directory that is still to be listed, and each file taken
/// so far, is named by a path that is complete by itself.
pub open spec fn all_absolute(state: ProcessorView) -> bool {
    &&& forall|i: int| 0 <= i < state.pending.len() ==> is_absolute(#[trigger] state.pending[i])
    &&& forall|i: int| 0 <= i < state.yielded.len() ==> is_absolute(#[trigger] state.yielded[i])
}

/// A listing whose paths are complete by themselves leaves only such paths
/// on the stack and in the result.
pub proof fn lemma_listing_keeps_absolute<M: ExclusionMatcher>(
    state: ProcessorView,
    listing: Seq<ListedView>,
    matcher: &M,
)
    requires
        all_absolute(state),
        forall|i: int| 0 <= i < listing.len() ==> is_absolute(#[trigger] listing[i].path),
    ensures
        all_absolute(listing_met(state, listing, matcher)),
    decreases listing.len(),
{
    if listing.len() > 0 {
        let front = listing.drop_last();
        assert forall|i: int| 0 <= i < front.len() implies is_absolute(
            #[trigger] front[i].path,
        ) by {
            assert(front[i] == listing[i]);
        }
        lemma_listing_keeps_absolute(state, front, matcher);
        assert(is_absolute(listing[listing.len() - 1].path));
    }
}

/// With a current directory that is complete by itself, a request leaves
/// only paths that are complete by themselves on the stack and in the
/// result.
pub proof fn lemma_step_keeps_absolute<M: ExclusionMatcher>(
    state: ProcessorView,
    fs: FileSystemSnapshot,
    current_dir: Seq<char>,
    matcher: &M,
)
    requires
        !is_finished(state),
        is_absolute(current_dir),
        all_absolute(state),
    ensures
        all_absolute(step_state(state, fs, current_dir, matcher)),
{
    if state.pending.len() > 0 {
        let popped = ProcessorView { pending: state.pending.drop_last(), ..state };
        let dir = state.pending.last();
        let listing = listing_in(fs, dir);
        assert(is_absolute(state.pending[state.pending.len() - 1]));
        assert forall|i: int| 0 <= i < listing.len() implies is_absolute(
            #[trigger] listing[i].path,
        ) by {
            let k = entry_index(fs, dir, fs.entries@.len() as int)->0;
            lemma_resolved_path_is_absolute(listed_views(fs.entries@[k].listing@)[i].path, dir);
        }
        assert forall|i: int| 0 <= i < popped.pending.len() implies is_absolute(
            #[trigger] popped.pending[i],
        ) by {
            assert(popped.pending[i] == state.pending[i]);
        }
        lemma_listing_keeps_absolute(popped, listing, matcher);
    } else {
        lemma_resolved_path_is_absolute(state.inputs[state.index as int], current_dir);
    }
}

/// With a current directory that is complete by itself, a whole expansion
/// leaves only paths that are complete by themselves in the result.
pub proof fn lemma_run_keeps_absolute<M: ExclusionMatcher>(
    state: ProcessorView,
    fs: FileSystemSnapshot,
    current_dir: Seq<char>,
    matcher: &M,
    requests: nat,
)
    requires
        is_absolute(current_dir),
        all_absolute(state),
    ensures
        all_absolute(run_state(state, fs, current_dir, matcher, requests)),
    decreases requests,
{
    if requests > 0 && !is_finished(state) {
        lemma_step_keeps_absolute(state, fs, current_dir, matcher);
        lemma_run_keeps_absolute(
            step_state(state, fs, current_dir, matcher),
            fs,
            current_dir,
            matcher,
            (requests - 1) as nat,
        );
    }
}

/// Whether the snapshot holds a file wherever one of its listings names
/// an item that is no directory.
pub open spec fn lists_files_as_files(fs: FileSystemSnapshot) -> bool {
    forall|dir: Seq<char>, i: int|
        0 <= i < listing_in(fs, dir).len() && !(#[trigger] listing_in(fs, dir)[i]).is_directory
            ==> kind_in(fs, listing_in(fs, dir)[i].path) is File
}

/// Whether the snapshot holds a file at each path taken so far.
pub open spec fn files_only(state: ProcessorView, fs: FileSystemSnapshot) -> bool {
    forall|i: int| 0 <= i < state.yielded.len() ==> kind_in(fs, #[trigger] state.yielded[i]) is File
}

/// A listing whose items are files wherever they are no directories leaves
/// only files in the result.
pub proof fn lemma_listing_keeps_files<M: ExclusionMatcher>(
    state: ProcessorView,
    listing: Seq<ListedView>,
    fs: FileSystemSnapshot,
    matcher: &M,
)
    requires
        files_only(state, fs),
        forall|i: int|
            0 <= i < listing.len() && !(#[trigger] listing[i]).is_directory ==> kind_in(
                fs,
                listing[i].path,
            ) is File,
    ensures
        files_only(listing_met(state, listing, matcher), fs),
    decreases listing.len(),
{
    if listing.len() > 0 {
        let front = listing.drop_last();
        assert forall|i: int|
            0 <= i < front.len() && !(#[trigger] front[i]).is_directory implies kind_in(
            fs,
            front[i].path,
        ) is File by {
            assert(front[i] == listing[i]);
        }
        lemma_listing_keeps_files(state, front, fs, matcher);
        let item = listing[listing.len() - 1];
        assert(!item.is_directory ==> kind_in(fs, item.path) is File);
    }
}

/// With a snapshot that holds a file wherever it lists one, a request
/// leaves only files in the result.
pub proof fn lemma_step_keeps_files<M: ExclusionMatcher>(
    state: ProcessorView,
    fs: FileSystemSnapshot,
    current_dir: Seq<char>,
    matcher: &M,
)
    requires
        !is_finished(state),
        lists_files_as_files(fs),
        files_only(state, fs),
    ensures
        files_only(step_state(state, fs, current_dir, matcher), fs),
{
    if state.pending.len() > 0 {
        let popped = ProcessorView { pending: state.pending.drop_last(), ..state };
        let listing = listing_in(fs, state.pending.last());
        assert forall|i: int|
            0 <= i < listing.len() && !(#[trigger] listing[i]).is_directory implies kind_in(
            fs,
            listing[i].path,
        ) is File by {
            assert(listing[i] == listing_in(fs, state.pending.last())[i]);
        }
        lemma_listing_keeps_files(popped, listing, fs, matcher);
    }
}

/// With a snapshot that holds a file wherever it lists one, a whole
/// expansion leaves only files in the result.
pub proof fn lemma_run_keeps_files<M: ExclusionMatcher>(
    state: ProcessorView,
    fs: FileSystemSnapshot,
    current_dir: Seq<char>,
    matcher: &M,
    requests: nat,
)
    requires
        lists_files_as_files(fs),
        files_only(state, fs),
    ensures
        files_only(run_state(state, fs, current_dir, matcher, requests), fs),
    decreases requests,
{
    if requests > 0 && !is_finished(state) {
        lemma_step_keeps_files(state, fs, current_dir, matcher);
        lemma_run_keeps_files(
            step_state(state, fs, current_dir, matcher),
            fs,
            current_dir,
            matcher,
            (requests - 1) as nat,
        );
    }
}

/// A whole expansion keeps each file once in the result and keeps excluded
/// files out of it; the files that it adds to the result are the files that
/// it reports as added, each once and in the order of the result.
pub proof fn lemma_run<M: ExclusionMatcher>(
    state: ProcessorView,
    fs: FileSystemSnapshot,
    current_dir: Seq<char>,
    matcher: &M,
    requests: nat,
)
    ensures
        run_state(state, fs, current_dir, matcher, requests).yielded == state.yielded
            + added_paths(run_events(state, fs, current_dir, matcher, requests)),
        run_state(state, fs, current_dir, matcher, requests).inputs == state.inputs,
        run_state(state, fs, current_dir, matcher, requests).patterns == state.patterns,
        state.yielded.no_duplicates() ==> run_state(
            state,
            fs,
            current_dir,
            matcher,
            requests,
        ).yielded.no_duplicates(),
        clear_of(state, matcher) ==> clear_of(
            run_state(state, fs, current_dir, matcher, requests),
            matcher,
        ),
    decreases requests,
{
    if requests == 0 || is_finished(state) {
        assert(added_paths(Seq::<(Seq<char>, ProcessingStatus)>::empty()) =~= Seq::<
            Seq<char>,
        >::empty()) by {
            reveal(Seq::filter);
        }
        assert(state.yielded + Seq::<Seq<char>>::empty() =~= state.yielded);
    } else {
        let next = step_state(state, fs, current_dir, matcher);
        lemma_step(state, fs, current_dir, matcher);
        lemma_run(next, fs, current_dir, matcher, (requests - 1) as nat);
        lemma_added_paths_add(
            step_events(state, fs, current_dir, matcher),
            run_events(next, fs, current_dir, matcher, (requests - 1) as nat),
        );
        let first = added_paths(step_events(state, fs, current_dir, matcher));
        let rest = added_paths(run_events(next, fs, current_dir, matcher, (requests - 1) as nat));
        assert((state.yielded + first) + rest =~= state.yielded + (first + rest));
    }
}

/// A path that matches an exclusion pattern is not in the result of a whole
/// expansion that begins with no file taken and uses a wildcard matcher
/// made from its exclusion patterns, whatever the snapshot holds.
pub proof fn lemma_run_leaves_out_matching_paths(
    state: ProcessorView,
    fs: FileSystemSnapshot,
    current_dir: Seq<char>,
    matcher: &WildcardMatcher,
    requests: nat,
    pattern: Seq<char>,
    path: Seq<char>,
)
    requires
        state.yielded.len() == 0,
        matcher.patterns() == state.patterns,
        state.patterns.contains(pattern),
        pattern_matches(pattern, path),
    ensures
        !run_state(state, fs, current_dir, matcher, requests).yielded.contains(path),
{
    lemma_run(state, fs, current_dir, matcher, requests);
    lemma_matching_path_is_absent(
        run_state(state, fs, current_dir, matcher, requests),
        matcher,
        pattern,
        path,
    );
}

impl PathProcessor {
    /// Runs the expansion against the snapshot `fs` until nothing is left
    /// to ask, answering at most `max_requests` requests. Returns the
    /// statuses that are reported, in order. Fails with a path-processing
    /// error where the requests allowed do not end the expansion, as with a
    /// snapshot that lists a directory within itself; the processor then
    /// stands where its last request left it.
    pub fn process_paths<M: ExclusionMatcher>(
        &mut self,
        fs: &FileSystemSnapshot,
        current_dir: &str,
        matcher: &M,
        max_requests: usize,
    ) -> (r: Result<Vec<PathEvent>>)
        ensures
            final(self)@ == run_state(old(self)@, *fs, current_dir@, matcher, max_requests as nat),
            match r {
                Ok(events) => is_finished(final(self)@) && event_views(events@) == run_events(
                    old(self)@,
                    *fs,
                    current_dir@,
                    matcher,
                    max_requests as nat,
                ),
                Err(e) => !is_finished(final(self)@) && e is PathProcessing && e.message_text()
                    == "The expansion did not end within the requests allowed"@,
            },
            final(self)@.yielded.no_duplicates(),
            clear_of(old(self)@, matcher) ==> clear_of(final(self)@, matcher),
            final(self)@.yielded == old(self)@.yielded + added_paths(
                run_events(old(self)@, *fs, current_dir@, matcher, max_requests as nat),
            ),
            is_absolute(current_dir@) && all_absolute(old(self)@) ==> all_absolute(final(self)@),
            lists_files_as_files(*fs) && files_only(old(self)@, *fs) ==> files_only(
                final(self)@,
                *fs,
            ),
    {
        let ghost start = self@;
        let ghost dir = current_dir@;
        let mut events: Vec<PathEvent> = Vec::new();
        let mut left: usize = max_requests;
        assert(event_views(events@) + run_events(self@, *fs, dir, matcher, left as nat)
            =~= run_events(start, *fs, dir, matcher, max_requests as nat));
        while left > 0 && !self.is_finished()
            invariant
                dir == current_dir@,
                left <= max_requests,
                run_state(self@, *fs, dir, matcher, left as nat) == run_state(
                    start,
                    *fs,
                    dir,
                    matcher,
                    max_requests as nat,
                ),
                event_views(events@) + run_events(self@, *fs, dir, matcher, left as nat)
                    == run_events(start, *fs, dir, matcher, max_requests as nat),
            decreases left,
        {
            let ghost before = self@;
            let ghost reported = event_views(events@);
            let ghost step = step_events(before, *fs, dir, matcher);
            match self.next_request() {
                Request::ListDirectory(directory) => {
                    let listing = fs.listing(directory.as_str());
                    let mut listed = self.directory_listed(listing.as_slice(), matcher);
                    let ghost tail = event_views(listed@);
                    assert(tail == step);
                    events.append(&mut listed);
                    assert(event_views(events@) =~= reported + step);
                },
                Request::ProbeInput(path) => {
                    let absolute = to_absolute_path(path.as_str(), current_dir);
                    let found = fs.probe(absolute.as_str());
                    match self.input_probed(absolute.as_str(), found, matcher) {
                        Some(status) => {
                            let event = PathEvent { path: absolute, status };
                            events.push(event);
                            assert(event_views(events@) =~= reported + step);
                        },
                        None => {
                            assert(event_views(events@) =~= reported + step);
                        },
                    }
                },
                Request::Finished => {
                    assert(false);
                },
            }
            assert(self@ == step_state(before, *fs, dir, matcher));
            left -= 1;
            proof {
                let rest = run_events(self@, *fs, dir, matcher, left as nat);
                assert((reported + step) + rest =~= reported + (step + rest));
            }
        }
        proof {
            lemma_run(start, *fs, dir, matcher, max_requests as nat);
            if lists_files_as_files(*fs) && files_only(start, *fs) {
                lemma_run_keeps_files(start, *fs, dir, matcher, max_requests as nat);
            }
            if is_absolute(dir) && all_absolute(start) {
                lemma_run_keeps_absolute(start, *fs, dir, matcher, max_requests as nat);
            }
            let rest = run_events(self@, *fs, dir, matcher, left as nat);
            assert(rest =~= Seq::<(Seq<char>, ProcessingStatus)>::empty());
            assert(event_views(events@) + rest =~= event_views(events@));
        }
        // The files taken are known to hold no path twice.
        let _ = self.yielded_paths();
        if self.is_finished() {
            Ok(events)
        } else {
            Err(
                ArchtreeError::path_processing(
                    "The expansion did not end within the requests allowed",
                    None,
                ),
            )
        }
    }
}

/// The state in which the one path `path` is to be expanded and nothing
/// is excluded.
pub open spec fn walk_start(path: Seq<char>) -> ProcessorView {
    ProcessorView {
        inputs: seq![path],
        patterns: Seq::empty(),
        index: 0,
        pending: Seq::empty(),
        yielded: Seq::empty(),
    }
}

/// The state in which a walk from `path` through the snapshot stands after
/// at most `requests` requests. The path is taken as it is given.
pub open spec fn walk_end(fs: FileSystemSnapshot, path: Seq<char>, requests: nat) -> ProcessorView {
    run_state(walk_start(path), fs, Seq::empty(), &GitIgnoreMatcher, requests)
}

/// The files beneath `dir_path` in the snapshot, each once: the path itself
/// where a file is there, the files of a directory and of the directories
/// below it, and nothing where nothing is held. Fails with a
/// path-processing error where `max_requests` requests do not end the walk.
pub fn enumerate_directory_files(
    fs: &FileSystemSnapshot,
    dir_path: &str,
    max_requests: usize,
) -> (r: Result<Vec<String>>)
    ensures
        match r {
            Ok(files) => is_finished(walk_end(*fs, dir_path@, max_requests as nat)) && texts(files@)
                == walk_end(*fs, dir_path@, max_requests as nat).yielded
                && texts(files@).no_duplicates(),
            Err(e) => !is_finished(walk_end(*fs, dir_path@, max_requests as nat))
                && e is PathProcessing,
        },
{
    let matcher = GitIgnoreMatcher;
    let mut inputs: Vec<String> = Vec::new();
    inputs.push(dir_path.to_owned());
    let mut processor = match PathProcessor::new(inputs, Vec::new()) {
        Ok(processor) => processor,
        Err(e) => {
            return Err(e);
        },
    };
    assert(processor@ =~= walk_start(dir_path@)) by {
        assert(processor@.inputs =~= seq![dir_path@]);
        assert(processor@.patterns =~= Seq::<Seq<char>>::empty());
    }
    proof {
        reveal_strlit("");
        assert(""@ =~= Seq::<char>::empty());
    }
    match processor.process_paths(fs, "", &matcher, max_requests) {
        Ok(_) => Ok(processor.into_paths()),
        Err(e) => Err(e),
    }
}

} // verus!
