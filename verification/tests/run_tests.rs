use archtree::error::ArchtreeError;
use archtree::expand::{ListedPath, PathEvent, PathProcessor, ProcessingStatus};
use archtree::pattern::WildcardMatcher;
use archtree::run::{enumerate_directory_files, FileSystemSnapshot, SnapshotEntry};

fn owned(items: &[&str]) -> Vec<String> {
    items.iter().map(|s| s.to_string()).collect()
}

fn file(path: &str) -> SnapshotEntry {
    SnapshotEntry { path: path.to_string(), is_directory: false, listing: vec![] }
}

fn directory(path: &str, items: &[(&str, bool)]) -> SnapshotEntry {
    SnapshotEntry {
        path: path.to_string(),
        is_directory: true,
        listing: items
            .iter()
            .map(|(p, d)| ListedPath { path: p.to_string(), is_directory: *d })
            .collect(),
    }
}

fn data_snapshot() -> FileSystemSnapshot {
    FileSystemSnapshot {
        entries: vec![
            directory("/data", &[("a.txt", false), ("b.tmp", false), ("sub", true)]),
            directory("/data/sub", &[("c.txt", false), ("/data/sub/d.tmp", false)]),
            file("/data/a.txt"),
            file("/data/b.tmp"),
            file("/data/sub/c.txt"),
            file("/data/sub/d.tmp"),
        ],
        missing_reason: "Path does not exist".to_string(),
    }
}

fn statuses(events: &[PathEvent]) -> Vec<(String, String)> {
    events
        .iter()
        .map(|e| {
            let status = match &e.status {
                ProcessingStatus::Added => "added".to_string(),
                ProcessingStatus::Excluded => "excluded".to_string(),
                ProcessingStatus::Invalid(reason) => format!("invalid: {}", reason),
            };
            (e.path.clone(), status)
        })
        .collect()
}

fn pairs(items: &[(&str, &str)]) -> Vec<(String, String)> {
    items.iter().map(|(a, b)| (a.to_string(), b.to_string())).collect()
}

fn expand(
    inputs: &[&str],
    patterns: &[&str],
    snapshot: &FileSystemSnapshot,
    current_dir: &str,
) -> (Vec<String>, Vec<(String, String)>) {
    let matcher = WildcardMatcher::with_patterns(&owned(patterns)).unwrap();
    let mut processor = PathProcessor::new(owned(inputs), owned(patterns)).unwrap();
    let events = processor.process_paths(snapshot, current_dir, &matcher, 1000).unwrap();
    assert!(processor.is_finished());
    (processor.yielded_paths().to_vec(), statuses(&events))
}

#[test]
fn a_whole_run_lists_one_directory_twice_and_takes_each_file_once() {
    let (files, events) = expand(&["/data", "/data"], &[], &data_snapshot(), "/");
    assert_eq!(
        files,
        owned(&["/data/a.txt", "/data/b.tmp", "/data/sub/c.txt", "/data/sub/d.tmp"])
    );
    assert_eq!(
        events,
        pairs(&[
            ("/data/a.txt", "added"),
            ("/data/b.tmp", "added"),
            ("/data/sub/c.txt", "added"),
            ("/data/sub/d.tmp", "added"),
        ])
    );
}

#[test]
fn a_whole_run_takes_a_file_and_the_directory_above_it_once() {
    let (files, events) = expand(&["/data/sub/c.txt", "/data"], &[], &data_snapshot(), "/");
    assert_eq!(
        files,
        owned(&["/data/sub/c.txt", "/data/a.txt", "/data/b.tmp", "/data/sub/d.tmp"])
    );
    assert_eq!(events.len(), 4);
    assert!(events.iter().all(|(_, status)| status == "added"));
    let reported: Vec<String> = events.iter().map(|(p, _)| p.clone()).collect();
    assert_eq!(reported, files);
}

#[test]
fn a_whole_run_reports_the_excluded_file_and_leaves_it_out() {
    let (files, events) =
        expand(&["/data/a.txt", "/data/b.tmp"], &["*.tmp"], &data_snapshot(), "/");
    assert_eq!(files, owned(&["/data/a.txt"]));
    assert_eq!(events, pairs(&[("/data/a.txt", "added"), ("/data/b.tmp", "excluded")]));
}

#[test]
fn a_whole_run_filters_what_a_directory_holds() {
    let (files, events) = expand(&["/data"], &["*.tmp"], &data_snapshot(), "/");
    assert_eq!(files, owned(&["/data/a.txt", "/data/sub/c.txt"]));
    assert_eq!(
        events,
        pairs(&[
            ("/data/a.txt", "added"),
            ("/data/b.tmp", "excluded"),
            ("/data/sub/c.txt", "added"),
            ("/data/sub/d.tmp", "excluded"),
        ])
    );
}

#[test]
fn a_whole_run_resolves_input_paths_against_the_current_directory() {
    let (files, events) = expand(&["a.txt", "/data/a.txt", "sub"], &[], &data_snapshot(), "/data");
    assert_eq!(files, owned(&["/data/a.txt", "/data/sub/c.txt", "/data/sub/d.tmp"]));
    assert_eq!(
        events,
        pairs(&[
            ("/data/a.txt", "added"),
            ("/data/sub/c.txt", "added"),
            ("/data/sub/d.tmp", "added"),
        ])
    );
}

#[test]
fn a_whole_run_reports_a_path_that_the_snapshot_does_not_hold() {
    let (files, events) = expand(&["/nowhere", "/data/a.txt"], &[], &data_snapshot(), "/");
    assert_eq!(files, owned(&["/data/a.txt"]));
    assert_eq!(
        events,
        pairs(&[("/nowhere", "invalid: Path does not exist"), ("/data/a.txt", "added")])
    );
}

#[test]
fn a_whole_run_without_input_paths_is_over_at_once() {
    let (files, events) = expand(&[], &[], &data_snapshot(), "/");
    assert!(files.is_empty());
    assert!(events.is_empty());
}

#[test]
fn a_run_that_does_not_end_within_its_requests_fails() {
    let snapshot = FileSystemSnapshot {
        entries: vec![directory("/loop", &[("x.txt", false), ("/loop", true)])],
        missing_reason: "Path does not exist".to_string(),
    };
    let matcher = WildcardMatcher::with_patterns(&[]).unwrap();
    let mut processor = PathProcessor::new(owned(&["/loop"]), vec![]).unwrap();
    let result = processor.process_paths(&snapshot, "/", &matcher, 25);
    match result {
        Err(ArchtreeError::PathProcessing { message, .. }) => {
            assert_eq!(message, "The expansion did not end within the requests allowed");
        }
        other => panic!("unexpected result: {:?}", other.map(|e| e.len())),
    }
    assert!(!processor.is_finished());
    assert_eq!(processor.yielded_paths().to_vec(), owned(&["/loop/x.txt"]));
}

#[test]
fn a_run_with_too_few_requests_stops_where_its_last_request_left_it() {
    let matcher = WildcardMatcher::with_patterns(&[]).unwrap();
    let mut processor = PathProcessor::new(owned(&["/data"]), vec![]).unwrap();
    assert!(processor.process_paths(&data_snapshot(), "/", &matcher, 2).is_err());
    assert_eq!(processor.yielded_paths().to_vec(), owned(&["/data/a.txt", "/data/b.tmp"]));
    let events = processor.process_paths(&data_snapshot(), "/", &matcher, 2).unwrap();
    assert_eq!(
        statuses(&events),
        pairs(&[("/data/sub/c.txt", "added"), ("/data/sub/d.tmp", "added")])
    );
}

#[test]
fn of_two_entries_for_one_path_the_later_one_counts() {
    let snapshot = FileSystemSnapshot {
        entries: vec![directory("/x", &[("y", false)]), file("/x")],
        missing_reason: "gone".to_string(),
    };
    assert_eq!(snapshot.find("/x"), Some(1));
    assert_eq!(snapshot.find("/y"), None);
    assert!(snapshot.listing("/nowhere").is_empty());
    let (files, _) = expand(&["/x"], &[], &snapshot, "/");
    assert_eq!(files, owned(&["/x"]));
}

#[test]
fn the_files_beneath_a_directory_are_walked_from_the_last_listed_directory_on() {
    let snapshot = FileSystemSnapshot {
        entries: vec![
            directory("/t", &[("x", true), ("1", false), ("y", true)]),
            directory("/t/x", &[("2", false)]),
            directory("/t/y", &[("3", false), ("z", true)]),
            directory("/t/y/z", &[]),
        ],
        missing_reason: "Path does not exist".to_string(),
    };
    assert_eq!(
        enumerate_directory_files(&snapshot, "/t", 100).unwrap(),
        owned(&["/t/1", "/t/y/3", "/t/x/2"])
    );
}

#[test]
fn the_files_beneath_a_file_or_beneath_nothing() {
    let snapshot = data_snapshot();
    assert_eq!(
        enumerate_directory_files(&snapshot, "/data/a.txt", 100).unwrap(),
        owned(&["/data/a.txt"])
    );
    assert_eq!(enumerate_directory_files(&snapshot, "a.txt", 100).unwrap(), owned(&[]));
    assert_eq!(enumerate_directory_files(&snapshot, "/nowhere", 100).unwrap(), owned(&[]));
    assert_eq!(
        enumerate_directory_files(&snapshot, "/data/sub", 100).unwrap(),
        owned(&["/data/sub/c.txt", "/data/sub/d.tmp"])
    );
    match enumerate_directory_files(&snapshot, "/data", 1) {
        Err(ArchtreeError::PathProcessing { .. }) => {}
        other => panic!("unexpected result: {:?}", other),
    }
}
