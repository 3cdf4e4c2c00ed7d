use archtree::archiver::SevenZipArchiver;
use archtree::config::Config;
use archtree::error::ArchtreeError;
use archtree::expand::{
    expand_input_paths, ListedPath, PathKind, PathProcessor, ProcessingStatus, Request,
};
use archtree::paths::to_absolute_path;
use archtree::pattern::WildcardMatcher;
use archtree::service::{BackupService, ProcessingSummary};
use archtree::verifiers::{SevenZipVerifier, VerificationService};

fn strings(items: &[&str]) -> Vec<String> {
    items.iter().map(|s| s.to_string()).collect()
}

fn listed(path: &str, is_directory: bool) -> ListedPath {
    ListedPath { path: path.to_string(), is_directory }
}

/// A file system made of directories with their listings; every other path
/// that is named in a listing is a file.
struct Tree {
    directories: Vec<(&'static str, Vec<ListedPath>)>,
    files: Vec<&'static str>,
}

impl Tree {
    fn kind(&self, path: &str) -> PathKind {
        if self.directories.iter().any(|(d, _)| *d == path) {
            PathKind::Directory
        } else if self.files.iter().any(|f| *f == path) {
            PathKind::File
        } else {
            PathKind::Missing("No such file or directory".to_string())
        }
    }

    fn listing(&self, path: &str) -> Vec<ListedPath> {
        self.directories
            .iter()
            .find(|(d, _)| *d == path)
            .map(|(_, l)| l.clone())
            .unwrap_or_default()
    }
}

fn run(
    tree: &Tree,
    lines: &[&str],
) -> Result<(Vec<String>, Vec<(String, String)>), ArchtreeError> {
    let config = Config::builder().output_path(Some("out.7z"), None).build()?;
    let service = BackupService::new(SevenZipArchiver::new(), config);
    let plan = service.process_input_paths(&strings(lines))?;
    let mut processor = plan.processor;
    let matcher = plan.matcher;
    let mut statuses: Vec<(String, String)> = Vec::new();
    let mut note = |path: &str, status: &ProcessingStatus| {
        let text = match status {
            ProcessingStatus::Added => "added".to_string(),
            ProcessingStatus::Excluded => "excluded".to_string(),
            ProcessingStatus::Invalid(reason) => format!("invalid: {}", reason),
        };
        statuses.push((path.to_string(), text));
    };
    loop {
        match processor.next_request() {
            Request::ProbeInput(line) => {
                let absolute = to_absolute_path(&line, "/work");
                let kind = tree.kind(&absolute);
                if let Some(status) = processor.input_probed(&absolute, kind, &matcher) {
                    note(&absolute, &status);
                }
            }
            Request::ListDirectory(dir) => {
                for event in processor.directory_listed(&tree.listing(&dir), &matcher) {
                    note(&event.path, &event.status);
                }
            }
            Request::Finished => break,
        }
    }
    Ok((processor.into_paths(), statuses))
}

fn data_tree() -> Tree {
    Tree {
        directories: vec![
            (
                "/data",
                vec![listed("/data/a.txt", false), listed("/data/sub", true), listed("/data/b.tmp", false)],
            ),
            ("/data/sub", vec![listed("/data/sub/c.txt", false), listed("/data/sub/d.TMP", false)]),
        ],
        files: vec!["/data/a.txt", "/data/b.tmp", "/data/sub/c.txt", "/data/sub/d.TMP", "/work/r.txt"],
    }
}

#[test]
fn test_exclusion_patterns() {
    let (wanted, unwanted) = PathProcessor::extract_exclusion_patterns(&[
        "file1.txt".to_string(),
        "!*.tmp".to_string(),
        "dir/file2.txt".to_string(),
        "!cache/*".to_string(),
    ]);

    assert_eq!(wanted, vec!["file1.txt", "dir/file2.txt"]);
    assert_eq!(unwanted, vec!["*.tmp", "cache/*"]);
}

#[test]
fn scenario_a_file_that_matches_an_exclusion_pattern() {
    let tree = Tree { directories: vec![], files: vec!["/data/a.txt", "/data/b.tmp"] };
    let (paths, statuses) = run(&tree, &["/data/a.txt", "/data/b.tmp", "!*.tmp"]).unwrap();
    assert_eq!(paths, vec!["/data/a.txt"]);
    assert_eq!(
        statuses,
        vec![
            ("/data/a.txt".to_string(), "added".to_string()),
            ("/data/b.tmp".to_string(), "excluded".to_string()),
        ]
    );
}

#[test]
fn a_directory_is_walked_depth_first_and_filtered() {
    let (paths, statuses) = run(&data_tree(), &["/data", "!*.tmp"]).unwrap();
    assert_eq!(paths, vec!["/data/a.txt", "/data/sub/c.txt"]);
    assert_eq!(
        statuses,
        vec![
            ("/data/a.txt".to_string(), "added".to_string()),
            ("/data/b.tmp".to_string(), "excluded".to_string()),
            ("/data/sub/c.txt".to_string(), "added".to_string()),
            ("/data/sub/d.TMP".to_string(), "excluded".to_string()),
        ]
    );
}

#[test]
fn a_directory_listed_twice_gives_each_file_once() {
    let (paths, statuses) = run(&data_tree(), &["/data", "/data/sub", "/data"]).unwrap();
    assert_eq!(
        paths,
        vec!["/data/a.txt", "/data/b.tmp", "/data/sub/c.txt", "/data/sub/d.TMP"]
    );
    assert_eq!(statuses.len(), 4);
}

#[test]
fn a_file_listed_directly_and_below_a_directory_is_taken_once() {
    let (paths, _) = run(&data_tree(), &["/data/sub/c.txt", "/data", "/data/a.txt"]).unwrap();
    assert_eq!(
        paths,
        vec!["/data/sub/c.txt", "/data/a.txt", "/data/b.tmp", "/data/sub/d.TMP"]
    );
}

#[test]
fn an_excluded_directory_is_not_walked() {
    let (paths, statuses) = run(&data_tree(), &["/data/sub", "/data/a.txt", "!*/sub"]).unwrap();
    assert_eq!(paths, vec!["/data/a.txt"]);
    assert_eq!(statuses[0], ("/data/sub".to_string(), "excluded".to_string()));
}

#[test]
fn a_path_that_does_not_exist_is_invalid() {
    let (paths, statuses) = run(&data_tree(), &["/nowhere", "r.txt"]).unwrap();
    assert_eq!(paths, vec!["/work/r.txt"]);
    assert_eq!(
        statuses,
        vec![
            ("/nowhere".to_string(), "invalid: No such file or directory".to_string()),
            ("/work/r.txt".to_string(), "added".to_string()),
        ]
    );
}

#[test]
fn an_excluded_path_is_reported_as_excluded_whatever_it_is() {
    let (paths, statuses) = run(&data_tree(), &["/nowhere.tmp", "!*.tmp"]).unwrap();
    assert!(paths.is_empty());
    assert_eq!(statuses, vec![("/nowhere.tmp".to_string(), "excluded".to_string())]);
}

#[test]
fn input_without_lines_or_without_paths_is_a_configuration_error() {
    let tree = data_tree();
    match run(&tree, &[]) {
        Err(e) => assert_eq!(e.to_string(), "Configuration error: No input paths provided"),
        Ok(_) => panic!("empty input was accepted"),
    }
    match run(&tree, &["!*.tmp", ""]) {
        Err(e) => assert_eq!(
            e.to_string(),
            "Configuration error: No include paths found after filtering exclusions"
        ),
        Ok(_) => panic!("input without paths was accepted"),
    }
}

#[test]
fn a_pattern_that_cannot_be_compiled_is_a_configuration_error() {
    let huge = format!("!{}", "?".repeat(1_000_000));
    match run(&data_tree(), &["/data", &huge]) {
        Err(ArchtreeError::Config { message, source }) => {
            assert_eq!(message, "Failed to create wildcard matcher");
            assert!(source.unwrap().starts_with("Path processing error for '??"));
        }
        Err(other) => panic!("unexpected: {:?}", other),
        Ok(_) => panic!("the pattern was accepted"),
    }
}

#[test]
fn processor_keeps_its_patterns_and_starts_empty() {
    let mut processor =
        PathProcessor::new(strings(&["/a"]), strings(&["*.tmp", "x?"])).unwrap();
    assert_eq!(processor.exclusion_patterns(), strings(&["*.tmp", "x?"]));
    assert!(processor.yielded_paths().is_empty());
    let matcher = WildcardMatcher::with_patterns(&strings(&["*.tmp"])).unwrap();
    assert!(processor.should_exclude("/a/b.tmp", &matcher));
    assert!(!processor.should_exclude("/a/b.txt", &matcher));
    assert!(matches!(processor.next_request(), Request::ProbeInput(p) if p == "/a"));
    assert!(matches!(processor.next_request(), Request::Finished));
    assert!(matches!(processor.next_request(), Request::Finished));
}

#[test]
fn the_directory_put_on_the_stack_last_is_listed_first() {
    let mut processor = PathProcessor::new(strings(&["/a", "/b"]), vec![]).unwrap();
    let matcher = WildcardMatcher::new();
    assert!(matches!(processor.next_request(), Request::ProbeInput(_)));
    assert!(processor.input_probed("/a", PathKind::Directory, &matcher).is_none());
    assert!(matches!(processor.next_request(), Request::ListDirectory(d) if d == "/a"));
    let events = processor.directory_listed(
        &[listed("/a/x", true), listed("/a/f", false), listed("/a/y", true), listed("/a/f", false)],
        &matcher,
    );
    assert_eq!(events.len(), 1);
    assert_eq!(events[0].path, "/a/f");
    assert!(matches!(events[0].status, ProcessingStatus::Added));
    assert!(matches!(processor.next_request(), Request::ListDirectory(d) if d == "/a/y"));
    assert!(matches!(processor.next_request(), Request::ListDirectory(d) if d == "/a/x"));
    assert!(matches!(processor.next_request(), Request::ProbeInput(p) if p == "/b"));
    assert_eq!(processor.yielded_paths(), strings(&["/a/f"]));
}

#[test]
fn expansions_are_merged_with_each_file_once() {
    let merged = expand_input_paths(
        &[strings(&["/d/a", "/d/b"]), vec![], strings(&["/d/b", "/e/a", "/d/a", "/e/a"])],
        "/work",
    )
    .unwrap();
    assert_eq!(merged, vec!["/d/a", "/d/b", "/e/a"]);
    assert!(expand_input_paths(&[], "/work").unwrap().is_empty());
    let service = VerificationService::new(SevenZipVerifier::new());
    assert_eq!(service.expand_paths(&[strings(&["x", "x"])], "/w").unwrap(), vec!["/w/x"]);
}

#[test]
fn two_spellings_of_one_file_give_one_file() {
    let merged = expand_input_paths(
        &[strings(&["a.txt", "/work/b.txt"]), strings(&["/work/a.txt", "b.txt", "sub/c"])],
        "/work",
    )
    .unwrap();
    assert_eq!(merged, vec!["/work/a.txt", "/work/b.txt", "/work/sub/c"]);
    let merged =
        expand_input_paths(&[strings(&["/work/a.txt"]), strings(&["a.txt"])], "/work/").unwrap();
    assert_eq!(merged, vec!["/work/a.txt"]);
}

#[test]
fn summary_counts_statuses() {
    let mut summary = ProcessingSummary::new();
    summary.record(&ProcessingStatus::Added);
    summary.record(&ProcessingStatus::Added);
    summary.record(&ProcessingStatus::Excluded);
    summary.record(&ProcessingStatus::Invalid("gone".to_string()));
    assert_eq!(summary, ProcessingSummary { added: 2, excluded: 1, invalid: 1 });
    let mut full = ProcessingSummary { added: usize::MAX, excluded: 0, invalid: 0 };
    full.record(&ProcessingStatus::Added);
    assert_eq!(full.added, usize::MAX);
}

#[test]
fn service_remembers_the_files_of_a_run_once() {
    let config = Config::builder().output_path(Some("out.7z"), None).build().unwrap();
    let mut service = BackupService::new(SevenZipArchiver::new(), config);
    assert!(service.get_input_paths().is_none());
    assert_eq!(service.config().output_path, "out.7z");
    assert_eq!(service.archiver().executable_path, "7z.exe");

    match service.accept_paths(vec![]) {
        Err(e) => {
            assert_eq!(e.to_string(), "Configuration error: No valid paths found to archive")
        }
        Ok(_) => panic!("no files were accepted"),
    }
    assert!(service.get_input_paths().is_none());

    assert_eq!(service.accept_paths(strings(&["/a", "/b"])).unwrap(), vec!["/a", "/b"]);
    assert_eq!(service.get_input_paths().unwrap(), vec!["/a", "/b"]);

    assert_eq!(service.accept_paths(strings(&["/c"])).unwrap(), vec!["/c"]);
    service.remember_paths(strings(&["/d"]));
    assert_eq!(service.get_input_paths().unwrap(), vec!["/a", "/b"]);
}

#[test]
fn service_reports_a_tool_that_is_not_available() {
    let config = Config::builder().output_path(Some("out.7z"), None).build().unwrap();
    let service = BackupService::new(SevenZipArchiver::new(), config);
    assert!(service.check_available(true).is_ok());
    match service.check_available(false) {
        Err(e) => assert_eq!(
            e.to_string(),
            "External tool error (7-Zip): 7-Zip is not available on this system"
        ),
        Ok(_) => panic!("the tool was taken to be there"),
    }
}
