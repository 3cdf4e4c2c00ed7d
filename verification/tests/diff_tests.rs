use archtree::diff::{
    compare_file_lists, compare_keyed, keyed, list_archive_contents, verify, KeyedPath,
    VerificationResult,
};
use archtree::entry::ArchiveEntry;
use archtree::paths::{
    depth, file_name, name_key, normalize_path, parent_dir, to_absolute_path,
};
use archtree::verifiers::{ArchiveVerifier, SevenZipVerifier, VerificationService};

fn strings(items: &[&str]) -> Vec<String> {
    items.iter().map(|s| s.to_string()).collect()
}

fn file(path: &str) -> ArchiveEntry {
    ArchiveEntry { path: path.to_string(), is_directory: false, size: 0, modified: None }
}

fn dir(path: &str) -> ArchiveEntry {
    ArchiveEntry { path: path.to_string(), is_directory: true, size: 0, modified: None }
}

fn success_rate(result: &VerificationResult) -> f64 {
    let (numerator, denominator) = result.success_rate_parts();
    numerator as f64 / denominator as f64
}

#[test]
fn test_path_normalization() {
    let verifier = SevenZipVerifier::new();
    let service = VerificationService::new(verifier);

    assert_eq!(service.normalize_path("C:\\Users\\Test\\file.txt"), "c:/users/test/file.txt");
    assert_eq!(service.normalize_path("/home/user/file.txt"), "/home/user/file.txt");
    assert_eq!(service.normalize_path("relative\\path\\file.txt"), "relative/path/file.txt");
}

#[test]
fn verifier_test_seven_zip_verifier_name() {
    let verifier = SevenZipVerifier::new();
    assert_eq!(verifier.name(), "7-Zip Verifier");
}

#[test]
fn verifier_test_verification_result() {
    let result = VerificationResult {
        missing_files: vec!["missing.txt".to_string()],
        archived_files: vec!["found1.txt".to_string(), "found2.txt".to_string()],
        all_expected_files: vec![
            "missing.txt".to_string(),
            "found1.txt".to_string(),
            "found2.txt".to_string(),
        ],
        total_expected: 3,
        total_archived: 2,
    };

    assert!(!result.is_complete());
    assert!((success_rate(&result) - 66.66666666666667).abs() < 0.0001);

    let complete_result = VerificationResult {
        missing_files: vec![],
        archived_files: vec!["file1.txt".to_string(), "file2.txt".to_string()],
        all_expected_files: vec!["file1.txt".to_string(), "file2.txt".to_string()],
        total_expected: 2,
        total_archived: 2,
    };

    assert!(complete_result.is_complete());
    assert_eq!(success_rate(&complete_result), 100.0);
}

#[test]
fn normalize_lowers_case_beyond_ascii() {
    assert_eq!(normalize_path("ÄB\\Ç"), "äb/ç");
    assert_eq!(normalize_path(""), "");
}

#[test]
fn paths_are_split_at_the_last_slash() {
    assert_eq!(parent_dir("/data/sub/a.txt").unwrap(), "/data/sub");
    assert_eq!(parent_dir("/a.txt").unwrap(), "/");
    assert_eq!(parent_dir("a.txt").unwrap(), "");
    assert_eq!(parent_dir("dir/").unwrap(), "dir");
    assert_eq!(parent_dir("C:\\x\\a.txt").unwrap(), "C:\\x");
    assert!(parent_dir("/").is_none());
    assert!(parent_dir("").is_none());
    assert_eq!(file_name("/data/sub/a.txt"), "a.txt");
    assert_eq!(file_name("a.txt"), "a.txt");
    assert_eq!(file_name("dir/"), "");
    assert_eq!(file_name(""), "");
    assert_eq!(name_key("/Data/Sub/A.TXT"), "a.txt");
    assert_eq!(name_key("C:\\Data\\Sub/B.Txt"), "b.txt");
    assert_eq!(name_key("C:\\Data\\A.TXT"), "a.txt");
    assert_eq!(depth("/data/sub"), 2);
    assert_eq!(depth(""), 0);
}

#[test]
fn relative_paths_are_resolved_against_the_current_directory() {
    assert_eq!(to_absolute_path("/usr/bin", "/home"), "/usr/bin");
    assert_eq!(to_absolute_path("test_file.txt", "/home/user"), "/home/user/test_file.txt");
    assert_eq!(to_absolute_path("a/b", "/home/user/"), "/home/user/a/b");
    assert_eq!(to_absolute_path("a", "/"), "/a");
    assert_eq!(to_absolute_path("a", ""), "a");
    assert_eq!(to_absolute_path("", "/home"), "/home/");
}

#[test]
fn compare_file_lists_is_letter_for_letter() {
    let (missing, found) = compare_file_lists(
        &strings(&["a.txt", "B.txt", "c.txt", "a.txt"]),
        &strings(&["b.txt", "a.txt"]),
    );
    assert_eq!(missing, vec!["B.txt", "c.txt"]);
    assert_eq!(found, vec!["a.txt", "a.txt"]);
}

#[test]
fn list_archive_contents_leaves_directories_out() {
    let entries = vec![dir("d"), file("d/a"), file("b"), dir("e")];
    assert_eq!(list_archive_contents(&entries), vec!["d/a", "b"]);
}

#[test]
fn scenario_one_of_two_expected_files_is_archived() {
    let verifier = SevenZipVerifier::new();
    let report = "Path = /data/a.txt\nAttributes = A\nSize = 10\n";
    let entries = verifier.list_archive_entries(report, "/backup.7z", &[]).unwrap();
    let expected = strings(&["/data/a.txt", "/data/c.txt"]);

    let result = verifier.verify_archive(true, &entries, &expected).unwrap();

    assert_eq!(result.missing_files, vec!["/data/c.txt"]);
    assert_eq!(result.archived_files, vec!["/data/a.txt"]);
    assert_eq!(result.all_expected_files, expected);
    assert_eq!(result.total_expected, 2);
    assert_eq!(result.total_archived, 1);
    assert_eq!(success_rate(&result), 50.0);
}

#[test]
fn verify_matches_normalized_paths() {
    let result = verify(&strings(&["C:\\Data\\A.txt"]), &[file("c:/data/a.TXT")]);
    assert!(result.is_complete());
    assert_eq!(result.archived_files, vec!["C:\\Data\\A.txt"]);
}

#[test]
fn verify_falls_back_to_the_file_name() {
    let result = verify(
        &strings(&["/home/user/Report.PDF", "/home/user/other.pdf"]),
        &[file("flattened/report.pdf")],
    );
    assert_eq!(result.archived_files, vec!["/home/user/Report.PDF"]);
    assert_eq!(result.missing_files, vec!["/home/user/other.pdf"]);
}

#[test]
fn verify_ignores_directories_and_counts_archived_files() {
    let result = verify(
        &strings(&["/data/sub"]),
        &[dir("/data/sub"), file("/x/1"), file("/x/2"), file("/x/3")],
    );
    assert_eq!(result.missing_files, vec!["/data/sub"]);
    assert_eq!(result.total_expected, 1);
    assert_eq!(result.total_archived, 3);
}

#[test]
fn verify_parts_the_expected_files() {
    let expected = strings(&["/a/1", "/a/2", "/b/1", "/a/1", "/c/9"]);
    let result = verify(&expected, &[file("/a/1"), file("/zz/9")]);
    for path in &expected {
        let missing = result.missing_files.contains(path);
        let found = result.archived_files.contains(path);
        assert!(missing != found);
    }
    for path in result.missing_files.iter().chain(result.archived_files.iter()) {
        assert!(expected.contains(path));
    }
    assert_eq!(result.missing_files, vec!["/a/2"]);
    assert_eq!(result.archived_files, vec!["/a/1", "/b/1", "/a/1", "/c/9"]);
}

#[test]
fn verify_of_nothing_is_complete() {
    let result = verify(&[], &[file("a")]);
    assert!(result.is_complete());
    assert_eq!(result.total_expected, 0);
    assert_eq!(success_rate(&result), 100.0);
}

#[test]
fn verifier_reports_a_tool_that_is_not_available() {
    let verifier = SevenZipVerifier::with_path("/opt/7z".to_string());
    assert_eq!(verifier.executable_path, "/opt/7z");
    match verifier.verify_archive(false, &[], &[]) {
        Err(e) => assert_eq!(
            e.to_string(),
            "External tool error (7-Zip Verifier): is not available"
        ),
        Ok(_) => panic!("verified without the tool"),
    }
    match verifier.verify_archive_freshness(false, &[], &[], &[]) {
        Err(e) => assert_eq!(
            e.to_string(),
            "External tool error (7-Zip Verifier): is not available"
        ),
        Ok(_) => panic!("verified without the tool"),
    }
    let service = VerificationService::new(verifier);
    match service.verify_archive(false, "", "a.7z", &[]) {
        Err(e) => assert_eq!(e.to_string(), "Error: 7-Zip Verifier is not available"),
        Ok(_) => panic!("verified without the tool"),
    }
}

#[test]
fn service_verifies_from_the_report() {
    let service = VerificationService::new(SevenZipVerifier::default());
    let report = "Path = a.7z\n\nPath = docs\nAttributes = D\n\nPath = docs\\a.txt\nSize = 3\n";
    let result = service
        .verify_archive(true, report, "a.7z", &strings(&["/home/docs/a.txt", "/home/b.txt"]))
        .unwrap();
    assert_eq!(result.archived_files, vec!["/home/docs/a.txt"]);
    assert_eq!(result.missing_files, vec!["/home/b.txt"]);
    assert_eq!(result.total_archived, 1);
}

#[test]
fn verifier_arguments() {
    let verifier = SevenZipVerifier::new();
    assert_eq!(verifier.executable_path, "7z.exe");
    assert_eq!(verifier.list_arguments("a.7z"), vec!["l", "-slt", "-sccUTF-8", "a.7z"]);
    assert_eq!(verifier.legacy_list_arguments("a.7z"), vec!["l", "-slt", "a.7z"]);
}

#[test]
fn the_success_rate_is_a_fraction_of_a_hundred() {
    let result = verify(&strings(&["/a/1", "/a/2", "/a/3"]), &[file("/a/1")]);
    assert_eq!(result.success_rate_parts(), (100, 3));
    let result = verify(&[], &[file("/a/1")]);
    assert_eq!(result.success_rate_parts(), (100, 1));
    let result = verify(&strings(&["/a/1"]), &[]);
    assert_eq!(result.success_rate_parts(), (0, 1));
}

#[test]
fn files_are_compared_by_the_keys_they_come_with() {
    let key = |path: &str, normalized: &str, name: &str| KeyedPath {
        path: path.to_string(),
        normalized: normalized.to_string(),
        name_key: name.to_string(),
    };
    let expected = vec![
        key("/Data/A.txt", "/data/a.txt", "a.txt"),
        key("/data/c.txt", "/data/c.txt", "c.txt"),
        key("/else/B.TXT", "/else/b.txt", "b.txt"),
    ];
    let archived = vec![key("/data/a.txt", "/data/a.txt", "a.txt"), key("x/b.txt", "x/b.txt", "b.txt")];
    let result = compare_keyed(&expected, &archived);
    assert_eq!(result.missing_files, vec!["/data/c.txt"]);
    assert_eq!(result.archived_files, vec!["/Data/A.txt", "/else/B.TXT"]);
    assert_eq!(result.all_expected_files, vec!["/Data/A.txt", "/data/c.txt", "/else/B.TXT"]);
    assert_eq!((result.total_expected, result.total_archived), (3, 2));
    let k = keyed("C:\\Data\\Report.PDF");
    assert_eq!(
        (k.path.as_str(), k.normalized.as_str(), k.name_key.as_str()),
        ("C:\\Data\\Report.PDF", "c:/data/report.pdf", "report.pdf")
    );
}
