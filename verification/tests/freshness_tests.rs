use archtree::entry::{ArchiveEntry, Timestamp};
use archtree::freshness::{
    classify, find_archived, verify_archive_freshness, Age, Freshness,
    FreshnessVerificationResult, OutdatedFile, FRESHNESS_TOLERANCE_SECONDS,
};

fn strings(items: &[&str]) -> Vec<String> {
    items.iter().map(|s| s.to_string()).collect()
}

fn file(path: &str, modified: Option<Timestamp>) -> ArchiveEntry {
    ArchiveEntry { path: path.to_string(), is_directory: false, size: 1, modified }
}

fn at(secs: i64, nanos: u32) -> Option<Timestamp> {
    Some(Timestamp { secs, nanos })
}

#[test]
fn test_freshness_verification_result() {
    let result = FreshnessVerificationResult {
        outdated_files: vec![OutdatedFile {
            path: "test.txt".to_string(),
            archive_modified: Some(Timestamp::from_secs(0)),
            filesystem_modified: Some(Timestamp::from_secs(100)),
        }],
        up_to_date_files: vec!["current.txt".to_string()],
        unverifiable_files: vec!["unknown.txt".to_string()],
        total_checked: 3,
    };

    assert_eq!(result.outdated_files.len(), 1);
    assert_eq!(result.up_to_date_files.len(), 1);
    assert_eq!(result.unverifiable_files.len(), 1);
    assert_eq!(result.total_checked, 3);
}

#[test]
fn test_outdated_file_structure() {
    let outdated = OutdatedFile {
        path: "test.txt".to_string(),
        archive_modified: Some(Timestamp::from_secs(0)),
        filesystem_modified: Some(Timestamp::from_secs(3600)),
    };

    assert_eq!(outdated.path, "test.txt");
    assert!(outdated.archive_modified.is_some());
    assert!(outdated.filesystem_modified.is_some());
}

#[test]
fn tolerance_is_two_seconds() {
    assert_eq!(FRESHNESS_TOLERANCE_SECONDS, 2);
}

#[test]
fn a_file_newer_by_exactly_the_tolerance_is_up_to_date() {
    assert_eq!(classify(at(1000, 0), at(1002, 0)), Freshness::UpToDate);
    assert_eq!(classify(at(-5, 0), at(-3, 0)), Freshness::UpToDate);
}

#[test]
fn a_file_newer_by_a_second_more_is_outdated() {
    assert_eq!(classify(at(1000, 0), at(1003, 0)), Freshness::Outdated);
    assert_eq!(classify(at(-5, 0), at(-2, 0)), Freshness::Outdated);
}

#[test]
fn a_part_of_a_second_beyond_the_tolerance_counts() {
    assert_eq!(classify(at(1000, 0), at(1002, 1)), Freshness::Outdated);
    assert_eq!(classify(at(1000, 0), at(1002, 500_000_000)), Freshness::Outdated);
    assert_eq!(classify(at(1000, 900_000_000), at(1003, 100_000_000)), Freshness::Outdated);
    assert_eq!(classify(at(1000, 900_000_000), at(1002, 900_000_000)), Freshness::UpToDate);
    assert_eq!(classify(at(1000, 900_000_000), at(1002, 900_000_001)), Freshness::Outdated);
    assert_eq!(classify(at(1000, 500_000_000), at(1002, 499_999_999)), Freshness::UpToDate);
}

#[test]
fn an_older_or_equal_file_is_up_to_date() {
    assert_eq!(classify(at(1000, 0), at(1000, 0)), Freshness::UpToDate);
    assert_eq!(classify(at(1000, 0), at(5, 0)), Freshness::UpToDate);
    assert_eq!(classify(at(i64::MAX, 0), at(i64::MIN, 0)), Freshness::UpToDate);
}

#[test]
fn extreme_instants_do_not_overflow() {
    assert_eq!(classify(at(i64::MIN, 0), at(i64::MAX, u32::MAX)), Freshness::Outdated);
}

#[test]
fn nanoseconds_of_a_second_or_more_carry_over() {
    assert_eq!(classify(at(1000, 0), at(1001, 2_000_000_000)), Freshness::Outdated);
    assert_eq!(classify(at(1000, 0), at(1001, 1_000_000_000)), Freshness::UpToDate);
    assert_eq!(classify(at(1000, 1_000_000_000), at(1003, 0)), Freshness::UpToDate);
    assert_eq!(classify(at(1000, 1_000_000_000), at(1003, 1)), Freshness::Outdated);
}

#[test]
fn an_unknown_time_is_unverifiable() {
    assert_eq!(classify(None, at(1, 0)), Freshness::Unverifiable);
    assert_eq!(classify(at(1, 0), None), Freshness::Unverifiable);
    assert_eq!(classify(None, None), Freshness::Unverifiable);
}

#[test]
fn find_archived_takes_the_last_file_with_the_very_path() {
    let entries = vec![
        file("a.txt", at(1, 0)),
        ArchiveEntry { path: "b".to_string(), is_directory: true, size: 0, modified: None },
        file("a.txt", at(2, 0)),
        ArchiveEntry { path: "a.txt".to_string(), is_directory: true, size: 0, modified: None },
    ];
    assert_eq!(find_archived(&entries, "a.txt"), Some(2));
    assert_eq!(find_archived(&entries, "A.txt"), None);
    assert_eq!(find_archived(&entries, "b"), None);
    assert_eq!(find_archived(&[], "a.txt"), None);
}

#[test]
fn freshness_classifies_each_archived_expected_file() {
    let entries = vec![
        file("/d/old.txt", at(1000, 0)),
        file("/d/same.txt", at(1000, 0)),
        file("/d/untimed.txt", None),
        file("/d/unstat.txt", at(1000, 0)),
    ];
    let expected =
        strings(&["/d/old.txt", "/d/absent.txt", "/d/same.txt", "/d/untimed.txt", "/d/unstat.txt"]);
    let times = vec![at(2000, 0), at(2000, 0), at(1002, 0), at(2000, 0), None];

    let result = verify_archive_freshness(&expected, &entries, &times);

    assert_eq!(result.total_checked, 5);
    assert_eq!(result.outdated_files.len(), 1);
    assert_eq!(result.outdated_files[0].path, "/d/old.txt");
    assert_eq!(result.outdated_files[0].archive_modified, at(1000, 0));
    assert_eq!(result.outdated_files[0].filesystem_modified, at(2000, 0));
    assert_eq!(result.up_to_date_files, vec!["/d/same.txt"]);
    assert_eq!(result.unverifiable_files, vec!["/d/untimed.txt", "/d/unstat.txt"]);
}

#[test]
fn freshness_without_times_is_unverifiable() {
    let entries = vec![file("a", at(1, 0))];
    let result = verify_archive_freshness(&strings(&["a"]), &entries, &[]);
    assert_eq!(result.unverifiable_files, vec!["a"]);
    assert!(result.outdated_files.is_empty());
    assert!(result.up_to_date_files.is_empty());
}

#[test]
fn instants_are_counted_from_the_epoch() {
    assert_eq!(Timestamp::after_epoch(5, 7), Timestamp { secs: 5, nanos: 7 });
    assert_eq!(Timestamp::after_epoch(0, 0), Timestamp { secs: 0, nanos: 0 });
    assert_eq!(Timestamp::after_epoch(u64::MAX, 1), Timestamp { secs: i64::MAX, nanos: 1 });
    assert_eq!(Timestamp::before_epoch(5, 0), Timestamp { secs: -5, nanos: 0 });
    assert_eq!(Timestamp::before_epoch(5, 250_000_000), Timestamp { secs: -6, nanos: 750_000_000 });
    assert_eq!(Timestamp::before_epoch(0, 1), Timestamp { secs: -1, nanos: 999_999_999 });
    assert_eq!(Timestamp::before_epoch(u64::MAX, 1), Timestamp { secs: i64::MIN, nanos: 0 });
    assert_eq!(Timestamp::before_epoch(5, 2_500_000_000), Timestamp { secs: -8, nanos: 500_000_000 });
    assert_eq!(Timestamp::before_epoch(0, 0), Timestamp { secs: 0, nanos: 0 });
    assert_eq!(Timestamp::before_epoch(0, 1_000_000_000), Timestamp { secs: -1, nanos: 0 });
    assert_eq!(Timestamp { secs: 7, nanos: 2_500_000_000 }.epoch_seconds(), 9);
    assert_eq!(Timestamp { secs: -1, nanos: 999_999_999 }.epoch_seconds(), 0);
    assert_eq!(Timestamp { secs: -1, nanos: 1_000_000_000 }.epoch_seconds(), 0);
    assert_eq!(Timestamp { secs: -1, nanos: 2_000_000_000 }.epoch_seconds(), 1);
    assert_eq!(
        classify(Some(Timestamp::before_epoch(1, 0)), Some(Timestamp::after_epoch(1, 1))),
        Freshness::Outdated
    );
    assert_eq!(
        classify(Some(Timestamp::before_epoch(1, 0)), Some(Timestamp::after_epoch(1, 0))),
        Freshness::UpToDate
    );
}

#[test]
fn the_age_of_a_copy_is_given_in_its_unit() {
    let outdated = |archive: Option<Timestamp>, file: Option<Timestamp>| OutdatedFile {
        path: "f".to_string(),
        archive_modified: archive,
        filesystem_modified: file,
    };
    assert_eq!(outdated(at(0, 0), at(3600, 0)).age(), Some(Age::Minutes(60)));
    assert_eq!(outdated(at(0, 0), at(3601, 0)).age(), Some(Age::Hours(3601)));
    assert_eq!(outdated(at(0, 0), at(61, 0)).age(), Some(Age::Minutes(1)));
    assert_eq!(outdated(at(0, 0), at(60, 0)).age(), Some(Age::Seconds(60)));
    assert_eq!(outdated(at(100, 900_000_000), at(103, 0)).age(), Some(Age::Seconds(3)));
    assert_eq!(outdated(at(10, 0), at(5, 0)).age(), Some(Age::Seconds(0)));
    assert_eq!(outdated(at(-50, 0), at(10, 0)).age(), Some(Age::Seconds(10)));
    assert_eq!(outdated(None, at(10, 0)).age(), None);
    assert_eq!(outdated(at(10, 0), None).age(), None);
}
