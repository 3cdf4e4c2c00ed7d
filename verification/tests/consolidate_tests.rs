use archtree::consolidate::{analyze_directories, consolidate_missing_files, fold_directories};
use archtree::diff::VerificationResult;
use archtree::lists::{lex_le_chars, sort_texts, text_set, unique_texts, OrderedPathSet};

fn strings(items: &[&str]) -> Vec<String> {
    items.iter().map(|s| s.to_string()).collect()
}

fn chars(s: &str) -> Vec<char> {
    s.chars().collect()
}

#[test]
fn scenario_a_directory_that_is_missing_as_a_whole() {
    let missing = strings(&["/data/sub/1.txt", "/data/sub/2.txt", "/data/sub/3.txt"]);
    let expected =
        strings(&["/data/sub/1.txt", "/data/sub/2.txt", "/data/sub/3.txt", "/data/other/x.txt"]);
    assert_eq!(consolidate_missing_files(&missing, &expected), vec!["/data/sub/*"]);
}

#[test]
fn nothing_missing_gives_an_empty_report() {
    assert!(consolidate_missing_files(&[], &strings(&["/a/b"])).is_empty());
    assert!(consolidate_missing_files(&[], &[]).is_empty());
}

#[test]
fn a_directory_with_a_file_that_is_present_lists_its_missing_files() {
    let missing = strings(&["/d/b.txt", "/d/a.txt"]);
    let expected = strings(&["/d/a.txt", "/d/b.txt", "/d/c.txt"]);
    assert_eq!(consolidate_missing_files(&missing, &expected), vec!["/d/a.txt", "/d/b.txt"]);
}

#[test]
fn the_report_is_in_lexicographic_order() {
    let missing = strings(&["/z/1", "/b/2", "/b/1", "/a/x/1", "/B/1"]);
    let expected = strings(&["/z/1", "/z/2", "/b/2", "/b/1", "/b/3", "/a/x/1", "/B/1"]);
    assert_eq!(
        consolidate_missing_files(&missing, &expected),
        vec!["/B/*", "/a/x/*", "/b/1", "/b/2", "/z/1"]
    );
}

#[test]
fn directories_missing_as_a_whole_at_two_depths_are_both_shown() {
    let files = strings(&["/data/a.txt", "/data/sub/b.txt"]);
    assert_eq!(consolidate_missing_files(&files, &files), vec!["/data/*", "/data/sub/*"]);
}

#[test]
fn a_directory_below_one_that_is_shown_is_dealt_with() {
    // `/data` is missing as a whole; `/data/sub` is not, and its missing
    // file is not listed, since its name continues the name of `/data`.
    let missing = strings(&["/data/a.txt", "/data/sub/b.txt"]);
    let expected = strings(&["/data/a.txt", "/data/sub/b.txt", "/data/sub/c.txt"]);
    assert_eq!(consolidate_missing_files(&missing, &expected), vec!["/data/*"]);
}

#[test]
fn a_name_that_continues_another_counts_as_below_it() {
    let missing = strings(&["/data/sub/a", "/data/subway/b"]);
    let expected = strings(&["/data/sub/a", "/data/subway/b", "/data/subway/c"]);
    assert_eq!(consolidate_missing_files(&missing, &expected), vec!["/data/sub/*"]);
    // In the other order of depth ties the result is the same: the first
    // directory is taken first.
    let missing = strings(&["/data/subway/b", "/data/sub/a"]);
    assert_eq!(consolidate_missing_files(&missing, &expected), vec!["/data/sub/*"]);
}

#[test]
fn files_at_the_root_and_without_a_directory() {
    assert_eq!(consolidate_missing_files(&strings(&["/a"]), &strings(&["/a"])), vec!["//*"]);
    assert_eq!(consolidate_missing_files(&strings(&["a"]), &strings(&["a"])), vec!["/*"]);
    assert!(consolidate_missing_files(&strings(&["/", ""]), &strings(&["/", ""])).is_empty());
}

#[test]
fn expected_files_count_once_and_missing_files_as_often_as_listed() {
    let expected = strings(&["/d/a", "/d/a", "/d/b"]);
    assert_eq!(consolidate_missing_files(&strings(&["/d/a", "/d/b"]), &expected), vec!["/d/*"]);
    assert_eq!(consolidate_missing_files(&strings(&["/d/a", "/d/a"]), &expected), vec!["/d/*"]);
    assert_eq!(consolidate_missing_files(&strings(&["/d/a"]), &expected), vec!["/d/a"]);
}

#[test]
fn a_missing_file_that_was_not_expected_is_listed() {
    assert_eq!(consolidate_missing_files(&strings(&["/d/a"]), &[]), vec!["/d/a"]);
}

#[test]
fn consolidation_stands_for_exactly_the_missing_files() {
    let expected = strings(&[
        "/p/a/1", "/p/a/2", "/p/b/1", "/p/b/2", "/p/b/3", "/q/1", "/q/r/1", "/q/r/2", "/s/1",
    ]);
    let missing = strings(&["/p/a/1", "/p/a/2", "/p/b/2", "/q/r/2", "/q/r/1", "/s/1"]);
    let report = consolidate_missing_files(&missing, &expected);
    assert_eq!(report, vec!["/p/a/*", "/p/b/2", "/q/r/*", "/s/*"]);

    let mut covered: Vec<String> = Vec::new();
    for line in &report {
        match line.strip_suffix("/*") {
            Some(directory) => {
                for file in &expected {
                    if file.rsplit_once('/').map(|(d, _)| d) == Some(directory) {
                        covered.push(file.clone());
                    }
                }
            }
            None => covered.push(line.clone()),
        }
    }
    covered.sort();
    let mut wanted = missing.clone();
    wanted.sort();
    assert_eq!(covered, wanted);
}

#[test]
fn result_gives_its_consolidated_report() {
    let result = VerificationResult {
        missing_files: strings(&["/d/a", "/d/b", "/e/a"]),
        archived_files: strings(&["/e/b"]),
        all_expected_files: strings(&["/d/a", "/d/b", "/e/a", "/e/b"]),
        total_expected: 4,
        total_archived: 1,
    };
    assert_eq!(result.get_consolidated_missing_files(), vec!["/d/*", "/e/a"]);
}

#[test]
fn analysis_gathers_the_missing_files_by_directory() {
    let missing = strings(&["/d/b", "/e/x", "/d/a", "/", "f"]);
    let expected = strings(&["/d/a", "/d/b", "/e/x", "/e/y", "/e/x"]);
    let analysis = analyze_directories(&missing, &expected);
    let found: Vec<_> = analysis
        .iter()
        .map(|d| {
            (d.directory.as_str(), d.missing_files.clone(), d.total_files, d.is_complete_directory)
        })
        .collect();
    assert_eq!(
        found,
        vec![
            ("/d", strings(&["/d/b", "/d/a"]), 2, true),
            ("/e", strings(&["/e/x"]), 2, false),
            ("", strings(&["f"]), 0, false),
        ]
    );
}

#[test]
fn folding_goes_from_the_deepest_directory_to_the_shallowest() {
    let files = strings(&["/a/1", "/a/b/c/1", "/a/b/1", "/x/1"]);
    let analysis = analyze_directories(&files, &files);
    let (shown, processed) = fold_directories(&analysis);
    assert_eq!(shown, vec!["/a/b/c", "/a/b", "/a", "/x"]);
    assert_eq!(processed, vec![true, true, true, true]);
}

#[test]
fn lists_find_and_keep_first_occurrences() {
    let list = strings(&["b", "a", "b", "c", "a"]);
    assert_eq!(unique_texts(&list), vec!["b", "a", "c"]);
    assert!(unique_texts(&[]).is_empty());
    let set = text_set(&list);
    assert!(set.contains("c"));
    assert!(!set.contains(""));
    assert_eq!(set.len(), 3);
}

#[test]
fn an_ordered_set_keeps_the_order_and_knows_the_places() {
    let set = OrderedPathSet::new();
    assert_eq!(set.len(), 0);
    let (set, added) = set.insert("/b");
    assert!(added);
    let (set, added) = set.insert("/a");
    assert!(added);
    let (set, added) = set.insert("/b");
    assert!(!added);
    assert_eq!(set.len(), 2);
    assert!(set.contains("/a"));
    assert!(!set.contains("/c"));
    assert_eq!(set.position("/b"), Some(0));
    assert_eq!(set.position("/a"), Some(1));
    assert_eq!(set.position("/c"), None);
    assert_eq!(set.as_slice(), strings(&["/b", "/a"]));
    assert_eq!(set.into_vec(), vec!["/b", "/a"]);
}

#[test]
fn sorting_is_by_code_points() {
    let sorted = sort_texts(strings(&["b", "a", "B", "", "ab", "é", "z", "a", "aa"]));
    let mut by_std = strings(&["b", "a", "B", "", "ab", "é", "z", "a", "aa"]);
    by_std.sort();
    assert_eq!(sorted, by_std);
    assert_eq!(sorted, vec!["", "B", "a", "a", "aa", "ab", "b", "z", "é"]);
    assert!(lex_le_chars(&chars("a"), &chars("a")));
    assert!(lex_le_chars(&chars(""), &chars("a")));
    assert!(!lex_le_chars(&chars("a"), &chars("")));
    assert!(lex_le_chars(&chars("\u{ff}"), &chars("\u{100}")));
    assert!(!lex_le_chars(&chars("😀"), &chars("\u{ffff}")));
}

#[test]
fn each_missing_file_has_a_line_or_stands_below_a_directory_shown() {
    let expected = strings(&[
        "/d/sub/1", "/d/sub/2", "/d/sub2/1", "/d/sub2/2", "/d/sub/deep/1", "/d/sub/deep/2",
        "/e/1", "/e/2", "/f/1",
    ]);
    let missing = strings(&["/d/sub/1", "/d/sub/2", "/d/sub2/1", "/d/sub/deep/2", "/e/2", "/f/1"]);
    let report = consolidate_missing_files(&missing, &expected);
    assert_eq!(report, vec!["/d/sub/*", "/e/2", "/f/*"]);
    for file in &missing {
        let directory = file.rsplit_once('/').map(|(d, _)| d).unwrap();
        let alone = report.contains(file);
        let below = report
            .iter()
            .filter_map(|line| line.strip_suffix("/*"))
            .any(|shown| directory.starts_with(shown));
        assert!(alone != below, "{}", file);
    }
}

#[test]
fn directories_of_one_depth_are_folded_in_the_order_of_the_missing_files() {
    let files = strings(&["/data/sub/a", "/data/subway/b"]);
    assert_eq!(consolidate_missing_files(&files, &files), vec!["/data/sub/*"]);
    let turned = strings(&["/data/subway/b", "/data/sub/a"]);
    assert_eq!(
        consolidate_missing_files(&turned, &files),
        vec!["/data/sub/*", "/data/subway/*"]
    );
}
