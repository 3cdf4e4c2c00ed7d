use archtree::error::ArchtreeError;
use archtree::exclusion::{extract_exclusion_patterns, is_excluded, ExclusionService};
use archtree::pattern::{
    ExclusionMatcher, GitIgnoreMatcher, SimpleWildcardMatcher, WildcardMatcher,
};
use archtree::text::has_run;

fn strings(items: &[&str]) -> Vec<String> {
    items.iter().map(|s| s.to_string()).collect()
}

#[test]
fn test_wildcard_to_regex() {
    assert_eq!(WildcardMatcher::wildcard_to_regex("*.txt"), "^.*\\.txt$");
    assert_eq!(WildcardMatcher::wildcard_to_regex("test?.log"), "^test.\\.log$");
    assert_eq!(WildcardMatcher::wildcard_to_regex("cache/*"), "^cache/.*$");
}

#[test]
fn wildcard_to_regex_escapes_every_metacharacter() {
    assert_eq!(
        WildcardMatcher::wildcard_to_regex(".^$()[]{}|+\\"),
        "^\\.\\^\\$\\(\\)\\[\\]\\{\\}\\|\\+\\\\$"
    );
    assert_eq!(WildcardMatcher::wildcard_to_regex(""), "^$");
    assert_eq!(WildcardMatcher::wildcard_to_regex("a-b#c"), "^a-b#c$");
}

#[test]
fn path_processor_test_wildcard_matcher() {
    let patterns = vec!["*.tmp".to_string(), "cache/*".to_string()];
    let matcher = WildcardMatcher::with_patterns(&patterns).unwrap();

    assert!(matcher.matches("file.tmp", ""));
    assert!(matcher.matches("cache/data.json", ""));
    assert!(!matcher.matches("file.txt", ""));
}

#[test]
fn exclusions_test_wildcard_matcher() {
    let patterns = vec!["*.tmp".to_string(), "cache/*".to_string()];
    let matcher = WildcardMatcher::with_patterns(&patterns).unwrap();

    assert!(matcher.matches("file.tmp", ""));
    assert!(matcher.matches("cache/data.json", ""));
    assert!(!matcher.matches("file.txt", ""));
}

#[test]
fn test_wildcard_matcher_basic() {
    let matcher = SimpleWildcardMatcher::new();

    // Test exact match
    assert!(matcher.matches("file.txt", "file.txt"));
    assert!(!matcher.matches("other.txt", "file.txt"));

    // Test wildcard *
    assert!(matcher.matches("file.txt", "*.txt"));
    assert!(matcher.matches("document.pdf", "*.pdf"));
    assert!(!matcher.matches("file.txt", "*.pdf"));

    // Test wildcard ?
    assert!(matcher.matches("file1.txt", "file?.txt"));
    assert!(matcher.matches("file2.txt", "file?.txt"));
    assert!(!matcher.matches("file10.txt", "file?.txt"));
}

#[test]
fn test_wildcard_matcher_paths() {
    let matcher = SimpleWildcardMatcher::new();

    // Test path patterns
    assert!(matcher.matches("C:\\temp\\file.txt", "*/temp/*"));
    assert!(matcher.matches("/home/user/file.txt", "*/user/*"));
    assert!(matcher.matches("C:\\Windows\\System32\\file.dll", "*system32*"));
}

#[test]
fn test_exclusion_service_filter() {
    let service = ExclusionService::new(SimpleWildcardMatcher::new());

    let paths = vec![
        "C:\\important.txt".to_string(),
        "C:\\temp.tmp".to_string(),
        "C:\\cache\\data.txt".to_string(),
        "C:\\document.pdf".to_string(),
    ];

    let exclude_patterns = vec!["*.tmp".to_string(), "*cache*".to_string()];

    let filtered = service.filter_excluded_paths(&paths, &exclude_patterns).unwrap();

    assert_eq!(filtered.len(), 2);
    assert!(filtered.contains(&"C:\\important.txt".to_string()));
    assert!(filtered.contains(&"C:\\document.pdf".to_string()));
}

#[test]
fn test_exclusion_service_apply() {
    let service = ExclusionService::new(SimpleWildcardMatcher::new());

    let paths = vec![
        "C:\\important.txt".to_string(),
        "!*.tmp".to_string(),
        "C:\\temp.tmp".to_string(),
        "!*cache*".to_string(),
        "C:\\cache\\data.txt".to_string(),
        "C:\\document.pdf".to_string(),
    ];

    let (filtered, excluded_count) = service.apply_exclusions(&paths).unwrap();

    assert_eq!(filtered.len(), 2);
    assert_eq!(excluded_count, 2);
    assert!(filtered.contains(&"C:\\important.txt".to_string()));
    assert!(filtered.contains(&"C:\\document.pdf".to_string()));
}

#[test]
fn simple_matcher_normalizes_the_pattern_too() {
    let matcher = SimpleWildcardMatcher::default();
    assert!(matcher.matches("/data/file.TMP", "*.Tmp"));
    assert!(matcher.matches("c:/temp/x", "C:\\Temp\\*"));
    assert!(!matcher.matches("/data/file.tmp", ""));
    assert!(matcher.matches("", ""));
    assert_eq!(
        matcher.description(),
        "Wildcard pattern matcher (supports * and ? wildcards)"
    );
}

#[test]
fn simple_matcher_falls_back_to_containment() {
    let huge = "?".repeat(1_000_000);
    let matcher = SimpleWildcardMatcher::new();
    assert!(!matcher.matches("/data/file.tmp", &huge));
    let path = format!("/data/{}/x", huge);
    assert!(matcher.matches(&path, &huge));
}

#[test]
fn runs_of_characters_are_found() {
    let chars = |s: &str| s.chars().collect::<Vec<char>>();
    for (text, needle) in [
        ("", ""),
        ("abc", ""),
        ("abc", "abc"),
        ("abc", "bc"),
        ("abc", "ab"),
        ("abc", "ac"),
        ("abc", "abcd"),
        ("aab", "ab"),
        ("ääb", "äb"),
        ("", "a"),
    ] {
        assert_eq!(has_run(&chars(text), &chars(needle)), text.contains(needle));
    }
}

#[test]
fn wildcard_matcher_normalizes_the_path() {
    let matcher = WildcardMatcher::with_patterns(&strings(&["*/temp/*", "*system32*"])).unwrap();
    assert!(matcher.matches("C:\\temp\\file.txt", ""));
    assert!(matcher.matches("C:\\Windows\\System32\\file.dll", ""));
    assert!(matcher.matches("/HOME/Temp/X", ""));
    assert!(!matcher.matches("/home/user/file.txt", ""));
}

#[test]
fn wildcard_matcher_normalizes_the_pattern() {
    let matcher =
        WildcardMatcher::with_patterns(&strings(&["*.TMP", "C:\\Cache\\*"])).unwrap();
    assert!(matcher.matches("/data/file.tmp", ""));
    assert!(matcher.matches("/data/FILE.Tmp", ""));
    assert!(matcher.matches("c:/cache/x.bin", ""));
    assert!(matcher.matches("C:\\CACHE\\x.bin", ""));
    assert!(!matcher.matches("/data/file.txt", ""));
}

#[test]
fn wildcard_matcher_question_mark_is_one_character() {
    let matcher = WildcardMatcher::with_patterns(&strings(&["file?.txt"])).unwrap();
    assert!(matcher.matches("file1.txt", ""));
    assert!(matcher.matches("file2.txt", ""));
    assert!(!matcher.matches("file10.txt", ""));
    assert!(!matcher.matches("file.txt", ""));
}

#[test]
fn wildcard_matcher_is_anchored_and_literal() {
    let matcher = WildcardMatcher::with_patterns(&strings(&["a.b"])).unwrap();
    assert!(matcher.matches("a.b", ""));
    assert!(!matcher.matches("axb", ""));
    assert!(!matcher.matches("xa.b", ""));
    assert!(!matcher.matches("a.bx", ""));
}

#[test]
fn wildcard_matcher_without_patterns_excludes_nothing() {
    let matcher = WildcardMatcher::new();
    assert!(!matcher.matches("file.tmp", "*.tmp"));
    assert!(!WildcardMatcher::default().matches("", ""));
}

#[test]
fn wildcard_matcher_ignores_the_pattern_it_is_asked_about() {
    let matcher = WildcardMatcher::with_patterns(&strings(&["*.tmp"])).unwrap();
    assert!(matcher.matches("a.tmp", "*.txt"));
    assert!(!matcher.matches("a.txt", "*.txt"));
}

#[test]
fn wildcard_matcher_rejects_a_pattern_that_is_too_big() {
    let huge = "?".repeat(1_000_000);
    let patterns = vec!["*.tmp".to_string(), huge.clone()];
    match WildcardMatcher::with_patterns(&patterns) {
        Err(ArchtreeError::PathProcessing { message, path, source }) => {
            assert_eq!(message, format!("Invalid exclusion pattern: {}", huge));
            assert_eq!(path.unwrap(), huge);
            assert!(source.is_some());
        }
        Ok(_) => panic!("the pattern was accepted"),
        Err(other) => panic!("unexpected: {:?}", other),
    }
}

#[test]
fn matcher_descriptions() {
    assert_eq!(
        WildcardMatcher::new().description(),
        "Wildcard pattern matcher (supports * and ? wildcards)"
    );
    assert_eq!(
        GitIgnoreMatcher::new().description(),
        "GitIgnore-style pattern matcher (future enhancement)"
    );
    assert!(!GitIgnoreMatcher::default().matches("a", "a"));
}

#[test]
fn test_exclusion_service_extract_patterns() {
    let service = ExclusionService::new(WildcardMatcher::new());

    let paths = vec![
        "C:\\file1.txt".to_string(),
        "!*.tmp".to_string(),
        "C:\\file2.txt".to_string(),
        "!*cache*".to_string(),
        "C:\\file3.txt".to_string(),
    ];

    let (include_paths, exclude_patterns) = service.extract_exclusion_patterns(&paths);

    assert_eq!(include_paths.len(), 3);
    assert_eq!(exclude_patterns.len(), 2);
    assert_eq!(exclude_patterns[0], "*.tmp");
    assert_eq!(exclude_patterns[1], "*cache*");
}

#[test]
fn test_no_exclusions() {
    let service = ExclusionService::new(WildcardMatcher::new());

    let paths = vec!["C:\\file1.txt".to_string(), "C:\\file2.txt".to_string()];

    let (filtered, excluded_count) = service.apply_exclusions(&paths).unwrap();

    assert_eq!(filtered.len(), 2);
    assert_eq!(excluded_count, 0);
}

#[test]
fn extract_keeps_order_and_drops_empty_lines() {
    let (wanted, unwanted) =
        extract_exclusion_patterns(&strings(&["b", "", "!x", "a", "!", "!!y", "b"]));
    assert_eq!(wanted, vec!["b", "a", "b"]);
    assert_eq!(unwanted, vec!["x", "", "!y"]);
    let (wanted, unwanted) = extract_exclusion_patterns(&[]);
    assert!(wanted.is_empty());
    assert!(unwanted.is_empty());
}

#[test]
fn exclusion_service_filters_through_its_matcher() {
    let patterns = strings(&["*.tmp", "*cache*"]);
    let service = ExclusionService::new(WildcardMatcher::with_patterns(&patterns).unwrap());
    let paths = strings(&[
        "C:\\important.txt",
        "C:\\temp.tmp",
        "C:\\cache\\data.txt",
        "C:\\document.pdf",
    ]);

    let filtered = service.filter_excluded_paths(&paths, &patterns).unwrap();

    assert_eq!(filtered, vec!["C:\\important.txt", "C:\\document.pdf"]);
    assert_eq!(
        service.matcher_info(),
        "Wildcard pattern matcher (supports * and ? wildcards)"
    );
}

#[test]
fn exclusion_service_applies_the_patterns_among_the_lines() {
    let patterns = strings(&["*.tmp", "*cache*"]);
    let service = ExclusionService::new(WildcardMatcher::with_patterns(&patterns).unwrap());
    let lines = strings(&[
        "C:\\important.txt",
        "!*.tmp",
        "C:\\temp.tmp",
        "!*cache*",
        "C:\\cache\\data.txt",
        "C:\\document.pdf",
    ]);

    let (filtered, excluded_count) = service.apply_exclusions(&lines).unwrap();

    assert_eq!(filtered, vec!["C:\\important.txt", "C:\\document.pdf"]);
    assert_eq!(excluded_count, 2);
}

#[test]
fn nothing_is_excluded_without_a_pattern_to_ask_about() {
    let matcher = WildcardMatcher::with_patterns(&strings(&["*.tmp"])).unwrap();
    assert!(!is_excluded(&matcher, "a.tmp", &[]));
    assert!(is_excluded(&matcher, "a.tmp", &strings(&["anything"])));
    let service = ExclusionService::new(matcher);
    let kept = service.filter_excluded_paths(&strings(&["a.tmp"]), &[]).unwrap();
    assert_eq!(kept, vec!["a.tmp"]);
}
