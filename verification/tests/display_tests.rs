use archtree::diff::VerificationResult;
use archtree::display::{
    bullet_lines, ConsolidatedDisplayStrategy, DetailedDisplayStrategy, DisplayStrategy,
    MissingFileDisplayContext, MissingFileDisplayStrategy,
};

fn strings(items: &[&str]) -> Vec<String> {
    items.iter().map(|s| s.to_string()).collect()
}

#[test]
fn test_detailed_strategy_name() {
    let strategy = DetailedDisplayStrategy;
    assert_eq!(strategy.name(), "detailed");
}

#[test]
fn test_consolidated_strategy_name() {
    let strategy = ConsolidatedDisplayStrategy;
    assert_eq!(strategy.name(), "consolidated");
}

#[test]
fn test_context_creation() {
    let context = MissingFileDisplayContext::with_detailed_strategy();
    assert_eq!(context.strategy_name(), "detailed");

    let context = MissingFileDisplayContext::with_consolidated_strategy();
    assert_eq!(context.strategy_name(), "consolidated");
}

fn sample() -> VerificationResult {
    VerificationResult {
        missing_files: strings(&["/data/sub/b.txt", "/data/sub/a.txt", "/data/x.txt"]),
        archived_files: strings(&["/data/y.txt"]),
        all_expected_files: strings(&[
            "/data/sub/b.txt",
            "/data/sub/a.txt",
            "/data/x.txt",
            "/data/y.txt",
        ]),
        total_expected: 4,
        total_archived: 1,
    }
}

#[test]
fn detailed_display_lists_every_missing_file_in_order() {
    let lines = DetailedDisplayStrategy.display_missing_files(&sample());
    assert_eq!(
        lines,
        vec!["    - /data/sub/b.txt", "    - /data/sub/a.txt", "    - /data/x.txt"]
    );
}

#[test]
fn consolidated_display_lists_the_consolidated_report() {
    let lines = ConsolidatedDisplayStrategy.display_missing_files(&sample());
    assert_eq!(lines, vec!["    - /data/sub/*", "    - /data/x.txt"]);
}

#[test]
fn context_displays_by_its_strategy_and_can_change_it() {
    let mut context = MissingFileDisplayContext::new(DisplayStrategy::Detailed(
        DetailedDisplayStrategy,
    ));
    assert_eq!(context.display_missing_files(&sample()).len(), 3);
    context.set_strategy(DisplayStrategy::Consolidated(ConsolidatedDisplayStrategy));
    assert_eq!(context.strategy_name(), "consolidated");
    assert_eq!(context.display_missing_files(&sample()).len(), 2);
}

#[test]
fn bullet_lines_of_nothing_are_none() {
    assert!(bullet_lines(&[]).is_empty());
    assert_eq!(bullet_lines(&strings(&[""])), vec!["    - "]);
}
