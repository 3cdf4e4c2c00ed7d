use archtree::archiver::{join_texts, Archiver, SevenZipArchiver};
use archtree::flow::{
    Call, ConsoleCallback, Effect, Outcome, Stage, VerificationAndRetryService,
    VerificationEvent, VerificationFlow, VerificationMode,
};
use archtree::input::{parse_paths, FileReader, InputReader, StdinReader, VecReader};
use archtree::validation::{FileSystemValidator, PathProbe, PathValidator};

fn strings(items: &[&str]) -> Vec<String> {
    items.iter().map(|s| s.to_string()).collect()
}

fn step(flow: &mut VerificationFlow, outcome: Outcome) -> (Vec<Effect>, Call) {
    let reaction = flow.step(outcome).expect("the flow waits for this outcome");
    (reaction.effects, reaction.call)
}

fn emit(event: VerificationEvent) -> Effect {
    Effect::Emit(event)
}

#[test]
fn test_vec_reader() {
    let input_paths = vec!["C:\\Users\\test\\Documents".to_string(), "D:\\Projects".to_string()];

    let reader = VecReader::new(input_paths.clone());
    let paths = reader.read_paths("").unwrap();

    assert_eq!(paths, input_paths);
}

#[test]
fn test_seven_zip_archiver_name() {
    let archiver = SevenZipArchiver::new();
    assert_eq!(archiver.name(), "7-Zip");
}

#[test]
fn readers_trim_lines_and_drop_empty_ones() {
    let content = "C:\\path\\one\nC:\\path\\two\n\n  C:\\path\\three  \n";
    let paths = FileReader::new("input.txt").read_paths(content).unwrap();
    assert_eq!(paths.len(), 3);
    assert_eq!(paths[0], "C:\\path\\one");
    assert_eq!(paths[1], "C:\\path\\two");
    assert_eq!(paths[2], "C:\\path\\three");
    assert_eq!(StdinReader::new().read_paths(" a \r\n\t\r\nb").unwrap(), vec!["a", "b"]);
    assert!(parse_paths("").is_empty());
    assert!(parse_paths(" \n\n\t").is_empty());
    assert_eq!(FileReader::new("input.txt").file_path, "input.txt");
}

#[test]
fn validator_judges_the_answers_of_the_file_system() {
    let validator = FileSystemValidator::new();
    assert!(validator.validate("/a", &PathProbe::Found).unwrap());
    assert!(!validator.validate("/a", &PathProbe::NotFound).unwrap());
    match validator.validate("/a", &PathProbe::Failed("denied".to_string())) {
        Err(e) => assert_eq!(
            e.to_string(),
            "Path processing error for '/a': Failed to validate path"
        ),
        Ok(_) => panic!("a failed question was accepted"),
    }
    assert!(validator.is_valid_path(&PathProbe::Found));
    assert!(!validator.is_valid_path(&PathProbe::NotFound));
    assert!(!validator.is_valid_path(&PathProbe::Failed("denied".to_string())));
    assert_eq!(
        validator.description(),
        "File system validator (checks if path exists and is accessible)"
    );
}

#[test]
fn validator_keeps_the_paths_that_were_found() {
    let validator = FileSystemValidator::default();
    let paths = strings(&["/a", "/b", "/c", "/d"]);
    let probes = vec![PathProbe::Found, PathProbe::NotFound, PathProbe::Found];
    assert_eq!(validator.validate_paths(&paths, &probes).unwrap(), vec!["/a", "/c"]);
    let probes = vec![
        PathProbe::Found,
        PathProbe::Failed("denied".to_string()),
        PathProbe::Failed("later".to_string()),
    ];
    match validator.validate_paths(&paths, &probes) {
        Err(archtree::error::ArchtreeError::PathProcessing { path, source, .. }) => {
            assert_eq!(path.unwrap(), "/b");
            assert_eq!(source.unwrap(), "denied");
        }
        other => panic!("unexpected: {:?}", other),
    }
}

#[test]
fn archiver_builds_its_command_lines() {
    let archiver = SevenZipArchiver::with_path("/opt/7z".to_string());
    assert_eq!(archiver.program(), "/opt/7z");
    assert_eq!(SevenZipArchiver::default().program(), "7z.exe");
    assert_eq!(
        archiver.create_arguments("out.7z", "/tmp/list.txt"),
        vec!["a", "-spf", "-sccUTF-8", "-tzip", "out.7z", "@/tmp/list.txt"]
    );
    assert_eq!(
        archiver.add_arguments("out.7z", "/tmp/list.txt"),
        vec!["u", "-spf", "-sccUTF-8", "-tzip", "out.7z", "@/tmp/list.txt"]
    );
    assert_eq!(archiver.list_content(&strings(&["/a", "/b c", "/d"])), "/a\r\n/b c\r\n/d");
    assert_eq!(archiver.list_content(&strings(&["/a"])), "/a");
    assert_eq!(archiver.list_content(&[]), "");
    assert_eq!(join_texts(&strings(&["", ""]), ", "), ", ");
}

#[test]
fn archiver_judges_its_runs() {
    let archiver = SevenZipArchiver::new();
    assert!(archiver.create_archive(true, b"ok", b"").is_ok());
    match archiver.create_archive(false, b"out", b"err") {
        Err(e) => assert_eq!(
            e.to_string(),
            "External tool error (7z): 7z command failed:\nStderr: err\nStdout: out"
        ),
        Ok(_) => panic!("a failed run was accepted"),
    }
    assert!(archiver.add_to_archive(true, b"", b"").is_ok());
    match archiver.add_to_archive(false, b"out", &[0xff]) {
        Err(e) => assert_eq!(
            e.to_string(),
            "External tool error (7z): 7z update command failed:\nStderr: \u{fffd}\nStdout: out"
        ),
        Ok(_) => panic!("a failed run was accepted"),
    }
}

#[test]
fn a_complete_archive_ends_after_one_comparison() {
    let mut flow = VerificationAndRetryService::verify(VerificationMode::VerifyOnly);
    assert_eq!(
        step(&mut flow, Outcome::Begin),
        (vec![emit(VerificationEvent::Starting)], Call::VerifyArchive)
    );
    assert_eq!(
        step(&mut flow, Outcome::Verified { missing: 0, found: 3, total_expected: 3 }),
        (
            vec![
                emit(VerificationEvent::ComparisonComplete {
                    missing: 0,
                    found: 3,
                    total_expected: 3
                }),
                emit(VerificationEvent::Complete { mode: VerificationMode::VerifyOnly }),
            ],
            Call::ReturnFirst
        )
    );
    assert!(flow.is_done());
    assert!(flow.step(Outcome::Begin).is_none());
}

#[test]
fn missing_files_are_shown_and_not_retried_without_the_mode() {
    let mut flow = VerificationAndRetryService::verify_with_freshness(
        VerificationMode::VerifyOnly,
        true,
        true,
    );
    step(&mut flow, Outcome::Begin);
    assert_eq!(
        step(&mut flow, Outcome::Verified { missing: 2, found: 1, total_expected: 3 }),
        (
            vec![
                emit(VerificationEvent::ComparisonComplete {
                    missing: 2,
                    found: 1,
                    total_expected: 3
                }),
                emit(VerificationEvent::DisplayingMissingFiles { count: 2 }),
                Effect::ShowMissingFiles,
            ],
            Call::ReturnFirst
        )
    );
    assert!(flow.is_done());
}

#[test]
fn a_retry_adds_the_missing_files_and_verifies_again() {
    let mut flow = VerificationAndRetryService::verify(VerificationMode::VerifyWithRetry);
    step(&mut flow, Outcome::Begin);
    let (_, call) = step(&mut flow, Outcome::Verified { missing: 2, found: 1, total_expected: 3 });
    assert_eq!(call, Call::ValidateMissing);
    assert_eq!(
        step(&mut flow, Outcome::Validated { valid_missing: 1 }),
        (vec![emit(VerificationEvent::RetryStarting { files_to_retry: 1 })], Call::AddMissing)
    );
    assert_eq!(flow.stage, Stage::Adding { valid: 1 });
    assert_eq!(
        step(&mut flow, Outcome::Added),
        (vec![emit(VerificationEvent::RetryComplete { files_added: 1 })], Call::VerifyArchive)
    );
    assert_eq!(
        step(&mut flow, Outcome::Verified { missing: 1, found: 2, total_expected: 3 }),
        (
            vec![emit(VerificationEvent::RetryVerificationComplete {
                final_missing: 1,
                final_found: 2,
                final_total: 3
            })],
            Call::ReturnRetry
        )
    );
    assert!(flow.is_done());
}

#[test]
fn a_retry_that_finds_every_file_is_complete() {
    let mut flow = VerificationFlow::new(VerificationMode::VerifyWithRetry, true, false);
    step(&mut flow, Outcome::Begin);
    step(&mut flow, Outcome::Verified { missing: 1, found: 0, total_expected: 1 });
    step(&mut flow, Outcome::Validated { valid_missing: 1 });
    step(&mut flow, Outcome::Added);
    assert_eq!(
        step(&mut flow, Outcome::Verified { missing: 0, found: 1, total_expected: 1 }),
        (
            vec![
                emit(VerificationEvent::RetryVerificationComplete {
                    final_missing: 0,
                    final_found: 1,
                    final_total: 1
                }),
                emit(VerificationEvent::Complete { mode: VerificationMode::VerifyWithRetry }),
            ],
            Call::ReturnRetry
        )
    );
}

#[test]
fn a_retry_without_a_file_that_exists_ends_with_a_warning() {
    let mut flow = VerificationAndRetryService::verify(VerificationMode::VerifyWithRetry);
    step(&mut flow, Outcome::Begin);
    step(&mut flow, Outcome::Verified { missing: 2, found: 0, total_expected: 2 });
    assert_eq!(
        step(&mut flow, Outcome::Validated { valid_missing: 0 }),
        (vec![Effect::WarnNothingToRetry], Call::ReturnFirst)
    );
    assert!(flow.is_done());
}

#[test]
fn times_are_compared_when_no_file_is_missing() {
    let mut flow = VerificationAndRetryService::verify_with_freshness(
        VerificationMode::VerifyWithRetry,
        true,
        true,
    );
    step(&mut flow, Outcome::Begin);
    assert_eq!(
        step(&mut flow, Outcome::Verified { missing: 0, found: 2, total_expected: 2 }),
        (
            vec![
                emit(VerificationEvent::ComparisonComplete {
                    missing: 0,
                    found: 2,
                    total_expected: 2
                }),
                emit(VerificationEvent::Complete { mode: VerificationMode::VerifyWithRetry }),
                emit(VerificationEvent::FreshnessCheckStarting),
            ],
            Call::CheckFreshness
        )
    );
    assert_eq!(
        step(
            &mut flow,
            Outcome::FreshnessChecked {
                outdated: 1,
                up_to_date: 0,
                unverifiable: 1,
                total_checked: 2
            }
        ),
        (
            vec![
                emit(VerificationEvent::FreshnessCheckComplete {
                    outdated: 1,
                    up_to_date: 0,
                    unverifiable: 1,
                    total_checked: 2
                }),
                emit(VerificationEvent::DisplayingOutdatedFiles { count: 1 }),
                Effect::ShowOutdatedFiles,
                emit(VerificationEvent::UpdatingOutdatedFiles { files_to_update: 1 }),
            ],
            Call::AddOutdated
        )
    );
    assert_eq!(
        step(&mut flow, Outcome::Added),
        (
            vec![
                emit(VerificationEvent::UpdateOutdatedComplete { files_updated: 1 }),
                Effect::AnnounceUpdate,
                Effect::ShowUnverifiableFiles,
            ],
            Call::ReturnFirst
        )
    );
    assert!(flow.is_done());
}

#[test]
fn outdated_files_are_only_shown_without_the_update() {
    let mut flow =
        VerificationAndRetryService::verify_with_freshness(VerificationMode::VerifyOnly, true, false);
    step(&mut flow, Outcome::Begin);
    step(&mut flow, Outcome::Verified { missing: 0, found: 2, total_expected: 2 });
    let (effects, call) = step(
        &mut flow,
        Outcome::FreshnessChecked { outdated: 2, up_to_date: 0, unverifiable: 0, total_checked: 2 },
    );
    assert_eq!(call, Call::ReturnFirst);
    assert_eq!(effects.len(), 3);
    assert_eq!(effects[2], Effect::ShowOutdatedFiles);
}

#[test]
fn files_that_are_all_up_to_date_end_the_comparison() {
    let mut flow =
        VerificationAndRetryService::verify_with_freshness(VerificationMode::VerifyOnly, true, true);
    step(&mut flow, Outcome::Begin);
    step(&mut flow, Outcome::Verified { missing: 0, found: 2, total_expected: 2 });
    assert_eq!(
        step(
            &mut flow,
            Outcome::FreshnessChecked {
                outdated: 0,
                up_to_date: 1,
                unverifiable: 1,
                total_checked: 2
            }
        ),
        (
            vec![
                emit(VerificationEvent::FreshnessCheckComplete {
                    outdated: 0,
                    up_to_date: 1,
                    unverifiable: 1,
                    total_checked: 2
                }),
                Effect::ShowUnverifiableFiles,
            ],
            Call::ReturnFirst
        )
    );
}

#[test]
fn an_outcome_that_is_not_awaited_changes_nothing() {
    let mut flow = VerificationAndRetryService::verify(VerificationMode::VerifyWithRetry);
    assert!(flow.step(Outcome::Added).is_none());
    assert!(flow.step(Outcome::Validated { valid_missing: 1 }).is_none());
    assert_eq!(flow.stage, Stage::Start);
    step(&mut flow, Outcome::Begin);
    assert!(flow.step(Outcome::Begin).is_none());
    assert_eq!(flow.stage, Stage::Verifying);
}

#[test]
fn console_callback_writes_what_it_presents_itself() {
    let shown = ConsoleCallback::new(true);
    let hidden = ConsoleCallback::new(false);
    let events = [
        (VerificationEvent::Starting, true),
        (VerificationEvent::ArchiveListingComplete { entries_found: 3 }, false),
        (VerificationEvent::ComparisonComplete { missing: 0, found: 1, total_expected: 1 }, true),
        (VerificationEvent::DisplayingMissingFiles { count: 1 }, false),
        (VerificationEvent::FreshnessCheckStarting, true),
        (VerificationEvent::DisplayingOutdatedFiles { count: 1 }, false),
        (VerificationEvent::RetryStarting { files_to_retry: 1 }, true),
        (VerificationEvent::Complete { mode: VerificationMode::VerifyOnly }, true),
    ];
    for (event, written) in events {
        assert_eq!(shown.is_written(&event), written);
        assert!(!hidden.is_written(&event));
    }
    let only = VerificationEvent::Complete { mode: VerificationMode::VerifyOnly };
    let retry = VerificationEvent::Complete { mode: VerificationMode::VerifyWithRetry };
    assert!(shown.hints_at_retry(&only));
    assert!(!shown.hints_at_retry(&retry));
    assert!(!shown.hints_at_retry(&VerificationEvent::Starting));
    assert!(!hidden.hints_at_retry(&only));
}
