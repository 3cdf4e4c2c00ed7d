use archtree::error::{ArchtreeError, ErrorContext};

#[test]
fn errors_present_themselves() {
    assert_eq!(ArchtreeError::config("bad").to_string(), "Configuration error: bad");
    assert_eq!(ArchtreeError::io("gone").to_string(), "I/O error: gone");
    assert_eq!(
        ArchtreeError::path_processing("no", Some("/a")).to_string(),
        "Path processing error for '/a': no"
    );
    assert_eq!(
        ArchtreeError::path_processing("no", None).to_string(),
        "Path processing error: no"
    );
    assert_eq!(
        ArchtreeError::verification("lost", Some("a.7z")).to_string(),
        "Verification error for 'a.7z': lost"
    );
    assert_eq!(ArchtreeError::verification("lost", None).to_string(), "Verification error: lost");
    assert_eq!(
        ArchtreeError::external_tool("7z", "failed").to_string(),
        "External tool error (7z): failed"
    );
    assert_eq!(ArchtreeError::other("odd").to_string(), "Error: odd");
}

#[test]
fn errors_keep_the_text_of_their_cause() {
    match ArchtreeError::config_with_source("bad", "cause") {
        ArchtreeError::Config { message, source } => {
            assert_eq!(message, "bad");
            assert_eq!(source.unwrap(), "cause");
        }
        other => panic!("unexpected: {:?}", other),
    }
    match ArchtreeError::io_with_source("gone", "disk") {
        ArchtreeError::Io { message, source } => {
            assert_eq!(message, "gone");
            assert_eq!(source.unwrap(), "disk");
        }
        other => panic!("unexpected: {:?}", other),
    }
    match ArchtreeError::path_processing_with_source("no", Some("/a"), "why") {
        ArchtreeError::PathProcessing { message, path, source } => {
            assert_eq!(message, "no");
            assert_eq!(path.unwrap(), "/a");
            assert_eq!(source.unwrap(), "why");
        }
        other => panic!("unexpected: {:?}", other),
    }
    match ArchtreeError::external_tool_with_source("7z", "failed", "exit 2") {
        ArchtreeError::ExternalTool { tool, message, source } => {
            assert_eq!(tool, "7z");
            assert_eq!(message, "failed");
            assert_eq!(source.unwrap(), "exit 2");
        }
        other => panic!("unexpected: {:?}", other),
    }
}

#[test]
fn context_keeps_ok_and_wraps_errors() {
    let ok: Result<u8, String> = Ok(7);
    assert_eq!(ok.context_io("reading").unwrap(), 7);

    let failed: Result<u8, String> = Err("denied".to_string());
    match failed.context_io("reading") {
        Err(ArchtreeError::Io { message, source }) => {
            assert_eq!(message, "reading");
            assert_eq!(source.unwrap(), "denied");
        }
        other => panic!("unexpected: {:?}", other),
    }

    let failed: Result<u8, String> = Err("denied".to_string());
    match failed.context_config("loading") {
        Err(ArchtreeError::Config { message, source }) => {
            assert_eq!(message, "loading");
            assert_eq!(source.unwrap(), "denied");
        }
        other => panic!("unexpected: {:?}", other),
    }

    let failed: Result<u8, String> = Err("denied".to_string());
    match failed.context_path("walking", "/a") {
        Err(ArchtreeError::PathProcessing { message, path, source }) => {
            assert_eq!(message, "walking");
            assert_eq!(path.unwrap(), "/a");
            assert_eq!(source.unwrap(), "denied");
        }
        other => panic!("unexpected: {:?}", other),
    }

    let failed: Result<u8, String> = Err("denied".to_string());
    match failed.context_verification("checking", "a.7z") {
        Err(ArchtreeError::Verification { message, archive_path, source }) => {
            assert_eq!(message, "checking");
            assert_eq!(archive_path.unwrap(), "a.7z");
            assert!(source.is_none());
        }
        other => panic!("unexpected: {:?}", other),
    }

    let failed: Result<u8, String> = Err("denied".to_string());
    match failed.context_external("7z", "running") {
        Err(ArchtreeError::ExternalTool { tool, message, source }) => {
            assert_eq!(tool, "7z");
            assert_eq!(message, "running");
            assert_eq!(source.unwrap(), "denied");
        }
        other => panic!("unexpected: {:?}", other),
    }
}
