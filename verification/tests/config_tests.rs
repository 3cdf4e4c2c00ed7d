use archtree::config::{trim_text, Config, ConfigBuilder};
use archtree::error::ArchtreeError;

#[test]
fn test_default_config() {
    let config = Config::builder().build();

    assert!(config.is_err());
}

#[test]
fn test_config_with_custom_values() {
    let config = Config::builder()
        .output_path(Some("custom.7z"), None)
        .show_progress(false)
        .seven_zip_path(Some("C:\\custom\\7z.exe"), None)
        .build()
        .expect("Failed to create custom config");

    assert_eq!(config.output_path, "custom.7z");
    assert!(!config.show_progress);
    assert_eq!(config.seven_zip_path.unwrap(), "C:\\custom\\7z.exe");
}

#[test]
fn config_takes_environment_values_when_nothing_is_given() {
    let config = Config::builder()
        .output_path(None, Some("test-archive.7z"))
        .seven_zip_path(None, Some("test-7z.exe"))
        .build()
        .expect("Failed to create config from environment");

    assert_eq!(config.output_path, "test-archive.7z");
    assert_eq!(config.seven_zip_path.unwrap(), "test-7z.exe");
}

#[test]
fn config_prefers_the_given_value() {
    let config = ConfigBuilder::new()
        .output_path(Some("given.7z"), Some("from-env.7z"))
        .build()
        .unwrap();
    assert_eq!(config.output_path, "given.7z");
}

#[test]
fn config_falls_back_when_the_given_value_is_blank() {
    let config = ConfigBuilder::new()
        .output_path(Some("   "), Some("  from-env.7z \t"))
        .show_progress(true)
        .build()
        .unwrap();
    assert_eq!(config.output_path, "from-env.7z");
    assert!(config.show_progress);
    assert!(config.seven_zip_path.is_none());
}

#[test]
fn config_keeps_an_earlier_value_without_a_new_one() {
    let config = ConfigBuilder::new()
        .output_path(Some("first.7z"), None)
        .output_path(Some(" "), None)
        .build()
        .unwrap();
    assert_eq!(config.output_path, "first.7z");
}

#[test]
fn config_trims_the_output_path() {
    let config = ConfigBuilder::new().output_path(Some("  out.7z  "), None).build().unwrap();
    assert_eq!(config.output_path, "out.7z");
}

#[test]
fn config_without_output_path_names_the_reason() {
    match ConfigBuilder::default().build() {
        Err(ArchtreeError::Config { message, source }) => {
            assert_eq!(message, "Output path must be set");
            assert!(source.is_none());
        }
        other => panic!("unexpected: {:?}", other),
    }
}

#[test]
fn config_with_blank_environment_value_is_empty() {
    match ConfigBuilder::new().output_path(None, Some("   ")).build() {
        Err(ArchtreeError::Config { message, .. }) => {
            assert_eq!(message, "Output path cannot be empty");
        }
        other => panic!("unexpected: {:?}", other),
    }
}

#[test]
fn trim_text_removes_unicode_white_space() {
    assert_eq!(trim_text("\u{3000}\t a b \u{2003}\r\n"), "a b");
    assert_eq!(trim_text("\u{200B}x"), "\u{200B}x");
    assert_eq!(trim_text(" \n "), "");
    assert_eq!(trim_text(""), "");
}
