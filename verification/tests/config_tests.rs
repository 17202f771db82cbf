use dupfinder::config::{parse_args, ConfigError, ParsedCommand, ScanConfig};
use dupfinder::index::FingerprintIndex;

fn words(args: &[&str]) -> Vec<String> {
    args.iter().map(|a| a.to_string()).collect()
}

#[test]
fn parse_empty_args_asks_for_help() {
    assert_eq!(parse_args(&Vec::new()), Ok(ParsedCommand::Help));
}

#[test]
fn parse_help_flag() {
    assert_eq!(parse_args(&words(&["prog", "--help"])), Ok(ParsedCommand::Help));
}

#[test]
fn parse_help_wins_over_later_arguments() {
    assert_eq!(
        parse_args(&words(&["prog", "--verbose", "--help", "somewhere"])),
        Ok(ParsedCommand::Help)
    );
}

#[test]
fn parse_flags_and_path() {
    let parsed = parse_args(&words(&["prog", "--verbose", "--recursive", "/tmp/scanme"]));
    assert_eq!(
        parsed,
        Ok(ParsedCommand::Run(ScanConfig {
            verbose: true,
            recursive: true,
            path: Some("/tmp/scanme".to_string()),
        }))
    );
}

#[test]
fn parse_defaults_are_off() {
    let parsed = parse_args(&words(&["prog", "here"]));
    assert_eq!(
        parsed,
        Ok(ParsedCommand::Run(ScanConfig {
            verbose: false,
            recursive: false,
            path: Some("here".to_string()),
        }))
    );
}

#[test]
fn parse_two_paths_is_a_fatal_error() {
    assert_eq!(
        parse_args(&words(&["prog", "first", "second"])),
        Err(ConfigError::TwoPaths("first".to_string(), "second".to_string()))
    );
}

#[test]
fn missing_path_is_reported() {
    let cfg = ScanConfig { verbose: false, recursive: false, path: None };
    assert_eq!(cfg.root_path(), Err(ConfigError::MissingPath));
}

#[test]
fn configured_path_is_returned() {
    let cfg = ScanConfig { verbose: false, recursive: false, path: Some("spot".to_string()) };
    assert_eq!(cfg.root_path(), Ok(&"spot".to_string()));
}

#[test]
fn index_groups_by_fingerprint() {
    let mut idx = FingerprintIndex::new();
    idx.insert(7, "a".to_string());
    idx.insert(9, "b".to_string());
    idx.insert(7, "c".to_string());
    let dups = idx.duplicate_groups();
    assert_eq!(dups, vec![(7u16, vec!["a".to_string(), "c".to_string()])]);
}

#[test]
fn index_with_singleton_groups_has_no_duplicates() {
    let mut idx = FingerprintIndex::new();
    idx.insert(1, "a".to_string());
    idx.insert(2, "b".to_string());
    assert!(idx.duplicate_groups().is_empty());
}

#[test]
fn help_prints_nothing_and_returns() {
    dupfinder::help();
}
