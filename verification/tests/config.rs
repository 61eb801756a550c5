use tokcount::config::{parse_args, ConfigError};

fn args(items: &[&str]) -> Vec<String> {
    items.iter().map(|s| s.to_string()).collect()
}

#[test]
fn no_arguments_means_current_directory_and_all_files() {
    let parsed = parse_args(&args(&["prog"])).unwrap();
    assert_eq!(parsed.directory, ".");
    assert!(parsed.file_extensions.is_empty());
}

#[test]
fn empty_command_line_is_accepted() {
    let parsed = parse_args(&vec![]).unwrap();
    assert_eq!(parsed.directory, ".");
    assert!(parsed.file_extensions.is_empty());
}

#[test]
fn positional_arguments_are_extensions() {
    let parsed = parse_args(&args(&["prog", "rs", "ts"])).unwrap();
    assert_eq!(parsed.directory, ".");
    assert_eq!(parsed.file_extensions, args(&["rs", "ts"]));
}

#[test]
fn flag_sets_the_directory() {
    let parsed = parse_args(&args(&["prog", "rs", "-d", "/tmp/x", "go"])).unwrap();
    assert_eq!(parsed.directory, "/tmp/x");
    assert_eq!(parsed.file_extensions, args(&["rs", "go"]));
}

#[test]
fn last_flag_wins() {
    let parsed = parse_args(&args(&["prog", "-d", "a", "-d", "b"])).unwrap();
    assert_eq!(parsed.directory, "b");
    assert!(parsed.file_extensions.is_empty());
}

#[test]
fn flag_takes_the_next_argument_whatever_it_is() {
    let parsed = parse_args(&args(&["prog", "-d", "-d", "rs"])).unwrap();
    assert_eq!(parsed.directory, "-d");
    assert_eq!(parsed.file_extensions, args(&["rs"]));
}

#[test]
fn program_name_is_not_read_as_flag() {
    let parsed = parse_args(&args(&["-d", "rs"])).unwrap();
    assert_eq!(parsed.directory, ".");
    assert_eq!(parsed.file_extensions, args(&["rs"]));
}

#[test]
fn flag_without_directory_is_an_error() {
    assert!(matches!(parse_args(&args(&["prog", "-d"])), Err(ConfigError::MissingDirectory)));
    assert!(matches!(parse_args(&args(&["prog", "rs", "-d"])), Err(ConfigError::MissingDirectory)));
}

#[test]
fn errors_have_messages() {
    assert_eq!(ConfigError::MissingDirectory.message(), "Error: -d option requires a directory path");
    assert_eq!(
        ConfigError::NotADirectory.message(),
        "Error: The specified directory does not exist or is not a directory"
    );
}
