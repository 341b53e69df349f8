use ccwc::Config;
use ccwc::ConfigError;

fn args(tokens: &[&str]) -> Vec<String> {
    tokens.iter().map(|t| t.to_string()).collect()
}

#[test]
fn test_build_single_path_no_flags() {
    let a = args(&["prog", "poem.txt"]);
    let c = Config::build(&a).unwrap();
    assert_eq!(c.file_path, "poem.txt");
    assert!(!c.bytes_arg);
    assert!(!c.lines_arg);
    assert!(!c.words_arg);
}

#[test]
fn test_build_flags_in_any_order() {
    let a = args(&["prog", "-w", "poem.txt", "-c"]);
    let c = Config::build(&a).unwrap();
    assert_eq!(c.file_path, "poem.txt");
    assert!(c.bytes_arg);
    assert!(!c.lines_arg);
    assert!(c.words_arg);

    let a = args(&["prog", "-c", "-l", "-w", "poem.txt"]);
    let c = Config::build(&a).unwrap();
    assert_eq!(c.file_path, "poem.txt");
    assert!(c.bytes_arg);
    assert!(c.lines_arg);
    assert!(c.words_arg);
}

#[test]
fn test_build_without_path_fails() {
    let a = args(&["prog", "-c", "-l"]);
    let e = Config::build(&a).unwrap_err();
    assert_eq!(e, ConfigError::MissingFilePath);

    let a = args(&["prog"]);
    let e = Config::build(&a).unwrap_err();
    assert_eq!(e, ConfigError::MissingFilePath);
}

#[test]
fn test_build_last_positional_token_wins() {
    let a = args(&["prog", "first.txt", "-l", "second.txt"]);
    let c = Config::build(&a).unwrap();
    assert_eq!(c.file_path, "second.txt");
    assert!(c.lines_arg);
}

#[test]
fn test_build_unrecognized_dash_token_is_a_path() {
    let a = args(&["prog", "-x", "-c"]);
    let c = Config::build(&a).unwrap();
    assert_eq!(c.file_path, "-x");
    assert!(c.bytes_arg);
}

#[test]
fn test_build_empty_final_token_fails() {
    let a = args(&["prog", "real.txt", ""]);
    let e = Config::build(&a).unwrap_err();
    assert_eq!(e, ConfigError::MissingFilePath);
}

#[test]
fn test_error_message_text() {
    let a = args(&["prog", "-w"]);
    let e = Config::build(&a).unwrap_err();
    assert_eq!(e.message(), "File path required");
}
