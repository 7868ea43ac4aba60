use minigrep::config::Config;

fn args(values: &[&str]) -> Vec<String> {
    values.iter().map(|s| s.to_string()).collect()
}

#[test]
fn missing_query_is_an_error() {
    let err = Config::new(args(&["minigrep"]), false);
    assert_eq!(Err("Didn't get query string"), err.map(|_| ()));
    let err = Config::new(Vec::new(), false);
    assert!(err.is_err());
}

#[test]
fn query_alone_defaults_to_sensitive_piped_input() {
    let config = Config::new(args(&["minigrep", "needle"]), false).unwrap();
    assert_eq!("needle", config.query);
    assert_eq!("", config.source);
    assert!(config.case_sensitive);
    assert!(!config.exit);
}

#[test]
fn query_and_file_are_taken_in_order() {
    let config = Config::new(args(&["minigrep", "needle", "notes.txt"]), false).unwrap();
    assert_eq!("needle", config.query);
    assert_eq!("notes.txt", config.source);
    assert!(config.case_sensitive);
    assert!(!config.exit);
}

#[test]
fn insensitive_flag_after_file_turns_case_off() {
    let config = Config::new(args(&["minigrep", "needle", "notes.txt", "-i"]), false).unwrap();
    assert!(!config.case_sensitive);
    assert!(!config.exit);
}

#[test]
fn insensitive_flag_in_place_of_file_turns_case_off() {
    let config = Config::new(args(&["minigrep", "needle", "-i"]), false).unwrap();
    assert_eq!("-i", config.source);
    assert!(!config.case_sensitive);
    assert!(!config.exit);
}

#[test]
fn environment_default_turns_case_off() {
    let config = Config::new(args(&["minigrep", "needle", "notes.txt"]), true).unwrap();
    assert!(!config.case_sensitive);
    assert!(!config.exit);
}

#[test]
fn help_flag_requests_exit() {
    let config = Config::new(args(&["minigrep", "needle", "-h"]), false).unwrap();
    assert!(config.exit);
    assert!(!config.case_sensitive);
    let config = Config::new(args(&["minigrep", "needle", "notes.txt", "-h"]), false).unwrap();
    assert!(config.exit);
}
