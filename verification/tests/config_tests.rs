use minigrep::{Config, ConfigError};

fn args(list: &[&str]) -> Vec<String> {
    list.iter().map(|s| s.to_string()).collect()
}

#[test]
fn config_from_full_arguments() {
    let config = Config::new(args(&["prog", "needle", "notes.txt"]), true).unwrap();
    assert_eq!(config.query, "needle");
    assert_eq!(config.filename, "notes.txt");
    assert!(config.case_sensitive);

    let config = Config::new(args(&["prog", "needle", "notes.txt"]), false).unwrap();
    assert!(!config.case_sensitive);
}

#[test]
fn config_extra_arguments_are_ignored() {
    let config = Config::new(args(&["prog", "q", "f", "extra"]), false).unwrap();
    assert_eq!(config.query, "q");
    assert_eq!(config.filename, "f");
}

#[test]
fn config_missing_query() {
    assert!(matches!(
        Config::new(args(&[]), false),
        Err(ConfigError::MissingQuery)
    ));
    assert!(matches!(
        Config::new(args(&["prog"]), true),
        Err(ConfigError::MissingQuery)
    ));
}

#[test]
fn config_missing_filename() {
    assert!(matches!(
        Config::new(args(&["prog", "needle"]), false),
        Err(ConfigError::MissingFilename)
    ));
}

#[test]
fn config_error_messages() {
    assert_eq!(ConfigError::MissingQuery.message(), "Can't find query string.");
    assert_eq!(
        ConfigError::MissingFilename.message(),
        "Can't find file name."
    );
}
