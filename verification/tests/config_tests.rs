use minigrep::matching_lines;
use minigrep::Config;
use minigrep::ConfigError;

#[test]
fn build_without_any_argument_misses_the_query() {
    let args: Vec<String> = vec!["program".to_string()];
    let err = Config::build(&args, false).unwrap_err();
    assert_eq!(ConfigError::MissingQuery, err);

    let no_args: Vec<String> = Vec::new();
    let err = Config::build(&no_args, false).unwrap_err();
    assert_eq!(ConfigError::MissingQuery, err);
}

#[test]
fn build_without_file_path_misses_the_file_path() {
    let args: Vec<String> = vec!["program".to_string(), "safe".to_string()];
    let err = Config::build(&args, false).unwrap_err();
    assert_eq!(ConfigError::MissingFilePath, err);
}

#[test]
fn build_records_query_path_and_flag() {
    let args: Vec<String> = vec![
        "program".to_string(),
        "safe".to_string(),
        "poem.txt".to_string(),
    ];
    let config = Config::build(&args, true).unwrap();
    assert_eq!("safe", config.query);
    assert_eq!("poem.txt", config.file_path);
    assert!(config.case_insensitive);

    let config = Config::build(&args, false).unwrap();
    assert!(!config.case_insensitive);
}

#[test]
fn error_messages_name_what_is_missing() {
    assert_eq!(
        "Didn't get a query string",
        ConfigError::MissingQuery.message()
    );
    assert_eq!(
        "Didn't get a file path",
        ConfigError::MissingFilePath.message()
    );
}

#[test]
fn matching_lines_follows_the_case_flag() {
    let file_content = "\
Rust:
safe, fast, productive.
Pick three.";
    let args: Vec<String> = vec![
        "program".to_string(),
        "Ree".to_string(),
        "poem.txt".to_string(),
    ];

    let exact = Config::build(&args, false).unwrap();
    assert_eq!(Vec::<&str>::new(), matching_lines(&exact, file_content));

    let relaxed = Config::build(&args, true).unwrap();
    assert_eq!(vec!["Pick three."], matching_lines(&relaxed, file_content));
}
