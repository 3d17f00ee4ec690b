use minigrep::Config;
use minigrep::ParseError;

#[test]
fn build_parses_positional_arguments() {
    let args = vec!["prog".to_string(), "foo".to_string(), "bar.txt".to_string()];
    let config = match Config::build(&args, false) {
        Ok(config) => config,
        Err(_) => panic!("expected a Config"),
    };

    assert_eq!("foo", config.query);
    assert_eq!("bar.txt", config.file_path);
    assert!(!config.ignore_case);
}

#[test]
fn build_sees_the_ignore_case_flag() {
    let args = vec![
        "prog".to_string(),
        "foo".to_string(),
        "bar.txt".to_string(),
        "--ignore-case".to_string(),
    ];
    let config = match Config::build(&args, false) {
        Ok(config) => config,
        Err(_) => panic!("expected a Config"),
    };

    assert!(config.ignore_case);
}

#[test]
fn build_without_query_fails() {
    let args = vec!["prog".to_string()];

    assert!(matches!(
        Config::build(&args, false),
        Err(ParseError::MissingQuery)
    ));
}

#[test]
fn build_without_any_token_fails() {
    let args: Vec<String> = Vec::new();

    assert!(matches!(
        Config::build(&args, false),
        Err(ParseError::MissingQuery)
    ));
}

#[test]
fn build_without_file_path_fails() {
    let args = vec!["prog".to_string(), "foo".to_string()];

    assert!(matches!(
        Config::build(&args, false),
        Err(ParseError::MissingFilePath)
    ));
}

#[test]
fn build_takes_ignore_case_from_the_environment() {
    let args = vec!["prog".to_string(), "foo".to_string(), "bar.txt".to_string()];
    let config = match Config::build(&args, true) {
        Ok(config) => config,
        Err(_) => panic!("expected a Config"),
    };

    assert!(config.ignore_case);
}

#[test]
fn flag_in_a_positional_slot_is_data() {
    let args = vec![
        "prog".to_string(),
        "--ignore-case".to_string(),
        "bar.txt".to_string(),
    ];
    let config = match Config::build(&args, false) {
        Ok(config) => config,
        Err(_) => panic!("expected a Config"),
    };

    assert_eq!("--ignore-case", config.query);
    assert!(!config.ignore_case);
}

#[test]
fn parse_error_messages() {
    assert_eq!("Didn't get a query string", ParseError::MissingQuery.message());
    assert_eq!("Didn't get a filepath", ParseError::MissingFilePath.message());
}

#[test]
fn matching_lines_respects_case_by_default() {
    let args = vec!["prog".to_string(), "rUsT".to_string(), "f".to_string()];
    let config = match Config::build(&args, false) {
        Ok(config) => config,
        Err(_) => panic!("expected a Config"),
    };

    assert!(config.matching_lines("Rust:\nTrust me.").is_empty());
}

#[test]
fn matching_lines_can_ignore_case() {
    let args = vec![
        "prog".to_string(),
        "rUsT".to_string(),
        "f".to_string(),
        "--ignore-case".to_string(),
    ];
    let config = match Config::build(&args, false) {
        Ok(config) => config,
        Err(_) => panic!("expected a Config"),
    };

    assert_eq!(
        vec!["Rust:", "Trust me."],
        config.matching_lines("Rust:\nsafe, fast, productive.\nTrust me.")
    );
}
