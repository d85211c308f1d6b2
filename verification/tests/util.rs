use tinylex::util::{parse_arguments, parse_cli, Arguments, CliAction, RunMode};

#[test]
fn test_parse_arguments_log_level() {
    let mut args = vec!["filename".to_string(), "-Lnone".to_string()];
    let mut a: Arguments = parse_arguments(&args);
    assert_eq!(a.loglevel, tinylex::logger::NONE);
    args = vec!["filename".to_string(), "-Ldebug".to_string()];
    a = parse_arguments(&args);
    assert_eq!(a.loglevel, tinylex::logger::DEBUG);
    args = vec!["filename".to_string(), "-L2".to_string()];
    a = parse_arguments(&args);
    assert_eq!(a.loglevel, tinylex::logger::PRINT);
}

#[test]
fn test_parse_arguments_files() {
    let mut args = vec!["filename".to_string(), "file1".to_string()];
    let mut a: Arguments = parse_arguments(&args);
    assert_eq!(a.mode, RunMode::File);
    assert_eq!(a.in_file_path, Some("file1".to_string()));
    args = vec![
        "filename".to_string(),
        "file1".to_string(),
        "-o=file2".to_string(),
    ];
    a = parse_arguments(&args);
    assert_eq!(a.mode, RunMode::File);
    assert_eq!(a.in_file_path, Some("file1".to_string()));
    assert_eq!(a.out_file_path, Some("file2".to_string()));
}

#[test]
fn test_parse_arguments_repl() {
    let args = vec!["filename".to_string()];
    let a: Arguments = parse_arguments(&args);
    assert_eq!(a.mode, RunMode::Repl);
}

#[test]
fn parse_cli_reports_explicit_help() {
    let args = vec!["filename".to_string(), "--help".to_string()];
    match parse_cli(&args) {
        CliAction::Help { short } => assert!(!short),
        CliAction::Run(_) => panic!("--help must request the help text"),
    }
}

#[test]
fn parse_cli_reports_unrecognized_option() {
    let args = vec!["filename".to_string(), "-x".to_string()];
    match parse_cli(&args) {
        CliAction::Help { short } => assert!(short),
        CliAction::Run(_) => panic!("an unrecognized option must request the short usage text"),
    }
}

#[test]
fn bad_log_level_stops_parsing() {
    let args = vec![
        "filename".to_string(),
        "-Lx".to_string(),
        "file1".to_string(),
    ];
    let a = parse_arguments(&args);
    assert_eq!(a.loglevel, 1);
    assert_eq!(a.mode, RunMode::Repl);
    assert_eq!(a.in_file_path, None);
}

#[test]
fn out_of_range_log_level_is_still_set() {
    let args = vec!["filename".to_string(), "-L9".to_string()];
    let a = parse_arguments(&args);
    assert_eq!(a.loglevel, 9);
}

#[test]
fn short_argument_stops_parsing() {
    let args = vec![
        "filename".to_string(),
        "x".to_string(),
        "file1".to_string(),
    ];
    let a = parse_arguments(&args);
    assert_eq!(a.mode, RunMode::Repl);
    assert_eq!(a.in_file_path, None);
}

#[test]
fn later_input_file_replaces_earlier() {
    let args = vec![
        "filename".to_string(),
        "one".to_string(),
        "two".to_string(),
    ];
    let a = parse_arguments(&args);
    assert_eq!(a.in_file_path, Some("two".to_string()));
}

#[test]
fn out_flag_takes_text_after_last_equals() {
    let args = vec!["filename".to_string(), "-o=a=b".to_string()];
    let a = parse_arguments(&args);
    assert_eq!(a.out_file_path, Some("b".to_string()));
}

#[test]
fn out_flag_without_equals_sets_nothing() {
    let args = vec!["filename".to_string(), "-out".to_string()];
    let a = parse_arguments(&args);
    assert_eq!(a.out_file_path, None);
}

#[test]
fn default_arguments_run_the_prompt() {
    let a = Arguments::default();
    assert_eq!(a.loglevel, 1);
    assert_eq!(a.mode, RunMode::Repl);
    assert_eq!(a.in_file_path, None);
    assert_eq!(a.out_file_path, None);
}
