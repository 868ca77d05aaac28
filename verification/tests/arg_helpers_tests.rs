use just_bash::arg_helpers::{files_or_stdin, invalid_option, invalid_option_line, wants_help};

#[test]
fn wants_help_finds_exact_flag() {
    assert!(wants_help(&["-n".to_string(), "--help".to_string()]));
    assert!(!wants_help(&["--helpme".to_string(), "-h".to_string()]));
    assert!(!wants_help(&[]));
}

#[test]
fn invalid_option_formats() {
    assert_eq!(invalid_option("sort", "z"), "sort: invalid option -- 'z'\n");
    assert_eq!(invalid_option_line("sort", "z"), "sort: invalid option -- 'z'");
}

#[test]
fn files_or_stdin_defaults_to_dash() {
    assert_eq!(files_or_stdin(vec![]), vec!["-".to_string()]);
    let files = vec!["a".to_string(), "b".to_string()];
    assert_eq!(files_or_stdin(files.clone()), files);
}
