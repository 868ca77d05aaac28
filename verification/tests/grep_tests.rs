use just_bash::builtin_dispatch::ExecResult;
use just_bash::grep::{grep_execute, parse_grep_args, plan_grep, FileRead, GrepCommand, GrepPlan};

/// Runs `grep` with the given in-memory files; missing files fail the way
/// the shell's file reader reports them.
fn run_grep(args: &[&str], files: &[(&str, &str)], stdin: &str) -> ExecResult {
    let args: Vec<String> = args.iter().map(|s| s.to_string()).collect();
    match plan_grep(&args) {
        GrepPlan::Finished(r) => r,
        GrepPlan::Search { opts, re, files: names } => {
            let reads: Vec<FileRead> = names
                .iter()
                .map(|n| match files.iter().find(|(p, _)| p == n) {
                    Some((_, c)) => FileRead::Content(c.to_string()),
                    None if n == "-" => FileRead::Content(stdin.to_string()),
                    None => FileRead::Failed {
                        message: format!("grep: {}: No such file or directory\n", n),
                        exit_code: 1,
                    },
                })
                .collect();
            grep_execute(&opts, &re, &names, &reads, stdin)
        }
    }
}

#[test]
fn test_basic_match() {
    let result = run_grep(&["hello", "/test.txt"], &[("/test.txt", "hello world\nfoo bar\nhello again\n")], "");
    assert!(result.stdout.contains("hello world"));
    assert!(result.stdout.contains("hello again"));
    assert!(!result.stdout.contains("foo bar"));
    assert_eq!(result.exit_code, 0);
}

#[test]
fn test_ignore_case() {
    let result = run_grep(&["-i", "HELLO", "/test.txt"], &[("/test.txt", "Hello World\nhello world\n")], "");
    assert!(result.stdout.contains("Hello World"));
    assert!(result.stdout.contains("hello world"));
}

#[test]
fn test_long_flags_ignore_case_line_number() {
    let result = run_grep(&["--ignore-case", "--line-number", "x", "/t.txt"], &[("/t.txt", "X\ny\n")], "");
    assert_eq!(result.stdout, "1:X\n");
    assert_eq!(result.exit_code, 0);
}

#[test]
fn test_invert() {
    let result = run_grep(&["-v", "hello", "/test.txt"], &[("/test.txt", "hello\nworld\nhello again\n")], "");
    assert_eq!(result.stdout.trim(), "world");
}

#[test]
fn test_count() {
    let result = run_grep(&["-c", "hello", "/test.txt"], &[("/test.txt", "hello\nworld\nhello again\n")], "");
    assert_eq!(result.stdout.trim(), "2");
}

#[test]
fn test_line_number() {
    let result = run_grep(&["-n", "hello", "/test.txt"], &[("/test.txt", "hello\nworld\nhello again\n")], "");
    assert!(result.stdout.contains("1:hello"));
    assert!(result.stdout.contains("3:hello again"));
}

#[test]
fn test_no_match_exit_code() {
    let result = run_grep(&["notfound", "/test.txt"], &[("/test.txt", "hello world\n")], "");
    assert_eq!(result.exit_code, 1);
    assert!(result.stdout.is_empty());
}

#[test]
fn test_fixed_strings() {
    let result = run_grep(&["-F", "a.b", "/test.txt"], &[("/test.txt", "a.b\naXb\n")], "");
    assert_eq!(result.stdout.trim(), "a.b");
}

#[test]
fn test_files_with_matches() {
    let result = run_grep(&["-l", "needle", "/a.txt", "/b.txt"], &[("/a.txt", "x\n"), ("/b.txt", "needle\n")], "");
    assert!(result.stdout.contains("/b.txt"));
    assert!(!result.stdout.contains("/a.txt"));
}

#[test]
fn test_files_without_match() {
    let result = run_grep(&["-L", "needle", "/a.txt", "/b.txt"], &[("/a.txt", "none\n"), ("/b.txt", "needle\n")], "");
    assert!(result.stdout.contains("/a.txt"));
    assert!(!result.stdout.contains("/b.txt"));
}

#[test]
fn test_only_matching() {
    let result = run_grep(&["-o", "[0-9]+", "/t.txt"], &[("/t.txt", "a 12 b 3\n")], "");
    assert_eq!(result.stdout.trim(), "12\n3");
}

#[test]
fn test_quiet_finds_match() {
    let result = run_grep(&["-q", "yes", "/t.txt"], &[("/t.txt", "yes\n")], "");
    assert!(result.stdout.is_empty());
    assert_eq!(result.exit_code, 0);
}

#[test]
fn test_max_count() {
    let result = run_grep(&["-m", "1", "a", "/t.txt"], &[("/t.txt", "a\na\n")], "");
    let lines: Vec<_> = result.stdout.lines().collect();
    assert_eq!(lines.len(), 1);
}

#[test]
fn test_e_single_pattern() {
    let result = run_grep(&["-e", "^f", "/t.txt"], &[("/t.txt", "foo\nbar\n")], "");
    assert_eq!(result.stdout, "foo\n");
}

#[test]
fn test_multiple_e_patterns_alternate() {
    let result = run_grep(&["-e", "foo", "-e", "bar", "/t.txt"], &[("/t.txt", "foo\nx\nbar\n")], "");
    assert_eq!(result.stdout, "foo\nbar\n");
}

#[test]
fn test_extended_regexp() {
    let result = run_grep(&["-E", "a+", "/t.txt"], &[("/t.txt", "a\nbbb\naa\n")], "");
    assert!(result.stdout.contains("a"));
    assert!(result.stdout.contains("aa"));
    assert!(!result.stdout.contains("bbb"));
}

#[test]
fn test_multi_file_shows_prefix() {
    let result = run_grep(&["x", "/a.txt", "/b.txt"], &[("/a.txt", "x\n"), ("/b.txt", "y\n")], "");
    assert!(result.stdout.contains("/a.txt:"));
}

#[test]
fn test_single_file_no_prefix() {
    let result = run_grep(&["line", "/only.txt"], &[("/only.txt", "line\n")], "");
    assert_eq!(result.stdout.trim(), "line");
    assert!(!result.stdout.contains("/only.txt:"));
}

#[test]
fn test_missing_file_stderr() {
    let result = run_grep(&["a", "/nope.txt"], &[], "");
    assert_eq!(result.exit_code, 1);
    assert!(result.stderr.contains("No such file"));
}

#[test]
fn test_stdin_when_no_files() {
    let result = run_grep(&["pat"], &[], "pat\nno\n");
    assert_eq!(result.stdout.trim(), "pat");
}

#[test]
fn test_empty_file() {
    let result = run_grep(&["test", "/empty.txt"], &[("/empty.txt", "")], "");
    assert_eq!(result.stdout, "");
    assert_eq!(result.exit_code, 1);
}

#[test]
fn test_empty_pattern_matches_all() {
    let result = run_grep(&["", "/test.txt"], &[("/test.txt", "hello\nworld\n")], "");
    assert_eq!(result.stdout, "hello\nworld\n");
}

#[test]
fn test_invalid_pattern() {
    let result = run_grep(&["[", "/t.txt"], &[("/t.txt", "x\n")], "");
    assert_ne!(result.exit_code, 0);
    assert!(
        result.stderr.contains("invalid pattern"),
        "expected regex compile error, got stderr={:?}",
        result.stderr
    );
}

#[test]
fn grep_help_and_missing_pattern() {
    let r = run_grep(&["--help"], &[], "");
    assert!(r.stdout.starts_with("Usage: grep [OPTION]... PATTERN [FILE]...\n\nSearch for PATTERN"));
    assert_eq!(r.exit_code, 0);
    let r = run_grep(&[], &[], "");
    assert_eq!(r.stderr, "grep: no pattern specified\n");
    assert_eq!(r.exit_code, 1);
    assert_eq!(GrepCommand.name(), "grep");
}

#[test]
fn grep_parses_max_count_forms() {
    let args = |v: &[&str]| v.iter().map(|s| s.to_string()).collect::<Vec<_>>();
    assert_eq!(parse_grep_args(&args(&["-m3", "x"])).ok().unwrap().max_count, Some(3));
    assert_eq!(parse_grep_args(&args(&["-m", "+7", "x"])).ok().unwrap().max_count, Some(7));
    assert_eq!(parse_grep_args(&args(&["-m", "-1", "x"])).ok().unwrap().max_count, None);
    assert_eq!(parse_grep_args(&args(&["x", "-m"])).ok().unwrap().max_count, None);
    assert_eq!(parse_grep_args(&args(&["-m", "18446744073709551616", "x"])).ok().unwrap().max_count, None);
    assert_eq!(parse_grep_args(&args(&["-m", "18446744073709551615", "x"])).ok().unwrap().max_count, Some(usize::MAX));
    assert_eq!(parse_grep_args(&args(&["-m", "", "x"])).ok().unwrap().max_count, None);
    assert_eq!(parse_grep_args(&args(&["-m", "+", "x"])).ok().unwrap().max_count, None);
    assert_eq!(parse_grep_args(&args(&["-m", "1a", "x"])).ok().unwrap().max_count, None);
    assert_eq!(parse_grep_args(&args(&["-m", "007", "x"])).ok().unwrap().max_count, Some(7));
    let o = parse_grep_args(&args(&["-e", "p", "a", "b"])).ok().unwrap();
    assert_eq!(o.pattern_parts, vec!["p".to_string()]);
    assert_eq!(o.files, vec!["a".to_string(), "b".to_string()]);
}

#[test]
fn grep_max_count_zero_keeps_no_line() {
    let result = run_grep(&["-m", "0", "a", "/t.txt"], &[("/t.txt", "a\na\n")], "");
    assert_eq!(result.stdout, "");
    assert_eq!(result.exit_code, 1);
}

#[test]
fn grep_parses_long_max_count() {
    let args: Vec<String> = ["--max-count=1", "a", "/t.txt"].iter().map(|s| s.to_string()).collect();
    let o = parse_grep_args(&args).ok().unwrap();
    assert_eq!(o.max_count, Some(1));
    assert_eq!(o.pattern_parts, vec!["a".to_string()]);
    assert_eq!(o.files, vec!["/t.txt".to_string()]);
    let result = run_grep(&["--max-count=2", "a", "/t.txt"], &[("/t.txt", "a\nb\na\na\n")], "");
    assert_eq!(result.stdout, "a\na\n");
}

#[test]
fn grep_fixed_strings_are_newline_separated() {
    let result = run_grep(&["-F", "a\nb", "/t.txt"], &[("/t.txt", "a\nb\nc\n")], "");
    assert_eq!(result.stdout, "a\nb\n");
    assert_eq!(result.exit_code, 0);
    let result = run_grep(&["-F", "-e", "x.y\nq", "/t"], &[("/t", "x.y\nxzy\nq\n")], "");
    assert_eq!(result.stdout, "x.y\nq\n");
}

#[test]
fn grep_crlf_lines_and_count_with_names() {
    let result = run_grep(&["-c", "b", "/x", "/y"], &[("/x", "b\r\nb\r\n"), ("/y", "c")], "");
    assert_eq!(result.stdout, "/x:2\n/y:0\n");
    let result = run_grep(&["-n", "b$", "/x"], &[("/x", "ab\r\nb\r")], "");
    assert_eq!(result.stdout, "1:ab\n");
}

#[test]
fn grep_quiet_discards_output_and_later_errors() {
    let result = run_grep(&["-q", "z", "/a", "/nope", "/b"], &[("/a", "q\n"), ("/b", "z\n")], "");
    assert_eq!(result.stdout, "");
    assert_eq!(result.exit_code, 0);
    assert!(result.stderr.contains("/nope"));
}

#[test]
fn grep_fixed_strings_escape_and_alternation() {
    let result = run_grep(&["-F", "-e", "a|b", "-e", "(", "/t"], &[("/t", "a|b\nab\n(x\n")], "");
    assert_eq!(result.stdout, "a|b\n(x\n");
}
