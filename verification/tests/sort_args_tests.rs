use just_bash::sort_args::parse_sort_args;

fn args(v: &[&str]) -> Vec<String> {
    v.iter().map(|s| s.to_string()).collect()
}

#[test]
fn sort_short_flags_cluster() {
    let (o, files) = parse_sort_args(&args(&["-rnu", "a.txt"]));
    assert!(o.reverse && o.numeric && o.unique);
    assert!(!o.ignore_case && !o.check);
    assert_eq!(files, args(&["a.txt"]));
}

#[test]
fn sort_long_flags_and_values() {
    let (o, files) = parse_sort_args(&args(&[
        "--reverse",
        "--output=out.txt",
        "--key=2,2n",
        "--field-separator=:x",
        "--bogus",
        "f",
    ]));
    assert!(o.reverse);
    assert_eq!(o.output_file, Some("out.txt".to_string()));
    assert_eq!(o.keys, args(&["2,2n"]));
    assert_eq!(o.field_separator, Some(':'));
    assert_eq!(files, args(&["f"]));
}

#[test]
fn sort_value_options_take_next_argument() {
    let (o, files) = parse_sort_args(&args(&["-o", "out", "-k", "1", "-t", ",", "in"]));
    assert_eq!(o.output_file, Some("out".to_string()));
    assert_eq!(o.keys, args(&["1"]));
    assert_eq!(o.field_separator, Some(','));
    assert_eq!(files, args(&["in"]));
}

#[test]
fn sort_value_attached_ends_cluster() {
    let (o, files) = parse_sort_args(&args(&["-nk2r", "-to", "x"]));
    assert!(o.numeric);
    assert!(!o.reverse);
    assert_eq!(o.keys, args(&["2r"]));
    assert_eq!(o.field_separator, Some('o'));
    assert_eq!(files, args(&["x"]));
}

#[test]
fn sort_double_dash_ends_options() {
    let (o, files) = parse_sort_args(&args(&["-r", "--", "-n", "--check", "-"]));
    assert!(o.reverse && !o.numeric && !o.check);
    assert_eq!(files, args(&["-n", "--check", "-"]));
}

#[test]
fn sort_trailing_value_option_and_empty_separator() {
    let (o, files) = parse_sort_args(&args(&["-k"]));
    assert!(o.keys.is_empty());
    assert!(files.is_empty());
    let (o, _) = parse_sort_args(&args(&["-t", ""]));
    assert_eq!(o.field_separator, None);
    let (o, _) = parse_sort_args(&args(&["--field-separator="]));
    assert_eq!(o.field_separator, None);
}
