use just_bash::glob_escape::{
    escape_glob_chars, escape_regex_chars, has_glob_pattern, split_and_glob_expand,
    unescape_glob_pattern,
};

#[test]
fn test_has_glob_pattern() {
    assert!(has_glob_pattern("*.txt", false));
    assert!(has_glob_pattern("file?.rs", false));
    assert!(has_glob_pattern("[abc]", false));
    assert!(!has_glob_pattern("plain.txt", false));

    // Extglob patterns
    assert!(!has_glob_pattern("@(a|b)", false));
    assert!(has_glob_pattern("@(a|b)", true));
    assert!(has_glob_pattern("*(foo)", true));
    assert!(has_glob_pattern("+(bar)", true));
    assert!(has_glob_pattern("?(baz)", true));
    assert!(has_glob_pattern("!(qux)", true));
}

#[test]
fn test_unescape_glob_pattern() {
    assert_eq!(unescape_glob_pattern(r"\*"), "*");
    assert_eq!(unescape_glob_pattern(r"\?\["), "?[");
    assert_eq!(unescape_glob_pattern(r"a\*b"), "a*b");
    assert_eq!(unescape_glob_pattern("plain"), "plain");
}

#[test]
fn test_escape_glob_chars() {
    assert_eq!(escape_glob_chars("*"), r"\*");
    assert_eq!(escape_glob_chars("?"), r"\?");
    assert_eq!(escape_glob_chars("[a]"), r"\[a\]");
    assert_eq!(escape_glob_chars("plain"), "plain");
    assert_eq!(escape_glob_chars("a|b"), r"a\|b");
}

#[test]
fn test_escape_regex_chars() {
    assert_eq!(escape_regex_chars("a.b"), r"a\.b");
    assert_eq!(escape_regex_chars("a*b"), r"a\*b");
    assert_eq!(escape_regex_chars("[a]"), r"\[a\]");
    assert_eq!(escape_regex_chars("^$"), r"\^\$");
    assert_eq!(escape_regex_chars("plain"), "plain");
}

#[test]
fn split_and_glob_expand_noglob_passthrough() {
    let cwd = std::path::Path::new("/");
    let words = vec!["*.txt".to_string(), "plain".to_string()];
    let got = split_and_glob_expand(&words, cwd, false, false, true, false).unwrap();
    assert_eq!(got, words);
}

#[test]
fn split_and_glob_expand_no_fs_failglob() {
    let cwd = std::path::Path::new("/");
    let words = vec!["*.nothing".to_string()];
    let err = split_and_glob_expand(&words, cwd, true, false, false, false).unwrap_err();
    assert_eq!(err, "no match: *.nothing");
}

#[test]
fn split_and_glob_expand_no_fs_nullglob() {
    let cwd = std::path::Path::new("/");
    let words = vec!["a".to_string(), "*.nothing".to_string()];
    let got = split_and_glob_expand(&words, cwd, false, true, false, false).unwrap();
    assert_eq!(got, vec!["a".to_string()]);
}

#[test]
fn split_and_glob_expand_no_fs_literal_fallback() {
    let cwd = std::path::Path::new("/");
    let words = vec![r"a\*b".to_string()];
    let got = split_and_glob_expand(&words, cwd, false, false, false, false).unwrap();
    assert_eq!(got, vec!["a*b".to_string()]);
}

#[test]
fn escape_then_unescape_gives_back_the_text() {
    for s in ["", "plain", r"a*b?c[d]e\f(g)h|i", r"\\", "x.y^z$"] {
        assert_eq!(unescape_glob_pattern(&escape_glob_chars(s)), s);
        assert_eq!(unescape_glob_pattern(&escape_regex_chars(s)), s);
    }
}

#[test]
fn unescape_keeps_trailing_backslash() {
    assert_eq!(unescape_glob_pattern(r"ab\"), r"ab\");
    assert_eq!(unescape_glob_pattern(r"\\x"), r"\x");
}

#[test]
fn extglob_needs_opening_paren() {
    assert!(!has_glob_pattern("a@b", true));
    assert!(!has_glob_pattern("(x)", true));
    assert!(has_glob_pattern("x!(y)", true));
}

#[test]
fn split_and_glob_expand_first_failure_wins() {
    let cwd = std::path::Path::new("/");
    let words = vec!["ok".to_string(), "a?".to_string(), "b*".to_string()];
    let err = split_and_glob_expand(&words, cwd, true, false, false, false).unwrap_err();
    assert_eq!(err, "no match: a?");
    let got = split_and_glob_expand(&words, cwd, false, false, true, false).unwrap();
    assert_eq!(got, words);
}

#[test]
fn split_and_glob_expand_extglob_word() {
    let cwd = std::path::Path::new("/");
    let words = vec!["@(a|b)".to_string()];
    let got = split_and_glob_expand(&words, cwd, false, false, false, false).unwrap();
    assert_eq!(got, words);
    let got = split_and_glob_expand(&words, cwd, false, true, false, true).unwrap();
    assert!(got.is_empty());
}
