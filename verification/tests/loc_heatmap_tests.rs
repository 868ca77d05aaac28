use just_bash::loc_heatmap::{cfg_test_regions, heatmap_report, line_stats, prefix_for, strip_line_comment, LocRow};

#[test]
fn strip_line_comment_outside_strings() {
    assert_eq!(strip_line_comment("let x = 1; // note"), "let x = 1; ");
    assert_eq!(strip_line_comment("let s = \"a // b\"; // c"), "let s = \"a // b\"; ");
    assert_eq!(strip_line_comment("let s = \"a \\\" // b\";"), "let s = \"a \\\" // b\";");
    assert_eq!(strip_line_comment("no comment"), "no comment");
    assert_eq!(strip_line_comment("// all"), "");
    assert_eq!(strip_line_comment("é // x"), "é ");
}

#[test]
fn prefix_for_buckets() {
    let p = |v: &[&str]| v.iter().map(|s| s.to_string()).collect::<Vec<_>>();
    assert_eq!(prefix_for(&p(&["src", "commands", "grep.rs"])), "src/commands");
    assert_eq!(prefix_for(&p(&["src", "lib.rs"])), "src/lib.rs");
    assert_eq!(prefix_for(&p(&["tests", "a.rs"])), "tests");
    assert_eq!(prefix_for(&p(&[])), "");
}

#[test]
fn cfg_test_regions_finds_modules() {
    let text = "fn a() {}\n#[cfg(test)]\n\nmod tests {\n    #[test]\n    fn t() { let s = \"{\"; } // }\n}\nfn b() {}\n";
    let lines: Vec<&str> = text.lines().collect();
    assert_eq!(cfg_test_regions(&lines), vec![(3, 8)]);
    let (total, test, prod) = line_stats(text);
    assert_eq!((total, test, prod), (8, 5, 3));
}

#[test]
fn cfg_test_without_module_is_ignored() {
    let lines = vec!["#[cfg(test)]", "fn x() {", "}", "#[cfg(test)]"];
    assert!(cfg_test_regions(&lines).is_empty());
    let lines = vec!["  #[cfg(test)]  ", "mod t { }", "x"];
    assert_eq!(cfg_test_regions(&lines), vec![(1, 2)]);
    assert_eq!(line_stats(""), (0, 0, 0));
}

fn row(rel: &str, prefix: &str, in_tests_dir: bool, total: u32, test: u32, prod: u32) -> LocRow {
    LocRow { rel: rel.to_string(), prefix: prefix.to_string(), in_tests_dir, total, test, prod }
}

fn expected_head() -> String {
    let mut s = String::new();
    s.push_str("just-bash LOC heatmap (cfg(test) mod blocks in src; tests/*.rs counted as all test)\n");
    s.push_str(&format!("{}\n", "=".repeat(72)));
    s.push_str(&format!("{:<28} {:>8} {:>10} {:>10}\n", "scope", "total", "non-test", "test-ish"));
    s.push_str(&format!("{}\n", "-".repeat(72)));
    s
}

#[test]
fn heatmap_report_layout() {
    let rows = vec![
        row("src/lib.rs", "src/lib.rs", false, 10, 4, 6),
        row("tests/t.rs", "tests", true, 5, 0, 5),
        row("src/grep/mod.rs", "src/grep", false, 10, 0, 10),
        row("src/grep/tests.rs", "src/grep", false, 3, 3, 0),
    ];
    let mut want = expected_head();
    want.push_str(&format!("{:<28} {:>8} {:>10} {:>10}\n", "src/grep", 13, 10, 3));
    want.push_str(&format!("{:<28} {:>8} {:>10} {:>10}\n", "src/lib.rs", 10, 6, 4));
    want.push_str(&format!("{:<28} {:>8} {:>10} {:>10}  (integration tests dir)\n", "tests", 5, 0, 5));
    want.push_str(&format!("{}\n", "-".repeat(72)));
    want.push_str(&format!("{:<28} {:>8} {:>10} {:>10}\n", "ALL (src+tests)", 28, 16, 12));
    want.push_str("\nLargest files (total lines, non-test, test-ish, path)\n");
    want.push_str(&format!("{}\n", "-".repeat(72)));
    want.push_str("    10      6      4  src/lib.rs\n");
    want.push_str("    10     10      0  src/grep/mod.rs\n");
    want.push_str("     5      0      5  tests/t.rs\n");
    want.push_str("     3      0      3  src/grep/tests.rs\n");
    assert_eq!(heatmap_report(&rows), want);
}

#[test]
fn heatmap_report_lists_at_most_35_files() {
    let rows: Vec<LocRow> = (0..40u32).map(|i| row(&format!("src/f{}.rs", i), "src/x", false, i, 0, i)).collect();
    let text = heatmap_report(&rows);
    let listed: Vec<&str> = text.lines().skip_while(|l| !l.starts_with("Largest files")).skip(2).collect();
    assert_eq!(listed.len(), 35);
    assert_eq!(listed[0], "    39     39      0  src/f39.rs");
    assert_eq!(listed[34], "     5      5      0  src/f5.rs");
}

#[test]
fn heatmap_report_of_no_files() {
    let mut want = expected_head();
    want.push_str(&format!("{}\n", "-".repeat(72)));
    want.push_str(&format!("{:<28} {:>8} {:>10} {:>10}\n", "ALL (src+tests)", 0, 0, 0));
    want.push_str("\nLargest files (total lines, non-test, test-ish, path)\n");
    want.push_str(&format!("{}\n", "-".repeat(72)));
    assert_eq!(heatmap_report(&[]), want);
}

#[test]
fn unicode_white_space_is_trimmed() {
    assert_eq!(line_stats("\u{3000}#[cfg(test)]\u{a0}\nmod t {\n}\n"), (3, 2, 1));
    assert_eq!(line_stats("\u{200b}#[cfg(test)]\nmod t {\n}\n"), (3, 0, 3));
}
