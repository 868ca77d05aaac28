use just_bash::gzip_codec::compress_gzip_default;
use just_bash::tar_helpers::{
    archive_open_error, archive_source, stdin_archive_bytes, unpack_archive_bytes, ArchiveSource,
};
use just_bash::tar_helpers::{
    collect_error, directory_entry, file_entry, format_mode, format_mtime, is_leap_year,
    strip_components, CollectWalk, VisitOutcome, basename_of, matches_exclude, pattern_with_slash,
    ExcludeGlobs,
};
use just_bash::text::sorted_names;

#[test]
fn strip_components_drops_leading_parts() {
    assert_eq!(strip_components("a/b/c.txt", 0), "a/b/c.txt");
    assert_eq!(strip_components("a/b/c.txt", 1), "b/c.txt");
    assert_eq!(strip_components("/a//b/c/", 2), "c");
    assert_eq!(strip_components("a/b", 2), "");
    assert_eq!(strip_components("a/b", 5), "");
}

#[test]
fn tar_format_mode_bits() {
    assert_eq!(format_mode(0o755, true), "drwxr-xr-x");
    assert_eq!(format_mode(0o644, false), "-rw-r--r--");
    assert_eq!(format_mode(0, false), "----------");
}

#[test]
fn format_mtime_examples() {
    assert_eq!(format_mtime(0), "1970-01-01 00:00");
    assert_eq!(format_mtime(86399), "1970-01-01 23:59");
    assert_eq!(format_mtime(951782400), "2000-02-29 00:00");
    assert_eq!(format_mtime(1700000000), "2023-11-14 22:13");
    assert_eq!(format_mtime(4102444800), "2100-01-01 00:00");
}

#[test]
fn leap_years() {
    assert!(is_leap_year(2000));
    assert!(is_leap_year(2024));
    assert!(!is_leap_year(1900));
    assert!(!is_leap_year(2023));
}

#[test]
fn archive_input_helpers() {
    assert!(matches!(archive_source(&None), ArchiveSource::Stdin));
    assert!(matches!(archive_source(&Some("-".to_string())), ArchiveSource::Stdin));
    assert!(matches!(archive_source(&Some("x.tar".to_string())), ArchiveSource::File(f) if f == "x.tar"));
    assert_eq!(stdin_archive_bytes("ab\u{100}\u{1ff}"), vec![b'a', b'b', 0x00, 0xff]);
    let e = archive_open_error("x.tar");
    assert_eq!(e.stderr, "tar: x.tar: Cannot open: No such file or directory\n");
    assert_eq!(e.exit_code, 2);
    assert_eq!(unpack_archive_bytes(b"plain".to_vec(), false).ok().unwrap(), b"plain".to_vec());
    let z = compress_gzip_default(b"data").unwrap();
    assert_eq!(unpack_archive_bytes(z, false).ok().unwrap(), b"data".to_vec());
    let err = unpack_archive_bytes(b"plain".to_vec(), true).err().unwrap();
    assert!(err.stderr.starts_with("tar: gzip decompression error: "));
    assert_eq!(err.exit_code, 2);
}

#[test]
fn archive_members_and_errors() {
    let d = directory_entry("a/b", 0o755, 42);
    assert!(d.is_directory && !d.is_symlink);
    assert_eq!((d.path.as_str(), d.size, d.mtime, d.mode), ("a/b", 0, 42, 0o755));
    let f = file_entry("a/c.txt", b"hello".to_vec(), 0o644, 7);
    assert!(!f.is_directory);
    assert_eq!((f.size, f.content.as_slice()), (5, &b"hello"[..]));
    assert_eq!(collect_error("a/x", "No such file"), "tar: a/x: No such file");
}

/// Walks an in-memory tree: directories list their sorted children,
/// files hold their text, `bad` fails to stat and `locked` fails to list.
fn walk_tree(start: &str) -> (Vec<String>, Vec<String>) {
    let mut walk = CollectWalk::start(start);
    while let Some(rel) = walk.next_path() {
        let outcome = match rel.as_str() {
            "d" => VisitOutcome::Directory {
                mode: 0o755,
                mtime: 7,
                listing: Ok(vec!["a".to_string(), "bad".to_string(), "locked".to_string(), "sub".to_string(), "skip".to_string()]),
            },
            "d/sub" => VisitOutcome::Directory { mode: 0o700, mtime: 8, listing: Ok(vec!["z".to_string()]) },
            "d/locked" => VisitOutcome::Directory { mode: 0o700, mtime: 9, listing: Err("Permission denied".to_string()) },
            "d/bad" => VisitOutcome::StatFailed("No such file or directory".to_string()),
            "d/skip" => VisitOutcome::Excluded,
            other => VisitOutcome::File { mode: 0o644, mtime: 1, content: Ok(other.as_bytes().to_vec()) },
        };
        walk.record(&rel, outcome);
    }
    (walk.entries.iter().map(|e| e.path.clone()).collect(), walk.errors)
}

#[test]
fn collect_walk_visits_depth_first_in_listing_order() {
    let (paths, errors) = walk_tree("d");
    assert_eq!(paths, vec!["d", "d/a", "d/locked", "d/sub", "d/sub/z"]);
    assert_eq!(
        errors,
        vec!["tar: d/bad: No such file or directory".to_string(), "tar: d/locked: Permission denied".to_string()]
    );
}

#[test]
fn collect_walk_records_members() {
    let mut walk = CollectWalk::start("f.txt");
    let rel = walk.next_path().unwrap();
    walk.record(&rel, VisitOutcome::File { mode: 0o600, mtime: 42, content: Ok(b"hi".to_vec()) });
    assert!(walk.next_path().is_none());
    let e = &walk.entries[0];
    assert_eq!((e.path.as_str(), e.size, e.mode, e.mtime, e.is_directory), ("f.txt", 2, 0o600, 42, false));
    assert_eq!(e.content, b"hi".to_vec());
    let mut walk = CollectWalk::start("x");
    let rel = walk.next_path().unwrap();
    walk.record(&rel, VisitOutcome::File { mode: 0, mtime: 0, content: Err("EIO".to_string()) });
    assert!(walk.entries.is_empty());
    assert_eq!(walk.errors, vec!["tar: x: EIO".to_string()]);
}

fn strings(v: &[&str]) -> Vec<String> {
    v.iter().map(|s| s.to_string()).collect()
}

#[test]
fn sorted_names_sorts_by_code_point() {
    assert_eq!(sorted_names(strings(&["b", "a", "B", "ab", "a", "é", "z"])), strings(&["B", "a", "a", "ab", "b", "z", "é"]));
    assert_eq!(sorted_names(Vec::new()), Vec::<String>::new());
}

#[test]
fn exclude_parts() {
    assert_eq!(basename_of("a/b/c.txt"), "c.txt");
    assert_eq!(basename_of("c.txt"), "c.txt");
    assert_eq!(basename_of("a/"), "");
    assert_eq!(pattern_with_slash("dir"), "dir/");
}

#[test]
fn exclude_decisions() {
    let none = ExcludeGlobs { path: false, path_with_slash: false, basename: false };
    let base = ExcludeGlobs { path: false, path_with_slash: false, basename: true };
    // A plain prefix `pattern/` excludes what lies below, with no glob match.
    assert!(matches_exclude("build/x.o", &strings(&["build"]), &[none]));
    assert!(!matches_exclude("builder/x.o", &strings(&["build"]), &[ExcludeGlobs { ..none }]));
    // The basename match counts only for a pattern without `/`.
    assert!(matches_exclude("src/a.log", &strings(&["*.log"]), &[base]));
    assert!(!matches_exclude("src/a.log", &strings(&["src/*.x"]), &[ExcludeGlobs { ..base }]));
    // Any pattern suffices; no pattern excludes nothing.
    assert!(matches_exclude("p", &strings(&["q", "p"]), &[none, ExcludeGlobs { path: true, ..none }]));
    assert!(!matches_exclude("p", &[], &[]));
}
