use just_bash::path::{child_path, normalize_path, relative_child, resolve_under_cwd};

#[test]
fn test_empty() {
    assert_eq!(normalize_path(""), "/");
}

#[test]
fn test_root() {
    assert_eq!(normalize_path("/"), "/");
}

#[test]
fn test_absolute_simple() {
    assert_eq!(normalize_path("/foo/bar"), "/foo/bar");
}

#[test]
fn test_trailing_slash() {
    assert_eq!(normalize_path("/foo/bar/"), "/foo/bar");
}

#[test]
fn test_relative_becomes_absolute() {
    assert_eq!(normalize_path("foo/bar"), "/foo/bar");
}

#[test]
fn test_dot_removal() {
    assert_eq!(normalize_path("/foo/./bar"), "/foo/bar");
}

#[test]
fn test_dotdot_resolution() {
    assert_eq!(normalize_path("/foo/../bar"), "/bar");
    assert_eq!(normalize_path("/foo/bar/.."), "/foo");
    assert_eq!(normalize_path("/foo/bar/../baz"), "/foo/baz");
}

#[test]
fn test_dotdot_at_root() {
    assert_eq!(normalize_path("/foo/bar/../.."), "/");
    assert_eq!(normalize_path("/../.."), "/");
}

#[test]
fn test_double_slash() {
    assert_eq!(normalize_path("/foo//bar"), "/foo/bar");
}

#[test]
fn child_path_root() {
    assert_eq!(child_path("/", "x"), "/x");
}

#[test]
fn child_path_absolute() {
    assert_eq!(child_path("/a/b", "c"), "/a/b/c");
}

#[test]
fn child_path_trailing_slash_on_parent() {
    assert_eq!(child_path("/a/b/", "c"), "/a/b/c");
}

#[test]
fn relative_child_empty_parent() {
    assert_eq!(relative_child("", "foo"), "foo");
}

#[test]
fn relative_child_join() {
    assert_eq!(relative_child("a", "b"), "a/b");
}

#[test]
fn resolve_under_cwd_absolute() {
    assert_eq!(resolve_under_cwd("/any", "/foo"), "/foo");
}

#[test]
fn resolve_under_cwd_from_root_cwd() {
    assert_eq!(resolve_under_cwd("/", "x"), "/x");
}

#[test]
fn resolve_under_cwd_nested() {
    assert_eq!(resolve_under_cwd("/app", "y"), "/app/y");
}

#[test]
fn normalize_is_idempotent_on_examples() {
    for p in ["", "/", "a//b/./c/..", "/../x/", "./.", "//a///b//", "a/../../b"] {
        let once = normalize_path(p);
        assert_eq!(normalize_path(&once), once);
    }
}

#[test]
fn normalize_keeps_dot_prefixed_names() {
    assert_eq!(normalize_path("/a/.hidden/..x/.../b"), "/a/.hidden/..x/.../b");
    assert_eq!(normalize_path("."), "/");
    assert_eq!(normalize_path("a/./../b/"), "/b");
}

#[test]
fn child_path_only_slashes_parent() {
    assert_eq!(child_path("//", "x"), "/x");
    assert_eq!(child_path("", "x"), "/x");
    assert_eq!(child_path("rel//", "x"), "rel/x");
}

#[test]
fn resolve_under_cwd_trims_cwd_slashes() {
    assert_eq!(resolve_under_cwd("/app//", "y"), "/app/y");
    assert_eq!(resolve_under_cwd("///", "y"), "/y");
    assert_eq!(resolve_under_cwd("", "y"), "/y");
    assert_eq!(resolve_under_cwd("rel", "y"), "rel/y");
}

#[test]
fn normalize_ignores_leading_trailing_and_root_parent() {
    for p in ["a/b", "/x/../y", "", "..", "a//b/./c", "/"] {
        let n = normalize_path(p);
        assert_eq!(normalize_path(&format!("/{}", p)), n);
        assert_eq!(normalize_path(&format!("{}/", p)), n);
        assert_eq!(normalize_path(&format!("/../{}", p)), normalize_path(&format!("/{}", p)));
    }
}
