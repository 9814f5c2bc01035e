//! Path joining, component-wise prefixes and relative parts.

use fswatchd::paths::{join_paths, le_path, path_starts_with, strip_path_prefix};

#[test]
fn test_join_paths_dot_and_empty_name_the_root() {
    assert_eq!(join_paths("/tmp/t1", "."), "/tmp/t1");
    assert_eq!(join_paths("/tmp/t1", ""), "/tmp/t1");
    assert_eq!(join_paths("/tmp/t1", "src"), "/tmp/t1/src");
    assert_eq!(join_paths("/tmp/t1/", "src"), "/tmp/t1/src");
}

#[test]
fn test_path_prefix_is_component_wise() {
    assert!(path_starts_with("/a/b/c.rs", "/a/b"));
    assert!(path_starts_with("/a/b", "/a/b"));
    assert!(!path_starts_with("/a/bc.rs", "/a/b"));
    assert!(!path_starts_with("/a", "/a/b"));
    assert!(path_starts_with("/a/b/c.rs", "/"));
    assert!(path_starts_with("/a/b/c.rs", "/a/b/"));
}

#[test]
fn test_strip_path_prefix_drops_the_separator() {
    assert_eq!(strip_path_prefix("/a/b/c.rs", "/a/b"), "c.rs");
    assert_eq!(strip_path_prefix("/a/b/c/d.rs", "/a/b"), "c/d.rs");
    assert_eq!(strip_path_prefix("/a/b", "/a/b"), "");
    assert_eq!(strip_path_prefix("/a/b/c.rs", "/a/b/"), "c.rs");
}

#[test]
fn test_le_path_is_byte_lexicographic() {
    assert!(le_path("/t/a.txt", "/t/b.txt"));
    assert!(!le_path("/t/b.txt", "/t/a.txt"));
    assert!(le_path("/t/a", "/t/a"));
    assert!(le_path("/t/a", "/t/ab"));
    assert!(!le_path("/t/ab", "/t/a"));
}
