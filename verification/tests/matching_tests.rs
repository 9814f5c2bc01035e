//! Watch matching against changed paths.
//!
//! The paths here do not exist, so canonicalization falls back to the
//! plain joined form on both sides, which is exactly the contract of the
//! pure matcher.

use fswatchd::pipeline::{matches_watch, matches_watch_paths};

#[test]
fn test_matches_watch_basic() {
    let temp_dir = "/tmp/fswatchd-test-matches".to_string();
    let test_file = format!("{}/test.rs", temp_dir);

    assert!(matches_watch(&test_file, &temp_dir, ".", "*.rs"));
    assert!(!matches_watch(&test_file, &temp_dir, ".", "*.txt"));
}

#[test]
fn test_matches_watch_nested() {
    let temp_dir = "/tmp/fswatchd-test-nested".to_string();
    let test_file = format!("{}/src/lib.rs", temp_dir);

    assert!(matches_watch(&test_file, &temp_dir, ".", "**/*.rs"));
    assert!(matches_watch(&test_file, &temp_dir, "src", "*.rs"));
    assert!(!matches_watch(&test_file, &temp_dir, "lib", "*.rs"));
}

#[test]
fn test_matches_watch_paths_component_prefix() {
    // "/a/b" is above "/a/b/c.rs" but not above "/a/bc.rs".
    assert!(matches_watch_paths("/a/b/c.rs", "/a/b", "*.rs"));
    assert!(!matches_watch_paths("/a/bc.rs", "/a/b", "*.rs"));
    // A path outside the watch directory never matches.
    assert!(!matches_watch_paths("/elsewhere/c.rs", "/a/b", "*.rs"));
    // An ill-formed glob matches nothing.
    assert!(!matches_watch_paths("/a/b/c.rs", "/a/b", "{unclosed"));
}
