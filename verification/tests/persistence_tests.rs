//! The persisted watch set: set semantics and key-based removal.

use fswatchd::persistence::{PersistedState, WatchEntry};
use fswatchd::protocol::make_subscription_key;

fn entry(root: &str, path: &str, glob: &str) -> WatchEntry {
    WatchEntry {
        root: root.to_string(),
        path: path.to_string(),
        glob: glob.to_string(),
    }
}

#[test]
fn test_persisted_set_deduplicates_tuples() {
    let mut p = PersistedState::new();
    assert!(p.insert(entry("/r", "src", "*.rs")));
    assert!(!p.insert(entry("/r", "src", "*.rs")));
    assert!(p.insert(entry("/r", "lib", "*.rs")));
    assert_eq!(p.len(), 2);
    assert!(p.contains(&entry("/r", "src", "*.rs")));
    assert!(!p.contains(&entry("/r", "src", "*.txt")));
}

#[test]
fn test_remove_by_key_removes_only_the_matching_tuple() {
    let mut p = PersistedState::new();
    p.insert(entry("/r", "src", "*.rs"));
    p.insert(entry("/r", "lib", "*.rs"));

    let key = make_subscription_key("/r", "src", "*.rs");
    assert!(p.remove_by_key(&key));
    assert_eq!(p.len(), 1);
    assert!(!p.contains(&entry("/r", "src", "*.rs")));
    assert!(p.contains(&entry("/r", "lib", "*.rs")));

    // Removing an unknown key changes nothing.
    assert!(!p.remove_by_key(&make_subscription_key("/r", "gone", "*.rs")));
    assert_eq!(p.len(), 1);
}

#[test]
fn test_contains_root_sees_any_tuple_with_that_root() {
    let mut p = PersistedState::new();
    p.insert(entry("/r", "src", "*.rs"));
    assert!(p.contains_root(&"/r".to_string()));
    assert!(!p.contains_root(&"/other".to_string()));
}
