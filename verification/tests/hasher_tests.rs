//! Aggregation, enumeration errors and error texts.

use fswatchd::hasher::{aggregate_hashes, list_files, HashError};
use fswatchd::digest::hash_bytes;

#[test]
fn test_aggregate_order_invariant() {
    let a = aggregate_hashes(vec![3, 1, 2]);
    let b = aggregate_hashes(vec![1, 2, 3]);
    let c = aggregate_hashes(vec![2, 3, 1]);
    assert_eq!(a, b);
    assert_eq!(a, c);
}

#[test]
fn test_aggregate_matches_reference_hash() {
    // Sorted ascending, 8 little-endian bytes each, hashed once more.
    let hashes: Vec<u64> = vec![0xccdd, 0xaabb];
    let mut buf = Vec::new();
    buf.extend_from_slice(&0xaabbu64.to_le_bytes());
    buf.extend_from_slice(&0xccddu64.to_le_bytes());
    let expected = xxhash_rust::xxh3::xxh3_64(&buf);
    assert_eq!(aggregate_hashes(hashes), expected);
}

#[test]
fn test_aggregate_empty_is_hash_of_empty_buffer() {
    assert_eq!(aggregate_hashes(Vec::new()), xxhash_rust::xxh3::xxh3_64(&[]));
}

#[test]
fn test_aggregate_changes_when_a_hash_is_added() {
    let base = aggregate_hashes(vec![10, 20]);
    let grown = aggregate_hashes(vec![10, 20, 30]);
    assert_ne!(base, grown);
}

#[test]
fn test_hash_bytes_matches_reference() {
    assert_eq!(hash_bytes(b"a"), xxhash_rust::xxh3::xxh3_64(b"a"));
    assert_eq!(hash_bytes(b""), xxhash_rust::xxh3::xxh3_64(b""));
}

#[test]
fn test_list_files_empty_result_is_an_error() {
    // A directory that does not exist yields no entries, and an empty
    // result set is an error, not an empty digest.
    let r = list_files("/fswatchd-no-such-root", ".", "*.rs");
    match r {
        Err(HashError::NoFilesMatched) => {}
        _ => panic!("expected NoFilesMatched"),
    }
    assert_eq!(
        HashError::NoFilesMatched.message(),
        "No files matched the glob pattern"
    );
}

#[test]
fn test_list_files_rejects_bad_glob() {
    let r = list_files("/fswatchd-no-such-root", ".", "{unclosed");
    match r {
        Err(HashError::InvalidGlob(msg)) => {
            assert!(!msg.is_empty());
        }
        _ => panic!("expected InvalidGlob"),
    }
}

#[test]
fn test_error_messages() {
    let e = HashError::ReadFile {
        path: String::from("/tmp/x"),
        cause: String::from("denied"),
    };
    assert_eq!(e.message(), "Failed to read file /tmp/x: denied");
    assert_eq!(
        HashError::Watch(String::from("boom")).message(),
        "Watch error: boom"
    );
    assert!(HashError::InvalidGlob(String::from("oops"))
        .message()
        .starts_with("Glob error: "));
}

#[test]
fn test_oversized_glob_is_rejected_not_fatal() {
    // Parses fine, but its matcher exceeds the regex engine's size limit;
    // the error must come back as InvalidGlob, never as a panic.
    let big = "a*".repeat(300_000);
    match list_files("/fswatchd-no-such-root", ".", &big) {
        Err(HashError::InvalidGlob(_)) => {}
        _ => panic!("expected InvalidGlob"),
    }
}
