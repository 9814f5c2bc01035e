//! The two caches, the cached aggregate computation and invalidation.

use fswatchd::daemon::{hash, hash_complete, invalidate_file, DaemonState, GlobKey, HashStep};
use fswatchd::hash_service::{cache_misses, hash_with_cache, FileCache, HashResult, ReadFailure};
use fswatchd::hasher::HashError;

#[test]
fn test_file_cache_insert_get_remove() {
    let mut cache = FileCache::new();
    let p = String::from("/tmp/a.rs");
    assert_eq!(cache.get(&p), None);
    cache.insert(p.clone(), 42);
    assert_eq!(cache.get(&p), Some(42));
    assert!(cache.remove(&p));
    assert_eq!(cache.get(&p), None);
    assert!(!cache.remove(&p));
}

#[test]
fn test_hash_with_cache_records_and_aggregates() {
    let mut cache = FileCache::new();
    let files = vec![String::from("/t/a"), String::from("/t/b")];
    let misses = cache_misses(&cache, &files);
    assert_eq!(misses, files);

    let fresh = vec![(String::from("/t/a"), 7u64), (String::from("/t/b"), 9u64)];
    let r = hash_with_cache(&mut cache, &files, &fresh, &None).unwrap();
    assert_eq!(r.file_count, 2);
    assert_eq!(r.hash, fswatchd::hasher::aggregate_hashes(vec![7, 9]));

    // Second query: everything cached, same digest with no fresh reads.
    assert!(cache_misses(&cache, &files).is_empty());
    let r2 = hash_with_cache(&mut cache, &files, &Vec::new(), &None).unwrap();
    assert_eq!(r2.hash, r.hash);
    assert_eq!(r2.file_count, r.file_count);
}

#[test]
fn test_hash_with_cache_read_failure_aborts_but_keeps_prefix() {
    let mut cache = FileCache::new();
    let files = vec![String::from("/t/a"), String::from("/t/b")];
    let fresh = vec![(String::from("/t/a"), 7u64)];
    let failure = Some(ReadFailure {
        path: String::from("/t/b"),
        cause: String::from("permission denied"),
    });
    match hash_with_cache(&mut cache, &files, &fresh, &failure) {
        Err(HashError::ReadFile { path, cause }) => {
            assert_eq!(path, "/t/b");
            assert_eq!(cause, "permission denied");
        }
        _ => panic!("expected ReadFile"),
    }
    // The hash read before the failure stays recorded.
    assert_eq!(cache.get(&String::from("/t/a")), Some(7));
    assert_eq!(cache.get(&String::from("/t/b")), None);
}

#[test]
fn test_result_cache_hit_is_verbatim() {
    let mut state = DaemonState::new();
    let key = GlobKey {
        root: String::from("/tmp/t2"),
        path: String::from("."),
        glob: String::from("*.rs"),
    };
    state.result_cache.insert(
        GlobKey {
            root: String::from("/tmp/t2"),
            path: String::from("."),
            glob: String::from("*.rs"),
        },
        HashResult { hash: 0xfeed, file_count: 2 },
    );
    let hit = state.result_cache.get(&key).unwrap();
    assert_eq!(hit.hash, 0xfeed);
    assert_eq!(hit.file_count, 2);
}

#[test]
fn test_invalidate_file_clears_caches_by_path_prefix() {
    let mut state = DaemonState::new();
    let changed = String::from("/a/b/x.rs");
    state.file_cache.insert(changed.clone(), 1);
    state.result_cache.insert(
        GlobKey { root: String::from("/a"), path: String::from("b"), glob: String::from("*.rs") },
        HashResult { hash: 2, file_count: 1 },
    );
    state.result_cache.insert(
        GlobKey { root: String::from("/z"), path: String::from("."), glob: String::from("*.rs") },
        HashResult { hash: 3, file_count: 1 },
    );

    invalidate_file(&mut state, &changed);

    assert_eq!(state.file_cache.get(&changed), None);
    let gone = GlobKey {
        root: String::from("/a"),
        path: String::from("b"),
        glob: String::from("*.rs"),
    };
    assert!(state.result_cache.get(&gone).is_none());
    let kept = GlobKey {
        root: String::from("/z"),
        path: String::from("."),
        glob: String::from("*.rs"),
    };
    assert!(state.result_cache.get(&kept).is_some());
}

#[test]
fn test_second_hash_is_cache_hit() {
    let mut state = DaemonState::new();
    let root = String::from("/q");
    let path = String::from(".");
    let glob = String::from("*.x");
    let files = vec![String::from("/q/a.x"), String::from("/q/b.x")];
    let fresh = vec![(String::from("/q/a.x"), 11u64), (String::from("/q/b.x"), 22u64)];

    let hr = hash_complete(&mut state, &root, &path, &glob, &files, &fresh, &None).unwrap();
    assert_eq!(hr.file_count, 2);

    // Before any invalidation, the same query is answered verbatim from
    // the result cache, with no files enumerated or read.
    match hash(&mut state, &root, &path, &glob, false, None).unwrap() {
        HashStep::Cached(hit) => {
            assert_eq!(hit.hash, hr.hash);
            assert_eq!(hit.file_count, hr.file_count);
        }
        _ => panic!("expected a cache hit"),
    }

    // A change under the query's directory drops the cached result.
    invalidate_file(&mut state, &String::from("/q/a.x"));
    match hash(&mut state, &root, &path, &glob, false, None) {
        Ok(HashStep::Cached(_)) => panic!("result cache should have been invalidated"),
        _ => {}
    }
}

#[test]
fn test_invalidate_file_respects_path_components() {
    // A change under /a/bc must not clear a query rooted at /a/b.
    let mut state = DaemonState::new();
    state.result_cache.insert(
        GlobKey { root: String::from("/a"), path: String::from("b"), glob: String::from("*.rs") },
        HashResult { hash: 2, file_count: 1 },
    );
    invalidate_file(&mut state, &String::from("/a/bc/x.rs"));
    let key = GlobKey {
        root: String::from("/a"),
        path: String::from("b"),
        glob: String::from("*.rs"),
    };
    assert!(state.result_cache.get(&key).is_some());
}
