//! Debouncing, fan-out, watcher lifecycle and unwatch teardown.

use fswatchd::daemon::{ensure_watching, stop_watching, DaemonState};
use fswatchd::hasher::HashError;
use fswatchd::persistence::{PersistedState, WatchEntry};
use fswatchd::pipeline::{note_event, FsEventKind, PendingMap, DEBOUNCE_MS};
use fswatchd::protocol::make_subscription_key;
use fswatchd::server::{hash_persist, restore_subscriptions, unwatch, watch};
use fswatchd::subscriptions::Subscriptions;

#[test]
fn test_debounce_coalesces_a_burst_into_one_ready_path() {
    let mut pending = PendingMap::new();
    let path = vec![String::from("/tmp/t3/x.log")];
    // Three writes inside one window: each overwrites the deadline.
    note_event(&mut pending, FsEventKind::Modify, &path, 1000);
    note_event(&mut pending, FsEventKind::Modify, &path, 1005);
    note_event(&mut pending, FsEventKind::Create, &path, 1010);

    // Before the last deadline nothing is ready.
    assert!(pending.take_ready(1010 + DEBOUNCE_MS - 1).is_empty());
    // At the deadline exactly one path comes out, once.
    let ready = pending.take_ready(1010 + DEBOUNCE_MS);
    assert_eq!(ready, vec![String::from("/tmp/t3/x.log")]);
    assert!(pending.take_ready(u64::MAX - DEBOUNCE_MS).is_empty());
}

#[test]
fn test_irrelevant_events_are_dropped() {
    let mut pending = PendingMap::new();
    let path = vec![String::from("/tmp/t3/x.log")];
    note_event(&mut pending, FsEventKind::Other, &path, 1000);
    assert!(pending.take_ready(u64::MAX - DEBOUNCE_MS).is_empty());
}

#[test]
fn test_match_ready_emits_one_event_per_key() {
    let mut subs = Subscriptions::new();
    let key = make_subscription_key("/tmp/t3", ".", "*.log");
    subs.register(
        key.clone(),
        WatchEntry {
            root: String::from("/tmp/t3"),
            path: String::from("."),
            glob: String::from("*.log"),
        },
    );
    let ready = vec![
        String::from("/tmp/t3/x.log"),
        String::from("/tmp/t3/y.log"),
        String::from("/tmp/t3/ignored.txt"),
    ];
    let evs = subs.match_ready(&ready);
    assert_eq!(evs.len(), 1);
    assert_eq!(evs[0].key, key);
    assert_eq!(
        evs[0].paths,
        vec![String::from("/tmp/t3/x.log"), String::from("/tmp/t3/y.log")]
    );
}

#[test]
fn test_unwatched_key_gets_no_more_events() {
    let mut daemon = DaemonState::new();
    let mut subs = Subscriptions::new();
    let mut persisted = PersistedState::new();

    let key = make_subscription_key("/tmp/t6", ".", "*.txt");
    watch(
        &mut daemon,
        &mut persisted,
        &String::from("/tmp/t6"),
        &String::from("."),
        &String::from("*.txt"),
        None,
    )
    .unwrap();
    subs.register(
        key.clone(),
        WatchEntry {
            root: String::from("/tmp/t6"),
            path: String::from("."),
            glob: String::from("*.txt"),
        },
    );

    let ready = vec![String::from("/tmp/t6/a.txt")];
    assert_eq!(subs.match_ready(&ready).len(), 1);

    let dirty = unwatch(&mut daemon, &mut subs, &mut persisted, &key);
    assert!(dirty);
    assert_eq!(persisted.len(), 0);
    // No registry entry, so the fan-out can never emit this key again.
    assert!(subs.match_ready(&ready).is_empty());
    // Unknown key afterwards: nothing changes, nothing fails.
    assert!(!unwatch(&mut daemon, &mut subs, &mut persisted, &key));
}

#[test]
fn test_watcher_lifecycle_is_idempotent_per_root() {
    let mut state = DaemonState::new();
    let root = String::from("/tmp");
    let (tx, _rx) = tokio::sync::mpsc::channel::<notify::Event>(100);

    // Without a sink nothing is installed, and that is a success.
    ensure_watching(&mut state, &root, None).unwrap();
    assert!(!stop_watching(&mut state, &root));

    // With a sink: installed once, further calls change nothing.
    ensure_watching(&mut state, &root, Some(&tx)).unwrap();
    ensure_watching(&mut state, &root, Some(&tx)).unwrap();
    ensure_watching(&mut state, &root, Some(&tx)).unwrap();
    assert!(stop_watching(&mut state, &root));
    // Only one handle existed: the second stop finds nothing.
    assert!(!stop_watching(&mut state, &root));
}

#[test]
fn test_watcher_install_failure_leaves_no_state() {
    let mut state = DaemonState::new();
    let root = String::from("/fswatchd-definitely-missing");
    let (tx, _rx) = tokio::sync::mpsc::channel::<notify::Event>(100);
    match ensure_watching(&mut state, &root, Some(&tx)) {
        Err(HashError::Watch(_)) => {}
        _ => panic!("expected a watch error"),
    }
    assert!(!stop_watching(&mut state, &root));
}

#[test]
fn test_hash_persist_marks_dirty_only_for_new_persistent_queries() {
    let mut persisted = PersistedState::new();
    let root = String::from("/tmp/t2");
    let path = String::from(".");
    let glob = String::from("*.rs");
    assert!(!hash_persist(&mut persisted, &root, &path, &glob, false));
    assert_eq!(persisted.len(), 0);
    assert!(hash_persist(&mut persisted, &root, &path, &glob, true));
    assert!(!hash_persist(&mut persisted, &root, &path, &glob, true));
    assert_eq!(persisted.len(), 1);
}

#[test]
fn test_restart_restores_subscriptions_under_the_same_keys() {
    // The persisted set as a previous run would have left it.
    let mut persisted = PersistedState::new();
    persisted.insert(WatchEntry {
        root: String::from("/tmp"),
        path: String::from("."),
        glob: String::from("*.log"),
    });

    let mut daemon = DaemonState::new();
    let mut subs = Subscriptions::new();
    let (tx, _rx) = tokio::sync::mpsc::channel::<notify::Event>(100);
    let restored = restore_subscriptions(&mut daemon, &mut subs, &persisted, &tx);

    assert_eq!(restored.len(), 1);
    // The registry holds the pre-computed key: a client that watches the
    // same tuple again receives the very same key.
    let key = make_subscription_key("/tmp", ".", "*.log");
    let evs = subs.match_ready(&vec![String::from("/tmp/x.log")]);
    assert_eq!(evs.len(), 1);
    assert_eq!(evs[0].key, key);
    assert!(stop_watching(&mut daemon, &String::from("/tmp")));
}
