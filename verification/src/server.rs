//! Orchestration over the shared state: watch registration, unwatch with
//! watcher teardown, persistence marking, and startup restoration.
//!
//! These are the decisions the daemon takes per request; the surrounding
//! process supplies the socket traffic, the state file and the clock.

use vstd::prelude::*;

use crate::daemon::{ensure_watching, stop_watching, DaemonState};
use crate::hasher::HashError;
use crate::persistence::{PersistedState, WatchEntry};
use crate::protocol::{make_subscription_key, spec_subscription_key};
use crate::subscriptions::Subscriptions;

verus! {

/// Whether anything still needs root `r` watched: a registered
/// subscription or a persisted tuple.
pub open spec fn root_referenced(
    subs: Map<Seq<char>, WatchEntry>,
    persisted: Set<(Seq<char>, Seq<char>, Seq<char>)>,
    r: Seq<char>,
) -> bool {
    (exists|k: Seq<char>| #[trigger] subs.contains_key(k) && subs[k].root@ == r) || (exists|
        q: (Seq<char>, Seq<char>, Seq<char>),
    | #[trigger] persisted.contains(q) && q.0 == r)
}

/// Serve a watch request: ensure a watcher on `root` (routing events to
/// the sink) and persist the tuple.  On a watcher failure nothing is
/// persisted.  Returns whether the persisted set changed (the dirty flag).
pub fn watch(
    daemon: &mut DaemonState,
    persisted: &mut PersistedState,
    root: &String,
    path: &String,
    glob: &String,
    event_tx: Option<&tokio::sync::mpsc::Sender<notify::Event>>,
) -> (r: Result<bool, HashError>)
    requires
        old(daemon).wf(),
    ensures
        final(daemon).wf(),
        final(daemon).file_cache@ == old(daemon).file_cache@,
        final(daemon).result_cache@ == old(daemon).result_cache@,
        r matches Err(e) ==> (e matches HashError::Watch(_) && final(persisted)@ == old(persisted)@
            && final(daemon).root_watchers.roots() == old(daemon).root_watchers.roots()),
        r matches Ok(dirty) ==> {
            &&& final(persisted)@ == old(persisted)@.insert((root@, path@, glob@))
            &&& dirty == !old(persisted)@.contains((root@, path@, glob@))
            &&& final(daemon).root_watchers.roots() == if event_tx is Some {
                old(daemon).root_watchers.roots().insert(root@)
            } else {
                old(daemon).root_watchers.roots()
            }
        },
        event_tx is None ==> r is Ok,
        old(daemon).root_watchers.roots().contains(root@) ==> r is Ok,
{
    match ensure_watching(daemon, root, event_tx) {
        Ok(()) => (),
        Err(e) => {
            return Err(e);
        },
    }
    let entry = WatchEntry { root: root.clone(), path: path.clone(), glob: glob.clone() };
    let added = persisted.insert(entry);
    Ok(added)
}

/// The persistence half of a hash request: a persistent query joins the
/// watch set.  Returns whether the persisted set changed.
pub fn hash_persist(
    persisted: &mut PersistedState,
    root: &String,
    path: &String,
    glob: &String,
    persistent: bool,
) -> (dirty: bool)
    ensures
        !persistent ==> (final(persisted)@ == old(persisted)@ && !dirty),
        persistent ==> {
            &&& final(persisted)@ == old(persisted)@.insert((root@, path@, glob@))
            &&& dirty == !old(persisted)@.contains((root@, path@, glob@))
        },
{
    if !persistent {
        return false;
    }
    let entry = WatchEntry { root: root.clone(), path: path.clone(), glob: glob.clone() };
    persisted.insert(entry)
}

/// Serve an unwatch request: drop the key from the registry and from the
/// persisted set, and stop the root's watcher when nothing references the
/// root any more.  An unknown key changes nothing.  Returns whether the
/// persisted set changed.
pub fn unwatch(
    daemon: &mut DaemonState,
    subs: &mut Subscriptions,
    persisted: &mut PersistedState,
    key: &String,
) -> (dirty: bool)
    requires
        old(daemon).wf(),
        old(subs).wf(),
    ensures
        final(daemon).wf(),
        final(subs).wf(),
        final(daemon).file_cache@ == old(daemon).file_cache@,
        final(daemon).result_cache@ == old(daemon).result_cache@,
        !old(subs)@.contains_key(key@) ==> {
            &&& final(subs)@ == old(subs)@
            &&& final(persisted)@ == old(persisted)@
            &&& final(daemon).root_watchers.roots() == old(daemon).root_watchers.roots()
            &&& !dirty
        },
        old(subs)@.contains_key(key@) ==> {
            &&& final(subs)@ == old(subs)@.remove(key@)
            &&& !final(subs)@.contains_key(key@)
            &&& forall|q: (Seq<char>, Seq<char>, Seq<char>)|
                final(persisted)@.contains(q) <==> (old(persisted)@.contains(q)
                    && spec_subscription_key(q.0, q.1, q.2) != key@)
            &&& dirty <==> exists|q: (Seq<char>, Seq<char>, Seq<char>)|
                old(persisted)@.contains(q) && spec_subscription_key(q.0, q.1, q.2) == key@
            &&& final(daemon).root_watchers.roots() == if root_referenced(
                final(subs)@,
                final(persisted)@,
                old(subs)@[key@].root@,
            ) {
                old(daemon).root_watchers.roots()
            } else {
                old(daemon).root_watchers.roots().remove(old(subs)@[key@].root@)
            }
        },
{
    let removed = subs.remove(key);
    let entry = match removed {
        Some(e) => e,
        None => {
            return false;
        },
    };
    let dirty = persisted.remove_by_key(key);
    let has_subscription = subs.any_root(&entry.root);
    let has_persisted = persisted.contains_root(&entry.root);
    if !has_subscription && !has_persisted {
        stop_watching(daemon, &entry.root);
    } else {
        proof {
            assert(root_referenced(final(subs)@, final(persisted)@, entry.root@));
        }
    }
    dirty
}

/// Restore the persisted watch set at startup: install each tuple's
/// watcher and register it under its pre-computed key.  Tuples whose
/// watcher cannot be installed are skipped.  Returns the restored tuples,
/// for the caller to re-hash in the background (without installing more
/// watchers).
pub fn restore_subscriptions(
    daemon: &mut DaemonState,
    subs: &mut Subscriptions,
    persisted: &PersistedState,
    event_tx: &tokio::sync::mpsc::Sender<notify::Event>,
) -> (restored: Vec<WatchEntry>)
    requires
        old(daemon).wf(),
        old(subs).wf(),
    ensures
        final(daemon).wf(),
        final(subs).wf(),
        final(daemon).file_cache@ == old(daemon).file_cache@,
        final(daemon).result_cache@ == old(daemon).result_cache@,
        forall|j: int| 0 <= j < restored@.len() ==> persisted@.contains(#[trigger] restored@[j]@),
        forall|j: int|
            0 <= j < restored@.len() ==> final(subs)@.contains_key(
                #[trigger] restored@[j].spec_key(),
            ),
        forall|j: int|
            0 <= j < restored@.len() ==> final(daemon).root_watchers.roots().contains(
                #[trigger] restored@[j].root@,
            ),
        forall|k: Seq<char>|
            old(subs)@.contains_key(k) ==> final(subs)@.contains_key(k),
        forall|r: Seq<char>|
            old(daemon).root_watchers.roots().contains(r) ==> final(daemon).root_watchers.roots().contains(r),
        forall|r: Seq<char>|
            final(daemon).root_watchers.roots().contains(r) ==> (old(daemon).root_watchers.roots().contains(r)
                || exists|q: (Seq<char>, Seq<char>, Seq<char>)|
                #[trigger] persisted@.contains(q) && q.0 == r),
{
    let mut restored: Vec<WatchEntry> = Vec::new();
    let n = persisted.len();
    let mut i: usize = 0;
    while i < n
        invariant
            i <= n,
            n == persisted.spec_len(),
            daemon.wf(),
            subs.wf(),
            daemon.file_cache@ == old(daemon).file_cache@,
            daemon.result_cache@ == old(daemon).result_cache@,
            forall|j: int|
                0 <= j < restored@.len() ==> persisted@.contains(#[trigger] restored@[j]@),
            forall|j: int|
                0 <= j < restored@.len() ==> subs@.contains_key(#[trigger] restored@[j].spec_key()),
            forall|j: int|
                0 <= j < restored@.len() ==> daemon.root_watchers.roots().contains(
                    #[trigger] restored@[j].root@,
                ),
            forall|k: Seq<char>| old(subs)@.contains_key(k) ==> subs@.contains_key(k),
            forall|r: Seq<char>|
                old(daemon).root_watchers.roots().contains(r)
                    ==> daemon.root_watchers.roots().contains(r),
            forall|r: Seq<char>|
                daemon.root_watchers.roots().contains(r) ==> (old(daemon).root_watchers.roots().contains(r)
                    || exists|q: (Seq<char>, Seq<char>, Seq<char>)|
                    #[trigger] persisted@.contains(q) && q.0 == r),
        decreases n - i,
    {
        let entry = persisted.entry_at(i).dup();
        let ghost roots_before = daemon.root_watchers.roots();
        match ensure_watching(daemon, &entry.root, Some(event_tx)) {
            Ok(()) => {
                proof {
                    assert(persisted@.contains(entry@) && entry@.0 == entry.root@);
                }
                let key = make_subscription_key(
                    entry.root.as_str(),
                    entry.path.as_str(),
                    entry.glob.as_str(),
                );
                let registered = entry.dup();
                let ghost prev_restored = restored@;
                subs.register(key, registered);
                restored.push(entry);
                proof {
                    assert(restored@[restored@.len() - 1].spec_key() == spec_subscription_key(
                        entry.root@,
                        entry.path@,
                        entry.glob@,
                    ));
                    assert forall|j: int|
                        0 <= j < restored@.len() implies subs@.contains_key(
                        #[trigger] restored@[j].spec_key(),
                    ) by {
                        if j < prev_restored.len() {
                            assert(restored@[j] == prev_restored[j]);
                        }
                    }
                }
            },
            Err(_) => {},
        }
        i = i + 1;
    }
    restored
}

/// Once `unwatch(key)` has run, the registry no longer holds the key, so
/// the fan-out — which only ever emits registered keys — can never again
/// produce a broadcast for it.
pub proof fn lemma_unwatched_key_never_broadcast(
    subs: Map<Seq<char>, WatchEntry>,
    key: Seq<char>,
)
    ensures
        !subs.remove(key).contains_key(key),
{
}

} // verus!
