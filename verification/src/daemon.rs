//! Daemon state: the two caches and the active watchers, keyed by root.
//!
//! A query `(root, path, glob)` is answered from the result cache when
//! possible; a filesystem change invalidates the per-file entry for the
//! changed path and every result-cache entry whose directory is above it.
//! At most one recursive watcher runs per root; its raw callback forwards
//! events into a bounded channel without ever blocking.

use vstd::prelude::*;

use notify::Watcher;

use crate::hash_service::{
    cached_hashes, spec_misses, spec_record_all, FileCache, HashResult, ReadFailure,
};
use crate::hasher::HashError;
use crate::kv::{
    kv_as_map, kv_drop_keys, kv_wf, lemma_kv_contains, lemma_kv_filter, lemma_kv_push,
    lemma_kv_remove, lemma_kv_value,
};
use crate::paths::{is_path_prefix, spec_join};

verus! {

#[verifier::external_type_specification]
#[verifier::external_body]
pub struct ExNotifyEvent(notify::Event);

#[verifier::external_type_specification]
#[verifier::external_body]
pub struct ExNotifyError(notify::Error);

#[verifier::external_type_specification]
#[verifier::external_body]
pub struct ExRecommendedWatcher(notify::RecommendedWatcher);

#[verifier::external_type_specification]
#[verifier::external_body]
#[verifier::reject_recursive_types(T)]
pub struct ExTokioSender<T>(tokio::sync::mpsc::Sender<T>);

/// Relies on tokio's mpsc Sender::try_send: a non-blocking send; when the
/// channel is full the event is dropped, which is safe because the next
/// filesystem event re-synchronizes subscribers.
#[verifier::external_body]
fn try_send_event(tx: &tokio::sync::mpsc::Sender<notify::Event>, ev: notify::Event) {
    let _ = tx.try_send(ev);
}

/// Hand one raw watcher callback result to the event channel.  Errors from
/// the watcher are dropped; only events travel.
pub fn forward_event(
    tx: &tokio::sync::mpsc::Sender<notify::Event>,
    res: Result<notify::Event, notify::Error>,
) {
    match res {
        Ok(ev) => try_send_event(tx, ev),
        Err(_) => (),
    }
}

/// Relies on notify::recommended_watcher and Watcher::watch: on success a
/// recursive watcher on `root` is returned whose raw callback forwards each
/// event to `tx` (via `forward_event`, non-blocking); on failure the
/// error's message is returned and no watcher is left behind.
#[verifier::external_body]
fn install_watcher(root: &String, tx: &tokio::sync::mpsc::Sender<notify::Event>) -> (r: Result<
    notify::RecommendedWatcher,
    String,
>) {
    let tx2 = tx.clone();
    let mut w = match notify::recommended_watcher(
        move |res: Result<notify::Event, notify::Error>| forward_event(&tx2, res),
    ) {
        Ok(w) => w,
        Err(e) => return Err(e.to_string()),
    };
    match w.watch(root.as_ref(), notify::RecursiveMode::Recursive) {
        Ok(()) => Ok(w),
        Err(e) => Err(e.to_string()),
    }
}

/// Cache key for aggregate hash results: one logical query.
pub struct GlobKey {
    /// Absolute root directory.
    pub root: String,
    /// Directory relative to `root`.
    pub path: String,
    /// Glob pattern, matched relative to `root/path`.
    pub glob: String,
}

impl View for GlobKey {
    type V = (Seq<char>, Seq<char>, Seq<char>);

    open spec fn view(&self) -> (Seq<char>, Seq<char>, Seq<char>) {
        (self.root@, self.path@, self.glob@)
    }
}

impl GlobKey {
    fn dup(&self) -> (r: GlobKey)
        ensures
            r == *self,
    {
        GlobKey { root: self.root.clone(), path: self.path.clone(), glob: self.glob.clone() }
    }

    fn same_key(&self, other: &GlobKey) -> (r: bool)
        ensures
            r == (self@ == other@),
    {
        let r = self.root == other.root && self.path == other.path && self.glob == other.glob;
        proof {
            if self.root@ == other.root@ && self.path@ == other.path@ && self.glob@
                == other.glob@ {
                assert(self@ == other@);
            }
        }
        r
    }
}

/// A query key is invalidated by `changed` when the query's directory is
/// at or above the changed path.
pub open spec fn invalidated_by(changed: Seq<char>) -> spec_fn(
    (Seq<char>, Seq<char>, Seq<char>),
) -> bool {
    |q: (Seq<char>, Seq<char>, Seq<char>)| is_path_prefix(spec_join(q.0, q.1), changed)
}

/// Aggregate-result cache: query key to `{hash, file_count}`.  An entry is
/// present only while no path under the query's directory was invalidated.
pub struct ResultCache {
    entries: Vec<(GlobKey, HashResult)>,
}

impl View for ResultCache {
    type V = Map<(Seq<char>, Seq<char>, Seq<char>), HashResult>;

    closed spec fn view(&self) -> Map<(Seq<char>, Seq<char>, Seq<char>), HashResult> {
        kv_as_map(self.entries@)
    }
}

impl ResultCache {
    pub closed spec fn wf(&self) -> bool {
        kv_wf(self.entries@)
    }

    pub fn new() -> (r: ResultCache)
        ensures
            r.wf(),
            r@ == Map::<(Seq<char>, Seq<char>, Seq<char>), HashResult>::empty(),
    {
        ResultCache { entries: Vec::new() }
    }

    /// The cached result for a query, returned verbatim.
    pub fn get(&self, key: &GlobKey) -> (r: Option<HashResult>)
        requires
            self.wf(),
        ensures
            r is Some <==> self@.contains_key(key@),
            r matches Some(hr) ==> self@[key@] == hr,
    {
        let mut i: usize = 0;
        while i < self.entries.len()
            invariant
                i <= self.entries@.len(),
                self.wf(),
                forall|k: int| 0 <= k < i ==> self.entries@[k].0@ != key@,
            decreases self.entries@.len() - i,
        {
            if self.entries[i].0.same_key(key) {
                proof {
                    lemma_kv_value(self.entries@, i as int);
                }
                return Some(self.entries[i].1);
            }
            i = i + 1;
        }
        proof {
            lemma_kv_contains(self.entries@, key@);
        }
        None
    }

    /// Record a query's result, replacing any older entry.
    pub fn insert(&mut self, key: GlobKey, hr: HashResult)
        requires
            old(self).wf(),
        ensures
            final(self).wf(),
            final(self)@ == old(self)@.insert(key@, hr),
    {
        let mut i: usize = 0;
        while i < self.entries.len()
            invariant
                i <= self.entries@.len(),
                self.wf(),
                self@ == old(self)@,
                self.entries@ == old(self).entries@,
                forall|k: int| 0 <= k < i ==> self.entries@[k].0@ != key@,
            decreases self.entries@.len() - i,
        {
            if self.entries[i].0.same_key(&key) {
                proof {
                    lemma_kv_value(self.entries@, i as int);
                    lemma_kv_remove(self.entries@, i as int);
                }
                self.entries.remove(i);
                proof {
                    lemma_kv_contains(self.entries@, key@);
                    lemma_kv_push(self.entries@, key, hr);
                }
                self.entries.push((key, hr));
                proof {
                    assert(self@ =~= old(self)@.insert(key@, hr));
                }
                return ;
            }
            i = i + 1;
        }
        proof {
            lemma_kv_contains(self.entries@, key@);
            lemma_kv_push(self.entries@, key, hr);
        }
        self.entries.push((key, hr));
        proof {
            assert(self@ =~= old(self)@.insert(key@, hr));
        }
    }

    /// Drop every entry whose query directory `root/path` is at or above
    /// the changed path.
    pub fn invalidate_under(&mut self, changed: &String)
        requires
            old(self).wf(),
        ensures
            final(self).wf(),
            final(self)@ == old(self)@.remove_keys(Set::new(invalidated_by(changed@))),
            forall|q: (Seq<char>, Seq<char>, Seq<char>)|
                final(self)@.contains_key(q) ==> !is_path_prefix(spec_join(q.0, q.1), changed@),
    {
        let ghost dropf = invalidated_by(changed@);
        let mut kept: Vec<(GlobKey, HashResult)> = Vec::new();
        let mut i: usize = 0;
        proof {
            reveal(Seq::filter);
            assert(kept@ =~= kv_drop_keys(self.entries@.take(0), dropf));
        }
        while i < self.entries.len()
            invariant
                i <= self.entries@.len(),
                self.wf(),
                self.entries@ == old(self).entries@,
                kept@ == kv_drop_keys(self.entries@.take(i as int), dropf),
                dropf == invalidated_by(changed@),
            decreases self.entries@.len() - i,
        {
            proof {
                crate::kv::lemma_kv_drop_keys_step(self.entries@, i as int, dropf);
            }
            let e = &self.entries[i];
            let joined = crate::paths::join_paths(e.0.root.as_str(), e.0.path.as_str());
            if !crate::paths::path_starts_with(changed.as_str(), joined.as_str()) {
                let k = e.0.dup();
                let hr = e.1;
                proof {
                    assert((k, hr) == self.entries@[i as int]);
                }
                kept.push((k, hr));
            }
            i = i + 1;
        }
        proof {
            assert(self.entries@.take(self.entries@.len() as int) =~= self.entries@);
            lemma_kv_filter(self.entries@, dropf);
        }
        self.entries = kept;
        proof {
            assert(final(self)@ =~= old(self)@.remove_keys(Set::new(invalidated_by(changed@))));
            assert forall|q: (Seq<char>, Seq<char>, Seq<char>)|
                final(self)@.contains_key(q) implies !is_path_prefix(
                spec_join(q.0, q.1),
                changed@,
            ) by {
                assert(!Set::new(invalidated_by(changed@)).contains(q));
            }
        }
    }
}

/// The active watchers, at most one per root.  The owning handle lives
/// exactly as long as its entry; removal drops it, releasing the OS watch.
pub struct WatcherMap {
    entries: Vec<(String, notify::RecommendedWatcher)>,
}

impl WatcherMap {
    pub closed spec fn wf(&self) -> bool {
        kv_wf(self.entries@)
    }

    /// The set of watched roots.
    pub closed spec fn roots(&self) -> Set<Seq<char>> {
        kv_as_map(self.entries@).dom()
    }

    pub fn new() -> (r: WatcherMap)
        ensures
            r.wf(),
            r.roots() == Set::<Seq<char>>::empty(),
    {
        let r = WatcherMap { entries: Vec::new() };
        proof {
            assert(r.roots() =~= Set::<Seq<char>>::empty());
        }
        r
    }

    pub fn contains_root(&self, root: &String) -> (r: bool)
        requires
            self.wf(),
        ensures
            r == self.roots().contains(root@),
    {
        let mut i: usize = 0;
        while i < self.entries.len()
            invariant
                i <= self.entries@.len(),
                self.wf(),
                forall|k: int| 0 <= k < i ==> self.entries@[k].0@ != root@,
            decreases self.entries@.len() - i,
        {
            if self.entries[i].0 == *root {
                proof {
                    lemma_kv_value(self.entries@, i as int);
                }
                return true;
            }
            i = i + 1;
        }
        proof {
            lemma_kv_contains(self.entries@, root@);
        }
        false
    }

    /// Keep the watcher handle for a root not watched yet.
    pub fn insert(&mut self, root: String, w: notify::RecommendedWatcher)
        requires
            old(self).wf(),
            !old(self).roots().contains(root@),
        ensures
            final(self).wf(),
            final(self).roots() == old(self).roots().insert(root@),
    {
        proof {
            lemma_kv_contains(self.entries@, root@);
            lemma_kv_push(self.entries@, root, w);
        }
        self.entries.push((root, w));
        proof {
            assert(final(self).roots() =~= old(self).roots().insert(root@));
        }
    }

    /// Remove a root's watcher; dropping the handle releases the OS watch.
    /// Reports whether one was present.
    pub fn remove(&mut self, root: &String) -> (present: bool)
        requires
            old(self).wf(),
        ensures
            final(self).wf(),
            present == old(self).roots().contains(root@),
            final(self).roots() == old(self).roots().remove(root@),
    {
        let mut i: usize = 0;
        while i < self.entries.len()
            invariant
                i <= self.entries@.len(),
                self.wf(),
                self.entries@ == old(self).entries@,
                forall|k: int| 0 <= k < i ==> self.entries@[k].0@ != root@,
            decreases self.entries@.len() - i,
        {
            if self.entries[i].0 == *root {
                proof {
                    lemma_kv_value(self.entries@, i as int);
                    lemma_kv_remove(self.entries@, i as int);
                }
                let _dropped = self.entries.remove(i);
                proof {
                    assert(final(self).roots() =~= old(self).roots().remove(root@));
                }
                return true;
            }
            i = i + 1;
        }
        proof {
            lemma_kv_contains(self.entries@, root@);
            assert(final(self).roots() =~= old(self).roots().remove(root@));
        }
        false
    }
}

/// Daemon state: per-file cache, per-query result cache, active watchers.
pub struct DaemonState {
    pub file_cache: FileCache,
    pub result_cache: ResultCache,
    pub root_watchers: WatcherMap,
}

impl DaemonState {
    pub open spec fn wf(&self) -> bool {
        self.file_cache.wf() && self.result_cache.wf() && self.root_watchers.wf()
    }

    pub fn new() -> (r: DaemonState)
        ensures
            r.wf(),
            r.file_cache@ == Map::<Seq<char>, u64>::empty(),
            r.result_cache@ == Map::<(Seq<char>, Seq<char>, Seq<char>), HashResult>::empty(),
            r.root_watchers.roots() == Set::<Seq<char>>::empty(),
    {
        DaemonState {
            file_cache: FileCache::new(),
            result_cache: ResultCache::new(),
            root_watchers: WatcherMap::new(),
        }
    }
}

/// Invalidate the caches for a changed path: its per-file entry goes, and
/// so does every result-cache entry whose `root/path` directory is at or
/// above the changed path.  Watchers are untouched.
pub fn invalidate_file(state: &mut DaemonState, path: &String)
    requires
        old(state).wf(),
    ensures
        final(state).wf(),
        final(state).file_cache@ == old(state).file_cache@.remove(path@),
        final(state).result_cache@ == old(state).result_cache@.remove_keys(
            Set::new(invalidated_by(path@)),
        ),
        forall|q: (Seq<char>, Seq<char>, Seq<char>)|
            final(state).result_cache@.contains_key(q) ==> !is_path_prefix(
                spec_join(q.0, q.1),
                path@,
            ),
        final(state).root_watchers.roots() == old(state).root_watchers.roots(),
{
    state.file_cache.remove(path);
    state.result_cache.invalidate_under(path);
}

/// Start a recursive watcher on `root` if none runs yet and an event sink
/// was given.  Idempotent per root; a watcher-install failure leaves the
/// map unchanged.
fn start_watching(
    state: &mut DaemonState,
    root: &String,
    event_tx: Option<&tokio::sync::mpsc::Sender<notify::Event>>,
) -> (r: Result<(), HashError>)
    requires
        old(state).wf(),
    ensures
        final(state).wf(),
        final(state).file_cache@ == old(state).file_cache@,
        final(state).result_cache@ == old(state).result_cache@,
        r is Ok ==> final(state).root_watchers.roots() == if event_tx is Some {
            old(state).root_watchers.roots().insert(root@)
        } else {
            old(state).root_watchers.roots()
        },
        old(state).root_watchers.roots().contains(root@) ==> r is Ok,
        event_tx is None ==> r is Ok,
        r is Err ==> (r matches Err(HashError::Watch(_)) && final(state).root_watchers.roots()
            == old(state).root_watchers.roots()),
{
    if state.root_watchers.contains_root(root) {
        proof {
            assert(old(state).root_watchers.roots().insert(root@)
                =~= old(state).root_watchers.roots());
        }
        return Ok(());
    }
    let tx = match event_tx {
        Some(tx) => tx,
        None => {
            return Ok(());
        },
    };
    match install_watcher(root, tx) {
        Ok(w) => {
            let owned = root.clone();
            state.root_watchers.insert(owned, w);
            Ok(())
        },
        Err(msg) => Err(HashError::Watch(msg)),
    }
}

/// Ensure a watcher runs on `root`, routing events to `event_tx`.  Calling
/// it again for the same root changes nothing: at most one watcher per
/// root ever exists.  Without an event sink it succeeds without installing
/// anything, which lets background re-hashes run without spawning watchers.
pub fn ensure_watching(
    state: &mut DaemonState,
    root: &String,
    event_tx: Option<&tokio::sync::mpsc::Sender<notify::Event>>,
) -> (r: Result<(), HashError>)
    requires
        old(state).wf(),
    ensures
        final(state).wf(),
        final(state).file_cache@ == old(state).file_cache@,
        final(state).result_cache@ == old(state).result_cache@,
        r is Ok ==> final(state).root_watchers.roots() == if event_tx is Some {
            old(state).root_watchers.roots().insert(root@)
        } else {
            old(state).root_watchers.roots()
        },
        old(state).root_watchers.roots().contains(root@) ==> r is Ok,
        event_tx is None ==> r is Ok,
        r is Err ==> (r matches Err(HashError::Watch(_)) && final(state).root_watchers.roots()
            == old(state).root_watchers.roots()),
{
    start_watching(state, root, event_tx)
}

/// Stop watching a root; dropping the handle releases the OS resources.
/// Reports whether a watcher was present.
pub fn stop_watching(state: &mut DaemonState, root: &String) -> (present: bool)
    requires
        old(state).wf(),
    ensures
        final(state).wf(),
        final(state).file_cache@ == old(state).file_cache@,
        final(state).result_cache@ == old(state).result_cache@,
        present == old(state).root_watchers.roots().contains(root@),
        final(state).root_watchers.roots() == old(state).root_watchers.roots().remove(root@),
{
    state.root_watchers.remove(root)
}

/// What a query needs next, after the watcher and result-cache steps.
pub enum HashStep {
    /// Answered verbatim from the result cache.
    Cached(HashResult),
    /// The matched files, and those whose contents must be read and hashed
    /// before `hash_complete` can finish the query.
    Need { files: Vec<String>, misses: Vec<String> },
}

/// Begin a query: optionally ensure a watcher for `root`, then consult the
/// result cache; on a miss, enumerate the matching files and report which
/// of them are missing from the per-file cache.  Neither cache is changed.
pub fn hash(
    state: &mut DaemonState,
    root: &String,
    path: &String,
    glob: &String,
    persistent: bool,
    event_tx: Option<&tokio::sync::mpsc::Sender<notify::Event>>,
) -> (r: Result<HashStep, HashError>)
    requires
        old(state).wf(),
    ensures
        final(state).wf(),
        final(state).file_cache@ == old(state).file_cache@,
        final(state).result_cache@ == old(state).result_cache@,
        final(state).root_watchers.roots() == if persistent && event_tx is Some && !(r matches Err(
            HashError::Watch(_),
        )) {
            old(state).root_watchers.roots().insert(root@)
        } else {
            old(state).root_watchers.roots()
        },
        (r is Ok && old(state).result_cache@.contains_key((root@, path@, glob@))) ==> r
            == Result::<HashStep, HashError>::Ok(
            HashStep::Cached(old(state).result_cache@[(root@, path@, glob@)]),
        ),
        r matches Ok(HashStep::Cached(hr)) ==> (old(state).result_cache@.contains_key(
            (root@, path@, glob@),
        ) && hr == old(state).result_cache@[(root@, path@, glob@)]),
        r matches Ok(HashStep::Need { files, misses }) ==> {
            &&& !old(state).result_cache@.contains_key((root@, path@, glob@))
            &&& crate::hasher::glob_pattern_ok(glob@)
            &&& files@.len() > 0
            &&& forall|k: int|
                0 <= k < files@.len() ==> {
                    &&& is_path_prefix(spec_join(root@, path@), files@[k]@)
                    &&& crate::hasher::glob_matches(
                        glob@,
                        crate::paths::spec_rel(spec_join(root@, path@), files@[k]@),
                    )
                }
            &&& misses@ == spec_misses(old(state).file_cache@, files@)
        },
        r matches Err(e) ==> (e matches HashError::Watch(_) || e matches HashError::InvalidGlob(_)
            || e matches HashError::NoFilesMatched),
        (r matches Err(e) && e matches HashError::InvalidGlob(_)) ==> !crate::hasher::glob_pattern_ok(
            glob@,
        ),
        (r matches Err(e) && e matches HashError::Watch(_)) ==> persistent,
        (r matches Err(e) && !(e matches HashError::Watch(_))) ==> !old(
            state,
        ).result_cache@.contains_key((root@, path@, glob@)),
        (r matches Err(e) && e matches HashError::NoFilesMatched) ==> crate::hasher::glob_pattern_ok(
            glob@,
        ),
        (!persistent && old(state).result_cache@.contains_key((root@, path@, glob@))) ==> r is Ok,
{
    if persistent {
        match start_watching(state, root, event_tx) {
            Ok(()) => (),
            Err(e) => {
                return Err(e);
            },
        }
    }
    let key = GlobKey { root: root.clone(), path: path.clone(), glob: glob.clone() };
    if let Some(hr) = state.result_cache.get(&key) {
        return Ok(HashStep::Cached(hr));
    }
    let files = match crate::hasher::list_files(root.as_str(), path.as_str(), glob.as_str()) {
        Ok(f) => f,
        Err(e) => {
            return Err(e);
        },
    };
    let misses = crate::hash_service::cache_misses(&state.file_cache, &files);
    Ok(HashStep::Need { files, misses })
}

/// Finish a query begun with `hash`: record the freshly read per-file
/// hashes, aggregate, and remember the result.  A read failure aborts the
/// query and leaves the result cache untouched; the per-file hashes read
/// before the failure stay recorded.
pub fn hash_complete(
    state: &mut DaemonState,
    root: &String,
    path: &String,
    glob: &String,
    files: &Vec<String>,
    fresh: &Vec<(String, u64)>,
    failure: &Option<ReadFailure>,
) -> (r: Result<HashResult, HashError>)
    requires
        old(state).wf(),
        failure is None ==> forall|i: int|
            0 <= i < files@.len() ==> old(state).file_cache@.contains_key(files@[i]@) || exists|
                j: int,
            | 0 <= j < fresh@.len() && fresh@[j].0@ == files@[i]@,
    ensures
        final(state).wf(),
        final(state).file_cache@ == spec_record_all(old(state).file_cache@, fresh@),
        final(state).root_watchers.roots() == old(state).root_watchers.roots(),
        failure matches Some(f) ==> (r == Result::<HashResult, HashError>::Err(
            HashError::ReadFile { path: f.path, cause: f.cause },
        ) && final(state).result_cache@ == old(state).result_cache@),
        failure is None ==> (r matches Ok(hr) && hr.file_count == files@.len() && hr.hash
            == crate::hasher::spec_aggregate(cached_hashes(final(state).file_cache@, files@))
            && final(state).result_cache@ == old(state).result_cache@.insert(
            (root@, path@, glob@),
            hr,
        )),
{
    match crate::hash_service::hash_with_cache(&mut state.file_cache, files, fresh, failure) {
        Ok(hr) => {
            let key = GlobKey { root: root.clone(), path: path.clone(), glob: glob.clone() };
            state.result_cache.insert(key, hr);
            Ok(hr)
        },
        Err(e) => Err(e),
    }
}

/// A finished query is answered verbatim next time: once `hash_complete`
/// has stored a result for a query, `hash` finds it in the result cache —
/// until an invalidation removes it — and its contract then forces the
/// stored result to be returned as `Cached`, byte for byte, with no file
/// enumerated or read.
pub proof fn lemma_second_hash_is_cached(
    results: Map<(Seq<char>, Seq<char>, Seq<char>), HashResult>,
    q: (Seq<char>, Seq<char>, Seq<char>),
    hr: HashResult,
)
    ensures
        results.insert(q, hr).contains_key(q),
        results.insert(q, hr)[q] == hr,
{
}

/// Installing a watcher for a root is idempotent at the level of the
/// watched-root set: once a root is present, ensuring it again — any
/// number of times — leaves the set exactly as it was.
pub proof fn lemma_watch_roots_idempotent(roots: Set<Seq<char>>, root: Seq<char>)
    ensures
        roots.insert(root).insert(root) == roots.insert(root),
{
    assert(roots.insert(root).insert(root) =~= roots.insert(root));
}

} // verus!
