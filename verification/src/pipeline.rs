//! The debounce half of the event pipeline.
//!
//! Raw watcher events set a per-path deadline; a periodic flush takes the
//! paths whose deadline has passed, so that an edit burst inside one
//! debounce window collapses into a single invalidation per path.  Only
//! create, modify and remove events are relevant.

use vstd::prelude::*;

use crate::kv::{
    kv_as_map, kv_drop_keys, kv_wf, lemma_kv_contains, lemma_kv_drop_keys_step, lemma_kv_filter,
    lemma_kv_push, lemma_kv_remove, lemma_kv_value,
};
use crate::paths::{is_path_prefix, spec_rel};

verus! {

/// The debounce window in milliseconds.
pub const DEBOUNCE_MS: u64 = 100;

/// The kinds of raw filesystem events, as far as the pipeline cares.
#[derive(Debug, Clone, Copy, PartialEq, Eq, Structural)]
pub enum FsEventKind {
    Create,
    Modify,
    Remove,
    /// Metadata-only, access and other events: dropped.
    Other,
}

/// Whether an event kind feeds the pipeline.
pub open spec fn spec_relevant(kind: FsEventKind) -> bool {
    kind == FsEventKind::Create || kind == FsEventKind::Modify || kind == FsEventKind::Remove
}

/// The pending debounce deadlines: path to deadline (milliseconds).
pub struct PendingMap {
    entries: Vec<(String, u64)>,
}

impl View for PendingMap {
    type V = Map<Seq<char>, u64>;

    closed spec fn view(&self) -> Map<Seq<char>, u64> {
        kv_as_map(self.entries@)
    }
}

/// A pending deadline is ready once `now` has reached it.
pub open spec fn ready_at(m: Map<Seq<char>, u64>, now: u64) -> spec_fn(Seq<char>) -> bool {
    |k: Seq<char>| m.contains_key(k) && m[k] <= now
}

impl PendingMap {
    pub closed spec fn wf(&self) -> bool {
        kv_wf(self.entries@)
    }

    pub fn new() -> (r: PendingMap)
        ensures
            r.wf(),
            r@ == Map::<Seq<char>, u64>::empty(),
    {
        PendingMap { entries: Vec::new() }
    }

    fn insert(&mut self, path: String, deadline: u64)
        requires
            old(self).wf(),
        ensures
            final(self).wf(),
            final(self)@ == old(self)@.insert(path@, deadline),
    {
        let mut i: usize = 0;
        while i < self.entries.len()
            invariant
                i <= self.entries@.len(),
                self.wf(),
                self@ == old(self)@,
                self.entries@ == old(self).entries@,
                forall|k: int| 0 <= k < i ==> self.entries@[k].0@ != path@,
            decreases self.entries@.len() - i,
        {
            if self.entries[i].0 == path {
                proof {
                    lemma_kv_value(self.entries@, i as int);
                    lemma_kv_remove(self.entries@, i as int);
                }
                self.entries.remove(i);
                proof {
                    lemma_kv_contains(self.entries@, path@);
                    lemma_kv_push(self.entries@, path, deadline);
                }
                self.entries.push((path, deadline));
                proof {
                    assert(self@ =~= old(self)@.insert(path@, deadline));
                }
                return ;
            }
            i = i + 1;
        }
        proof {
            lemma_kv_contains(self.entries@, path@);
            lemma_kv_push(self.entries@, path, deadline);
        }
        self.entries.push((path, deadline));
        proof {
            assert(self@ =~= old(self)@.insert(path@, deadline));
        }
    }

    /// Remove and return the paths whose deadline has passed, in entry
    /// order and without duplicates: exactly those paths leave the map,
    /// each once, so one flush yields exactly one invalidation per path.
    pub fn take_ready(&mut self, now_ms: u64) -> (ready: Vec<String>)
        requires
            old(self).wf(),
        ensures
            final(self).wf(),
            final(self)@ == old(self)@.remove_keys(Set::new(ready_at(old(self)@, now_ms))),
            forall|a: int, b: int| 0 <= a < b < ready@.len() ==> ready@[a]@ != ready@[b]@,
            forall|j: int|
                0 <= j < ready@.len() ==> (old(self)@.contains_key(#[trigger] ready@[j]@) && old(
                    self,
                )@[ready@[j]@] <= now_ms),
            forall|k: Seq<char>|
                old(self)@.contains_key(k) && old(self)@[k] <= now_ms ==> exists|j: int|
                    0 <= j < ready@.len() && #[trigger] ready@[j]@ == k,
    {
        let ghost dropf = ready_at(old(self)@, now_ms);
        let ghost old_entries = self.entries@;
        let mut kept: Vec<(String, u64)> = Vec::new();
        let mut ready: Vec<String> = Vec::new();
        let mut i: usize = 0;
        proof {
            reveal(Seq::filter);
            assert(kept@ =~= kv_drop_keys(old_entries.take(0), dropf));
        }
        while i < self.entries.len()
            invariant
                i <= self.entries@.len(),
                self.wf(),
                self@ == old(self)@,
                self.entries@ == old_entries,
                old_entries == old(self).entries@,
                dropf == ready_at(old(self)@, now_ms),
                kept@ == kv_drop_keys(old_entries.take(i as int), dropf),
                forall|j: int|
                    0 <= j < ready@.len() ==> (old(self)@.contains_key(#[trigger] ready@[j]@)
                        && old(self)@[ready@[j]@] <= now_ms),
                forall|k: int|
                    0 <= k < i && dropf(old_entries[k].0@) ==> exists|j: int|
                        0 <= j < ready@.len() && #[trigger] ready@[j]@ == old_entries[k].0@,
                forall|j: int|
                    0 <= j < ready@.len() ==> exists|k: int|
                        0 <= k < i && #[trigger] ready@[j]@ == old_entries[k].0@,
                forall|a: int, b: int| 0 <= a < b < ready@.len() ==> ready@[a]@ != ready@[b]@,
            decreases self.entries@.len() - i,
        {
            proof {
                lemma_kv_drop_keys_step(old_entries, i as int, dropf);
                lemma_kv_value(old_entries, i as int);
            }
            let e = &self.entries[i];
            if e.1 <= now_ms {
                let ghost prev_ready = ready@;
                let p = e.0.clone();
                ready.push(p);
                proof {
                    assert(ready@[ready@.len() - 1]@ == old_entries[i as int].0@);
                    assert forall|k: int|
                        0 <= k < i + 1 && dropf(old_entries[k].0@) implies exists|j: int|
                        0 <= j < ready@.len() && #[trigger] ready@[j]@ == old_entries[k].0@ by {
                        if k < i {
                            let j = choose|j: int|
                                0 <= j < prev_ready.len() && #[trigger] prev_ready[j]@
                                    == old_entries[k].0@;
                            assert(ready@[j]@ == old_entries[k].0@);
                        } else {
                            assert(ready@[ready@.len() - 1]@ == old_entries[k].0@);
                        }
                    }
                    assert forall|j: int|
                        0 <= j < ready@.len() implies exists|k: int|
                        0 <= k < i + 1 && #[trigger] ready@[j]@ == old_entries[k].0@ by {
                        if j < prev_ready.len() {
                            let k = choose|k: int|
                                0 <= k < i && #[trigger] prev_ready[j]@ == old_entries[k].0@;
                            assert(ready@[j]@ == old_entries[k].0@);
                        } else {
                            assert(ready@[j]@ == old_entries[i as int].0@);
                        }
                    }
                    assert forall|a: int, b: int|
                        0 <= a < b < ready@.len() implies ready@[a]@ != ready@[b]@ by {
                        if b == ready@.len() - 1 {
                            let k = choose|k: int|
                                0 <= k < i && #[trigger] prev_ready[a]@ == old_entries[k].0@;
                            assert(old_entries[k].0@ != old_entries[i as int].0@);
                            assert(ready@[a]@ == prev_ready[a]@);
                        }
                    }
                }
            } else {
                let p = e.0.clone();
                kept.push((p, e.1));
                proof {
                    assert((kept@[kept@.len() - 1]) == old_entries[i as int]);
                    assert(!dropf(old_entries[i as int].0@));
                }
            }
            i = i + 1;
        }
        proof {
            assert(old_entries.take(old_entries.len() as int) =~= old_entries);
            lemma_kv_filter(old_entries, dropf);
        }
        self.entries = kept;
        proof {
            assert(final(self)@ =~= old(self)@.remove_keys(Set::new(dropf)));
            assert forall|k: Seq<char>|
                old(self)@.contains_key(k) && old(self)@[k] <= now_ms implies exists|j: int|
                0 <= j < ready@.len() && #[trigger] ready@[j]@ == k by {
                lemma_kv_contains(old_entries, k);
                let idx = choose|idx: int|
                    0 <= idx < old_entries.len() && old_entries[idx].0@ == k;
                lemma_kv_value(old_entries, idx);
                assert(dropf(old_entries[idx].0@));
            }
        }
        ready
    }
}

/// Note one raw event: every path of a relevant event gets the deadline
/// `now + DEBOUNCE_MS`, overwriting any earlier one — rapid bursts coalesce.
/// Irrelevant events change nothing.
pub fn note_event(
    pending: &mut PendingMap,
    kind: FsEventKind,
    paths: &Vec<String>,
    now_ms: u64,
) -> (deadline: u64)
    requires
        old(pending).wf(),
        now_ms + DEBOUNCE_MS <= u64::MAX,
    ensures
        final(pending).wf(),
        deadline == now_ms + DEBOUNCE_MS,
        !spec_relevant(kind) ==> final(pending)@ == old(pending)@,
        spec_relevant(kind) ==> {
            &&& forall|j: int|
                0 <= j < paths@.len() ==> final(pending)@.contains_key(#[trigger] paths@[j]@)
                    && final(pending)@[paths@[j]@] == deadline
            &&& forall|k: Seq<char>|
                final(pending)@.contains_key(k) ==> (old(pending)@.contains_key(k) || exists|
                    j: int,
                | 0 <= j < paths@.len() && #[trigger] paths@[j]@ == k)
            &&& forall|k: Seq<char>|
                old(pending)@.contains_key(k) ==> final(pending)@.contains_key(k)
        },
{
    let deadline = now_ms + DEBOUNCE_MS;
    let relevant = match kind {
        FsEventKind::Create => true,
        FsEventKind::Modify => true,
        FsEventKind::Remove => true,
        FsEventKind::Other => false,
    };
    if !relevant {
        return deadline;
    }
    let mut j: usize = 0;
    while j < paths.len()
        invariant
            j <= paths@.len(),
            pending.wf(),
            forall|m: int|
                0 <= m < j ==> pending@.contains_key(#[trigger] paths@[m]@) && pending@[paths@[m]@]
                    == deadline,
            forall|k: Seq<char>|
                pending@.contains_key(k) ==> (old(pending)@.contains_key(k) || exists|m: int|
                    0 <= m < j && #[trigger] paths@[m]@ == k),
            forall|k: Seq<char>| old(pending)@.contains_key(k) ==> pending@.contains_key(k),
        decreases paths@.len() - j,
    {
        let p = paths[j].clone();
        pending.insert(p, deadline);
        j = j + 1;
    }
    deadline
}

/// Relies on std's Path::canonicalize: resolves the path against the live
/// filesystem; None when resolution fails.  What comes back depends on the
/// filesystem, so nothing is assumed about it.
#[verifier::external_body]
fn canonicalize_path(p: &str) -> (r: Option<String>) {
    match std::path::Path::new(p).canonicalize() {
        Ok(pb) => Some(pb.to_string_lossy().into_owned()),
        Err(_) => None,
    }
}

/// Whether a changed path belongs to the watch `(watch_dir, glob)`: under
/// the directory, and its relative path matches the glob.  An ill-formed
/// glob matches nothing.
pub open spec fn spec_matches_watch(changed: Seq<char>, watch_dir: Seq<char>, glob: Seq<char>) -> bool {
    &&& is_path_prefix(watch_dir, changed)
    &&& crate::hasher::glob_pattern_ok(glob)
    &&& crate::hasher::glob_matches(glob, spec_rel(watch_dir, changed))
}

/// The pure half of watch matching, on already-resolved paths.
pub fn matches_watch_paths(changed: &str, watch_dir: &str, glob: &str) -> (r: bool)
    ensures
        r == spec_matches_watch(changed@, watch_dir@, glob@),
{
    if !crate::paths::path_starts_with(changed, watch_dir) {
        return false;
    }
    if crate::hasher::glob_check(glob).is_some() {
        return false;
    }
    let rel = crate::paths::strip_path_prefix(changed, watch_dir);
    crate::hasher::glob_match(glob, rel.as_str())
}

/// Whether a changed file belongs to the watch `(root, path, glob)`.  Both
/// sides are canonicalized when the filesystem allows it; on failure the
/// plain joined form is used, consistently.  Because resolution consults
/// the live filesystem, only the pure matching half carries an exact
/// contract (`matches_watch_paths`).
pub fn matches_watch(changed: &String, root: &str, path: &str, glob: &str) -> (r: bool)
    ensures
        r ==> crate::hasher::glob_pattern_ok(glob@),
{
    let joined = crate::paths::join_paths(root, path);
    let watch_dir = match canonicalize_path(joined.as_str()) {
        Some(c) => c,
        None => joined,
    };
    let changed_r = match canonicalize_path(changed.as_str()) {
        Some(c) => c,
        None => changed.clone(),
    };
    matches_watch_paths(changed_r.as_str(), watch_dir.as_str(), glob)
}

} // verus!
