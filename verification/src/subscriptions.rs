//! The process-wide subscription registry: key to `(root, path, glob)`.
//!
//! Keys are the deterministic digests of their tuples, so re-registering a
//! tuple lands on the same key.  The registry also computes the fan-out of
//! a flushed batch of changed paths: at most one event per key.

use vstd::prelude::*;

use crate::kv::{kv_as_map, kv_wf, lemma_kv_contains, lemma_kv_push, lemma_kv_remove, lemma_kv_value};
use crate::persistence::WatchEntry;
use crate::protocol::SubscriptionEvent;

verus! {

/// Every path in `paths` occurs in `ready`.
pub open spec fn paths_from(paths: Seq<String>, ready: Seq<String>) -> bool {
    forall|m: int|
        0 <= m < paths.len() ==> exists|i: int|
            0 <= i < ready.len() && #[trigger] paths[m]@ == ready[i]@
}

/// Active subscriptions: key to watch tuple.
pub struct Subscriptions {
    entries: Vec<(String, WatchEntry)>,
}

impl View for Subscriptions {
    type V = Map<Seq<char>, WatchEntry>;

    closed spec fn view(&self) -> Map<Seq<char>, WatchEntry> {
        kv_as_map(self.entries@)
    }
}

impl Subscriptions {
    pub closed spec fn wf(&self) -> bool {
        kv_wf(self.entries@)
    }

    pub fn new() -> (r: Subscriptions)
        ensures
            r.wf(),
            r@ == Map::<Seq<char>, WatchEntry>::empty(),
    {
        Subscriptions { entries: Vec::new() }
    }

    /// Register a tuple under its key.  Registering a key again replaces
    /// the tuple — by construction the same tuple, so this is idempotent.
    pub fn register(&mut self, key: String, entry: WatchEntry)
        requires
            old(self).wf(),
        ensures
            final(self).wf(),
            final(self)@ == old(self)@.insert(key@, entry),
    {
        let mut i: usize = 0;
        while i < self.entries.len()
            invariant
                i <= self.entries@.len(),
                self.wf(),
                self@ == old(self)@,
                self.entries@ == old(self).entries@,
                forall|k: int| 0 <= k < i ==> self.entries@[k].0@ != key@,
            decreases self.entries@.len() - i,
        {
            if self.entries[i].0 == key {
                proof {
                    lemma_kv_value(self.entries@, i as int);
                    lemma_kv_remove(self.entries@, i as int);
                }
                self.entries.remove(i);
                proof {
                    lemma_kv_contains(self.entries@, key@);
                    lemma_kv_push(self.entries@, key, entry);
                }
                self.entries.push((key, entry));
                proof {
                    assert(self@ =~= old(self)@.insert(key@, entry));
                }
                return ;
            }
            i = i + 1;
        }
        proof {
            lemma_kv_contains(self.entries@, key@);
            lemma_kv_push(self.entries@, key, entry);
        }
        self.entries.push((key, entry));
        proof {
            assert(self@ =~= old(self)@.insert(key@, entry));
        }
    }

    /// Remove a key, returning its tuple so the caller can evaluate
    /// watcher teardown.
    pub fn remove(&mut self, key: &String) -> (r: Option<WatchEntry>)
        requires
            old(self).wf(),
        ensures
            final(self).wf(),
            r is Some <==> old(self)@.contains_key(key@),
            r matches Some(e) ==> e == old(self)@[key@],
            final(self)@ == old(self)@.remove(key@),
    {
        let mut i: usize = 0;
        while i < self.entries.len()
            invariant
                i <= self.entries@.len(),
                self.wf(),
                self@ == old(self)@,
                self.entries@ == old(self).entries@,
                forall|k: int| 0 <= k < i ==> self.entries@[k].0@ != key@,
            decreases self.entries@.len() - i,
        {
            if self.entries[i].0 == *key {
                proof {
                    lemma_kv_value(self.entries@, i as int);
                    lemma_kv_remove(self.entries@, i as int);
                }
                let (_k, e) = self.entries.remove(i);
                proof {
                    assert(final(self)@ =~= old(self)@.remove(key@));
                }
                return Some(e);
            }
            i = i + 1;
        }
        proof {
            lemma_kv_contains(self.entries@, key@);
            assert(self@ =~= old(self)@.remove(key@));
        }
        None
    }

    /// Whether any registered tuple uses this root.
    pub fn any_root(&self, root: &String) -> (r: bool)
        requires
            self.wf(),
        ensures
            r == exists|k: Seq<char>|
                #[trigger] self@.contains_key(k) && self@[k].root@ == root@,
    {
        let mut i: usize = 0;
        while i < self.entries.len()
            invariant
                i <= self.entries@.len(),
                self.wf(),
                forall|k: int| 0 <= k < i ==> self.entries@[k].1.root@ != root@,
            decreases self.entries@.len() - i,
        {
            if self.entries[i].1.root == *root {
                proof {
                    lemma_kv_value(self.entries@, i as int);
                    let k = self.entries@[i as int].0@;
                    assert(self@.contains_key(k) && self@[k].root@ == root@);
                }
                return true;
            }
            i = i + 1;
        }
        proof {
            if exists|k: Seq<char>| #[trigger] self@.contains_key(k) && self@[k].root@ == root@ {
                let k = choose|k: Seq<char>|
                    #[trigger] self@.contains_key(k) && self@[k].root@ == root@;
                lemma_kv_contains(self.entries@, k);
                let i = choose|i: int| 0 <= i < self.entries@.len() && self.entries@[i].0@ == k;
                lemma_kv_value(self.entries@, i);
                assert(self.entries@[i].1.root@ == root@);
            }
        }
        false
    }

    /// Fan a flushed batch of changed paths out to the subscriptions they
    /// belong to: one event per matched key, carrying the batch's matching
    /// paths.  Keys are pairwise distinct, every event's key is registered,
    /// every path in an event comes from the batch, and no event is empty.
    #[verifier::loop_isolation(false)]
    pub fn match_ready(&self, ready: &Vec<String>) -> (evs: Vec<SubscriptionEvent>)
        requires
            self.wf(),
        ensures
            forall|j: int| 0 <= j < evs@.len() ==> self@.contains_key(#[trigger] evs@[j].key@),
            forall|a: int, b: int| 0 <= a < b < evs@.len() ==> evs@[a].key@ != evs@[b].key@,
            forall|j: int| 0 <= j < evs@.len() ==> paths_from(#[trigger] evs@[j].paths@, ready@),
            forall|j: int| 0 <= j < evs@.len() ==> evs@[j].paths@.len() > 0,
    {
        let mut evs: Vec<SubscriptionEvent> = Vec::new();
        let mut idx: usize = 0;
        while idx < self.entries.len()
            invariant
                idx <= self.entries@.len(),
                self.wf(),
                forall|j: int| 0 <= j < evs@.len() ==> self@.contains_key(#[trigger] evs@[j].key@),
                forall|j: int|
                    0 <= j < evs@.len() ==> exists|k: int|
                        0 <= k < idx && #[trigger] evs@[j].key@ == self.entries@[k].0@,
                forall|a: int, b: int| 0 <= a < b < evs@.len() ==> evs@[a].key@ != evs@[b].key@,
                forall|j: int|
                    0 <= j < evs@.len() ==> paths_from(#[trigger] evs@[j].paths@, ready@),
                forall|j: int| 0 <= j < evs@.len() ==> evs@[j].paths@.len() > 0,
            decreases self.entries@.len() - idx,
        {
            let e = &self.entries[idx];
            let mut paths: Vec<String> = Vec::new();
            let mut i: usize = 0;
            while i < ready.len()
                invariant
                    i <= ready@.len(),
                    paths_from(paths@, ready@),
                decreases ready@.len() - i,
            {
                if crate::pipeline::matches_watch(
                    &ready[i],
                    e.1.root.as_str(),
                    e.1.path.as_str(),
                    e.1.glob.as_str(),
                ) {
                    let ghost prev = paths@;
                    let p = ready[i].clone();
                    paths.push(p);
                    proof {
                        assert forall|m: int|
                            0 <= m < paths@.len() implies exists|r: int|
                            0 <= r < ready@.len() && #[trigger] paths@[m]@ == ready@[r]@ by {
                            if m < prev.len() {
                                let r = choose|r: int|
                                    0 <= r < ready@.len() && #[trigger] prev[m]@ == ready@[r]@;
                                assert(paths@[m]@ == ready@[r]@);
                            } else {
                                assert(paths@[m]@ == ready@[i as int]@);
                            }
                        }
                    }
                }
                i = i + 1;
            }
            if paths.len() > 0 {
                let ghost prev_evs = evs@;
                let ghost paths_v = paths@;
                let key = e.0.clone();
                proof {
                    lemma_kv_value(self.entries@, idx as int);
                }
                evs.push(SubscriptionEvent { key, paths });
                proof {
                    assert(evs@[evs@.len() - 1].key@ == self.entries@[idx as int].0@);
                    assert(evs@[evs@.len() - 1].paths@ == paths_v);
                    assert forall|j: int|
                        0 <= j < evs@.len() implies paths_from(
                        #[trigger] evs@[j].paths@,
                        ready@,
                    ) by {
                        if j < prev_evs.len() {
                            assert(evs@[j] == prev_evs[j]);
                        } else {
                            assert(evs@[j].paths@ == paths_v);
                        }
                    }
                    assert forall|a: int, b: int|
                        0 <= a < b < evs@.len() implies evs@[a].key@ != evs@[b].key@ by {
                        if b == evs@.len() - 1 {
                            let k = choose|k: int|
                                0 <= k < idx && #[trigger] prev_evs[a].key@
                                    == self.entries@[k].0@;
                            assert(self.entries@[k].0@ != self.entries@[idx as int].0@);
                        }
                    }
                    assert forall|j: int|
                        0 <= j < evs@.len() implies exists|k: int|
                        0 <= k < idx + 1 && #[trigger] evs@[j].key@ == self.entries@[k].0@ by {
                        if j < prev_evs.len() {
                            let k = choose|k: int|
                                0 <= k < idx && #[trigger] prev_evs[j].key@
                                    == self.entries@[k].0@;
                            assert(evs@[j].key@ == self.entries@[k].0@);
                        } else {
                            assert(evs@[j].key@ == self.entries@[idx as int].0@);
                        }
                    }
                }
            }
            idx = idx + 1;
        }
        evs
    }
}

} // verus!
