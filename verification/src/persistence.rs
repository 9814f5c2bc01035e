//! The persisted watch set: the tuples to restore after a restart.
//!
//! Only the watch set survives restarts; caches are memory-only.  Reading
//! and writing the state file is outside work; the set itself, with its
//! insert/remove rules, lives here.

use vstd::prelude::*;

use crate::protocol::spec_subscription_key;

verus! {

/// The persistable identity of a subscription: one logical query.
#[derive(Debug)]
pub struct WatchEntry {
    /// Absolute root directory.
    pub root: String,
    /// Directory relative to `root`.
    pub path: String,
    /// Glob pattern, matched relative to `root/path`.
    pub glob: String,
}

impl View for WatchEntry {
    type V = (Seq<char>, Seq<char>, Seq<char>);

    open spec fn view(&self) -> (Seq<char>, Seq<char>, Seq<char>) {
        (self.root@, self.path@, self.glob@)
    }
}

impl WatchEntry {
    pub fn dup(&self) -> (r: WatchEntry)
        ensures
            r == *self,
    {
        WatchEntry { root: self.root.clone(), path: self.path.clone(), glob: self.glob.clone() }
    }

    fn same_entry(&self, other: &WatchEntry) -> (r: bool)
        ensures
            r == (self@ == other@),
    {
        let r = self.root == other.root && self.path == other.path && self.glob == other.glob;
        proof {
            if self.root@ == other.root@ && self.path@ == other.path@ && self.glob@
                == other.glob@ {
                assert(self@ == other@);
            }
        }
        r
    }

    /// The subscription key this entry persists under.
    pub open spec fn spec_key(&self) -> Seq<char> {
        spec_subscription_key(self.root@, self.path@, self.glob@)
    }
}

/// Keep an entry when its subscription key differs from `key`.
pub open spec fn keeps_key(key: Seq<char>) -> spec_fn(WatchEntry) -> bool {
    |e: WatchEntry| e.spec_key() != key
}

/// What survives a restart: the set of watch tuples.
pub struct PersistedState {
    entries: Vec<WatchEntry>,
}

impl View for PersistedState {
    type V = Set<(Seq<char>, Seq<char>, Seq<char>)>;

    /// The set of tuples held.
    closed spec fn view(&self) -> Set<(Seq<char>, Seq<char>, Seq<char>)> {
        Set::new(
            |q: (Seq<char>, Seq<char>, Seq<char>)|
                exists|i: int| 0 <= i < self.entries@.len() && self.entries@[i]@ == q,
        )
    }
}

impl Default for PersistedState {
    /// An empty watch set: also what an absent or unreadable state file
    /// loads as.
    fn default() -> (r: PersistedState)
        ensures
            r@ == Set::<(Seq<char>, Seq<char>, Seq<char>)>::empty(),
    {
        let r = PersistedState { entries: Vec::new() };
        proof {
            assert(r@ =~= Set::<(Seq<char>, Seq<char>, Seq<char>)>::empty());
        }
        r
    }
}

impl PersistedState {
    pub fn new() -> (r: PersistedState)
        ensures
            r@ == Set::<(Seq<char>, Seq<char>, Seq<char>)>::empty(),
    {
        Self::default()
    }

    /// The number of entries, as the iteration bound for `entry_at`.
    pub closed spec fn spec_len(&self) -> nat {
        self.entries@.len()
    }

    /// How many tuples are held.
    pub fn len(&self) -> (n: usize)
        ensures
            n == self.spec_len(),
    {
        self.entries.len()
    }

    /// The tuple at an index (for iteration by the restorer and saver).
    pub fn entry_at(&self, i: usize) -> (e: &WatchEntry)
        requires
            i < self.spec_len(),
        ensures
            self@.contains(e@),
    {
        &self.entries[i]
    }

    /// Whether the set holds this tuple.
    pub fn contains(&self, e: &WatchEntry) -> (r: bool)
        ensures
            r == self@.contains(e@),
    {
        let mut i: usize = 0;
        while i < self.entries.len()
            invariant
                i <= self.entries@.len(),
                forall|k: int| 0 <= k < i ==> self.entries@[k]@ != e@,
            decreases self.entries@.len() - i,
        {
            if self.entries[i].same_entry(e) {
                return true;
            }
            i = i + 1;
        }
        false
    }

    /// Insert a tuple; reports whether the set grew.
    pub fn insert(&mut self, e: WatchEntry) -> (added: bool)
        ensures
            final(self)@ == old(self)@.insert(e@),
            added == !old(self)@.contains(e@),
    {
        if self.contains(&e) {
            proof {
                assert(final(self)@ =~= old(self)@.insert(e@));
            }
            return false;
        }
        self.entries.push(e);
        proof {
            assert forall|q: (Seq<char>, Seq<char>, Seq<char>)|
                final(self)@.contains(q) == old(self)@.insert(e@).contains(q) by {
                if q == e@ {
                    assert(self.entries@[self.entries@.len() - 1]@ == q);
                } else {
                    if final(self)@.contains(q) {
                        let i = choose|i: int|
                            0 <= i < self.entries@.len() && self.entries@[i]@ == q;
                        assert(old(self).entries@[i]@ == q);
                    }
                    if old(self)@.contains(q) {
                        let i = choose|i: int|
                            0 <= i < old(self).entries@.len() && old(self).entries@[i]@ == q;
                        assert(self.entries@[i]@ == q);
                    }
                }
            }
            assert(final(self)@ =~= old(self)@.insert(e@));
        }
        true
    }

    /// Remove every tuple whose subscription key is `key`; reports whether
    /// anything left.
    pub fn remove_by_key(&mut self, key: &String) -> (changed: bool)
        ensures
            forall|q: (Seq<char>, Seq<char>, Seq<char>)|
                final(self)@.contains(q) <==> (old(self)@.contains(q) && spec_subscription_key(
                    q.0,
                    q.1,
                    q.2,
                ) != key@),
            changed <==> exists|q: (Seq<char>, Seq<char>, Seq<char>)|
                old(self)@.contains(q) && spec_subscription_key(q.0, q.1, q.2) == key@,
    {
        let ghost keepf = keeps_key(key@);
        let mut kept: Vec<WatchEntry> = Vec::new();
        let mut removed_any = false;
        let mut i: usize = 0;
        proof {
            reveal(Seq::filter);
            assert(kept@ =~= self.entries@.take(0).filter(keepf));
        }
        while i < self.entries.len()
            invariant
                i <= self.entries@.len(),
                self.entries@ == old(self).entries@,
                keepf == keeps_key(key@),
                kept@ == self.entries@.take(i as int).filter(keepf),
                removed_any <==> exists|k: int|
                    0 <= k < i && #[trigger] self.entries@[k].spec_key() == key@,
            decreases self.entries@.len() - i,
        {
            proof {
                crate::kv::lemma_filter_take_step(self.entries@, i as int, keepf);
            }
            let e = &self.entries[i];
            let ek = crate::protocol::make_subscription_key(
                e.root.as_str(),
                e.path.as_str(),
                e.glob.as_str(),
            );
            if !(ek == *key) {
                kept.push(e.dup());
                proof {
                    assert forall|k: int|
                        0 <= k < i + 1 && #[trigger] self.entries@[k].spec_key()
                            == key@ implies 0 <= k < i by {}
                }
            } else {
                removed_any = true;
                proof {
                    assert(self.entries@[i as int].spec_key() == key@);
                }
            }
            i = i + 1;
        }
        let ghost kept_seq = kept@;
        let ghost old_entries = self.entries@;
        proof {
            assert(old_entries.take(old_entries.len() as int) =~= old_entries);
        }
        self.entries = kept;
        proof {
            assert forall|q: (Seq<char>, Seq<char>, Seq<char>)|
                final(self)@.contains(q) <==> (old(self)@.contains(q) && spec_subscription_key(
                    q.0,
                    q.1,
                    q.2,
                ) != key@) by {
                if final(self)@.contains(q) {
                    let m = choose|m: int| 0 <= m < kept_seq.len() && kept_seq[m]@ == q;
                    old_entries.lemma_filter_pred(keepf, m);
                    old_entries.lemma_filter_contains_rev(keepf, kept_seq[m]);
                    let k = choose|k: int|
                        0 <= k < old_entries.len() && old_entries[k] == kept_seq[m];
                    assert(old(self).entries@[k]@ == q);
                    assert(keepf(kept_seq[m]));
                    assert(kept_seq[m].spec_key() == spec_subscription_key(q.0, q.1, q.2));
                }
                if old(self)@.contains(q) && spec_subscription_key(q.0, q.1, q.2) != key@ {
                    let k = choose|k: int|
                        0 <= k < old_entries.len() && old_entries[k]@ == q;
                    assert(old_entries[k].spec_key() == spec_subscription_key(q.0, q.1, q.2));
                    assert(keepf(old_entries[k]));
                    old_entries.lemma_filter_contains(keepf, k);
                    assert(kept_seq.contains(old_entries[k]));
                    let m = choose|m: int|
                        0 <= m < kept_seq.len() && kept_seq[m] == old_entries[k];
                    assert(final(self).entries@[m]@ == q);
                }
            }
            assert(removed_any <==> exists|q: (Seq<char>, Seq<char>, Seq<char>)|
                old(self)@.contains(q) && spec_subscription_key(q.0, q.1, q.2) == key@) by {
                if removed_any {
                    let k = choose|k: int|
                        0 <= k < old_entries.len() && #[trigger] old_entries[k].spec_key() == key@;
                    assert(old(self)@.contains(old_entries[k]@));
                    assert(spec_subscription_key(
                        old_entries[k]@.0,
                        old_entries[k]@.1,
                        old_entries[k]@.2,
                    ) == key@);
                }
                if exists|q: (Seq<char>, Seq<char>, Seq<char>)|
                    old(self)@.contains(q) && spec_subscription_key(q.0, q.1, q.2) == key@ {
                    let q = choose|q: (Seq<char>, Seq<char>, Seq<char>)|
                        old(self)@.contains(q) && spec_subscription_key(q.0, q.1, q.2) == key@;
                    let k = choose|k: int|
                        0 <= k < old_entries.len() && old_entries[k]@ == q;
                    assert(old_entries[k].spec_key() == key@);
                }
            }
        }
        removed_any
    }

    /// Whether any held tuple uses this root.
    pub fn contains_root(&self, root: &String) -> (r: bool)
        ensures
            r == exists|q: (Seq<char>, Seq<char>, Seq<char>)| self@.contains(q) && q.0 == root@,
    {
        let mut i: usize = 0;
        while i < self.entries.len()
            invariant
                i <= self.entries@.len(),
                forall|k: int| 0 <= k < i ==> self.entries@[k].root@ != root@,
            decreases self.entries@.len() - i,
        {
            if self.entries[i].root == *root {
                proof {
                    let q = self.entries@[i as int]@;
                    assert(self@.contains(q) && q.0 == root@);
                }
                return true;
            }
            i = i + 1;
        }
        proof {
            if exists|q: (Seq<char>, Seq<char>, Seq<char>)| self@.contains(q) && q.0 == root@ {
                let q = choose|q: (Seq<char>, Seq<char>, Seq<char>)|
                    self@.contains(q) && q.0 == root@;
                let k = choose|k: int| 0 <= k < self.entries@.len() && self.entries@[k]@ == q;
                assert(self.entries@[k].root@ == root@);
            }
        }
        false
    }
}

} // verus!
