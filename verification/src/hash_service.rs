//! The per-file hash cache and the cached aggregate computation.
//!
//! Reading file contents is outside work, so a query runs in two steps:
//! the caller first asks which matched files are missing from the cache
//! (`cache_misses`), reads and hashes those, and then hands the fresh
//! hashes to `hash_with_cache`, which records them and folds the per-file
//! hashes of the whole file set into one aggregate digest.  A read failure
//! aborts the query; hashes read before the failure stay recorded.

use vstd::prelude::*;

use crate::hasher::{spec_aggregate, HashError};
use crate::kv::{kv_as_map, kv_wf, lemma_kv_contains, lemma_kv_push, lemma_kv_remove, lemma_kv_value};

verus! {

/// The outcome of one query: the aggregate digest and how many files fed it.
#[derive(Clone, Copy)]
pub struct HashResult {
    /// Aggregate 64-bit digest of the matched files' contents.
    pub hash: u64,
    /// Number of matched files.
    pub file_count: usize,
}

/// A file that could not be read, with the reason.
pub struct ReadFailure {
    pub path: String,
    pub cause: String,
}

/// Per-file content-hash cache: absolute path to 64-bit content hash.
/// An entry is present only while no invalidation has fired for its path.
pub struct FileCache {
    entries: Vec<(String, u64)>,
}

impl View for FileCache {
    type V = Map<Seq<char>, u64>;

    closed spec fn view(&self) -> Map<Seq<char>, u64> {
        kv_as_map(self.entries@)
    }
}

impl FileCache {
    /// Internal well-formedness: one entry per path.
    pub closed spec fn wf(&self) -> bool {
        kv_wf(self.entries@)
    }

    pub fn new() -> (r: FileCache)
        ensures
            r.wf(),
            r@ == Map::<Seq<char>, u64>::empty(),
    {
        FileCache { entries: Vec::new() }
    }

    /// The cached hash for a path, if any.
    pub fn get(&self, path: &String) -> (r: Option<u64>)
        requires
            self.wf(),
        ensures
            r is Some <==> self@.contains_key(path@),
            r matches Some(h) ==> self@[path@] == h,
    {
        let mut i: usize = 0;
        while i < self.entries.len()
            invariant
                i <= self.entries@.len(),
                self.wf(),
                forall|k: int| 0 <= k < i ==> self.entries@[k].0@ != path@,
            decreases self.entries@.len() - i,
        {
            if self.entries[i].0 == *path {
                proof {
                    lemma_kv_value(self.entries@, i as int);
                }
                return Some(self.entries[i].1);
            }
            i = i + 1;
        }
        proof {
            lemma_kv_contains(self.entries@, path@);
        }
        None
    }

    /// Remove a path's entry; reports whether one was present.
    pub fn remove(&mut self, path: &String) -> (present: bool)
        requires
            old(self).wf(),
        ensures
            final(self).wf(),
            present == old(self)@.contains_key(path@),
            final(self)@ == old(self)@.remove(path@),
    {
        let mut i: usize = 0;
        while i < self.entries.len()
            invariant
                i <= self.entries@.len(),
                self.wf(),
                self@ == old(self)@,
                self.entries@ == old(self).entries@,
                forall|k: int| 0 <= k < i ==> self.entries@[k].0@ != path@,
            decreases self.entries@.len() - i,
        {
            if self.entries[i].0 == *path {
                proof {
                    lemma_kv_value(self.entries@, i as int);
                    lemma_kv_remove(self.entries@, i as int);
                }
                self.entries.remove(i);
                return true;
            }
            i = i + 1;
        }
        proof {
            lemma_kv_contains(self.entries@, path@);
            assert(self@ =~= old(self)@.remove(path@));
        }
        false
    }

    /// Record a path's content hash, replacing any older entry.
    pub fn insert(&mut self, path: String, h: u64)
        requires
            old(self).wf(),
        ensures
            final(self).wf(),
            final(self)@ == old(self)@.insert(path@, h),
    {
        self.remove(&path);
        proof {
            lemma_kv_contains(self.entries@, path@);
            lemma_kv_push(self.entries@, path, h);
        }
        self.entries.push((path, h));
        proof {
            assert(self@ =~= old(self)@.insert(path@, h));
        }
    }
}

/// The cache after recording each fresh `(path, hash)` pair, in order.
pub open spec fn spec_record_all(m: Map<Seq<char>, u64>, fresh: Seq<(String, u64)>) -> Map<
    Seq<char>,
    u64,
>
    decreases fresh.len(),
{
    if fresh.len() == 0 {
        m
    } else {
        spec_record_all(m, fresh.drop_last()).insert(fresh.last().0@, fresh.last().1)
    }
}

proof fn lemma_record_all_contains(m: Map<Seq<char>, u64>, fresh: Seq<(String, u64)>, k: Seq<char>)
    ensures
        spec_record_all(m, fresh).contains_key(k) <==> (m.contains_key(k) || exists|j: int|
            0 <= j < fresh.len() && fresh[j].0@ == k),
    decreases fresh.len(),
{
    if fresh.len() > 0 {
        lemma_record_all_contains(m, fresh.drop_last(), k);
        if fresh.last().0@ == k {
            assert(fresh[fresh.len() - 1].0@ == k);
        } else {
            if exists|j: int| 0 <= j < fresh.len() && fresh[j].0@ == k {
                let j = choose|j: int| 0 <= j < fresh.len() && fresh[j].0@ == k;
                assert(fresh.drop_last()[j].0@ == k);
            }
            if exists|j: int| 0 <= j < fresh.drop_last().len() && fresh.drop_last()[j].0@ == k {
                let j = choose|j: int|
                    0 <= j < fresh.drop_last().len() && fresh.drop_last()[j].0@ == k;
                assert(fresh[j].0@ == k);
            }
        }
    }
}

/// The per-file hashes the cache assigns to `files`, in file order.
pub open spec fn cached_hashes(m: Map<Seq<char>, u64>, files: Seq<String>) -> Seq<u64> {
    files.map_values(|f: String| m[f@])
}

/// The files not present in the cache, in file order.
pub open spec fn spec_misses(m: Map<Seq<char>, u64>, files: Seq<String>) -> Seq<String> {
    files.filter(|f: String| !m.contains_key(f@))
}

/// The matched files whose hash is not cached yet: these are the files
/// whose contents must be read before `hash_with_cache` can finish.
pub fn cache_misses(cache: &FileCache, files: &Vec<String>) -> (misses: Vec<String>)
    requires
        cache.wf(),
    ensures
        misses@ == spec_misses(cache@, files@),
{
    let mut misses: Vec<String> = Vec::new();
    let mut i: usize = 0;
    proof {
        reveal(Seq::filter);
        assert(misses@ =~= spec_misses(cache@, files@.take(0)));
    }
    while i < files.len()
        invariant
            i <= files@.len(),
            cache.wf(),
            misses@ == spec_misses(cache@, files@.take(i as int)),
        decreases files@.len() - i,
    {
        proof {
            reveal(Seq::filter);
            assert(files@.take(i + 1 as int).drop_last() =~= files@.take(i as int));
            assert(files@.take(i + 1 as int).last() == files@[i as int]);
        }
        if cache.get(&files[i]).is_none() {
            let p = files[i].clone();
            misses.push(p);
        }
        i = i + 1;
    }
    proof {
        assert(files@.take(files@.len() as int) =~= files@);
    }
    misses
}

/// Fold the files' per-file hashes into one aggregate digest, recording the
/// freshly read hashes first.  `fresh` holds the hashes of files read for
/// this query; `failure` is the first read error, if one occurred, and
/// aborts the query after the fresh hashes are recorded.  The result cache
/// of a failed query is never touched; the per-file entries recorded before
/// the failure stay valid.
pub fn hash_with_cache(
    cache: &mut FileCache,
    files: &Vec<String>,
    fresh: &Vec<(String, u64)>,
    failure: &Option<ReadFailure>,
) -> (r: Result<HashResult, HashError>)
    requires
        old(cache).wf(),
        failure is None ==> forall|i: int|
            0 <= i < files@.len() ==> old(cache)@.contains_key(files@[i]@) || exists|j: int|
                0 <= j < fresh@.len() && fresh@[j].0@ == files@[i]@,
    ensures
        final(cache).wf(),
        final(cache)@ == spec_record_all(old(cache)@, fresh@),
        failure matches Some(f) ==> r == Result::<HashResult, HashError>::Err(
            HashError::ReadFile { path: f.path, cause: f.cause },
        ),
        failure is None ==> (r matches Ok(hr) && hr.file_count == files@.len() && hr.hash
            == spec_aggregate(cached_hashes(final(cache)@, files@))),
{
    let mut i: usize = 0;
    while i < fresh.len()
        invariant
            i <= fresh@.len(),
            cache.wf(),
            cache@ == spec_record_all(old(cache)@, fresh@.take(i as int)),
        decreases fresh@.len() - i,
    {
        proof {
            assert(fresh@.take(i + 1 as int).drop_last() =~= fresh@.take(i as int));
            assert(fresh@.take(i + 1 as int).last() == fresh@[i as int]);
        }
        let p = fresh[i].0.clone();
        cache.insert(p, fresh[i].1);
        i = i + 1;
    }
    proof {
        assert(fresh@.take(fresh@.len() as int) =~= fresh@);
    }
    if let Some(f) = failure {
        return Err(HashError::ReadFile { path: f.path.clone(), cause: f.cause.clone() });
    }
    let mut hashes: Vec<u64> = Vec::new();
    let mut i: usize = 0;
    while i < files.len()
        invariant
            i <= files@.len(),
            cache.wf(),
            cache@ == spec_record_all(old(cache)@, fresh@),
            forall|k: int|
                0 <= k < files@.len() ==> old(cache)@.contains_key(files@[k]@) || exists|j: int|
                    0 <= j < fresh@.len() && fresh@[j].0@ == files@[k]@,
            hashes@ =~= cached_hashes(cache@, files@.take(i as int)),
        decreases files@.len() - i,
    {
        proof {
            lemma_record_all_contains(old(cache)@, fresh@, files@[i as int]@);
        }
        let h = match cache.get(&files[i]) {
            Some(h) => h,
            None => {
                proof {
                    assert(false);
                }
                0
            },
        };
        hashes.push(h);
        proof {
            assert(files@.take(i + 1 as int) =~= files@.take(i as int).push(files@[i as int]));
            assert(hashes@ =~= cached_hashes(cache@, files@.take(i + 1 as int)));
        }
        i = i + 1;
    }
    proof {
        assert(files@.take(files@.len() as int) =~= files@);
    }
    let file_count = files.len();
    let hash = crate::hasher::aggregate_hashes(hashes);
    Ok(HashResult { hash, file_count })
}

} // verus!
