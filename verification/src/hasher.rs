//! Hashing of file contents and aggregation of per-file hashes.
//!
//! An aggregate digest folds a multiset of per-file 64-bit hashes into one
//! value: the hashes are sorted ascending, serialized as 8 little-endian
//! bytes each, and the resulting buffer is hashed again.  Sorting first
//! makes the digest independent of the order in which files were found.

use vstd::bytes::{spec_u64_to_le_bytes, u64_to_le_bytes};
use vstd::prelude::*;
use vstd::relations::{sorted_by, total_ordering};
use vstd::seq_lib::lemma_sorted_unique;

use crate::digest::{hash_bytes, xxh64_of};

verus! {

/// What can go wrong while enumerating or hashing a query's files.
#[derive(Debug)]
pub enum HashError {
    /// The glob pattern does not parse; holds the parser's message.
    InvalidGlob(String),
    /// A matched file could not be read; the query is aborted.
    ReadFile { path: String, cause: String },
    /// The query matched no file at all: an error, not an empty digest.
    NoFilesMatched,
    /// A filesystem watcher could not be installed.
    Watch(String),
}

impl HashError {
    /// The error text a client sees.
    pub open spec fn spec_message(&self) -> Seq<char> {
        match self {
            HashError::InvalidGlob(m) => "Glob error: "@ + m@,
            HashError::ReadFile { path, cause } => "Failed to read file "@ + path@ + ": "@
                + cause@,
            HashError::NoFilesMatched => "No files matched the glob pattern"@,
            HashError::Watch(m) => "Watch error: "@ + m@,
        }
    }

    pub fn message(&self) -> (r: String)
        ensures
            r@ == self.spec_message(),
    {
        match self {
            HashError::InvalidGlob(m) => {
                let mut s = str_owned("Glob error: ");
                s.append(m.as_str());
                s
            },
            HashError::ReadFile { path, cause } => {
                let mut s = str_owned("Failed to read file ");
                s.append(path.as_str());
                s.append(": ");
                s.append(cause.as_str());
                s
            },
            HashError::NoFilesMatched => str_owned("No files matched the glob pattern"),
            HashError::Watch(m) => {
                let mut s = str_owned("Watch error: ");
                s.append(m.as_str());
                s
            },
        }
    }
}

fn str_owned(s: &str) -> (r: String)
    ensures
        r@ == s@,
{
    s.to_owned()
}

/// Ascending order on 64-bit hashes.
pub open spec fn u64_le(x: u64, y: u64) -> bool {
    x <= y
}

/// The per-file hashes in ascending order.
pub open spec fn sorted_hashes(hs: Seq<u64>) -> Seq<u64> {
    hs.sort_by(|x: u64, y: u64| u64_le(x, y))
}

/// Each hash as 8 little-endian bytes, concatenated.
pub open spec fn le_bytes_of(hs: Seq<u64>) -> Seq<u8>
    decreases hs.len(),
{
    if hs.len() == 0 {
        Seq::empty()
    } else {
        le_bytes_of(hs.drop_last()) + spec_u64_to_le_bytes(hs.last())
    }
}

/// The aggregate digest of a collection of per-file hashes.
pub open spec fn spec_aggregate(hs: Seq<u64>) -> u64 {
    xxh64_of(le_bytes_of(sorted_hashes(hs)))
}

proof fn lemma_u64_le_total()
    ensures
        total_ordering(|x: u64, y: u64| u64_le(x, y)),
{
}

/// Ascending order, spelled out over the sequence.
pub open spec fn hashes_ascending(s: Seq<u64>) -> bool {
    forall|a: int, b: int| 0 <= a < b < s.len() ==> s[a] <= s[b]
}

/// Sort hashes ascending; the result is the canonical sorted form.
fn sort_hashes(hs: &Vec<u64>) -> (r: Vec<u64>)
    ensures
        r@ == sorted_hashes(hs@),
{
    let ghost leq = |x: u64, y: u64| u64_le(x, y);
    let mut out: Vec<u64> = Vec::new();
    let mut i: usize = 0;
    proof {
        assert(out@ =~= hs@.take(0));
    }
    while i < hs.len()
        invariant
            i <= hs@.len(),
            hashes_ascending(out@),
            out@.to_multiset() =~= hs@.take(i as int).to_multiset(),
        decreases hs@.len() - i,
    {
        let x = hs[i];
        let mut pos: usize = 0;
        while pos < out.len() && out[pos as usize] <= x
            invariant
                pos <= out@.len(),
                forall|k: int| 0 <= k < pos ==> out@[k] <= x,
            decreases out@.len() - pos,
        {
            pos = pos + 1;
        }
        proof {
            assert(pos == out@.len() || out@[pos as int] > x);
            out@.insert_ensures(pos as int, x);
            let s = out@.insert(pos as int, x);
            assert forall|a: int, b: int| 0 <= a < b < s.len() implies s[a] <= s[b] by {
                if b < pos {
                    assert(s[a] == out@[a] && s[b] == out@[b]);
                } else if a < pos && b == pos {
                    assert(s[a] == out@[a] && s[b] == x);
                } else if a < pos && b > pos {
                    assert(s[a] == out@[a] && s[b] == out@[b - 1]);
                } else if a == pos {
                    assert(s[a] == x && s[b] == out@[b - 1]);
                    assert(out@[pos as int] <= out@[b - 1]);
                } else {
                    assert(s[a] == out@[a - 1] && s[b] == out@[b - 1]);
                }
            }
            crate::kv::lemma_seq_insert_multiset(out@, pos as int, x);
            broadcast use vstd::seq_lib::group_to_multiset_ensures;

            assert(hs@.take(i + 1 as int) =~= hs@.take(i as int).push(x));
        }
        out.insert(pos, x);
        i = i + 1;
    }
    proof {
        assert(hs@.take(hs@.len() as int) =~= hs@);
        assert(sorted_by(out@, leq)) by {
            assert forall|a: int, b: int| 0 <= a < b < out@.len() implies leq(out@[a], out@[b]) by {
                assert(out@[a] <= out@[b]);
            }
        }
        hs@.lemma_sort_by_ensures(leq);
        lemma_u64_le_total();
        lemma_sorted_unique(out@, hs@.sort_by(leq), leq);
    }
    out
}

proof fn lemma_le_bytes_take(hs: Seq<u64>, i: int)
    requires
        0 <= i < hs.len(),
    ensures
        le_bytes_of(hs.take(i + 1)) == le_bytes_of(hs.take(i)) + spec_u64_to_le_bytes(hs[i]),
{
    assert(hs.take(i + 1).drop_last() =~= hs.take(i));
    assert(hs.take(i + 1).last() == hs[i]);
}

/// Aggregate per-file hashes into one stable digest: ascending order,
/// 8 little-endian bytes per hash, hashed once more.  The result does not
/// depend on the order of `hashes`.
pub fn aggregate_hashes(hashes: Vec<u64>) -> (r: u64)
    ensures
        r == spec_aggregate(hashes@),
{
    let sorted = sort_hashes(&hashes);
    let mut bytes: Vec<u8> = Vec::new();
    let mut i: usize = 0;
    while i < sorted.len()
        invariant
            i <= sorted@.len(),
            bytes@ == le_bytes_of(sorted@.take(i as int)),
        decreases sorted@.len() - i,
    {
        let mut le = u64_to_le_bytes(sorted[i]);
        proof {
            lemma_le_bytes_take(sorted@, i as int);
        }
        bytes.append(&mut le);
        i = i + 1;
    }
    proof {
        assert(sorted@.take(sorted@.len() as int) =~= sorted@);
    }
    hash_bytes(bytes.as_slice())
}

/// Order invariance: two collections with the same hashes (as a multiset)
/// aggregate to the same digest.  In particular any permutation of an
/// enumeration result leaves the aggregate unchanged.
pub proof fn lemma_aggregate_order_invariant(a: Seq<u64>, b: Seq<u64>)
    requires
        a.to_multiset() == b.to_multiset(),
    ensures
        spec_aggregate(a) == spec_aggregate(b),
{
    let leq = |x: u64, y: u64| u64_le(x, y);
    a.lemma_sort_by_ensures(leq);
    b.lemma_sort_by_ensures(leq);
    lemma_u64_le_total();
    lemma_sorted_unique(a.sort_by(leq), b.sort_by(leq), leq);
}

/// Adding one more per-file hash changes the buffer the aggregate digest
/// is computed from: the two digest pre-images never coincide.  (That the
/// digests themselves differ is a property of the hash function and is
/// exercised by tests, not proved.)
pub proof fn lemma_aggregate_input_grows(a: Seq<u64>, x: u64)
    ensures
        le_bytes_of(sorted_hashes(a)) != le_bytes_of(sorted_hashes(a.push(x))),
{
    let leq = |x: u64, y: u64| u64_le(x, y);
    a.lemma_sort_by_ensures(leq);
    a.push(x).lemma_sort_by_ensures(leq);
    broadcast use vstd::seq_lib::group_to_multiset_ensures;

    assert(sorted_hashes(a).len() == sorted_hashes(a).to_multiset().len());
    assert(a.len() == a.to_multiset().len());
    assert(sorted_hashes(a.push(x)).len() == sorted_hashes(a.push(x)).to_multiset().len());
    assert(a.push(x).len() == a.push(x).to_multiset().len());
    lemma_le_bytes_len(sorted_hashes(a));
    lemma_le_bytes_len(sorted_hashes(a.push(x)));
}

proof fn lemma_le_bytes_len(hs: Seq<u64>)
    ensures
        le_bytes_of(hs).len() == 8 * hs.len(),
    decreases hs.len(),
{
    if hs.len() > 0 {
        lemma_le_bytes_len(hs.drop_last());
        vstd::bytes::lemma_auto_spec_u64_to_from_le_bytes();
    }
}

/// One entry met while walking a directory tree.
pub struct WalkEntry {
    /// Absolute path of the entry.
    pub path: String,
    /// Whether the entry is a regular file (directories are never hashed).
    pub is_file: bool,
}

/// Whether a glob pattern is usable: it parses and its matcher compiles.
pub uninterp spec fn glob_pattern_ok(pattern: Seq<char>) -> bool;

/// Whether a glob pattern matches a (relative) path: a fixed function of
/// the two texts alone.
pub uninterp spec fn glob_matches(pattern: Seq<char>, path: Seq<char>) -> bool;

/// Relies on globset::Glob::new and GlobSetBuilder::build: whether a
/// pattern parses and its matcher compiles (the regex engine enforces a
/// size limit) depends on the pattern text alone; on failure the error's
/// message is returned.  Going through GlobSetBuilder keeps compilation
/// on the Result path — Glob::compile_matcher would panic instead when
/// the size limit is hit.
#[verifier::external_body]
pub(crate) fn glob_check(pattern: &str) -> (r: Option<String>)
    ensures
        r is None <==> glob_pattern_ok(pattern@),
{
    match globset::Glob::new(pattern) {
        Ok(g) => {
            let mut builder = globset::GlobSetBuilder::new();
            builder.add(g);
            match builder.build() {
                Ok(_) => None,
                Err(e) => Some(e.to_string()),
            }
        },
        Err(e) => Some(e.to_string()),
    }
}

/// Relies on globset: on a usable pattern (see `glob_check`) the one-glob
/// set builds, and GlobSet::is_match depends on the pattern and path
/// texts alone.
#[verifier::external_body]
pub(crate) fn glob_match(pattern: &str, path: &str) -> (r: bool)
    requires
        glob_pattern_ok(pattern@),
    ensures
        r == glob_matches(pattern@, path@),
{
    match globset::Glob::new(pattern) {
        Ok(g) => {
            let mut builder = globset::GlobSetBuilder::new();
            builder.add(g);
            match builder.build() {
                Ok(set) => set.is_match(path),
                Err(_) => false,
            }
        },
        Err(_) => false,
    }
}

/// Relies on ignore::WalkBuilder: walks the directory recursively, honoring
/// VCS ignore files (local, global and exclude files), skipping hidden
/// entries (the walker's default) and not following symbolic links.
/// Entries that cannot be read are skipped.  What comes back depends on
/// the filesystem, so nothing is assumed about it.
#[verifier::external_body]
fn walk_dir(dir: &String) -> (entries: Vec<WalkEntry>) {
    let walker = ignore::WalkBuilder::new(dir).git_ignore(true).git_global(true).git_exclude(
        true,
    ).follow_links(false).build();
    let mut entries = Vec::new();
    for entry in walker {
        if let Ok(e) = entry {
            entries.push(
                WalkEntry {
                    path: e.path().to_string_lossy().into_owned(),
                    is_file: e.file_type().map(|t| t.is_file()).unwrap_or(false),
                },
            );
        }
    }
    entries
}

/// Whether a walked entry belongs to the query `(base, glob)`: a regular
/// file below `base` whose path relative to `base` matches the glob.
pub open spec fn entry_matches(e: WalkEntry, base: Seq<char>, glob: Seq<char>) -> bool {
    e.is_file && crate::paths::is_path_prefix(base, e.path@) && glob_matches(
        glob,
        crate::paths::spec_rel(base, e.path@),
    )
}

/// The paths of the entries that belong to the query, in walk order.
pub open spec fn matching_paths(entries: Seq<WalkEntry>, base: Seq<char>, glob: Seq<char>) -> Seq<
    Seq<char>,
>
    decreases entries.len(),
{
    if entries.len() == 0 {
        Seq::empty()
    } else if entry_matches(entries.last(), base, glob) {
        matching_paths(entries.drop_last(), base, glob).push(entries.last().path@)
    } else {
        matching_paths(entries.drop_last(), base, glob)
    }
}

/// Every path selected by `matching_paths` belongs to the query.
pub proof fn lemma_matching_paths_sound(entries: Seq<WalkEntry>, base: Seq<char>, glob: Seq<char>)
    ensures
        forall|k: int|
            0 <= k < matching_paths(entries, base, glob).len() ==> {
                &&& crate::paths::is_path_prefix(base, matching_paths(entries, base, glob)[k])
                &&& glob_matches(
                    glob,
                    crate::paths::spec_rel(base, matching_paths(entries, base, glob)[k]),
                )
            },
    decreases entries.len(),
{
    if entries.len() > 0 {
        lemma_matching_paths_sound(entries.drop_last(), base, glob);
        let m = matching_paths(entries, base, glob);
        let prev = matching_paths(entries.drop_last(), base, glob);
        assert forall|k: int|
            0 <= k < m.len() implies {
            &&& crate::paths::is_path_prefix(base, m[k])
            &&& glob_matches(glob, crate::paths::spec_rel(base, m[k]))
        } by {
            if entry_matches(entries.last(), base, glob) {
                assert(m == prev.push(entries.last().path@));
                if k < prev.len() {
                    assert(m[k] == prev[k]);
                } else {
                    assert(m[k] == entries.last().path@);
                }
            } else {
                assert(m == prev);
            }
        }
    }
}

/// Keep the regular files below `base` whose relative path matches
/// `glob`, in walk order.  An empty selection is the `NoFilesMatched`
/// error, and the only cause of it: the result is `Err` exactly when no
/// entry belongs to the query.
pub fn filter_matching(entries: &Vec<WalkEntry>, base: &String, glob: &String) -> (r: Result<
    Vec<String>,
    HashError,
>)
    requires
        glob_pattern_ok(glob@),
    ensures
        r is Err <==> matching_paths(entries@, base@, glob@).len() == 0,
        r matches Err(e) ==> e matches HashError::NoFilesMatched,
        r matches Ok(files) ==> files@.map_values(|s: String| s@) == matching_paths(
            entries@,
            base@,
            glob@,
        ),
{
    let mut files: Vec<String> = Vec::new();
    let mut i: usize = 0;
    proof {
        assert(files@.map_values(|s: String| s@) =~= matching_paths(
            entries@.take(0),
            base@,
            glob@,
        ));
    }
    while i < entries.len()
        invariant
            i <= entries@.len(),
            glob_pattern_ok(glob@),
            files@.map_values(|s: String| s@) == matching_paths(entries@.take(i as int), base@, glob@),
        decreases entries@.len() - i,
    {
        let e = &entries[i];
        proof {
            assert(entries@.take(i + 1 as int).drop_last() =~= entries@.take(i as int));
            assert(entries@.take(i + 1 as int).last() == entries@[i as int]);
        }
        if e.is_file && crate::paths::path_starts_with(e.path.as_str(), base.as_str()) {
            let rel = crate::paths::strip_path_prefix(e.path.as_str(), base.as_str());
            if glob_match(glob.as_str(), rel.as_str()) {
                let p = clone_string(&e.path);
                files.push(p);
                proof {
                    assert(files@.map_values(|s: String| s@) =~= matching_paths(
                        entries@.take(i + 1 as int),
                        base@,
                        glob@,
                    ));
                }
            }
        }
        i = i + 1;
    }
    proof {
        assert(entries@.take(entries@.len() as int) =~= entries@);
    }
    if files.len() == 0 {
        proof {
            assert(files@.map_values(|s: String| s@).len() == 0);
        }
        return Err(HashError::NoFilesMatched);
    }
    proof {
        assert(files@.map_values(|s: String| s@).len() == files@.len());
    }
    Ok(files)
}

fn clone_string(s: &String) -> (r: String)
    ensures
        r == *s,
{
    s.clone()
}

/// The paths are in ascending lexicographic order.
pub open spec fn paths_sorted(s: Seq<String>) -> bool {
    forall|i: int, j: int| 0 <= i < j < s.len() ==> crate::paths::lex_le(s[i]@, s[j]@)
}

/// Sort paths ascending, keeping exactly the same paths.
fn sort_paths(v: Vec<String>) -> (r: Vec<String>)
    ensures
        paths_sorted(r@),
        r@.to_multiset() == v@.to_multiset(),
{
    let mut out: Vec<String> = Vec::new();
    let mut i: usize = 0;
    proof {
        assert(out@ =~= v@.take(0));
    }
    while i < v.len()
        invariant
            i <= v@.len(),
            paths_sorted(out@),
            out@.to_multiset() =~= v@.take(i as int).to_multiset(),
        decreases v@.len() - i,
    {
        let x = clone_string(&v[i]);
        let mut pos: usize = 0;
        while pos < out.len() && crate::paths::le_path(out[pos as usize].as_str(), x.as_str())
            invariant
                pos <= out@.len(),
                forall|k: int| 0 <= k < pos ==> crate::paths::lex_le(#[trigger] out@[k]@, x@),
            decreases out@.len() - pos,
        {
            pos = pos + 1;
        }
        proof {
            assert(pos == out@.len() || !crate::paths::lex_le(out@[pos as int]@, x@));
            out@.insert_ensures(pos as int, x);
            let s = out@.insert(pos as int, x);
            assert forall|a: int, b: int| 0 <= a < b < s.len() implies crate::paths::lex_le(
                s[a]@,
                s[b]@,
            ) by {
                if b < pos {
                    assert(s[a] == out@[a] && s[b] == out@[b]);
                } else if a < pos && b == pos {
                    assert(s[a] == out@[a] && s[b] == x);
                } else if a < pos && b > pos {
                    assert(s[a] == out@[a] && s[b] == out@[b - 1]);
                } else if a == pos {
                    assert(s[a] == x && s[b] == out@[b - 1]);
                    crate::paths::lemma_lex_total(out@[pos as int]@, x@);
                    if b - 1 > pos {
                        crate::paths::lemma_lex_trans(x@, out@[pos as int]@, out@[b - 1]@);
                    }
                } else {
                    assert(s[a] == out@[a - 1] && s[b] == out@[b - 1]);
                }
            }
            crate::kv::lemma_seq_insert_multiset(out@, pos as int, x);
            broadcast use vstd::seq_lib::group_to_multiset_ensures;

            assert(v@.take(i + 1 as int) =~= v@.take(i as int).push(v@[i as int]));
            assert(x == v@[i as int]);
        }
        out.insert(pos, x);
        i = i + 1;
    }
    proof {
        assert(v@.take(v@.len() as int) =~= v@);
    }
    out
}

/// List the regular files matching `glob` beneath `root/path`, sorted
/// byte-lexicographically.  An ill-formed glob or an empty result set is
/// an error.  Which files the walk finds is the filesystem's to decide;
/// the selection among the walked entries is exact (`filter_matching`).
pub fn list_files(root: &str, path: &str, glob: &str) -> (r: Result<Vec<String>, HashError>)
    ensures
        (r matches Err(e) && e matches HashError::InvalidGlob(_)) <==> !glob_pattern_ok(glob@),
        r matches Err(e) ==> (e matches HashError::InvalidGlob(_) || e
            matches HashError::NoFilesMatched),
        r matches Ok(files) ==> {
            &&& files@.len() > 0
            &&& paths_sorted(files@)
            &&& forall|k: int|
                0 <= k < files@.len() ==> {
                    &&& crate::paths::is_path_prefix(
                        crate::paths::spec_join(root@, path@),
                        files@[k]@,
                    )
                    &&& glob_matches(
                        glob@,
                        crate::paths::spec_rel(
                            crate::paths::spec_join(root@, path@),
                            files@[k]@,
                        ),
                    )
                }
        },
{
    if let Some(msg) = glob_check(glob) {
        return Err(HashError::InvalidGlob(msg));
    }
    let full_path = crate::paths::join_paths(root, path);
    let entries = walk_dir(&full_path);
    let glob_owned = str_owned(glob);
    let matched = match filter_matching(&entries, &full_path, &glob_owned) {
        Ok(files) => files,
        Err(e) => {
            return Err(e);
        },
    };
    let files = sort_paths(matched);
    proof {
        broadcast use vstd::seq_lib::group_to_multiset_ensures;

        lemma_matching_paths_sound(entries@, full_path@, glob_owned@);
        let view = matched@.map_values(|s: String| s@);
        assert(files@.len() == files@.to_multiset().len());
        assert(matched@.len() == matched@.to_multiset().len());
        assert forall|k: int| 0 <= k < files@.len() implies {
            &&& crate::paths::is_path_prefix(crate::paths::spec_join(root@, path@), files@[k]@)
            &&& glob_matches(
                glob@,
                crate::paths::spec_rel(crate::paths::spec_join(root@, path@), files@[k]@),
            )
        } by {
            assert(files@.contains(files@[k]));
            assert(files@.to_multiset().count(files@[k]) > 0);
            assert(matched@.to_multiset().count(files@[k]) > 0);
            assert(matched@.contains(files@[k]));
            let m = choose|m: int| 0 <= m < matched@.len() && matched@[m] == files@[k];
            assert(view[m] == matched@[m]@);
        }
    }
    Ok(files)
}

} // verus!
