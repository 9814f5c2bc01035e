//! Association lists seen as maps.
//!
//! The daemon's caches and registries hold their entries in vectors of
//! key/value pairs with pairwise-distinct keys; their contracts speak of
//! the `Map` from key views to values.  The lemmas connecting the two
//! representations live here, shared by every such container.

use vstd::prelude::*;

verus! {

/// Keys are pairwise distinct (by view).
pub open spec fn kv_wf<K: View, V>(s: Seq<(K, V)>) -> bool {
    forall|i: int, j: int| 0 <= i < j < s.len() ==> s[i].0@ != s[j].0@
}

/// The map an association list denotes.
pub open spec fn kv_as_map<K: View, V>(s: Seq<(K, V)>) -> Map<<K as View>::V, V>
    decreases s.len(),
{
    if s.len() == 0 {
        Map::empty()
    } else {
        kv_as_map(s.drop_last()).insert(s.last().0@, s.last().1)
    }
}

/// A key is in the map exactly when some entry carries it.
pub proof fn lemma_kv_contains<K: View, V>(s: Seq<(K, V)>, k: <K as View>::V)
    ensures
        kv_as_map(s).contains_key(k) <==> exists|i: int| 0 <= i < s.len() && s[i].0@ == k,
    decreases s.len(),
{
    if s.len() > 0 {
        lemma_kv_contains(s.drop_last(), k);
        if s.last().0@ == k {
            assert(s[s.len() - 1].0@ == k);
        } else {
            if exists|i: int| 0 <= i < s.len() && s[i].0@ == k {
                let i = choose|i: int| 0 <= i < s.len() && s[i].0@ == k;
                assert(i < s.len() - 1);
                assert(s.drop_last()[i].0@ == k);
            }
            if exists|i: int| 0 <= i < s.drop_last().len() && s.drop_last()[i].0@ == k {
                let i = choose|i: int| 0 <= i < s.drop_last().len() && s.drop_last()[i].0@ == k;
                assert(s[i].0@ == k);
            }
        }
    }
}

/// With distinct keys, each entry's value is the map's value for its key.
pub proof fn lemma_kv_value<K: View, V>(s: Seq<(K, V)>, i: int)
    requires
        kv_wf(s),
        0 <= i < s.len(),
    ensures
        kv_as_map(s).contains_key(s[i].0@),
        kv_as_map(s)[s[i].0@] == s[i].1,
    decreases s.len(),
{
    if i == s.len() - 1 {
    } else {
        assert(kv_wf(s.drop_last()));
        lemma_kv_value(s.drop_last(), i);
        assert(s.drop_last()[i] == s[i]);
        assert(s.last().0@ != s[i].0@);
    }
}

/// Appending a fresh key inserts it into the map and keeps keys distinct.
pub proof fn lemma_kv_push<K: View, V>(s: Seq<(K, V)>, k: K, v: V)
    requires
        kv_wf(s),
        forall|i: int| 0 <= i < s.len() ==> s[i].0@ != k@,
    ensures
        kv_wf(s.push((k, v))),
        kv_as_map(s.push((k, v))) == kv_as_map(s).insert(k@, v),
{
    assert(s.push((k, v)).drop_last() =~= s);
    assert(forall|i: int|
        0 <= i < s.len() ==> #[trigger] s.push((k, v))[i] == s[i]);
}

/// Removing the entry at `j` removes its key from the map.
pub proof fn lemma_kv_remove<K: View, V>(s: Seq<(K, V)>, j: int)
    requires
        kv_wf(s),
        0 <= j < s.len(),
    ensures
        kv_wf(s.remove(j)),
        kv_as_map(s.remove(j)) =~= kv_as_map(s).remove(s[j].0@),
    decreases s.len(),
{
    s.remove_ensures(j);
    assert(kv_wf(s.remove(j)));
    let k = s[j].0@;
    if j == s.len() - 1 {
        assert(s.remove(j) =~= s.drop_last());
        lemma_kv_contains(s.drop_last(), k);
        assert(forall|i: int| 0 <= i < s.drop_last().len() ==> s.drop_last()[i].0@ != k);
        assert(!kv_as_map(s.drop_last()).contains_key(k));
        assert(kv_as_map(s.drop_last()) =~= kv_as_map(s.drop_last()).insert(k, s[j].1).remove(k));
    } else {
        assert(kv_wf(s.drop_last()));
        lemma_kv_remove(s.drop_last(), j);
        assert(s.remove(j).drop_last() =~= s.drop_last().remove(j));
        assert(s.remove(j).last() == s.last());
        assert(s.last().0@ != k);
        assert(kv_as_map(s.remove(j)) == kv_as_map(s.drop_last().remove(j)).insert(
            s.last().0@,
            s.last().1,
        ));
    }
}

/// The entries whose key view is outside `drop`, in order.
pub open spec fn kv_drop_keys<K: View, V>(
    s: Seq<(K, V)>,
    drop: spec_fn(<K as View>::V) -> bool,
) -> Seq<(K, V)> {
    s.filter(|p: (K, V)| !drop(p.0@))
}

/// Inserting at a position adds exactly that element to the multiset.
pub proof fn lemma_seq_insert_multiset<A>(s: Seq<A>, pos: int, x: A)
    requires
        0 <= pos <= s.len(),
    ensures
        s.insert(pos, x).to_multiset() =~= s.to_multiset().insert(x),
{
    broadcast use vstd::seq_lib::group_to_multiset_ensures;

    let front = s.subrange(0, pos);
    let back = s.subrange(pos, s.len() as int);
    vstd::seq_lib::lemma_multiset_commutative(front.push(x), back);
    vstd::seq_lib::lemma_multiset_commutative(front, back);
    assert(s =~= front + back);
    assert(front.push(x).to_multiset() =~= front.to_multiset().insert(x));
}

/// How a filtered sequence grows from one element to the next.
pub proof fn lemma_filter_take_step<A>(s: Seq<A>, i: int, p: spec_fn(A) -> bool)
    requires
        0 <= i < s.len(),
    ensures
        s.take(i + 1).filter(p) == if p(s[i]) {
            s.take(i).filter(p).push(s[i])
        } else {
            s.take(i).filter(p)
        },
{
    reveal(Seq::filter);
    assert(s.take(i + 1).drop_last() =~= s.take(i));
    assert(s.take(i + 1).last() == s[i]);
}

/// How the filtered list grows from one entry to the next.
pub proof fn lemma_kv_drop_keys_step<K: View, V>(
    s: Seq<(K, V)>,
    i: int,
    drop: spec_fn(<K as View>::V) -> bool,
)
    requires
        0 <= i < s.len(),
    ensures
        kv_drop_keys(s.take(i + 1), drop) == if drop(s[i].0@) {
            kv_drop_keys(s.take(i), drop)
        } else {
            kv_drop_keys(s.take(i), drop).push(s[i])
        },
{
    reveal(Seq::filter);
    assert(s.take(i + 1).drop_last() =~= s.take(i));
    assert(s.take(i + 1).last() == s[i]);
}

/// Keeping only the entries whose key is outside `drop` removes exactly
/// those keys from the map.
pub proof fn lemma_kv_filter<K: View, V>(s: Seq<(K, V)>, drop: spec_fn(<K as View>::V) -> bool)
    requires
        kv_wf(s),
    ensures
        kv_wf(kv_drop_keys(s, drop)),
        kv_as_map(kv_drop_keys(s, drop)) =~= kv_as_map(s).remove_keys(
            Set::new(|k: <K as View>::V| drop(k)),
        ),
    decreases s.len(),
{
    reveal(Seq::filter);
    if s.len() == 0 {
    } else {
        assert(kv_wf(s.drop_last()));
        lemma_kv_filter(s.drop_last(), drop);
        let prev = kv_drop_keys(s.drop_last(), drop);
        lemma_kv_contains(s.drop_last(), s.last().0@);
        assert(forall|i: int| 0 <= i < s.drop_last().len() ==> s.drop_last()[i].0@ != s.last().0@);
        assert(!kv_as_map(s.drop_last()).contains_key(s.last().0@));
        if !drop(s.last().0@) {
            assert(kv_drop_keys(s, drop) == prev.push(s.last()));
            assert forall|i: int| 0 <= i < prev.len() implies #[trigger] prev[i].0@
                != s.last().0@ by {
                lemma_kv_value(prev, i);
                assert(kv_as_map(s.drop_last()).remove_keys(
                    Set::new(|k: <K as View>::V| drop(k)),
                ).contains_key(prev[i].0@));
            }
            lemma_kv_push(prev, s.last().0, s.last().1);
        } else {
            assert(kv_drop_keys(s, drop) == prev);
        }
    }
}

} // verus!
