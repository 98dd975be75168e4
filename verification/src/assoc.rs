//! Association lists read as maps: the model behind the library's count
//! tables, which keep unique keys in a vector of pairs.

use vstd::prelude::*;

verus! {

/// The map an association list denotes: later entries win, though with
/// distinct keys every entry is visible.
pub open spec fn spec_assoc_map<K, V>(entries: Seq<(K, V)>) -> Map<K, V>
    decreases entries.len(),
{
    if entries.len() == 0 {
        Map::empty()
    } else {
        spec_assoc_map(entries.drop_last()).insert(entries.last().0, entries.last().1)
    }
}

/// No two entries share a key.
pub open spec fn distinct_keys<K, V>(entries: Seq<(K, V)>) -> bool {
    forall|i: int, j: int|
        0 <= i < j < entries.len() ==> (#[trigger] entries[i]).0 != (#[trigger] entries[j]).0
}

/// A key is in the map exactly when some entry carries it.
pub proof fn lemma_assoc_map_dom<K, V>(entries: Seq<(K, V)>, k: K)
    ensures
        spec_assoc_map(entries).contains_key(k) <==> exists|i: int|
            0 <= i < entries.len() && (#[trigger] entries[i]).0 == k,
    decreases entries.len(),
{
    if entries.len() > 0 {
        lemma_assoc_map_dom(entries.drop_last(), k);
        if entries.last().0 == k {
            assert(entries[entries.len() - 1].0 == k);
        } else {
            assert(forall|i: int|
                0 <= i < entries.len() - 1 ==> entries.drop_last()[i] == (#[trigger] entries[i]));
        }
    }
}

/// With distinct keys, the map sends each entry's key to its value.
pub proof fn lemma_assoc_map_index<K, V>(entries: Seq<(K, V)>, i: int)
    requires
        distinct_keys(entries),
        0 <= i < entries.len(),
    ensures
        spec_assoc_map(entries).contains_key(entries[i].0),
        spec_assoc_map(entries)[entries[i].0] == entries[i].1,
    decreases entries.len(),
{
    if i < entries.len() - 1 {
        assert(entries.drop_last()[i] == entries[i]);
        lemma_assoc_map_index(entries.drop_last(), i);
        assert(entries[entries.len() - 1].0 != entries[i].0);
    }
}

/// Replacing the value of one entry replaces it in the map.
pub proof fn lemma_assoc_map_update<K, V>(entries: Seq<(K, V)>, i: int, v: V)
    requires
        distinct_keys(entries),
        0 <= i < entries.len(),
    ensures
        spec_assoc_map(entries.update(i, (entries[i].0, v))) == spec_assoc_map(entries).insert(
            entries[i].0,
            v,
        ),
        distinct_keys(entries.update(i, (entries[i].0, v))),
    decreases entries.len(),
{
    let upd = entries.update(i, (entries[i].0, v));
    if i == entries.len() - 1 {
        assert(upd.drop_last() =~= entries.drop_last());
        assert(upd.last() == (entries[i].0, v));
        assert(spec_assoc_map(entries.drop_last()).insert(entries[i].0, v) =~= spec_assoc_map(
            entries,
        ).insert(entries[i].0, v));
    } else {
        assert(upd.drop_last() =~= entries.drop_last().update(i, (entries[i].0, v)));
        assert(entries.drop_last()[i] == entries[i]);
        lemma_assoc_map_update(entries.drop_last(), i, v);
        assert(upd.last() == entries.last());
        assert(spec_assoc_map(entries.drop_last()).insert(entries[i].0, v).insert(
            entries.last().0,
            entries.last().1,
        ) =~= spec_assoc_map(entries).insert(entries[i].0, v));
    }
}

/// Appending an entry inserts its key.
pub proof fn lemma_assoc_map_push<K, V>(entries: Seq<(K, V)>, p: (K, V))
    ensures
        spec_assoc_map(entries.push(p)) == spec_assoc_map(entries).insert(p.0, p.1),
{
    assert(entries.push(p).drop_last() =~= entries);
    assert(entries.push(p).last() == p);
}

/// The tally a map holds for a key; zero when the key is absent.
pub open spec fn tally_of<K>(m: Map<K, nat>, k: K) -> nat {
    if m.contains_key(k) {
        m[k]
    } else {
        0
    }
}

/// A sequence of keys tallied into `m`, in order: each occurrence raises
/// its key's count by one.
pub open spec fn spec_tally<K>(m: Map<K, nat>, xs: Seq<K>) -> Map<K, nat>
    decreases xs.len(),
{
    if xs.len() == 0 {
        m
    } else {
        let prev = spec_tally(m, xs.drop_last());
        prev.insert(xs.last(), tally_of(prev, xs.last()) + 1)
    }
}

/// No key is ever tallied more often than keys were seen.
pub proof fn lemma_tally_bound<K>(m: Map<K, nat>, xs: Seq<K>, k: K)
    ensures
        tally_of(spec_tally(m, xs), k) <= tally_of(m, k) + xs.len(),
    decreases xs.len(),
{
    if xs.len() > 0 {
        lemma_tally_bound(m, xs.drop_last(), k);
    }
}

} // verus!
