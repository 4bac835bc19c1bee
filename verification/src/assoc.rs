//! Mathematical view of an association list as a `Map`, shared by every
//! key-to-value store of the crate (world index, generation cache, save
//! overlays). Each store keeps its pairs in a `Vec` whose keys are unique;
//! these lemmas relate that sequence to the map it denotes.

use vstd::prelude::*;

verus! {

/// No key occurs twice.
pub open spec fn unique_keys<K, V>(s: Seq<(K, V)>) -> bool {
    forall|i: int, j: int| 0 <= i < j < s.len() ==> (#[trigger] s[i]).0 != (#[trigger] s[j]).0
}

/// The map an association list denotes; a later pair with the same key
/// wins, which is moot under `unique_keys`.
pub open spec fn assoc_map<K, V>(s: Seq<(K, V)>) -> Map<K, V>
    decreases s.len(),
{
    if s.len() == 0 {
        Map::empty()
    } else {
        assoc_map(s.drop_last()).insert(s.last().0, s.last().1)
    }
}

/// A key absent from every pair is absent from the map.
pub proof fn lemma_assoc_map_no_key<K, V>(s: Seq<(K, V)>, k: K)
    requires
        forall|i: int| 0 <= i < s.len() ==> (#[trigger] s[i]).0 != k,
    ensures
        !assoc_map(s).contains_key(k),
    decreases s.len(),
{
    if s.len() > 0 {
        lemma_assoc_map_no_key(s.drop_last(), k);
    }
}

/// Dropping the key set: the map contains exactly the listed keys.
pub proof fn lemma_assoc_map_contains<K, V>(s: Seq<(K, V)>, k: K)
    ensures
        assoc_map(s).contains_key(k) <==> exists|i: int|
            0 <= i < s.len() && (#[trigger] s[i]).0 == k,
    decreases s.len(),
{
    if s.len() > 0 {
        lemma_assoc_map_contains(s.drop_last(), k);
        if assoc_map(s).contains_key(k) {
            if s.last().0 != k {
                let i = choose|i: int| 0 <= i < s.drop_last().len() && (#[trigger] s.drop_last()[i]).0 == k;
                assert(s[i].0 == k);
            } else {
                assert(s[s.len() - 1].0 == k);
            }
        }
        if exists|i: int| 0 <= i < s.len() && (#[trigger] s[i]).0 == k {
            let i = choose|i: int| 0 <= i < s.len() && (#[trigger] s[i]).0 == k;
            if i < s.len() - 1 {
                assert(s.drop_last()[i].0 == k);
            }
        }
    }
}

/// Under unique keys, the pair at `i` is what the map stores for its key.
pub proof fn lemma_assoc_map_index<K, V>(s: Seq<(K, V)>, i: int)
    requires
        unique_keys(s),
        0 <= i < s.len(),
    ensures
        assoc_map(s).contains_key(s[i].0),
        assoc_map(s)[s[i].0] == s[i].1,
    decreases s.len(),
{
    if i < s.len() - 1 {
        assert(unique_keys(s.drop_last())) by {
            assert(forall|a: int, b: int|
                0 <= a < b < s.drop_last().len() ==> (#[trigger] s.drop_last()[a]) == s[a] && (
                #[trigger] s.drop_last()[b]) == s[b]);
        }
        assert(s.drop_last()[i] == s[i]);
        lemma_assoc_map_index(s.drop_last(), i);
        assert(s[i].0 != s.last().0);
    }
}

/// Uniqueness survives dropping the last pair.
pub proof fn lemma_unique_drop_last<K, V>(s: Seq<(K, V)>)
    requires
        unique_keys(s),
        s.len() > 0,
    ensures
        unique_keys(s.drop_last()),
{
    assert(forall|a: int, b: int|
        0 <= a < b < s.drop_last().len() ==> (#[trigger] s.drop_last()[a]) == s[a] && (
        #[trigger] s.drop_last()[b]) == s[b]);
}

/// Appending a fresh key inserts it into the map and keeps keys unique.
pub proof fn lemma_assoc_map_push<K, V>(s: Seq<(K, V)>, k: K, v: V)
    requires
        unique_keys(s),
        forall|i: int| 0 <= i < s.len() ==> (#[trigger] s[i]).0 != k,
    ensures
        assoc_map(s.push((k, v))) == assoc_map(s).insert(k, v),
        unique_keys(s.push((k, v))),
{
    assert(s.push((k, v)).drop_last() =~= s);
    assert(s.push((k, v)).last() == (k, v));
    assert(forall|a: int, b: int|
        0 <= a < b < s.push((k, v)).len() && b < s.len() ==> (#[trigger] s.push((k, v))[a]) == s[a]
            && (#[trigger] s.push((k, v))[b]) == s[b]);
    assert(forall|a: int| 0 <= a < s.len() ==> (#[trigger] s.push((k, v))[a]) == s[a]);
}

/// Removing the pair at `i` removes its key from the map and keeps keys
/// unique.
pub proof fn lemma_assoc_map_remove<K, V>(s: Seq<(K, V)>, i: int)
    requires
        unique_keys(s),
        0 <= i < s.len(),
    ensures
        assoc_map(s.remove(i)) == assoc_map(s).remove(s[i].0),
        unique_keys(s.remove(i)),
    decreases s.len(),
{
    lemma_unique_drop_last(s);
    assert(forall|a: int|
        0 <= a < s.remove(i).len() ==> (#[trigger] s.remove(i)[a]) == if a < i {
            s[a]
        } else {
            s[a + 1]
        });
    assert(unique_keys(s.remove(i)));
    if i == s.len() - 1 {
        assert(s.remove(i) =~= s.drop_last());
        lemma_assoc_map_no_key_of_unique(s);
        assert(assoc_map(s.drop_last()) =~= assoc_map(s).remove(s[i].0));
    } else {
        let dl = s.drop_last();
        lemma_assoc_map_remove(dl, i);
        assert(s.remove(i).drop_last() =~= dl.remove(i));
        assert(s.remove(i).last() == s.last());
        assert(assoc_map(s.remove(i)) == assoc_map(dl.remove(i)).insert(s.last().0, s.last().1));
        assert(s[i].0 != s.last().0);
        assert(assoc_map(dl).remove(s[i].0).insert(s.last().0, s.last().1) =~= assoc_map(
            dl,
        ).insert(s.last().0, s.last().1).remove(s[i].0));
    }
}

/// Overwriting the value at `i` in place updates the map at its key and
/// keeps keys unique.
pub proof fn lemma_assoc_map_update<K, V>(s: Seq<(K, V)>, i: int, v: V)
    requires
        unique_keys(s),
        0 <= i < s.len(),
    ensures
        assoc_map(s.update(i, (s[i].0, v))) == assoc_map(s).insert(s[i].0, v),
        unique_keys(s.update(i, (s[i].0, v))),
    decreases s.len(),
{
    lemma_unique_drop_last(s);
    let s2 = s.update(i, (s[i].0, v));
    assert(forall|a: int|
        0 <= a < s2.len() ==> (#[trigger] s2[a]) == if a == i {
            (s[i].0, v)
        } else {
            s[a]
        });
    assert(unique_keys(s2));
    if i == s.len() - 1 {
        assert(s2.drop_last() =~= s.drop_last());
        assert(assoc_map(s2) == assoc_map(s.drop_last()).insert(s[i].0, v));
        assert(assoc_map(s.drop_last()).insert(s.last().0, s.last().1).insert(s[i].0, v)
            =~= assoc_map(s.drop_last()).insert(s[i].0, v));
    } else {
        let dl = s.drop_last();
        lemma_assoc_map_update(dl, i, v);
        assert(s2.drop_last() =~= dl.update(i, (s[i].0, v)));
        assert(dl[i] == s[i]);
        assert(s2.last() == s.last());
        assert(s[i].0 != s.last().0);
        assert(assoc_map(dl).insert(s[i].0, v).insert(s.last().0, s.last().1) =~= assoc_map(
            dl,
        ).insert(s.last().0, s.last().1).insert(s[i].0, v));
    }
}

/// Under unique keys, the last key is absent from the rest of the list.
pub proof fn lemma_assoc_map_no_key_of_unique<K, V>(s: Seq<(K, V)>)
    requires
        unique_keys(s),
        s.len() > 0,
    ensures
        !assoc_map(s.drop_last()).contains_key(s.last().0),
{
    assert(forall|a: int|
        0 <= a < s.drop_last().len() ==> (#[trigger] s.drop_last()[a]) == s[a]);
    lemma_assoc_map_no_key(s.drop_last(), s.last().0);
}

} // verus!
