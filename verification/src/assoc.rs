//! Association lists with unique keys, viewed as maps. The record store keeps
//! its keyed data in small vectors of pairs; these are the spec-level tools
//! shared by every such container.

use vstd::prelude::*;

verus! {

/// The map an association list denotes: later entries win.
pub open spec fn assoc_map<K, V>(s: Seq<(K, V)>) -> Map<K, V>
    decreases s.len(),
{
    if s.len() == 0 {
        Map::empty()
    } else {
        assoc_map(s.drop_last()).insert(s.last().0, s.last().1)
    }
}

/// No two entries share a key.
pub open spec fn unique_keys<K, V>(s: Seq<(K, V)>) -> bool {
    forall|a: int, b: int| 0 <= a < b < s.len() ==> (#[trigger] s[a]).0 != (#[trigger] s[b]).0
}

/// A key is in the map exactly when some entry holds it.
pub proof fn lemma_assoc_map_domain<K, V>(s: Seq<(K, V)>, k: K)
    ensures
        assoc_map(s).contains_key(k) <==> exists|i: int| 0 <= i < s.len() && (#[trigger] s[i]).0
            == k,
    decreases s.len(),
{
    if s.len() > 0 {
        lemma_assoc_map_domain(s.drop_last(), k);
        if exists|i: int| 0 <= i < s.len() && (#[trigger] s[i]).0 == k {
            let i = choose|i: int| 0 <= i < s.len() && (#[trigger] s[i]).0 == k;
            if i < s.len() - 1 {
                assert(s.drop_last()[i].0 == k);
            }
        }
        if assoc_map(s).contains_key(k) {
            if k != s.last().0 {
                let i = choose|i: int|
                    0 <= i < s.drop_last().len() && (#[trigger] s.drop_last()[i]).0 == k;
                assert(s[i].0 == k);
            } else {
                assert(s[s.len() - 1].0 == k);
            }
        }
    }
}

/// With unique keys, the entry holding a key gives the map's value for it.
pub proof fn lemma_assoc_map_index<K, V>(s: Seq<(K, V)>, i: int, k: K)
    requires
        unique_keys(s),
        0 <= i < s.len(),
        s[i].0 == k,
    ensures
        assoc_map(s).contains_key(k),
        assoc_map(s)[k] == s[i].1,
    decreases s.len(),
{
    if i == s.len() - 1 {
    } else {
        assert(s[i].0 != s[s.len() - 1].0);
        assert(s.drop_last()[i] == s[i]);
        lemma_assoc_map_index(s.drop_last(), i, k);
    }
}

/// Appending an entry inserts its pair into the map.
pub proof fn lemma_assoc_map_push<K, V>(s: Seq<(K, V)>, k: K, v: V)
    ensures
        assoc_map(s.push((k, v))) == assoc_map(s).insert(k, v),
{
    assert(s.push((k, v)).drop_last() =~= s);
    assert(s.push((k, v)).last() == (k, v));
}

/// Replacing the entry that holds a key updates the map at that key alone.
pub proof fn lemma_assoc_map_update<K, V>(s: Seq<(K, V)>, i: int, k: K, v: V)
    requires
        unique_keys(s),
        0 <= i < s.len(),
        s[i].0 == k,
    ensures
        assoc_map(s.update(i, (k, v))) == assoc_map(s).insert(k, v),
    decreases s.len(),
{
    let su = s.update(i, (k, v));
    if i == s.len() - 1 {
        assert(su.drop_last() =~= s.drop_last());
        assert(su.last() == (k, v));
        assert(assoc_map(su) == assoc_map(s.drop_last()).insert(k, v));
        assert(assoc_map(s) == assoc_map(s.drop_last()).insert(k, s[i].1));
        assert(assoc_map(s).insert(k, v) =~= assoc_map(s.drop_last()).insert(k, v));
    } else {
        assert(s[i].0 != s[s.len() - 1].0);
        assert(su.drop_last() =~= s.drop_last().update(i, (k, v)));
        assert(s.drop_last()[i] == s[i]);
        lemma_assoc_map_update(s.drop_last(), i, k, v);
        assert(su.last() == s.last());
        assert(assoc_map(su) == assoc_map(s.drop_last()).insert(k, v).insert(
            s.last().0,
            s.last().1,
        ));
        assert(assoc_map(s.drop_last()).insert(k, v).insert(s.last().0, s.last().1)
            =~= assoc_map(s.drop_last()).insert(s.last().0, s.last().1).insert(k, v));
    }
}

/// Removing the entry that holds a key removes that key from the map alone.
pub proof fn lemma_assoc_map_remove<K, V>(s: Seq<(K, V)>, i: int, k: K)
    requires
        unique_keys(s),
        0 <= i < s.len(),
        s[i].0 == k,
    ensures
        assoc_map(s.remove(i)) == assoc_map(s).remove(k),
        unique_keys(s.remove(i)),
    decreases s.len(),
{
    let sr = s.remove(i);
    assert forall|a: int, b: int| 0 <= a < b < sr.len() implies (#[trigger] sr[a]).0
        != (#[trigger] sr[b]).0 by {
        let a2 = if a < i {
            a
        } else {
            a + 1
        };
        let b2 = if b < i {
            b
        } else {
            b + 1
        };
        assert(sr[a] == s[a2] && sr[b] == s[b2]);
        assert(s[a2].0 != s[b2].0);
    }
    if i == s.len() - 1 {
        assert(sr =~= s.drop_last());
        lemma_assoc_map_domain(s.drop_last(), k);
        assert(!assoc_map(s.drop_last()).contains_key(k));
        assert(assoc_map(s) == assoc_map(s.drop_last()).insert(k, s[i].1));
        assert(assoc_map(s).remove(k) =~= assoc_map(s.drop_last()));
    } else {
        assert(s[i].0 != s[s.len() - 1].0);
        assert(sr.drop_last() =~= s.drop_last().remove(i));
        assert(s.drop_last()[i] == s[i]);
        lemma_assoc_map_remove(s.drop_last(), i, k);
        assert(sr.last() == s.last());
        assert(assoc_map(sr) == assoc_map(s.drop_last()).remove(k).insert(
            s.last().0,
            s.last().1,
        ));
        assert(assoc_map(s.drop_last()).remove(k).insert(s.last().0, s.last().1)
            =~= assoc_map(s.drop_last()).insert(s.last().0, s.last().1).remove(k));
    }
}

/// Replacing an entry in place keeps keys unique.
pub proof fn lemma_unique_keys_update<K, V>(s: Seq<(K, V)>, i: int, k: K, v: V)
    requires
        unique_keys(s),
        0 <= i < s.len(),
        s[i].0 == k,
    ensures
        unique_keys(s.update(i, (k, v))),
{
    let su = s.update(i, (k, v));
    assert forall|a: int, b: int| 0 <= a < b < su.len() implies (#[trigger] su[a]).0
        != (#[trigger] su[b]).0 by {
        assert(s[a].0 != s[b].0);
    }
}

/// Appending an entry under a fresh key keeps keys unique.
pub proof fn lemma_unique_keys_push<K, V>(s: Seq<(K, V)>, k: K, v: V)
    requires
        unique_keys(s),
        forall|i: int| 0 <= i < s.len() ==> (#[trigger] s[i]).0 != k,
    ensures
        unique_keys(s.push((k, v))),
{
    let su = s.push((k, v));
    assert forall|a: int, b: int| 0 <= a < b < su.len() implies (#[trigger] su[a]).0
        != (#[trigger] su[b]).0 by {
        if b < s.len() {
            assert(s[a].0 != s[b].0);
        } else {
            assert(su[a] == s[a]);
        }
    }
}

} // verus!
