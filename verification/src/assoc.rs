use vstd::prelude::*;

verus! {

/// Pairwise-distinct keys in a sequence of key-value pairs.
pub open spec fn distinct_keys<K, V>(s: Seq<(K, V)>) -> bool {
    forall|i: int, j: int| 0 <= i < j < s.len() ==> s[i].0 != s[j].0
}

/// The finite map denoted by a sequence of key-value pairs. A later pair
/// wins, which never matters here because all users keep the keys distinct.
pub open spec fn pairs_to_map<K, V>(s: Seq<(K, V)>) -> Map<K, V>
    decreases s.len(),
{
    if s.len() == 0 {
        Map::empty()
    } else {
        pairs_to_map(s.drop_last()).insert(s.last().0, s.last().1)
    }
}

pub proof fn lemma_dom<K, V>(s: Seq<(K, V)>, k: K)
    ensures
        pairs_to_map(s).contains_key(k) <==> exists|i: int| 0 <= i < s.len() && s[i].0 == k,
    decreases s.len(),
{
    if s.len() == 0 {
    } else {
        lemma_dom(s.drop_last(), k);
        if pairs_to_map(s).contains_key(k) {
            if s.last().0 == k {
                assert(s[s.len() - 1].0 == k);
            } else {
                let i = choose|i: int| 0 <= i < s.drop_last().len() && s.drop_last()[i].0 == k;
                assert(s[i].0 == k);
            }
        }
        if exists|i: int| 0 <= i < s.len() && s[i].0 == k {
            let i = choose|i: int| 0 <= i < s.len() && s[i].0 == k;
            if i < s.len() - 1 {
                assert(s.drop_last()[i].0 == k);
            }
        }
    }
}

pub proof fn lemma_index<K, V>(s: Seq<(K, V)>, i: int)
    requires
        distinct_keys(s),
        0 <= i < s.len(),
    ensures
        pairs_to_map(s).contains_key(s[i].0),
        pairs_to_map(s)[s[i].0] == s[i].1,
    decreases s.len(),
{
    if i == s.len() - 1 {
    } else {
        assert(s.drop_last()[i] == s[i]);
        lemma_index(s.drop_last(), i);
        assert(s[i].0 != s.last().0);
    }
}

pub proof fn lemma_push<K, V>(s: Seq<(K, V)>, k: K, v: V)
    ensures
        pairs_to_map(s.push((k, v))) == pairs_to_map(s).insert(k, v),
{
    assert(s.push((k, v)).drop_last() =~= s);
}

pub proof fn lemma_update<K, V>(s: Seq<(K, V)>, i: int, v: V)
    requires
        distinct_keys(s),
        0 <= i < s.len(),
    ensures
        pairs_to_map(s.update(i, (s[i].0, v))) == pairs_to_map(s).insert(s[i].0, v),
    decreases s.len(),
{
    let k = s[i].0;
    let t = s.update(i, (k, v));
    if i == s.len() - 1 {
        assert(t.drop_last() =~= s.drop_last());
        assert(pairs_to_map(s).insert(k, v) =~= pairs_to_map(s.drop_last()).insert(k, v));
    } else {
        assert(t.drop_last() =~= s.drop_last().update(i, (k, v)));
        assert(s.drop_last()[i] == s[i]);
        lemma_update(s.drop_last(), i, v);
        assert(k != s.last().0);
        assert(pairs_to_map(s.drop_last()).insert(k, v).insert(s.last().0, s.last().1)
            =~= pairs_to_map(s.drop_last()).insert(s.last().0, s.last().1).insert(k, v));
    }
}

pub proof fn lemma_remove<K, V>(s: Seq<(K, V)>, i: int)
    requires
        distinct_keys(s),
        0 <= i < s.len(),
    ensures
        pairs_to_map(s.remove(i)) == pairs_to_map(s).remove(s[i].0),
    decreases s.len(),
{
    let k = s[i].0;
    if i == s.len() - 1 {
        assert(s.remove(i) =~= s.drop_last());
        lemma_dom(s.drop_last(), k);
        assert(forall|j: int| 0 <= j < s.drop_last().len() ==> s.drop_last()[j] == s[j]);
        assert(!pairs_to_map(s.drop_last()).contains_key(k));
        assert(pairs_to_map(s.drop_last()).insert(k, s[i].1).remove(k)
            =~= pairs_to_map(s.drop_last()));
    } else {
        assert(s.remove(i).drop_last() =~= s.drop_last().remove(i));
        assert(s.remove(i).last() == s.last());
        assert(s.drop_last()[i] == s[i]);
        lemma_remove(s.drop_last(), i);
        assert(k != s.last().0);
        assert(pairs_to_map(s.drop_last()).remove(k).insert(s.last().0, s.last().1)
            =~= pairs_to_map(s.drop_last()).insert(s.last().0, s.last().1).remove(k));
    }
}

/// A sequence with distinct keys stays distinct when one value is replaced.
pub proof fn lemma_distinct_update<K, V>(s: Seq<(K, V)>, i: int, v: V)
    requires
        distinct_keys(s),
        0 <= i < s.len(),
    ensures
        distinct_keys(s.update(i, (s[i].0, v))),
{
}

/// Appending a pair whose key is absent keeps the keys distinct.
pub proof fn lemma_distinct_push<K, V>(s: Seq<(K, V)>, k: K, v: V)
    requires
        distinct_keys(s),
        forall|i: int| 0 <= i < s.len() ==> s[i].0 != k,
    ensures
        distinct_keys(s.push((k, v))),
{
}

/// Removing a pair keeps the keys distinct.
pub proof fn lemma_distinct_remove<K, V>(s: Seq<(K, V)>, i: int)
    requires
        distinct_keys(s),
        0 <= i < s.len(),
    ensures
        distinct_keys(s.remove(i)),
{
    assert forall|p: int, q: int| 0 <= p < q < s.remove(i).len() implies s.remove(
        i,
    )[p].0 != s.remove(i)[q].0 by {
        let p2 = if p < i { p } else { p + 1 };
        let q2 = if q < i { q } else { q + 1 };
        assert(s.remove(i)[p] == s[p2]);
        assert(s.remove(i)[q] == s[q2]);
    }
}

} // verus!
