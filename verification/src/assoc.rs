//! Association lists: sequences of (key, value) pairs read as maps, the
//! representation the library uses for small name-keyed tables.

use vstd::prelude::*;

verus! {

/// `ps` read as a map, a later pair overriding an earlier one with the same
/// key.
pub open spec fn pairs_map<K, V>(ps: Seq<(K, V)>) -> Map<K, V>
    decreases ps.len(),
{
    if ps.len() == 0 {
        Map::empty()
    } else {
        pairs_map(ps.drop_last()).insert(ps.last().0, ps.last().1)
    }
}

/// No key occurs twice in `ps`.
pub open spec fn keys_distinct<K, V>(ps: Seq<(K, V)>) -> bool {
    forall|i: int, j: int| 0 <= i < j < ps.len() ==> ps[i].0 != ps[j].0
}

pub proof fn lemma_pairs_map_dom<K, V>(ps: Seq<(K, V)>, k: K)
    ensures
        pairs_map(ps).contains_key(k) <==> exists|i: int| 0 <= i < ps.len() && ps[i].0 == k,
    decreases ps.len(),
{
    if ps.len() > 0 {
        let init = ps.drop_last();
        lemma_pairs_map_dom(init, k);
        if pairs_map(ps).contains_key(k) && k != ps.last().0 {
            let i = choose|i: int| 0 <= i < init.len() && init[i].0 == k;
            assert(ps[i].0 == k);
        }
        if exists|i: int| 0 <= i < ps.len() && ps[i].0 == k {
            let i = choose|i: int| 0 <= i < ps.len() && ps[i].0 == k;
            if i < ps.len() - 1 {
                assert(init[i].0 == k);
            }
        }
    }
}

pub proof fn lemma_pairs_map_at<K, V>(ps: Seq<(K, V)>, i: int)
    requires
        keys_distinct(ps),
        0 <= i < ps.len(),
    ensures
        pairs_map(ps).contains_key(ps[i].0),
        pairs_map(ps)[ps[i].0] == ps[i].1,
    decreases ps.len(),
{
    if i < ps.len() - 1 {
        let init = ps.drop_last();
        assert(init[i] == ps[i]);
        lemma_pairs_map_at(init, i);
    }
}

pub proof fn lemma_pairs_map_push<K, V>(ps: Seq<(K, V)>, p: (K, V))
    ensures
        pairs_map(ps.push(p)) == pairs_map(ps).insert(p.0, p.1),
{
    assert(ps.push(p).drop_last() =~= ps);
}

pub proof fn lemma_pairs_map_update<K, V>(ps: Seq<(K, V)>, i: int, v: V)
    requires
        keys_distinct(ps),
        0 <= i < ps.len(),
    ensures
        pairs_map(ps.update(i, (ps[i].0, v))) == pairs_map(ps).insert(ps[i].0, v),
    decreases ps.len(),
{
    let k = ps[i].0;
    let qs = ps.update(i, (k, v));
    if i == ps.len() - 1 {
        assert(qs.drop_last() =~= ps.drop_last());
        assert(pairs_map(qs) =~= pairs_map(ps).insert(k, v));
    } else {
        let init = ps.drop_last();
        assert(qs.drop_last() =~= init.update(i, (k, v)));
        lemma_pairs_map_update(init, i, v);
        assert(ps.last().0 != k);
        assert(pairs_map(qs) =~= pairs_map(ps).insert(k, v));
    }
}

pub proof fn lemma_pairs_map_remove<K, V>(ps: Seq<(K, V)>, i: int)
    requires
        keys_distinct(ps),
        0 <= i < ps.len(),
    ensures
        keys_distinct(ps.remove(i)),
        pairs_map(ps.remove(i)) == pairs_map(ps).remove(ps[i].0),
    decreases ps.len(),
{
    let k = ps[i].0;
    let qs = ps.remove(i);
    if i == ps.len() - 1 {
        assert(qs =~= ps.drop_last());
        lemma_pairs_map_dom(qs, k);
        assert(pairs_map(qs) =~= pairs_map(ps).remove(k));
    } else {
        let init = ps.drop_last();
        lemma_pairs_map_remove(init, i);
        assert(qs.drop_last() =~= init.remove(i));
        assert(qs.last() == ps.last());
        assert(ps.last().0 != k);
        assert(pairs_map(qs) =~= pairs_map(ps).remove(k));
    }
}

/// With distinct keys, the map has one key per pair.
pub proof fn lemma_pairs_map_len<K, V>(ps: Seq<(K, V)>)
    requires
        keys_distinct(ps),
    ensures
        pairs_map(ps).dom().len() == ps.len(),
        pairs_map(ps).dom().finite(),
    decreases ps.len(),
{
    if ps.len() > 0 {
        let init = ps.drop_last();
        lemma_pairs_map_len(init);
        lemma_pairs_map_dom(init, ps.last().0);
        if pairs_map(init).contains_key(ps.last().0) {
            let i = choose|i: int| 0 <= i < init.len() && init[i].0 == ps.last().0;
            assert(ps[i].0 == ps[ps.len() - 1].0);
        }
    }
}

} // verus!
