//! Association lists with `String` keys, viewed as maps.
//!
//! The stores keep their entries in vectors of pairs with pairwise
//! distinct keys; contracts speak of [`assoc_map`], the map the pairs
//! denote.  These lemmas carry lookups, updates and insertions between
//! the two levels.

use vstd::prelude::*;

verus! {

/// The map an association list denotes; later pairs would win, but the
/// stores keep keys distinct.
pub open spec fn assoc_map<V>(d: Seq<(String, V)>) -> Map<Seq<char>, V>
    decreases d.len(),
{
    if d.len() == 0 {
        Map::empty()
    } else {
        assoc_map(d.drop_last()).insert(d.last().0@, d.last().1)
    }
}

/// Pairwise distinct keys.
pub open spec fn keys_unique<V>(d: Seq<(String, V)>) -> bool {
    forall|i: int, j: int| 0 <= i < j < d.len() ==> d[i].0@ != d[j].0@
}

/// A key under which no pair stands is not in the map.
pub proof fn lemma_assoc_absent<V>(d: Seq<(String, V)>, k: Seq<char>)
    requires
        forall|i: int| 0 <= i < d.len() ==> (#[trigger] d[i]).0@ != k,
    ensures
        !assoc_map(d).dom().contains(k),
    decreases d.len(),
{
    if d.len() > 0 {
        lemma_assoc_absent(d.drop_last(), k);
    }
}

/// With distinct keys, the pair at `i` is what the map holds at its key.
pub proof fn lemma_assoc_found<V>(d: Seq<(String, V)>, i: int)
    requires
        keys_unique(d),
        0 <= i < d.len(),
    ensures
        assoc_map(d).dom().contains(d[i].0@),
        assoc_map(d)[d[i].0@] == d[i].1,
    decreases d.len(),
{
    if i < d.len() - 1 {
        lemma_assoc_found(d.drop_last(), i);
        assert(d.drop_last()[i] == d[i]);
        assert(d[d.len() - 1].0@ != d[i].0@);
    }
}

/// Every key of the map stands in some pair.
pub proof fn lemma_assoc_dom<V>(d: Seq<(String, V)>)
    ensures
        forall|k: Seq<char>|
            assoc_map(d).dom().contains(k) ==> exists|i: int|
                0 <= i < d.len() && (#[trigger] d[i]).0@ == k,
    decreases d.len(),
{
    if d.len() > 0 {
        lemma_assoc_dom(d.drop_last());
        assert forall|k: Seq<char>| assoc_map(d).dom().contains(k) implies exists|i: int|
            0 <= i < d.len() && (#[trigger] d[i]).0@ == k by {
            if k == d.last().0@ {
                assert(d[d.len() - 1].0@ == k);
            } else {
                assert(assoc_map(d.drop_last()).dom().contains(k));
                let i = choose|i: int|
                    0 <= i < d.drop_last().len() && (#[trigger] d.drop_last()[i]).0@ == k;
                assert(d[i].0@ == k);
            }
        }
    }
}

/// Replacing the pair at `i` by one with the same key updates the map
/// at that key and keeps the keys distinct.
pub proof fn lemma_assoc_update<V>(d: Seq<(String, V)>, i: int, p: (String, V))
    requires
        keys_unique(d),
        0 <= i < d.len(),
        p.0@ == d[i].0@,
    ensures
        assoc_map(d.update(i, p)) == assoc_map(d).insert(p.0@, p.1),
        keys_unique(d.update(i, p)),
    decreases d.len(),
{
    let du = d.update(i, p);
    if i == d.len() - 1 {
        assert(du.drop_last() =~= d.drop_last());
        assert(assoc_map(du) == assoc_map(d.drop_last()).insert(p.0@, p.1));
        assert(assoc_map(d).insert(p.0@, p.1) == assoc_map(d.drop_last()).insert(
            d.last().0@,
            d.last().1,
        ).insert(p.0@, p.1));
        assert(assoc_map(d.drop_last()).insert(p.0@, p.1) =~= assoc_map(d.drop_last()).insert(
            d.last().0@,
            d.last().1,
        ).insert(p.0@, p.1));
    } else {
        lemma_assoc_update(d.drop_last(), i, p);
        assert(du.drop_last() =~= d.drop_last().update(i, p));
        assert(du.last() == d.last());
        assert(assoc_map(du) == assoc_map(d.drop_last()).insert(p.0@, p.1).insert(
            d.last().0@,
            d.last().1,
        ));
        assert(d.last().0@ != p.0@);
        assert(assoc_map(d.drop_last()).insert(p.0@, p.1).insert(d.last().0@, d.last().1)
            =~= assoc_map(d.drop_last()).insert(d.last().0@, d.last().1).insert(p.0@, p.1));
    }
}

/// Appending a pair with a fresh key inserts it and keeps keys distinct.
pub proof fn lemma_assoc_push<V>(d: Seq<(String, V)>, p: (String, V))
    requires
        keys_unique(d),
        forall|i: int| 0 <= i < d.len() ==> (#[trigger] d[i]).0@ != p.0@,
    ensures
        assoc_map(d.push(p)) == assoc_map(d).insert(p.0@, p.1),
        keys_unique(d.push(p)),
{
    assert(d.push(p).drop_last() =~= d);
    assert forall|i: int, j: int| 0 <= i < j < d.push(p).len() implies d.push(p)[i].0@ != d.push(
        p,
    )[j].0@ by {
        if j < d.len() {
            assert(d.push(p)[i] == d[i]);
            assert(d.push(p)[j] == d[j]);
        } else {
            assert(d.push(p)[i] == d[i]);
            assert(d.push(p)[j] == p);
        }
    }
}

/// Removing the pair at `i` removes its key from the map and keeps the
/// keys distinct.
pub proof fn lemma_assoc_remove<V>(d: Seq<(String, V)>, i: int)
    requires
        keys_unique(d),
        0 <= i < d.len(),
    ensures
        assoc_map(d.remove(i)) == assoc_map(d).remove(d[i].0@),
        keys_unique(d.remove(i)),
    decreases d.len(),
{
    let dr = d.remove(i);
    assert forall|x: int, y: int| 0 <= x < y < dr.len() implies dr[x].0@ != dr[y].0@ by {
        if x < i && y < i {
        } else if x < i {
            assert(dr[y] == d[y + 1]);
        } else {
            assert(dr[x] == d[x + 1]);
            assert(dr[y] == d[y + 1]);
        }
    }
    if i == d.len() - 1 {
        assert(dr =~= d.drop_last());
        lemma_assoc_absent(d.drop_last(), d[i].0@);
        assert(assoc_map(d).remove(d[i].0@) =~= assoc_map(d.drop_last()));
    } else {
        lemma_assoc_remove(d.drop_last(), i);
        assert(dr.drop_last() =~= d.drop_last().remove(i));
        assert(dr.last() == d.last());
        assert(assoc_map(dr) == assoc_map(d.drop_last()).remove(d[i].0@).insert(
            d.last().0@,
            d.last().1,
        ));
        assert(d.last().0@ != d[i].0@);
        assert(assoc_map(d.drop_last()).remove(d[i].0@).insert(d.last().0@, d.last().1)
            =~= assoc_map(d.drop_last()).insert(d.last().0@, d.last().1).remove(d[i].0@));
    }
}

/// The index of the pair holding `k`, if any.
pub fn assoc_find_idx<V>(d: &Vec<(String, V)>, k: &String) -> (r: Option<usize>)
    ensures
        match r {
            Some(i) => i < d@.len() && d@[i as int].0@ == k@,
            None => forall|i: int| 0 <= i < d@.len() ==> (#[trigger] d@[i]).0@ != k@,
        },
{
    let mut i: usize = 0;
    while i < d.len()
        invariant
            i <= d@.len(),
            forall|j: int| 0 <= j < i ==> (#[trigger] d@[j]).0@ != k@,
        decreases d@.len() - i,
    {
        if d[i].0 == *k {
            return Some(i);
        }
        i = i + 1;
    }
    None
}

} // verus!
