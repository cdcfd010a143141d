//! Association lists: a sequence of key/value entries read as a map in
//! which a later entry for a key replaces an earlier one.

use vstd::prelude::*;

verus! {

/// The map that the entries of `s` describe, later entries winning.
pub open spec fn map_of<K, V>(s: Seq<(K, V)>) -> Map<K, V>
    decreases s.len(),
{
    if s.len() == 0 {
        Map::empty()
    } else {
        map_of(s.drop_last()).insert(s.last().0, s.last().1)
    }
}

/// No key occurs twice among the entries of `s`.
pub open spec fn keys_distinct<K, V>(s: Seq<(K, V)>) -> bool {
    forall|i: int, j: int| 0 <= i < j < s.len() ==> #[trigger] s[i].0 != #[trigger] s[j].0
}

/// The keys of `map_of(s)` are exactly the keys of the entries.
pub proof fn lemma_map_of_dom<K, V>(s: Seq<(K, V)>, k: K)
    ensures
        map_of(s).contains_key(k) <==> exists|i: int| 0 <= i < s.len() && #[trigger] s[i].0 == k,
    decreases s.len(),
{
    if s.len() > 0 {
        let init = s.drop_last();
        lemma_map_of_dom(init, k);
        if exists|i: int| 0 <= i < init.len() && #[trigger] init[i].0 == k {
            let i = choose|i: int| 0 <= i < init.len() && #[trigger] init[i].0 == k;
            assert(s[i] == init[i]);
        }
        if exists|i: int| 0 <= i < s.len() && #[trigger] s[i].0 == k {
            let i = choose|i: int| 0 <= i < s.len() && #[trigger] s[i].0 == k;
            if i < s.len() - 1 {
                assert(init[i] == s[i]);
            }
        }
    }
}

/// With distinct keys, the value of an entry's key is that entry's value.
pub proof fn lemma_map_of_index<K, V>(s: Seq<(K, V)>, i: int)
    requires
        keys_distinct(s),
        0 <= i < s.len(),
    ensures
        map_of(s).contains_key(s[i].0),
        map_of(s)[s[i].0] == s[i].1,
    decreases s.len(),
{
    let init = s.drop_last();
    if i < s.len() - 1 {
        assert(keys_distinct(init)) by {
            assert forall|a: int, b: int| 0 <= a < b < init.len() implies #[trigger] init[a].0 != #[trigger] init[b].0 by {
                assert(init[a] == s[a]);
                assert(init[b] == s[b]);
            }
        }
        lemma_map_of_index(init, i);
        assert(init[i] == s[i]);
        assert(s[i].0 != s.last().0);
    }
}

/// Appending an entry for a new key keeps the keys distinct.
pub proof fn lemma_keys_distinct_push<K, V>(s: Seq<(K, V)>, e: (K, V))
    requires
        keys_distinct(s),
        forall|i: int| 0 <= i < s.len() ==> #[trigger] s[i].0 != e.0,
    ensures
        keys_distinct(s.push(e)),
        map_of(s.push(e)) == map_of(s).insert(e.0, e.1),
{
    assert(s.push(e).drop_last() =~= s);
    assert forall|a: int, b: int| 0 <= a < b < s.push(e).len() implies #[trigger] s.push(e)[a].0 != #[trigger] s.push(e)[b].0 by {
        if b < s.len() {
            assert(s.push(e)[a] == s[a]);
            assert(s.push(e)[b] == s[b]);
        } else {
            assert(s.push(e)[a] == s[a]);
        }
    }
}

/// Replacing the value of an entry updates the map at that entry's key.
pub proof fn lemma_map_of_update<K, V>(s: Seq<(K, V)>, i: int, v: V)
    requires
        keys_distinct(s),
        0 <= i < s.len(),
    ensures
        keys_distinct(s.update(i, (s[i].0, v))),
        map_of(s.update(i, (s[i].0, v))) == map_of(s).insert(s[i].0, v),
    decreases s.len(),
{
    let t = s.update(i, (s[i].0, v));
    assert forall|a: int, b: int| 0 <= a < b < t.len() implies #[trigger] t[a].0 != #[trigger] t[b].0 by {
        assert(t[a].0 == s[a].0);
        assert(t[b].0 == s[b].0);
    }
    let init = s.drop_last();
    assert(keys_distinct(init)) by {
        assert forall|a: int, b: int| 0 <= a < b < init.len() implies #[trigger] init[a].0 != #[trigger] init[b].0 by {
            assert(init[a] == s[a]);
            assert(init[b] == s[b]);
        }
    }
    if i == s.len() - 1 {
        assert(t.drop_last() =~= init);
        assert(map_of(t) =~= map_of(s).insert(s[i].0, v));
    } else {
        lemma_map_of_update(init, i, v);
        assert(t.drop_last() =~= init.update(i, (s[i].0, v)));
        assert(init[i] == s[i]);
        assert(s[i].0 != s.last().0);
        assert(t.last() == s.last());
        assert(map_of(t) =~= map_of(s).insert(s[i].0, v));
    }
}

} // verus!

verus! {

/// With distinct keys, the map has one key per entry.
pub proof fn lemma_map_of_len<K, V>(s: Seq<(K, V)>)
    requires
        keys_distinct(s),
    ensures
        map_of(s).dom().finite(),
        map_of(s).len() == s.len(),
    decreases s.len(),
{
    if s.len() > 0 {
        let init = s.drop_last();
        assert(keys_distinct(init)) by {
            assert forall|a: int, b: int| 0 <= a < b < init.len() implies #[trigger] init[a].0 != #[trigger] init[b].0 by {
                assert(init[a] == s[a]);
                assert(init[b] == s[b]);
            }
        }
        lemma_map_of_len(init);
        lemma_map_of_dom(init, s.last().0);
        if map_of(init).contains_key(s.last().0) {
            let i = choose|i: int| 0 <= i < init.len() && #[trigger] init[i].0 == s.last().0;
            assert(init[i] == s[i]);
        }
    } else {
        assert(map_of(s).dom() =~= Set::empty());
    }
}


/// The value of a key is that of its last entry.
pub proof fn lemma_map_of_last<K, V>(s: Seq<(K, V)>, i: int)
    requires
        0 <= i < s.len(),
        forall|j: int| i < j < s.len() ==> #[trigger] s[j].0 != s[i].0,
    ensures
        map_of(s).contains_key(s[i].0),
        map_of(s)[s[i].0] == s[i].1,
    decreases s.len(),
{
    if i < s.len() - 1 {
        let init = s.drop_last();
        assert(init[i] == s[i]);
        assert forall|j: int| i < j < init.len() implies #[trigger] init[j].0 != init[i].0 by {
            assert(init[j] == s[j]);
        }
        lemma_map_of_last(init, i);
        assert(s.last().0 != s[i].0);
    }
}

} // verus!
