//! Lists of keyed entries in which no key occurs twice, and the maps that they stand for.
use vstd::prelude::*;

verus! {

/// The map that a list of keyed entries stands for, where no key occurs twice.
pub open spec fn keyed<K, V>(entries: Seq<(K, V)>) -> Map<K, V>
    decreases entries.len(),
{
    if entries.len() == 0 {
        Map::empty()
    } else {
        keyed(entries.drop_last()).insert(entries.last().0, entries.last().1)
    }
}

/// No key occurs twice in a list of keyed entries.
pub open spec fn keys_unique<K, V>(entries: Seq<(K, V)>) -> bool {
    forall|i: int, j: int|
        0 <= i < j < entries.len() ==> #[trigger] entries[i].0 != #[trigger] entries[j].0
}

/// Each entry is found in the map, and the map has no other keys.
pub proof fn lemma_keyed<K, V>(entries: Seq<(K, V)>)
    requires
        keys_unique(entries),
    ensures
        forall|i: int|
            0 <= i < entries.len() ==> keyed(entries).contains_key(#[trigger] entries[i].0)
                && keyed(entries)[entries[i].0] == entries[i].1,
        forall|key: K| #[trigger]
            keyed(entries).contains_key(key) ==> exists|i: int|
                0 <= i < entries.len() && #[trigger] entries[i].0 == key,
    decreases entries.len(),
{
    if entries.len() > 0 {
        let init = entries.drop_last();
        lemma_keys_unique_drop_last(entries);
        lemma_keyed(init);
        assert forall|i: int| 0 <= i < entries.len() implies keyed(entries).contains_key(
            #[trigger] entries[i].0,
        ) && keyed(entries)[entries[i].0] == entries[i].1 by {
            if i < entries.len() - 1 {
                assert(init[i] == entries[i]);
                assert(entries[i].0 != entries[entries.len() - 1].0);
            }
        }
        assert forall|key: K| #[trigger] keyed(entries).contains_key(key) implies exists|i: int|
            0 <= i < entries.len() && #[trigger] entries[i].0 == key by {
            if key != entries.last().0 {
                assert(keyed(init).contains_key(key));
                let i = choose|i: int| 0 <= i < init.len() && #[trigger] init[i].0 == key;
                assert(entries[i].0 == key);
            } else {
                assert(entries[entries.len() - 1].0 == key);
            }
        }
    }
}

proof fn lemma_keys_unique_drop_last<K, V>(entries: Seq<(K, V)>)
    requires
        keys_unique(entries),
        entries.len() > 0,
    ensures
        keys_unique(entries.drop_last()),
{
    let init = entries.drop_last();
    assert forall|i: int, j: int| 0 <= i < j < init.len() implies #[trigger] init[i].0
        != #[trigger] init[j].0 by {
        assert(entries[i].0 != entries[j].0);
    }
}

/// A new entry behind the others enters the map.
pub proof fn lemma_keyed_push<K, V>(entries: Seq<(K, V)>, key: K, value: V)
    requires
        keys_unique(entries),
        !keyed(entries).contains_key(key),
    ensures
        keys_unique(entries.push((key, value))),
        keyed(entries.push((key, value))) == keyed(entries).insert(key, value),
{
    let after = entries.push((key, value));
    lemma_keyed(entries);
    assert(after.drop_last() =~= entries);
    assert forall|i: int, j: int| 0 <= i < j < after.len() implies #[trigger] after[i].0
        != #[trigger] after[j].0 by {
        if j == after.len() - 1 {
            assert(keyed(entries).contains_key(entries[i].0));
        } else {
            assert(entries[i].0 != entries[j].0);
        }
    }
}

/// Writing the value at position `i` writes the map under that entry's key.
pub proof fn lemma_keyed_update<K, V>(entries: Seq<(K, V)>, i: int, value: V)
    requires
        keys_unique(entries),
        0 <= i < entries.len(),
    ensures
        keys_unique(entries.update(i, (entries[i].0, value))),
        keyed(entries.update(i, (entries[i].0, value))) == keyed(entries).insert(
            entries[i].0,
            value,
        ),
{
    let after = entries.update(i, (entries[i].0, value));
    assert forall|a: int, b: int| 0 <= a < b < after.len() implies #[trigger] after[a].0
        != #[trigger] after[b].0 by {
        assert(entries[a].0 != entries[b].0);
    }
    lemma_keyed(entries);
    lemma_keyed(after);
    let expected = keyed(entries).insert(entries[i].0, value);
    assert forall|key: K| #[trigger] keyed(after).dom().contains(key) implies expected.dom().contains(
        key,
    ) && keyed(after)[key] == expected[key] by {
        assert(keyed(after).contains_key(key));
        let k = choose|k: int| 0 <= k < after.len() && #[trigger] after[k].0 == key;
        assert(entries[k].0 == key);
    }
    assert forall|key: K| #[trigger] expected.dom().contains(key) implies keyed(
        after,
    ).dom().contains(key) by {
        if key == entries[i].0 {
            assert(after[i].0 == key);
        } else {
            assert(keyed(entries).contains_key(key));
            let k = choose|k: int| 0 <= k < entries.len() && #[trigger] entries[k].0 == key;
            assert(after[k].0 == key);
        }
    }
    assert(keyed(after) =~= expected);
}

/// Removing the entry at position `i` removes its key from the map.
pub proof fn lemma_keyed_remove<K, V>(entries: Seq<(K, V)>, i: int)
    requires
        keys_unique(entries),
        0 <= i < entries.len(),
    ensures
        keys_unique(entries.remove(i)),
        keyed(entries.remove(i)) == keyed(entries).remove(entries[i].0),
{
    let after = entries.remove(i);
    assert forall|a: int, b: int| 0 <= a < b < after.len() implies #[trigger] after[a].0
        != #[trigger] after[b].0 by {
        let c = if a < i {
            a
        } else {
            a + 1
        };
        let d = if b < i {
            b
        } else {
            b + 1
        };
        assert(entries[c].0 != entries[d].0);
    }
    lemma_keyed(entries);
    lemma_keyed(after);
    let expected = keyed(entries).remove(entries[i].0);
    assert forall|key: K| #[trigger] keyed(after).dom().contains(key) implies expected.dom().contains(
        key,
    ) && keyed(after)[key] == expected[key] by {
        assert(keyed(after).contains_key(key));
        let k = choose|k: int| 0 <= k < after.len() && #[trigger] after[k].0 == key;
        let c = if k < i {
            k
        } else {
            k + 1
        };
        assert(entries[c].0 == key);
        assert(after[k].0 == key);
        if c < i {
            assert(entries[c].0 != entries[i].0);
        } else {
            assert(entries[i].0 != entries[c].0);
        }
    }
    assert forall|key: K| #[trigger] expected.dom().contains(key) implies keyed(
        after,
    ).dom().contains(key) by {
        assert(keyed(entries).contains_key(key));
        let k = choose|k: int| 0 <= k < entries.len() && #[trigger] entries[k].0 == key;
        let c = if k < i {
            k
        } else {
            k - 1
        };
        assert(after[c].0 == key);
    }
    assert(keyed(after) =~= expected);
}

/// The map has as many keys as the list has entries.
pub proof fn lemma_keyed_len<K, V>(entries: Seq<(K, V)>)
    requires
        keys_unique(entries),
    ensures
        keyed(entries).dom().finite(),
        keyed(entries).dom().len() == entries.len(),
    decreases entries.len(),
{
    if entries.len() > 0 {
        let init = entries.drop_last();
        lemma_keys_unique_drop_last(entries);
        lemma_keyed_len(init);
        lemma_keyed(init);
        assert(!keyed(init).contains_key(entries.last().0)) by {
            if keyed(init).contains_key(entries.last().0) {
                let i = choose|i: int|
                    0 <= i < init.len() && #[trigger] init[i].0 == entries.last().0;
                assert(entries[i].0 != entries[entries.len() - 1].0);
            }
        }
        assert(keyed(entries).dom() =~= keyed(init).dom().insert(entries.last().0));
    }
}

} // verus!
