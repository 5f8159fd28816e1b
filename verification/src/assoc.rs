//! Association lists with distinct text keys, read as maps.

use vstd::prelude::*;

verus! {

/// A key with what is stored under it.
pub type Entry<V> = (Seq<char>, V);

/// No key occurs twice.
pub open spec fn spec_distinct<V>(entries: Seq<Entry<V>>) -> bool {
    forall|i: int, j: int|
        0 <= i < j < entries.len() ==> (#[trigger] entries[i]).0 != (#[trigger] entries[j]).0
}

/// Whether some entry has the key.
pub open spec fn spec_has<V>(entries: Seq<Entry<V>>, key: Seq<char>) -> bool {
    exists|i: int| 0 <= i < entries.len() && (#[trigger] entries[i]).0 == key
}

/// The place of an entry with the key, if there is one.
pub open spec fn spec_index_of<V>(entries: Seq<Entry<V>>, key: Seq<char>) -> int {
    choose|i: int| 0 <= i < entries.len() && (#[trigger] entries[i]).0 == key
}

/// The map that a list of entries stands for.
pub open spec fn spec_map<V>(entries: Seq<Entry<V>>) -> Map<Seq<char>, V> {
    Map::new(
        |key: Seq<char>| spec_has(entries, key),
        |key: Seq<char>| entries[spec_index_of(entries, key)].1,
    )
}

/// The list after storing a value under a key: in the key's place if the
/// list has the key, else at the end.
pub open spec fn spec_put<V>(entries: Seq<Entry<V>>, key: Seq<char>, value: V) -> Seq<Entry<V>> {
    if spec_has(entries, key) {
        entries.update(spec_index_of(entries, key), (key, value))
    } else {
        entries.push((key, value))
    }
}

/// With distinct keys, an entry is found at its own place.
pub proof fn lemma_index_of<V>(entries: Seq<Entry<V>>, at: int)
    requires
        spec_distinct(entries),
        0 <= at < entries.len(),
    ensures
        spec_has(entries, entries[at].0),
        spec_index_of(entries, entries[at].0) == at,
        spec_map(entries)[entries[at].0] == entries[at].1,
        spec_map(entries).dom().contains(entries[at].0),
{
    let key = entries[at].0;
    let found = spec_index_of(entries, key);
    assert(0 <= found < entries.len() && entries[found].0 == key);
    if found < at {
        assert(entries[found].0 != entries[at].0);
    } else if at < found {
        assert(entries[at].0 != entries[found].0);
    }
}

/// Replacing the value of an entry is an insertion under its key.
pub proof fn lemma_update<V>(entries: Seq<Entry<V>>, at: int, value: V)
    requires
        spec_distinct(entries),
        0 <= at < entries.len(),
    ensures
        spec_distinct(entries.update(at, (entries[at].0, value))),
        spec_map(entries.update(at, (entries[at].0, value))) == spec_map(entries).insert(
            entries[at].0,
            value,
        ),
{
    let key = entries[at].0;
    let after = entries.update(at, (key, value));
    assert forall|i: int| 0 <= i < entries.len() implies (#[trigger] after[i]).0
        == entries[i].0 by {}
    assert(spec_distinct(after)) by {
        assert forall|i: int, j: int| 0 <= i < j < after.len() implies (#[trigger] after[i]).0 != (
        #[trigger] after[j]).0 by {
            assert(entries[i].0 != entries[j].0);
        }
    }
    assert forall|k: Seq<char>| spec_has(after, k) == spec_has(entries, k) by {
        if spec_has(entries, k) {
            let i = spec_index_of(entries, k);
            assert(after[i].0 == k);
        }
        if spec_has(after, k) {
            let i = spec_index_of(after, k);
            assert(entries[i].0 == k);
        }
    }
    assert forall|k: Seq<char>| spec_has(after, k) implies #[trigger] spec_map(after)[k]
        == spec_map(entries).insert(key, value)[k] by {
        let i = spec_index_of(after, k);
        lemma_index_of(after, i);
        lemma_index_of(entries, i);
    }
    assert(spec_has(entries, key)) by {
        lemma_index_of(entries, at);
    }
    assert(spec_map(after) =~= spec_map(entries).insert(key, value));
}

/// Appending an entry under a new key is an insertion under that key.
pub proof fn lemma_push<V>(entries: Seq<Entry<V>>, key: Seq<char>, value: V)
    requires
        spec_distinct(entries),
        !spec_has(entries, key),
    ensures
        spec_distinct(entries.push((key, value))),
        spec_map(entries.push((key, value))) == spec_map(entries).insert(key, value),
{
    let after = entries.push((key, value));
    assert(spec_distinct(after)) by {
        assert forall|i: int, j: int| 0 <= i < j < after.len() implies (#[trigger] after[i]).0 != (
        #[trigger] after[j]).0 by {
            assert(after[i] == entries[i]);
            if j < entries.len() {
                assert(after[j] == entries[j]);
            }
        }
    }
    assert forall|k: Seq<char>| spec_has(after, k) == (k == key || spec_has(entries, k)) by {
        if spec_has(entries, k) {
            let i = spec_index_of(entries, k);
            assert(after[i].0 == k);
        }
        if k == key {
            assert(after[entries.len() as int].0 == k);
        }
        if spec_has(after, k) {
            let i = spec_index_of(after, k);
            if i < entries.len() {
                assert(entries[i].0 == k);
            }
        }
    }
    assert forall|k: Seq<char>| spec_has(after, k) implies #[trigger] spec_map(after)[k]
        == spec_map(entries).insert(key, value)[k] by {
        let i = spec_index_of(after, k);
        lemma_index_of(after, i);
        if i < entries.len() {
            assert(after[i] == entries[i]);
            lemma_index_of(entries, i);
        }
    }
    assert(spec_map(after) =~= spec_map(entries).insert(key, value));
}

/// Storing a value under a key is an insertion under that key, and keeps
/// the keys distinct.
pub proof fn lemma_put<V>(entries: Seq<Entry<V>>, key: Seq<char>, value: V)
    requires
        spec_distinct(entries),
    ensures
        spec_distinct(spec_put(entries, key, value)),
        spec_map(spec_put(entries, key, value)) == spec_map(entries).insert(key, value),
{
    if spec_has(entries, key) {
        let at = spec_index_of(entries, key);
        lemma_update(entries, at, value);
    } else {
        lemma_push(entries, key, value);
    }
}

/// The map of the empty list is empty.
pub proof fn lemma_empty<V>()
    ensures
        spec_distinct(Seq::<Entry<V>>::empty()),
        spec_map(Seq::<Entry<V>>::empty()) == Map::<Seq<char>, V>::empty(),
{
    assert(spec_map(Seq::<Entry<V>>::empty()) =~= Map::<Seq<char>, V>::empty());
}

/// With distinct keys, the map has as many keys as the list has entries.
pub proof fn lemma_len<V>(entries: Seq<Entry<V>>)
    requires
        spec_distinct(entries),
    ensures
        spec_map(entries).dom().finite(),
        spec_map(entries).dom().len() == entries.len(),
    decreases entries.len(),
{
    if entries.len() == 0 {
        lemma_empty::<V>();
        assert(entries =~= Seq::<Entry<V>>::empty());
    } else {
        let before = entries.drop_last();
        let last = entries.last();
        assert(spec_distinct(before)) by {
            assert forall|i: int, j: int| 0 <= i < j < before.len() implies (
            #[trigger] before[i]).0 != (#[trigger] before[j]).0 by {
                assert(entries[i].0 != entries[j].0);
            }
        }
        assert(!spec_has(before, last.0)) by {
            if spec_has(before, last.0) {
                let i = spec_index_of(before, last.0);
                assert(entries[i].0 != entries[entries.len() - 1].0);
            }
        }
        lemma_len(before);
        lemma_push(before, last.0, last.1);
        assert(before.push((last.0, last.1)) =~= entries);
        assert(!spec_map(before).dom().contains(last.0));
        assert(spec_map(entries).dom() =~= spec_map(before).dom().insert(last.0));
    }
}

} // verus!
