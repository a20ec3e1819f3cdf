//! Maps and tables.
use vstd::prelude::*;

use crate::ordered_map::OrderedMap;
use crate::table::{Table, TableKey};

verus! {

impl<K, V> OrderedMap<K, V> {
    /// In `post` every key stands where it stood, and every key but `k` has the
    /// value that it had; `k` may have come behind all others, if it was not
    /// there.
    pub open spec fn same_but(self, k: K, post: Self) -> bool {
        &&& self.entries.len() <= post.entries.len() <= self.entries.len() + 1
        &&& forall|i: int|
            0 <= i < self.entries.len() ==> {
                &&& (#[trigger] post.entries[i]).0 == self.entries[i].0
                &&& self.entries[i].0 != k ==> post.entries[i].1 == self.entries[i].1
            }
        &&& post.entries.len() > self.entries.len() ==> {
            &&& post.entries[self.entries.len() as int].0 == k
            &&& forall|i: int| 0 <= i < self.entries.len() ==> (#[trigger] self.entries[i]).0 != k
        }
    }

    /// What setting a value leaves.
    pub proof fn lemma_put_same_but(self, k: K, v: V)
        requires
            self.distinct(),
        ensures
            self.same_but(k, self.put(k, v)),
            self.put(k, v).distinct(),
            self.put(k, v).has(k),
            self.put(k, v)[k] == v,
            self.put(k, v).entries.len() == self.entries.len() + (if self.has(k) {
                0int
            } else {
                1
            }),
    {
        let post = self.put(k, v);
        self.lemma_put(k, v);
        if self.has(k) {
            let p = self.position(k);
            assert forall|i: int| 0 <= i < self.entries.len() implies {
                &&& (#[trigger] post.entries[i]).0 == self.entries[i].0
                &&& self.entries[i].0 != k ==> post.entries[i].1 == self.entries[i].1
            } by {
                assert(self.entries[p].0 == k);
            }
        }
    }
}

/// A key is in a map exactly if one of the entries has it, and its value is the
/// one of that entry.
pub proof fn law_a_key_is_found_with_its_value<K, V>(map: OrderedMap<K, V>, i: int, k: K)
    requires
        forall|a: int, b: int|
            0 <= a < b < map.entries.len() ==> (#[trigger] map.entries[a]).0 != (
            #[trigger] map.entries[b]).0,
    ensures
        0 <= i < map.entries.len() && map.entries[i].0 == k ==> map.has(k) && map[k]
            == map.entries[i].1,
        (forall|j: int| 0 <= j < map.entries.len() ==> (#[trigger] map.entries[j]).0 != k)
            ==> !map.has(k),
{
    if 0 <= i < map.entries.len() && map.entries[i].0 == k {
        map.lemma_position(i);
    }
}

/// Where one map is the other but for one key, every other key is in both or in
/// neither, with the same value.
pub proof fn law_other_keys_keep_their_values<K, V>(
    map: OrderedMap<K, V>,
    post: OrderedMap<K, V>,
    k: K,
    other: K,
)
    requires
        map.distinct(),
        post.distinct(),
        map.same_but(k, post),
        other != k,
    ensures
        post.has(other) == map.has(other),
        map.has(other) ==> post[other] == map[other],
{
    if map.has(other) {
        let p = map.position(other);
        assert(map.entries[p].0 == other);
        assert(post.entries[p].0 == other);
        post.lemma_position(p);
    }
    if post.has(other) {
        let p = post.position(other);
        assert(post.entries[p].0 == other);
        assert(p < map.entries.len());
        assert(map.entries[p].0 == other);
    }
}

/// Setting a value replaces it where its key stands, or puts it behind all
/// others.
pub proof fn law_setting_a_value<K, V>(map: OrderedMap<K, V>, k: K, v: V, i: int)
    requires
        map.distinct(),
    ensures
        0 <= i < map.entries.len() && map.entries[i].0 == k ==> map.put(k, v).entries
            == map.entries.update(i, (k, v)),
        (forall|j: int| 0 <= j < map.entries.len() ==> (#[trigger] map.entries[j]).0 != k)
            ==> map.put(k, v).entries == map.entries.push((k, v)),
{
    if 0 <= i < map.entries.len() && map.entries[i].0 == k {
        map.lemma_position(i);
    }
}

/// A table that was created has no entries.
pub proof fn law_a_new_table_is_empty<K: TableKey, V>(table: Table<K, V>)
    requires
        call_ensures(Table::<K, V>::new, (), table),
    ensures
        table.wf(),
        table@.entries.len() == 0,
{
}

/// What a table says of a key: whether it is there, and its value.
pub proof fn law_looking_a_key_up<K: TableKey, V>(
    table: &Table<K, V>,
    key: &K,
    i: int,
    len: usize,
    found: bool,
    value: Option<&V>,
)
    requires
        table.wf(),
        call_ensures(Table::<K, V>::len, (table,), len),
        call_ensures(Table::<K, V>::contains_key, (table, key), found),
        call_ensures(Table::<K, V>::get, (table, key), value),
    ensures
        len == table@.entries.len(),
        found == (value is Some),
        0 <= i < table@.entries.len() && table@.entries[i].0 == *key ==> value == Some(
            &table@.entries[i].1,
        ),
        (forall|j: int| 0 <= j < table@.entries.len() ==> (#[trigger] table@.entries[j]).0 != *key)
            ==> value is None,
{
    table.lemma_wf();
    law_a_key_is_found_with_its_value(table@, i, *key);
}

/// What a table says of a place: the key and the value that stand there.
pub proof fn law_looking_a_place_up<K: TableKey, V>(
    table: &Table<K, V>,
    place: usize,
    key: K,
    value: &V,
)
    requires
        table.wf(),
        place < table@.entries.len(),
        call_ensures(Table::<K, V>::key_at, (table, place), key),
        call_ensures(Table::<K, V>::value_at, (table, place), value),
    ensures
        key == table@.entries[place as int].0,
        *value == table@.entries[place as int].1,
{
}

/// Inserting sets the value of a key where it stands and hands the old one back,
/// or adds the key behind all others.
pub proof fn law_inserting_into_a_table<K: TableKey, V>(
    table: &mut Table<K, V>,
    key: K,
    value: V,
    previous: Option<V>,
    i: int,
)
    requires
        old(table).wf(),
        call_ensures(Table::<K, V>::insert, (table, key, value), previous),
    ensures
        final(table).wf(),
        0 <= i < old(table)@.entries.len() && old(table)@.entries[i].0 == key ==> {
            &&& previous == Some(old(table)@.entries[i].1)
            &&& final(table)@.entries == old(table)@.entries.update(i, (key, value))
        },
        (forall|j: int|
            0 <= j < old(table)@.entries.len() ==> (#[trigger] old(table)@.entries[j]).0 != key)
            ==> {
            &&& previous is None
            &&& final(table)@.entries == old(table)@.entries.push((key, value))
        },
{
    old(table).lemma_wf();
    law_setting_a_value(old(table)@, key, value, i);
    law_a_key_is_found_with_its_value(old(table)@, i, key);
}

/// Writing through the value of a key, or through the value at a place, sets
/// that value and nothing else.
pub proof fn law_writing_into_a_table<K: TableKey, V>(
    table: &mut Table<K, V>,
    key: K,
    place: usize,
    value: &mut V,
    i: int,
)
    requires
        old(table).wf(),
        0 <= i < old(table)@.entries.len(),
        old(table)@.entries[i].0 == key,
        ({
            ||| call_ensures(Table::<K, V>::index_mut, (table, &key), value)
            ||| call_ensures(Table::<K, V>::get_mut, (table, &key), Some(value))
            ||| call_ensures(Table::<K, V>::value_at_mut, (table, place), value) && place == i
        }),
    ensures
        final(table).wf(),
        *old(value) == old(table)@.entries[i].1,
        final(table)@.entries == old(table)@.entries.update(i, (key, *final(value))),
{
    old(table).lemma_wf();
    law_setting_a_value(old(table)@, key, *final(value), i);
    law_a_key_is_found_with_its_value(old(table)@, i, key);
}

/// Writing through the value of a key that may not be there adds the key behind
/// all others, if it is not, with what was written.
pub proof fn law_writing_into_a_new_entry<K: TableKey, V>(
    table: &mut Table<K, V>,
    key: K,
    default: V,
    value: &mut V,
    i: int,
)
    requires
        old(table).wf(),
        call_ensures(Table::<K, V>::get_or_insert, (table, key, default), value),
    ensures
        final(table).wf(),
        0 <= i < old(table)@.entries.len() && old(table)@.entries[i].0 == key ==> {
            &&& *old(value) == old(table)@.entries[i].1
            &&& final(table)@.entries == old(table)@.entries.update(i, (key, *final(value)))
        },
        (forall|j: int|
            0 <= j < old(table)@.entries.len() ==> (#[trigger] old(table)@.entries[j]).0 != key)
            ==> {
            &&& *old(value) == default
            &&& final(table)@.entries == old(table)@.entries.push((key, *final(value)))
        },
{
    old(table).lemma_wf();
    law_setting_a_value(old(table)@, key, *final(value), i);
    law_a_key_is_found_with_its_value(old(table)@, i, key);
}

} // verus!
