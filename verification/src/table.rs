//! Tables that keep their entries in the order of insertion.
use indexmap::IndexMap;
use vstd::prelude::*;

use crate::addr::SocketAddr;
use crate::ordered_map::OrderedMap;

verus! {

/// An endpoint as a tuple of integers: the address family, the address bits,
/// the port, the flow information and the scope id.
pub type EndpointKey = (u8, u128, u16, u32, u32);

/// The key of a table entry: a local and a remote endpoint.
pub type Key = (EndpointKey, EndpointKey);

/// The endpoint in a key of a table that does not tell entries apart by it.
pub const NO_ENDPOINT: EndpointKey = (0, 0, 0, 0, 0);

/// The hash map `indexmap::IndexMap`, which keeps its entries in the order in
/// which their keys were inserted.
#[verifier::external_type_specification]
#[verifier::external_body]
#[verifier::reject_recursive_types(K)]
#[verifier::reject_recursive_types(V)]
#[verifier::reject_recursive_types(S)]
pub struct ExIndexMap<K, V, S>(IndexMap<K, V, S>);

/// The entries of an index in the order in which their keys were inserted.
pub uninterp spec fn index_entries(index: IndexMap<Key, usize>) -> Seq<(Key, usize)>;

/// The entries of `index` as a map.
spec fn index_map(index: IndexMap<Key, usize>) -> OrderedMap<Key, usize> {
    OrderedMap { entries: index_entries(index) }
}

/// Calls `IndexMap::new`: a new map has no entries.
#[verifier::external_body]
fn index_new() -> (index: IndexMap<Key, usize>)
    ensures
        index_entries(index) == Seq::<(Key, usize)>::empty(),
{
    IndexMap::new()
}

/// Calls `IndexMap::get`: it finds the value of a key that is in the map, and
/// nothing for a key that is not.
#[verifier::external_body]
fn index_get(index: &IndexMap<Key, usize>, key: &Key) -> (slot: Option<usize>)
    ensures
        slot == (if index_map(*index).has(*key) {
            Some(index_map(*index)[*key])
        } else {
            None
        }),
{
    index.get(key).copied()
}

/// Calls `IndexMap::get_index`: it finds the entry at a place in the order of
/// insertion, and nothing behind the last.
#[verifier::external_body]
fn index_get_index(index: &IndexMap<Key, usize>, place: usize) -> (entry: Option<(Key, usize)>)
    ensures
        entry == (if place < index_entries(*index).len() {
            Some(index_entries(*index)[place as int])
        } else {
            None
        }),
{
    index.get_index(place).map(|entry| (*entry.0, *entry.1))
}

/// Calls `IndexMap::insert`: a key that is in the map keeps its place and gets
/// the new value, and the old value is handed back; any other key goes behind
/// all that are there.
#[verifier::external_body]
fn index_insert(index: &mut IndexMap<Key, usize>, key: Key, slot: usize) -> (previous: Option<
    usize,
>)
    ensures
        index_map(*final(index)) == index_map(*old(index)).put(key, slot),
        previous == (if index_map(*old(index)).has(key) {
            Some(index_map(*old(index))[key])
        } else {
            None
        }),
{
    index.insert(key, slot)
}

/// What a table can be keyed by: values that are told apart by a tuple of
/// integers.
pub trait TableKey: Copy {
    /// The tuple that stands for a value.
    spec fn spec_key(self) -> Key;

    /// The value that a tuple stands for.
    spec fn spec_from_key(key: Key) -> Self;

    /// A value is told from its tuple.
    proof fn lemma_key(self)
        ensures
            Self::spec_from_key(self.spec_key()) == self,
    ;

    /// Returns the tuple that stands for the value.
    fn key(&self) -> (key: Key)
        ensures
            key == self.spec_key(),
    ;

    /// Returns the value that `key` stands for.
    fn from_key(key: Key) -> (value: Self)
        ensures
            value == Self::spec_from_key(key),
    ;
}

/// A map from `K` to `V` that keeps its entries in the order of insertion. The
/// values stand in slots, and an index maps each key to its slot.
pub struct Table<K, V> {
    index: IndexMap<Key, usize>,
    slots: Vec<V>,
    keys: Ghost<Seq<K>>,
}

impl<K, V> View for Table<K, V> {
    type V = OrderedMap<K, V>;

    closed spec fn view(&self) -> OrderedMap<K, V> {
        OrderedMap {
            entries: Seq::new(self.slots@.len(), |i: int| (self.keys@[i], self.slots@[i])),
        }
    }
}

impl<K: TableKey, V> Table<K, V> {
    /// The index lists the keys in the order of the slots, each with its slot,
    /// and no key twice.
    pub closed spec fn wf(self) -> bool {
        &&& self.keys@.len() == self.slots@.len()
        &&& index_entries(self.index).len() == self.slots@.len()
        &&& forall|i: int|
            0 <= i < self.slots@.len() ==> {
                &&& (#[trigger] index_entries(self.index)[i]).0 == self.keys@[i].spec_key()
                &&& index_entries(self.index)[i].1 == i
            }
        &&& index_map(self.index).distinct()
    }

    /// The keys of a table are distinct.
    pub proof fn lemma_wf(self)
        requires
            self.wf(),
        ensures
            self@.distinct(),
    {
        assert forall|i: int, j: int| 0 <= i < j < self@.entries.len() implies (
        #[trigger] self@.entries[i]).0 != (#[trigger] self@.entries[j]).0 by {
            assert(index_map(self.index).entries[i].0 != index_map(self.index).entries[j].0);
        }
    }

    /// The index finds a key exactly if the table has it, and then its slot.
    proof fn lemma_index(self, k: K)
        requires
            self.wf(),
        ensures
            self@.distinct(),
            index_map(self.index).has(k.spec_key()) == self@.has(k),
            self@.has(k) ==> index_map(self.index)[k.spec_key()] == self@.position(k),
            self@.has(k) ==> self.slots@[self@.position(k)] == self@[k],
    {
        self.lemma_wf();
        let m = index_map(self.index);
        if self@.has(k) {
            let p = self@.position(k);
            assert(self@.entries[p].0 == k);
            assert(m.entries[p].0 == k.spec_key());
            m.lemma_position(p);
        }
        if m.has(k.spec_key()) {
            let p = m.position(k.spec_key());
            assert(m.entries[p].0 == k.spec_key());
            self.keys@[p].lemma_key();
            k.lemma_key();
            assert(self@.entries[p].0 == k);
        }
    }

    /// Creates a table without entries.
    pub fn new() -> (table: Self)
        ensures
            table.wf(),
            table@ == OrderedMap::<K, V>::empty(),
    {
        let table = Table { index: index_new(), slots: Vec::new(), keys: Ghost(Seq::empty()) };
        assert(table@.entries =~= Seq::empty());
        table
    }

    /// Returns the number of entries.
    pub fn len(&self) -> (len: usize)
        requires
            self.wf(),
        ensures
            len == self@.len(),
    {
        self.slots.len()
    }

    /// Tells whether `key` has an entry.
    pub fn contains_key(&self, key: &K) -> (found: bool)
        requires
            self.wf(),
        ensures
            found == self@.has(*key),
    {
        proof {
            self.lemma_index(*key);
        }
        index_get(&self.index, &key.key()).is_some()
    }

    /// Returns the value of `key`.
    pub fn get(&self, key: &K) -> (value: Option<&V>)
        requires
            self.wf(),
        ensures
            value == (if self@.has(*key) {
                Some(&self@[*key])
            } else {
                None
            }),
    {
        proof {
            self.lemma_index(*key);
        }
        match index_get(&self.index, &key.key()) {
            Some(slot) => Some(&self.slots[slot]),
            None => None,
        }
    }

    /// Returns the value of `key` for writing.
    pub fn get_mut(&mut self, key: &K) -> (value: Option<&mut V>)
        requires
            old(self).wf(),
        ensures
            final(self).wf(),
            match value {
                Some(v) => {
                    &&& old(self)@.has(*key)
                    &&& *v == old(self)@[*key]
                    &&& final(self)@ == old(self)@.put(*key, *final(v))
                },
                None => !old(self)@.has(*key) && final(self)@ == old(self)@,
            },
    {
        proof {
            self.lemma_index(*key);
        }
        match index_get(&self.index, &key.key()) {
            Some(slot) => Some(&mut self.slots[slot]),
            None => None,
        }
    }

    /// Returns the value of a key that has an entry.
    pub fn index(&self, key: &K) -> (value: &V)
        requires
            self.wf(),
            self@.has(*key),
        ensures
            *value == self@[*key],
    {
        proof {
            self.lemma_index(*key);
        }
        let slot: usize = index_get(&self.index, &key.key()).unwrap();
        &self.slots[slot]
    }

    /// Returns the value of a key that has an entry for writing.
    pub fn index_mut(&mut self, key: &K) -> (value: &mut V)
        requires
            old(self).wf(),
            old(self)@.has(*key),
        ensures
            final(self).wf(),
            *value == old(self)@[*key],
            final(self)@ == old(self)@.put(*key, *final(value)),
    {
        proof {
            self.lemma_index(*key);
        }
        let slot: usize = index_get(&self.index, &key.key()).unwrap();
        &mut self.slots[slot]
    }

    /// Sets the value of `key` and returns the value that it replaces, if any.
    /// A new key goes behind all others.
    pub fn insert(&mut self, key: K, value: V) -> (previous: Option<V>)
        requires
            old(self).wf(),
        ensures
            final(self).wf(),
            final(self)@ == old(self)@.put(key, value),
            previous == (if old(self)@.has(key) {
                Some(old(self)@[key])
            } else {
                None
            }),
    {
        proof {
            self.lemma_index(key);
        }
        match index_get(&self.index, &key.key()) {
            Some(slot) => {
                let mut value = value;
                std::mem::swap(&mut self.slots[slot], &mut value);
                assert(self@.entries =~= old(self)@.put(key, self.slots@[slot as int]).entries);
                Some(value)
            },
            None => {
                self.append(key, value);
                None
            },
        }
    }

    /// Adds an entry for a key that has none.
    fn append(&mut self, key: K, value: V)
        requires
            old(self).wf(),
            !old(self)@.has(key),
        ensures
            final(self).wf(),
            final(self)@ == old(self)@.put(key, value),
            final(self)@.has(key),
            final(self)@.position(key) == old(self)@.len(),
            final(self).slots@.len() == old(self)@.len() + 1,
    {
        proof {
            self.lemma_index(key);
            index_map(self.index).lemma_put(key.spec_key(), self.slots@.len() as usize);
        }
        let slot: usize = self.slots.len();
        let _ = index_insert(&mut self.index, key.key(), slot);
        self.slots.push(value);
        self.keys = Ghost(self.keys@.push(key));
        proof {
            assert(self@.entries =~= old(self)@.put(key, value).entries);
            assert(self@.entries[slot as int].0 == key);
            self.lemma_wf();
            self@.lemma_position(slot as int);
        }
    }

    /// Returns the value of `key` for writing; a key without an entry first
    /// gets one with the value `default`.
    pub fn get_or_insert(&mut self, key: K, default: V) -> (value: &mut V)
        requires
            old(self).wf(),
        ensures
            final(self).wf(),
            *value == (if old(self)@.has(key) {
                old(self)@[key]
            } else {
                default
            }),
            final(self)@ == old(self)@.put(key, *final(value)),
    {
        proof {
            self.lemma_index(key);
        }
        let slot: usize = match index_get(&self.index, &key.key()) {
            Some(slot) => slot,
            None => {
                let slot: usize = self.slots.len();
                self.append(key, default);
                assert forall|v: V|
                    self@.entries.update(slot as int, (key, v)) == (
                    #[trigger] old(self)@.put(key, v)).entries by {}
                slot
            },
        };
        &mut self.slots[slot]
    }

    /// Returns the key at a place in the order of insertion.
    pub fn key_at(&self, place: usize) -> (key: K)
        requires
            self.wf(),
            place < self@.len(),
        ensures
            key == self@.key_at(place as int),
    {
        let (key, _): (Key, usize) = index_get_index(&self.index, place).unwrap();
        proof {
            let i = place as int;
            assert(index_entries(self.index)[i].0 == self.keys@[i].spec_key());
            self.keys@[i].lemma_key();
        }
        K::from_key(key)
    }

    /// Returns the value at a place in the order of insertion.
    pub fn value_at(&self, place: usize) -> (value: &V)
        requires
            self.wf(),
            place < self@.len(),
        ensures
            *value == self@.value_at(place as int),
    {
        let (_, slot): (Key, usize) = index_get_index(&self.index, place).unwrap();
        &self.slots[slot]
    }

    /// Returns the value at a place in the order of insertion for writing.
    pub fn value_at_mut(&mut self, place: usize) -> (value: &mut V)
        requires
            old(self).wf(),
            place < old(self)@.len(),
        ensures
            final(self).wf(),
            *value == old(self)@.value_at(place as int),
            final(self)@ == old(self)@.put_at(place as int, *final(value)),
    {
        let (_, slot): (Key, usize) = index_get_index(&self.index, place).unwrap();
        &mut self.slots[slot]
    }
}

impl TableKey for u16 {
    /// A port stands as the local endpoint of that port, whatever the address.
    open spec fn spec_key(self) -> Key {
        ((0u8, 0u128, self, 0u32, 0u32), NO_ENDPOINT)
    }

    open spec fn spec_from_key(key: Key) -> Self {
        key.0.2
    }

    proof fn lemma_key(self) {
    }

    fn key(&self) -> (key: Key) {
        ((0, 0, *self, 0, 0), NO_ENDPOINT)
    }

    fn from_key(key: Key) -> (value: Self) {
        key.0.2
    }
}

impl SocketAddr {
    /// The address as an endpoint.
    pub open spec fn spec_endpoint(self) -> EndpointKey {
        match self {
            SocketAddr::V4 { ip, port } => (4u8, ip as u128, port, 0u32, 0u32),
            SocketAddr::V6 { ip, port, flowinfo, scope_id } => (6u8, ip, port, flowinfo, scope_id),
        }
    }

    /// The address that an endpoint stands for.
    pub open spec fn spec_from_endpoint(endpoint: EndpointKey) -> SocketAddr {
        if endpoint.0 == 4 {
            SocketAddr::V4 { ip: endpoint.1 as u32, port: endpoint.2 }
        } else {
            SocketAddr::V6 {
                ip: endpoint.1,
                port: endpoint.2,
                flowinfo: endpoint.3,
                scope_id: endpoint.4,
            }
        }
    }

    /// Returns the address as an endpoint.
    pub fn endpoint(&self) -> (endpoint: EndpointKey)
        ensures
            endpoint == self.spec_endpoint(),
    {
        match *self {
            SocketAddr::V4 { ip, port } => (4, ip as u128, port, 0, 0),
            SocketAddr::V6 { ip, port, flowinfo, scope_id } => (6, ip, port, flowinfo, scope_id),
        }
    }

    /// Returns the address that `endpoint` stands for.
    pub fn from_endpoint(endpoint: EndpointKey) -> (addr: SocketAddr)
        ensures
            addr == SocketAddr::spec_from_endpoint(endpoint),
    {
        if endpoint.0 == 4 {
            SocketAddr::V4 { ip: endpoint.1 as u32, port: endpoint.2 }
        } else {
            SocketAddr::V6 {
                ip: endpoint.1,
                port: endpoint.2,
                flowinfo: endpoint.3,
                scope_id: endpoint.4,
            }
        }
    }
}

impl TableKey for SocketAddr {
    open spec fn spec_key(self) -> Key {
        (self.spec_endpoint(), NO_ENDPOINT)
    }

    open spec fn spec_from_key(key: Key) -> Self {
        SocketAddr::spec_from_endpoint(key.0)
    }

    proof fn lemma_key(self) {
    }

    fn key(&self) -> (key: Key) {
        (self.endpoint(), NO_ENDPOINT)
    }

    fn from_key(key: Key) -> (value: Self) {
        SocketAddr::from_endpoint(key.0)
    }
}

} // verus!
