//! The mathematical model of a map that remembers the order in which its keys
//! were first inserted.
use vstd::prelude::*;

verus! {

/// A sequence of key and value pairs. In a map that is `distinct` no key
/// occurs twice.
#[verifier::ext_equal]
pub struct OrderedMap<K, V> {
    pub entries: Seq<(K, V)>,
}

impl<K, V> OrderedMap<K, V> {
    /// The map without entries.
    pub open spec fn empty() -> Self {
        OrderedMap { entries: Seq::empty() }
    }

    /// The number of entries.
    pub open spec fn len(self) -> nat {
        self.entries.len()
    }

    /// The key that was inserted when `i` others were there.
    pub open spec fn key_at(self, i: int) -> K {
        self.entries[i].0
    }

    /// The value of the key that was inserted when `i` others were there.
    pub open spec fn value_at(self, i: int) -> V {
        self.entries[i].1
    }

    /// The keys in the order of their insertion.
    pub open spec fn keys(self) -> Seq<K> {
        Seq::new(self.entries.len(), |i: int| self.entries[i].0)
    }

    /// `k` is one of the keys.
    pub open spec fn has(self, k: K) -> bool {
        exists|i: int| 0 <= i < self.entries.len() && (#[trigger] self.entries[i]).0 == k
    }

    /// The place of the key `k`.
    pub open spec fn position(self, k: K) -> int
        recommends
            self.has(k),
    {
        choose|i: int| 0 <= i < self.entries.len() && (#[trigger] self.entries[i]).0 == k
    }

    /// The value of the key `k`; `m[k]` is short for it.
    pub open spec fn spec_index(self, k: K) -> V
        recommends
            self.has(k),
    {
        self.entries[self.position(k)].1
    }

    /// The map in which `k` has the value `v`: in its old place where `k` was
    /// there already, behind all others where it was not.
    pub open spec fn put(self, k: K, v: V) -> Self {
        if self.has(k) {
            OrderedMap { entries: self.entries.update(self.position(k), (k, v)) }
        } else {
            OrderedMap { entries: self.entries.push((k, v)) }
        }
    }

    /// The map in which the value at place `i` is `v`.
    pub open spec fn put_at(self, i: int, v: V) -> Self {
        OrderedMap { entries: self.entries.update(i, (self.entries[i].0, v)) }
    }

    /// No key occurs twice.
    pub open spec fn distinct(self) -> bool {
        forall|i: int, j: int|
            0 <= i < j < self.entries.len() ==> (#[trigger] self.entries[i]).0 != (
            #[trigger] self.entries[j]).0
    }

    /// A key is found where it stands.
    pub proof fn lemma_position(self, i: int)
        requires
            self.distinct(),
            0 <= i < self.len(),
        ensures
            self.has(self.key_at(i)),
            self.position(self.key_at(i)) == i,
            self[self.key_at(i)] == self.value_at(i),
    {
        let p = self.position(self.key_at(i));
        assert(self.entries[i].0 == self.key_at(i));
        assert(self.entries[p].0 == self.entries[i].0);
    }

    /// The place of a key that is there holds that key.
    pub proof fn lemma_at_position(self, k: K)
        requires
            self.has(k),
        ensures
            0 <= self.position(k) < self.len(),
            self.key_at(self.position(k)) == k,
            self.value_at(self.position(k)) == self[k],
    {
    }

    /// Setting the value of one key sets that value and no other, and keeps
    /// the keys that were there in their order.
    pub proof fn lemma_put(self, k: K, v: V)
        requires
            self.distinct(),
        ensures
            self.put(k, v).distinct(),
            self.put(k, v).has(k),
            self.put(k, v)[k] == v,
            forall|k2: K| #[trigger] self.put(k, v).has(k2) <==> k2 == k || self.has(k2),
            forall|k2: K|
                k2 != k && self.has(k2) ==> #[trigger] self.put(k, v)[k2] == self[k2],
            forall|i: int|
                0 <= i < self.len() ==> #[trigger] self.put(k, v).key_at(i) == self.key_at(i),
    {
        let t = self.put(k, v);
        let n = if self.has(k) {
            self.position(k)
        } else {
            self.len() as int
        };
        assert(t.entries[n] == (k, v));
        t.lemma_position(n);
        assert forall|k2: K| #[trigger] t.has(k2) <==> k2 == k || self.has(k2) by {
            if self.has(k2) {
                let p = self.position(k2);
                assert(self.entries[p].0 == k2);
                assert(t.entries[p].0 == k2);
            }
            if t.has(k2) {
                let p = t.position(k2);
                assert(t.entries[p].0 == k2);
                if p < self.len() {
                    assert(self.entries[p].0 == k2);
                }
            }
        }
        assert forall|k2: K| k2 != k && self.has(k2) implies #[trigger] t[k2] == self[k2] by {
            let p = self.position(k2);
            assert(self.entries[p].0 == k2);
            assert(t.entries[p] == self.entries[p]);
            t.lemma_position(p);
        }
    }

    /// Setting a value by its place is setting it by its key.
    pub proof fn lemma_put_at(self, i: int, v: V)
        requires
            self.distinct(),
            0 <= i < self.len(),
        ensures
            self.put_at(i, v) == self.put(self.key_at(i), v),
    {
        self.lemma_position(i);
    }

    /// Setting a value by its place to what it is changes nothing.
    pub proof fn lemma_put_at_same(self, i: int)
        requires
            0 <= i < self.len(),
        ensures
            self.put_at(i, self.value_at(i)) == self,
    {
        assert(self.put_at(i, self.value_at(i)).entries =~= self.entries);
    }

    /// Setting a value to what it is changes nothing.
    pub proof fn lemma_put_same(self, k: K)
        requires
            self.has(k),
        ensures
            self.put(k, self[k]) == self,
    {
        assert(self.put(k, self[k]).entries =~= self.entries);
    }
}

impl<K, T> OrderedMap<K, Seq<T>> {
    /// The number of items in all the sequences together.
    pub open spec fn total(self) -> nat
        decreases self.entries.len(),
    {
        if self.entries.len() == 0 {
            0
        } else {
            let rest = OrderedMap { entries: self.entries.drop_last() };
            rest.total() + self.entries.last().1.len()
        }
    }

    /// Setting one sequence changes the total by the difference in length.
    pub proof fn lemma_total_put_at(self, i: int, v: Seq<T>)
        requires
            0 <= i < self.len(),
        ensures
            self.put_at(i, v).total() == self.total() - self.value_at(i).len() + v.len(),
        decreases self.len(),
    {
        let rest = OrderedMap { entries: self.entries.drop_last() };
        let t = self.put_at(i, v);
        let t_rest = OrderedMap { entries: t.entries.drop_last() };
        if i == self.len() - 1 {
            assert(t_rest.entries =~= rest.entries);
        } else {
            rest.lemma_total_put_at(i, v);
            assert(t_rest.entries =~= rest.put_at(i, v).entries);
        }
    }

    /// Where every sequence is empty the total is zero.
    pub proof fn lemma_total_zero(self)
        requires
            forall|i: int| 0 <= i < self.len() ==> (#[trigger] self.value_at(i)).len() == 0,
        ensures
            self.total() == 0,
        decreases self.len(),
    {
        if self.len() > 0 {
            let rest = OrderedMap { entries: self.entries.drop_last() };
            assert forall|i: int| 0 <= i < rest.len() implies (#[trigger] rest.value_at(i)).len()
                == 0 by {
                assert(self.value_at(i).len() == 0);
            }
            rest.lemma_total_zero();
            assert(self.value_at(self.len() - 1).len() == 0);
        }
    }

    /// Setting the sequence of a key changes the total by the difference in
    /// length.
    pub proof fn lemma_total_put(self, k: K, v: Seq<T>)
        requires
            self.distinct(),
        ensures
            self.has(k) ==> self.put(k, v).total() == self.total() - self[k].len() + v.len(),
            !self.has(k) ==> self.put(k, v).total() == self.total() + v.len(),
    {
        if self.has(k) {
            self.lemma_at_position(k);
            self.lemma_total_put_at(self.position(k), v);
            self.lemma_put_at(self.position(k), v);
        } else {
            assert(self.put(k, v).entries.drop_last() =~= self.entries);
        }
    }
}

impl<K, V: View> OrderedMap<K, V> {
    /// The map with every value replaced by its view.
    pub open spec fn views(self) -> OrderedMap<K, V::V> {
        OrderedMap {
            entries: Seq::new(
                self.entries.len(),
                |i: int| (self.entries[i].0, self.entries[i].1@),
            ),
        }
    }

    /// Taking views keeps the keys and their places.
    pub proof fn lemma_views(self, k: K)
        requires
            self.distinct(),
        ensures
            self.views().distinct(),
            self.views().has(k) == self.has(k),
            self.has(k) ==> self.views().position(k) == self.position(k),
            self.has(k) ==> self.views()[k] == self[k]@,
    {
        let d = self.views();
        assert(d.distinct());
        if self.has(k) {
            let p = self.position(k);
            assert(d.entries[p].0 == k);
            d.lemma_position(p);
        }
        if d.has(k) {
            let p = d.position(k);
            assert(self.entries[p].0 == k);
        }
    }

    /// Taking views commutes with setting a value.
    pub proof fn lemma_views_put(self, k: K, v: V)
        requires
            self.distinct(),
        ensures
            self.put(k, v).views() == self.views().put(k, v@),
    {
        self.lemma_views(k);
        assert(self.put(k, v).views().entries =~= self.views().put(k, v@).entries);
    }

    /// Taking views commutes with setting a value, whatever the value.
    pub proof fn lemma_views_put_any(self, k: K)
        requires
            self.distinct(),
        ensures
            forall|v: V| (#[trigger] self.put(k, v)).views() == self.views().put(k, v@),
    {
        assert forall|v: V| (#[trigger] self.put(k, v)).views() == self.views().put(k, v@) by {
            self.lemma_views_put(k, v);
        }
    }

    /// Taking views commutes with setting a value by its place.
    pub proof fn lemma_views_put_at(self, i: int, v: V)
        requires
            0 <= i < self.len(),
        ensures
            self.put_at(i, v).views() == self.views().put_at(i, v@),
    {
        assert(self.put_at(i, v).views().entries =~= self.views().put_at(i, v@).entries);
    }
}

} // verus!
