//! The map itself: a hash table from each key to its value and position,
//! beside the sequence of keys in order.

use std::collections::HashMap;
use std::fmt::Debug;
use std::hash::Hash;
use vstd::prelude::*;
use vstd::pervasive::strictly_cloned;
use vstd::std_specs::hash::obeys_key_model;
use crate::model;
use crate::model::{distinct_keys, has_key, position_of};
use crate::render::{debug_of, is_debug_text, render, rendered, texts_of};
use crate::traits::{in_range, Keys};

verus! {

/// What the table stores under a key: the slot of the key in the sequence of
/// keys, and the value.
#[derive(PartialEq)]
pub struct IndexedLinkedHashMapValue<V> {
    pub index: Option<usize>,
    pub value: V,
}

impl<V: Clone> Clone for IndexedLinkedHashMapValue<V> {
    /// The same position, with a clone of the value.
    fn clone(&self) -> (c: Self)
        ensures
            c.index == self.index,
            cloned(self.value, c.value),
    {
        IndexedLinkedHashMapValue { index: self.index, value: self.value.clone() }
    }
}

impl<V: Copy> Copy for IndexedLinkedHashMapValue<V> {}

/// What the map asks of its key type: that the hash table can tell keys
/// apart, which is `obeys_key_model`, and that the clone of a key is that
/// key. The map keeps every key twice, once in the table and once in the
/// sequence of keys, and the second is a clone of the first.
pub open spec fn key_model<K: Clone>() -> bool {
    &&& obeys_key_model::<K>()
    &&& forall|a: K, b: K| #[trigger] strictly_cloned(a, b) ==> a == b
}

/// A map that remembers the order in which its keys came.
#[verifier::reject_recursive_types(K)]
pub struct IndexedLinkedHashMap<I, K, V> {
    _keys: I,
    _values: HashMap<K, IndexedLinkedHashMapValue<V>>,
}

impl<I, K, V> View for IndexedLinkedHashMap<I, K, V> where I: Keys<K> {
    type V = Seq<(K, V)>;

    /// The pairs of the map, in the order of their keys.
    closed spec fn view(&self) -> Seq<(K, V)> {
        Seq::new(self._keys@.len(), |i: int| (self._keys@[i], self._values@[self._keys@[i]].value))
    }
}

impl<I, K, V> IndexedLinkedHashMap<I, K, V> where
    I: Keys<K> + Default,
    K: Eq + Hash + Clone,
    V: Clone,
 {
    /// The table and the sequence of keys agree: every key of the table is in
    /// the slot that the table records for it, and every slot holds a key of
    /// the table that records this slot.
    pub closed spec fn consistent(&self) -> bool {
        &&& forall|k: K| #[trigger]
            self._values@.contains_key(k) ==> in_range(self._keys@, self._values@[k].index)
                && self._keys@[self._values@[k].index.unwrap() as int] == k
        &&& forall|i: int|
            0 <= i < self._keys@.len() ==> self._values@.contains_key(#[trigger] self._keys@[i])
                && self._values@[self._keys@[i]].index == Some(i as usize)
    }

    /// The map is well formed: its key type can be hashed and cloned
    /// faithfully, its two halves agree, and so no key has two slots.
    pub open spec fn wf(&self) -> bool {
        &&& key_model::<K>()
        &&& self.consistent()
        &&& distinct_keys(self@)
        &&& self@.len() <= usize::MAX
    }

    /// An empty map.
    pub fn new() -> (m: Self)
        ensures
            key_model::<K>() ==> m.wf(),
            m@ == Seq::<(K, V)>::empty(),
    {
        let mut keys = I::default();
        keys.clear();
        IndexedLinkedHashMap { _keys: keys, _values: HashMap::new() }
    }

    /// How a key is found in the view: it has a slot there exactly if the
    /// table holds it, and then the table records that slot and its value.
    proof fn lemma_lookup(&self, k: K)
        requires
            self.consistent(),
        ensures
            has_key(self@, k) == self._values@.contains_key(k),
            self._values@.contains_key(k) ==> {
                &&& self._values@[k].index == Some(position_of(self@, k) as usize)
                &&& 0 <= position_of(self@, k) < self@.len()
                &&& self@[position_of(self@, k)] == (k, self._values@[k].value)
            },
    {
        if self._values@.contains_key(k) {
            assert(self@[self._values@[k].index.unwrap() as int].0 == k);
        }
    }

    /// Sets the value of `k`: a key that is present keeps its position, a new
    /// key becomes the last.
    pub fn set(&mut self, k: K, v: V)
        requires
            old(self).wf(),
        ensures
            final(self).wf(),
            final(self)@ == model::put(old(self)@, k, v),
    {
        proof {
            self.lemma_lookup(k);
        }
        if self._values.contains_key(&k) {
            let index = self._values.get(&k).unwrap().index;
            self._values.insert(k, IndexedLinkedHashMapValue { index, value: v });
        } else {
            let key = k.clone();
            assert(strictly_cloned(k, key));
            self._keys.push(key);
            let last = self._keys.len() - 1;
            self._values.insert(k, IndexedLinkedHashMapValue { index: Some(last), value: v });
        }
    }

    /// The number of pairs.
    pub fn len(&self) -> (n: usize)
        ensures
            n == self@.len(),
    {
        self._keys.len()
    }

    /// The value stored under `k`, if the map holds `k`.
    pub fn get(&self, k: K) -> (v: Option<&V>)
        requires
            self.wf(),
        ensures
            match v {
                Some(x) => model::value_of(self@, k) == Some(*x),
                None => model::value_of(self@, k) is None,
            },
    {
        proof {
            self.lemma_lookup(k);
        }
        match self._values.get(&k) {
            Some(e) => Some(&e.value),
            None => None,
        }
    }

    /// Whether the map holds `k`.
    pub fn contains_key(&self, k: K) -> (b: bool)
        requires
            self.wf(),
        ensures
            b == has_key(self@, k),
    {
        proof {
            self.lemma_lookup(k);
        }
        self._values.contains_key(&k)
    }

    /// The key at position `i`, if there is such a position.
    pub fn key_at(&self, i: Option<usize>) -> (k: Option<&K>)
        ensures
            match k {
                Some(x) => model::key_at(self@, i) == Some(*x),
                None => model::key_at(self@, i) is None,
            },
    {
        self._keys.get(i)
    }

    /// The value at position `i`, if there is such a position.
    pub fn at(&self, i: Option<usize>) -> (v: Option<&V>)
        requires
            self.wf(),
        ensures
            match v {
                Some(x) => model::value_at(self@, i) == Some(*x),
                None => model::value_at(self@, i) is None,
            },
    {
        match self._keys.get(i) {
            Some(k) => match self._values.get(k) {
                Some(e) => Some(&e.value),
                None => None,
            },
            None => None,
        }
    }

    /// The keys, in order.
    pub fn keys(&self) -> (keys: &I)
        ensures
            keys@ == model::keys_of(self@),
    {
        &self._keys
    }

    /// Writes the pair `(k, v)` into slot `i`, which holds no other key than
    /// `k` afterwards: the key that the slot held is evicted from the table.
    fn overwrite(&mut self, i: usize, k: K, v: V)
        requires
            old(self).wf(),
            i < old(self)@.len(),
            has_key(old(self)@, k) ==> position_of(old(self)@, k) == i,
        ensures
            final(self).wf(),
            final(self)@ == old(self)@.update(i as int, (k, v)),
    {
        proof {
            self.lemma_lookup(k);
        }
        match self._keys.get(Some(i)) {
            Some(evicted) => {
                self._values.remove(evicted);
            },
            None => (),
        }
        let key = k.clone();
        assert(strictly_cloned(k, key));
        self._keys.set(Some(i), key);
        self._values.insert(k, IndexedLinkedHashMapValue { index: Some(i), value: v });
    }

    /// Writes the pair `(k, v)` into position `i`; ignored if there is no
    /// such position.
    ///
    /// No key is ever stored twice, and none stays in the table without a
    /// position. So the key that position `i` held is evicted with its value,
    /// unless it is `k` itself; and if `k` lived at another position, that
    /// position is deleted, as by `remove`, and the later keys move down by
    /// one.
    pub fn set_at(&mut self, i: Option<usize>, k: K, v: V)
        requires
            old(self).wf(),
        ensures
            final(self).wf(),
            final(self)@ == model::put_at(old(self)@, i, k, v),
    {
        proof {
            self.lemma_lookup(k);
        }
        match i {
            Some(i) => {
                if i < self._keys.len() {
                    let home = match self._values.get(&k) {
                        Some(e) => e.index,
                        None => None,
                    };
                    match home {
                        Some(j) => {
                            if j == i {
                                self.overwrite(i, k, v);
                            } else {
                                let key = k.clone();
                                assert(strictly_cloned(k, key));
                                self.remove(key);
                                let slot = if j < i {
                                    i - 1
                                } else {
                                    i
                                };
                                self.overwrite(slot, k, v);
                                proof {
                                    assert(self@ =~= old(self)@.update(i as int, (k, v)).remove(
                                        j as int,
                                    ));
                                }
                            }
                        },
                        None => {
                            self.overwrite(i, k, v);
                        },
                    }
                }
            },
            None => (),
        }
    }

    /// What the table stores, in the order of the keys: for each position
    /// the value there, with the position itself.
    pub fn values(&self) -> (values: Vec<&IndexedLinkedHashMapValue<V>>)
        requires
            self.wf(),
        ensures
            values@.len() == self@.len(),
            forall|i: int|
                0 <= i < self@.len() ==> *(#[trigger] values@[i]) == (IndexedLinkedHashMapValue {
                    index: Some(i as usize),
                    value: self@[i].1,
                }),
    {
        let mut values: Vec<&IndexedLinkedHashMapValue<V>> = Vec::new();
        let n = self._keys.len();
        let mut j: usize = 0;
        while j < n
            invariant
                self.wf(),
                n == self@.len(),
                j <= n,
                values@.len() == j,
                forall|i: int|
                    0 <= i < j ==> *(#[trigger] values@[i]) == (IndexedLinkedHashMapValue {
                        index: Some(i as usize),
                        value: self@[i].1,
                    }),
            decreases n - j,
        {
            match self._keys.get(Some(j)) {
                Some(k) => match self._values.get(k) {
                    Some(e) => {
                        values.push(e);
                    },
                    None => (),
                },
                None => (),
            }
            j += 1;
        }
        values
    }

    /// Takes `k` out of the map and gives back what the table stored under
    /// it: its position and its value. The later keys move down by one, and
    /// the table is told their new positions.
    pub fn remove(&mut self, k: K) -> (removed: Option<IndexedLinkedHashMapValue<V>>)
        requires
            old(self).wf(),
        ensures
            final(self).wf(),
            final(self)@ == model::without(old(self)@, k),
            removed == model::taken(old(self)@, k),
    {
        proof {
            self.lemma_lookup(k);
        }
        if self._values.contains_key(&k) {
            let removed = self._values.remove(&k).unwrap();
            self._keys.remove(removed.index);
            let ghost p = position_of(old(self)@, k);
            let ghost keys = self._keys@;
            let ghost table = self._values@;
            let n = self._keys.len();
            let mut j = removed.index.unwrap();
            proof {
                assert forall|x: K| #[trigger] table.contains_key(x) implies keys.contains(x) by {
                    let q = old(self)._values@[x].index.unwrap() as int;
                    assert(keys[if q < p { q } else { q - 1 }] == x);
                }
            }
            while j < n
                invariant
                    key_model::<K>(),
                    0 <= p <= j <= n,
                    n == keys.len(),
                    keys.no_duplicates(),
                    self._keys@ == keys,
                    self._values@.dom() == table.dom(),
                    forall|x: K| #[trigger]
                        table.contains_key(x) ==> self._values@[x].value == table[x].value,
                    forall|x: K| #[trigger] table.contains_key(x) ==> keys.contains(x),
                    forall|i: int|
                        0 <= i < n ==> table.contains_key(#[trigger] keys[i])
                            && self._values@[keys[i]].index == Some(
                            if i < j {
                                i as usize
                            } else {
                                (i + 1) as usize
                            },
                        ),
                decreases n - j,
            {
                match self._keys.get(Some(j)) {
                    Some(key) => {
                        match self._values.remove(key) {
                            Some(e) => {
                                let owned = key.clone();
                                assert(strictly_cloned(*key, owned));
                                self._values.insert(
                                    owned,
                                    IndexedLinkedHashMapValue { index: Some(j), value: e.value },
                                );
                            },
                            None => (),
                        }
                    },
                    None => (),
                }
                j += 1;
            }
            Some(removed)
        } else {
            None
        }
    }

    /// The text of the map for diagnostics: for each pair in order the text
    /// that `Debug` writes for the key, a colon and a space, and the text that
    /// `Debug` writes for the value, with nothing between the pairs.
    pub fn fmt(&self) -> (out: String) where K: Debug, V: Debug
        requires
            self.wf(),
        ensures
            exists|texts: Seq<(String, String)>|
                {
                    &&& texts.len() == self@.len()
                    &&& forall|i: int|
                        0 <= i < texts.len() ==> is_debug_text(self@[i].0, (#[trigger] texts[i]).0)
                            && is_debug_text(self@[i].1, texts[i].1)
                    &&& out@ == #[trigger] rendered(texts_of(texts))
                },
    {
        let mut texts: Vec<(String, String)> = Vec::new();
        let n = self._keys.len();
        let mut j: usize = 0;
        while j < n
            invariant
                self.wf(),
                n == self@.len(),
                j <= n,
                texts@.len() == j,
                forall|i: int|
                    0 <= i < j ==> is_debug_text(self@[i].0, (#[trigger] texts@[i]).0)
                        && is_debug_text(self@[i].1, texts@[i].1),
            decreases n - j,
        {
            match self._keys.get(Some(j)) {
                Some(k) => match self._values.get(k) {
                    Some(e) => {
                        texts.push((debug_of(k), debug_of(&e.value)));
                    },
                    None => (),
                },
                None => (),
            }
            j += 1;
        }
        render(&texts)
    }

    /// Empties the map.
    pub fn clear(&mut self)
        ensures
            key_model::<K>() ==> final(self).wf(),
            final(self)@ == Seq::<(K, V)>::empty(),
    {
        self._keys.clear();
        self._values.clear();
    }
}

} // verus!
