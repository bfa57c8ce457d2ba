//! A map keyed by chunk position, kept in insertion order.

use vstd::prelude::*;
use crate::position::ChunkPos;

verus! {

/// A finite map from chunk positions to values. No position occurs twice;
/// entries keep the order in which their keys were first inserted.
pub struct PosMap<V> {
    keys: Vec<ChunkPos>,
    values: Vec<V>,
}

impl<V> PosMap<V> {
    /// Whether the entries are consistent: one value per key, no key twice.
    pub closed spec fn wf(&self) -> bool {
        &&& self.keys@.len() == self.values@.len()
        &&& forall|i: int, j: int|
            0 <= i < j < self.keys@.len() ==> self.keys@[i] != self.keys@[j]
    }

    /// The keys in insertion order.
    pub closed spec fn spec_keys(&self) -> Seq<ChunkPos> {
        self.keys@
    }

    spec fn index_of(&self, key: ChunkPos) -> int {
        choose|i: int| 0 <= i < self.keys@.len() && self.keys@[i] == key
    }

    /// The map that this value stands for.
    pub closed spec fn view(&self) -> Map<ChunkPos, V> {
        Map::new(
            |key: ChunkPos| exists|i: int| 0 <= i < self.keys@.len() && self.keys@[i] == key,
            |key: ChunkPos| self.values@[self.index_of(key)],
        )
    }

    proof fn lemma_entry(&self, i: int)
        requires
            self.wf(),
            0 <= i < self.keys@.len(),
        ensures
            self@.contains_key(self.keys@[i]),
            self@[self.keys@[i]] == self.values@[i],
            self.index_of(self.keys@[i]) == i,
    {
        let j = self.index_of(self.keys@[i]);
        assert(0 <= j < self.keys@.len() && self.keys@[j] == self.keys@[i]);
    }

    /// An empty map.
    pub fn new() -> (m: Self)
        ensures
            m@ == Map::<ChunkPos, V>::empty(),
            m.spec_keys() == Seq::<ChunkPos>::empty(),
            m.wf(),
    {
        let m = PosMap { keys: Vec::new(), values: Vec::new() };
        assert(m@ =~= Map::<ChunkPos, V>::empty());
        m
    }

    fn find(&self, key: ChunkPos) -> (r: Option<usize>)
        requires
            self.wf(),
        ensures
            match r {
                Some(i) => i < self.keys@.len() && self.keys@[i as int] == key
                    && self@.contains_key(key) && self@[key] == self.values@[i as int],
                None => !self@.contains_key(key) && !self.keys@.contains(key),
            },
    {
        let mut i: usize = 0;
        while i < self.keys.len()
            invariant
                self.wf(),
                i <= self.keys@.len(),
                forall|j: int| 0 <= j < i ==> self.keys@[j] != key,
            decreases self.keys@.len() - i,
        {
            if self.keys[i] == key {
                proof {
                    self.lemma_entry(i as int);
                }
                return Some(i);
            }
            i += 1;
        }
        None
    }

    /// The number of entries.
    pub fn len(&self) -> (n: usize)
        requires
            self.wf(),
        ensures
            n == self.spec_keys().len(),
            n == self@.dom().len(),
            self@.dom().finite(),
    {
        proof {
            self.lemma_dom();
        }
        self.keys.len()
    }

    proof fn lemma_dom(&self)
        requires
            self.wf(),
        ensures
            self@.dom() == self.keys@.to_set(),
            self@.dom().finite(),
            self@.dom().len() == self.keys@.len(),
    {
        assert(self@.dom() =~= self.keys@.to_set());
        self.keys@.unique_seq_to_set();
    }

    /// Whether `key` has an entry.
    pub fn contains_key(&self, key: ChunkPos) -> (b: bool)
        requires
            self.wf(),
        ensures
            b == self@.contains_key(key),
    {
        self.find(key).is_some()
    }

    /// The value under `key`.
    pub fn get(&self, key: ChunkPos) -> (r: Option<&V>)
        requires
            self.wf(),
        ensures
            match r {
                Some(v) => self@.contains_key(key) && *v == self@[key],
                None => !self@.contains_key(key),
            },
    {
        match self.find(key) {
            Some(i) => Some(&self.values[i]),
            None => None,
        }
    }

    /// The value under `key`, for writing.
    pub fn get_mut(&mut self, key: ChunkPos) -> (r: Option<&mut V>)
        requires
            old(self).wf(),
        ensures
            final(self).wf(),
            final(self).spec_keys() == old(self).spec_keys(),
            match r {
                Some(v) => old(self)@.contains_key(key) && *v == old(self)@[key] && final(self)@
                    == old(self)@.insert(key, *final(v)),
                None => !old(self)@.contains_key(key) && final(self)@ == old(self)@,
            },
    {
        let ghost before = *self;
        match self.find(key) {
            Some(i) => {
                proof {
                    assert forall|after: Self|
                        after.keys@ == before.keys@ && after.values@.len() == before.values@.len()
                            && (forall|j: int|
                            0 <= j < before.values@.len() && j != i ==> after.values@[j]
                                == before.values@[j]) implies #[trigger] after.wf() && after@
                        == before@.insert(key, after.values@[i as int]) by {
                        assert(after.wf());
                        after.lemma_into_view(before, i as int, key, after.values@[i as int]);
                    }
                }
                Some(&mut self.values[i])
            },
            None => None,
        }
    }

    /// The keys are exactly the keys of the map, each once.
    pub proof fn lemma_keys(&self)
        requires
            self.wf(),
        ensures
            self.spec_keys().no_duplicates(),
            self@.dom().finite(),
            self@.dom().len() == self.spec_keys().len(),
            forall|key: ChunkPos| self.spec_keys().contains(key) <==> self@.contains_key(key),
    {
        self.lemma_dom();
        assert forall|key: ChunkPos| self.keys@.contains(key) implies self@.contains_key(key) by {
            let i = choose|i: int| 0 <= i < self.keys@.len() && self.keys@[i] == key;
            self.lemma_entry(i);
        }
    }

    /// The key at position `i` of the insertion order.
    pub fn key_at(&self, i: usize) -> (key: ChunkPos)
        requires
            self.wf(),
            i < self.spec_keys().len(),
        ensures
            key == self.spec_keys()[i as int],
            self@.contains_key(key),
    {
        proof {
            self.lemma_entry(i as int);
        }
        self.keys[i]
    }

    /// Puts `value` under `key`, replacing what was there. A new key goes to
    /// the end of the insertion order.
    pub fn insert(&mut self, key: ChunkPos, value: V)
        requires
            old(self).wf(),
        ensures
            final(self).wf(),
            final(self)@ == old(self)@.insert(key, value),
            final(self).spec_keys() == (if old(self)@.contains_key(key) {
                old(self).spec_keys()
            } else {
                old(self).spec_keys().push(key)
            }),
    {
        let ghost before = *self;
        match self.find(key) {
            Some(i) => {
                self.values[i] = value;
                proof {
                    self.lemma_into_view(before, i as int, key, value);
                }
            },
            None => {
                self.keys.push(key);
                self.values.push(value);
                proof {
                    self.lemma_into_view(before, before.keys@.len() as int, key, value);
                }
            },
        }
    }

    proof fn lemma_into_view(&self, before: Self, i: int, key: ChunkPos, value: V)
        requires
            self.wf(),
            before.wf(),
            0 <= i < self.keys@.len(),
            self.keys@[i] == key,
            self.values@[i] == value,
            forall|j: int| 0 <= j < before.keys@.len() ==> before.keys@[j] == self.keys@[j],
            forall|j: int|
                0 <= j < before.keys@.len() && j != i ==> before.values@[j] == self.values@[j],
            self.keys@.len() == (if i < before.keys@.len() {
                before.keys@.len()
            } else {
                before.keys@.len() + 1
            }),
        ensures
            self@ == before@.insert(key, value),
    {
        assert forall|k: ChunkPos| self@.contains_key(k) <==> before@.insert(
            key,
            value,
        ).contains_key(k) by {
            if self@.contains_key(k) {
                let j = self.index_of(k);
                if j != i {
                    assert(before.keys@[j] == k);
                }
            }
            if before@.contains_key(k) {
                let j = before.index_of(k);
                assert(self.keys@[j] == k);
            }
        }
        assert forall|k: ChunkPos| self@.contains_key(k) implies self@[k] == before@.insert(
            key,
            value,
        )[k] by {
            let j = self.index_of(k);
            self.lemma_entry(j);
            if k != key {
                before.lemma_entry(j);
            }
        }
        assert(self@ =~= before@.insert(key, value));
    }

    /// Takes the entry under `key` out of the map and returns its value.
    pub fn remove(&mut self, key: ChunkPos) -> (r: Option<V>)
        requires
            old(self).wf(),
        ensures
            final(self).wf(),
            final(self)@ == old(self)@.remove(key),
            r == (if old(self)@.contains_key(key) { Some(old(self)@[key]) } else { None }),
            final(self).spec_keys() == (if old(self)@.contains_key(key) {
                old(self).spec_keys().remove(old(self).spec_keys().index_of(key))
            } else {
                old(self).spec_keys()
            }),
    {
        let ghost before = *self;
        match self.find(key) {
            Some(i) => {
                self.keys.remove(i);
                let value = self.values.remove(i);
                proof {
                    assert forall|k: ChunkPos| self@.contains_key(k) <==> before@.remove(
                        key,
                    ).contains_key(k) by {
                        if self@.contains_key(k) {
                            let j = self.index_of(k);
                            if j < i {
                                before.lemma_entry(j);
                            } else {
                                before.lemma_entry(j + 1);
                            }
                        }
                        if before@.contains_key(k) && k != key {
                            let j = before.index_of(k);
                            if j < i {
                                assert(self.keys@[j] == k);
                            } else {
                                assert(self.keys@[j - 1] == k);
                            }
                        }
                    }
                    assert forall|k: ChunkPos| self@.contains_key(k) implies self@[k]
                        == before@.remove(key)[k] by {
                        let j = self.index_of(k);
                        self.lemma_entry(j);
                        if j < i {
                            before.lemma_entry(j);
                        } else {
                            before.lemma_entry(j + 1);
                        }
                    }
                    assert(self@ =~= before@.remove(key));
                    assert(before.keys@.index_of(key) == i);
                }
                Some(value)
            },
            None => {
                proof {
                    assert(self@ =~= before@.remove(key));
                }
                None
            },
        }
    }

    /// The keys, in insertion order: the domain of the map, each key once.
    pub fn keys(&self) -> (keys: Vec<ChunkPos>)
        requires
            self.wf(),
        ensures
            keys@ == self.spec_keys(),
            keys@.no_duplicates(),
            forall|key: ChunkPos| keys@.contains(key) <==> self@.contains_key(key),
    {
        proof {
            self.lemma_keys();
        }
        self.keys.clone()
    }
}

} // verus!
