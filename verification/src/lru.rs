//! The single-threaded LRU core.
//!
//! `LRUCache` keeps its entries in one vector in recency order, most
//! recently used first; eviction takes the entry at the back. The view of
//! a cache is the sequence of key/value pairs in that order, and every
//! operation is specified by the functions of `crate::model` on that
//! view.

use vstd::prelude::*;

use crate::model::{
    has_key, lemma_drop_last_props, lemma_key_index_unique, lemma_promote_props,
    lemma_push_front_props, promote, spec_after_get, spec_insert, spec_lookup, wf_model,
};

verus! {

/// One cache slot: a key and the value stored under it.
#[derive(Debug)]
struct Entry<V> {
    key: String,
    value: V,
}

/// A bounded key/value store with least-recently-used eviction.
///
/// The capacity is fixed at construction. The entries stand in recency
/// order, most recently used first, so the least recently used entry is
/// the last one.
#[derive(Debug)]
pub struct LRUCache<V> {
    capacity: usize,
    entries: Vec<Entry<V>>,
}

impl<V> View for LRUCache<V> {
    type V = Seq<(Seq<char>, V)>;

    closed spec fn view(&self) -> Seq<(Seq<char>, V)> {
        self.entries@.map_values(|e: Entry<V>| (e.key@, e.value))
    }
}

impl<V> LRUCache<V> {
    /// The capacity the cache was built with.
    pub closed spec fn capacity(&self) -> nat {
        self.capacity as nat
    }

    /// The central invariant: distinct keys, never more than `capacity`
    /// entries.
    pub open spec fn wf(&self) -> bool {
        wf_model(self@, self.capacity())
    }

    /// A fresh, empty cache of the given capacity.
    pub fn new(capacity: usize) -> (r: Self)
        ensures
            r.wf(),
            r@ == Seq::<(Seq<char>, V)>::empty(),
            r.capacity() == capacity,
    {
        let r = LRUCache { capacity, entries: Vec::new() };
        proof {
            assert(r@ =~= Seq::<(Seq<char>, V)>::empty());
        }
        r
    }

    /// How many entries the cache holds now.
    pub fn len(&self) -> (n: usize)
        ensures
            n == self@.len(),
    {
        self.entries.len()
    }

    /// The position of `key` among the entries, if it is present.
    fn find_index(&self, key: &String) -> (r: Option<usize>)
        ensures
            match r {
                Some(i) => 0 <= i < self@.len() && self@[i as int].0 == key@,
                None => !has_key(self@, key@),
            },
    {
        let mut i: usize = 0;
        while i < self.entries.len()
            invariant
                0 <= i <= self.entries.len(),
                forall|j: int| 0 <= j < i ==> self@[j].0 != key@,
            decreases self.entries.len() - i,
        {
            if self.entries[i].key == *key {
                return Some(i);
            }
            i = i + 1;
        }
        None
    }
}

impl<V: Copy> LRUCache<V> {
    /// Look `key` up. On a hit the entry becomes the most recently used
    /// and a copy of its value is returned; on a miss nothing changes.
    pub fn get(&mut self, key: &String) -> (r: Option<V>)
        requires
            old(self).wf(),
        ensures
            final(self).wf(),
            final(self).capacity() == old(self).capacity(),
            r == spec_lookup(old(self)@, key@),
            final(self)@ == spec_after_get(old(self)@, key@),
    {
        let ghost s0 = self@;
        match self.find_index(key) {
            None => None,
            Some(i) => {
                proof {
                    lemma_key_index_unique(s0, key@, i as int);
                }
                let e = self.entries.remove(i);
                let v = e.value;
                self.entries.insert(0, e);
                proof {
                    lemma_promote_props(s0, key@, v);
                    assert(self@ =~= promote(s0, key@, v));
                }
                Some(v)
            },
        }
    }

    /// Store `value` under `key`. An existing key is updated in place and
    /// promoted; a new key goes to the front, and when the cache is full
    /// the least recently used entry is evicted first. A zero-capacity
    /// cache retains nothing.
    pub fn insert(&mut self, key: String, value: V)
        requires
            old(self).wf(),
        ensures
            final(self).wf(),
            final(self).capacity() == old(self).capacity(),
            final(self)@ == spec_insert(old(self)@, old(self).capacity(), key@, value),
    {
        let ghost s0 = self@;
        if self.capacity == 0 {
            proof {
                assert(self@ =~= Seq::<(Seq<char>, V)>::empty());
            }
            return;
        }
        match self.find_index(&key) {
            Some(i) => {
                proof {
                    lemma_key_index_unique(s0, key@, i as int);
                    lemma_promote_props(s0, key@, value);
                }
                self.entries.remove(i);
                self.entries.insert(0, Entry { key, value });
                proof {
                    assert(self@ =~= promote(s0, key@, value));
                }
            },
            None => {
                if self.entries.len() >= self.capacity {
                    proof {
                        lemma_drop_last_props(s0);
                        assert(!has_key(s0.drop_last(), key@));
                        lemma_push_front_props(s0.drop_last(), key@, value);
                    }
                    self.entries.pop();
                    self.entries.insert(0, Entry { key, value });
                    proof {
                        assert(self@ =~= seq![(key@, value)] + s0.drop_last());
                    }
                } else {
                    proof {
                        lemma_push_front_props(s0, key@, value);
                    }
                    self.entries.insert(0, Entry { key, value });
                    proof {
                        assert(self@ =~= seq![(key@, value)] + s0);
                    }
                }
            },
        }
    }
}

} // verus!
