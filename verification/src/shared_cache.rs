//! The concurrent wrapper around one LRU core.
//!
//! `ThreadSafeCache` holds exactly one `LRUCache` behind a verified
//! reader-writer lock and shares it through a reference-counted handle:
//! cloning a handle never duplicates the store. Every operation acquires
//! exclusive access, runs the core operation, and releases the lock, so
//! concurrent callers observe the effects of some total order of
//! operations.
//!
//! The lock's invariant is the contract that every caller can rely on:
//! whatever state an operation finds behind the lock is a well-formed
//! cache of the capacity fixed at construction. What each operation does
//! to that state is pinned down by the contracts of `LRUCache::get` and
//! `LRUCache::insert`, which run while the lock is held. A failure while
//! the lock is held cannot occur — the critical sections are verified
//! free of panics — so there is no poisoned state to report and
//! acquisition always succeeds.

use std::sync::Arc;
use vstd::prelude::*;
use vstd::rwlock::{RwLock, RwLockPredicate};

use crate::lru::LRUCache;
use crate::model::{has_key, spec_lookup, wf_model};

verus! {

/// The invariant of the shared store: every state behind the lock is a
/// well-formed cache of the fixed capacity.
pub struct CachePred {
    pub capacity: nat,
}

impl<V> RwLockPredicate<LRUCache<V>> for CachePred {
    open spec fn inv(self, c: LRUCache<V>) -> bool {
        c.wf() && c.capacity() == self.capacity
    }
}

/// A shareable handle to one lock-protected LRU cache.
#[derive(Clone)]
pub struct ThreadSafeCache<V> {
    inner: Arc<RwLock<LRUCache<V>, CachePred>>,
}

impl<V> ThreadSafeCache<V> {
    /// The capacity of the shared store, fixed at construction.
    pub closed spec fn capacity(&self) -> nat {
        self.inner.pred().capacity
    }

    /// A fresh shared cache of the given capacity, holding no entries.
    pub fn new(capacity: usize) -> (r: Self)
        ensures
            r.capacity() == capacity,
    {
        let cache = LRUCache::<V>::new(capacity);
        let lock = RwLock::<LRUCache<V>, CachePred>::new(
            cache,
            Ghost(CachePred { capacity: capacity as nat }),
        );
        ThreadSafeCache { inner: Arc::new(lock) }
    }

    /// How many entries the store holds at the moment of the lookup:
    /// never more than the capacity.
    pub fn len(&self) -> (n: usize)
        ensures
            n <= self.capacity(),
    {
        let read_handle = self.inner.acquire_read();
        let n = read_handle.borrow().len();
        read_handle.release_read();
        n
    }
}

impl<V: Copy> ThreadSafeCache<V> {
    /// Look `key` up under the lock. The result is what `LRUCache::get`
    /// returns on the well-formed state the operation linearizes against;
    /// in particular a zero-capacity cache never answers with a value.
    pub fn get(&self, key: &String) -> (r: Option<V>)
        ensures
            self.capacity() == 0 ==> r is None,
            exists|s: Seq<(Seq<char>, V)>|
                wf_model(s, self.capacity()) && r == spec_lookup(s, key@),
    {
        let (mut cache, handle) = self.inner.acquire_write();
        let ghost s0 = cache@;
        let r = cache.get(key);
        handle.release_write(cache);
        proof {
            assert(wf_model(s0, self.capacity()) && r == spec_lookup(s0, key@));
            if self.capacity() == 0 {
                assert(!has_key(s0, key@));
            }
        }
        r
    }

    /// Store `value` under `key` under the lock. The update follows
    /// `LRUCache::insert`'s contract on the state the operation
    /// linearizes against, and leaves behind a well-formed state of the
    /// same capacity — that is what the lock's invariant demands.
    pub fn insert(&self, key: String, value: V)
    {
        let (mut cache, handle) = self.inner.acquire_write();
        cache.insert(key, value);
        handle.release_write(cache);
    }
}

} // verus!
