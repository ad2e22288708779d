//! A bounded least-recently-used (LRU) cache.
//!
//! `lru::LRUCache` is the single-threaded core: a fixed-capacity store of
//! string keys and copyable values that evicts the least recently used
//! entry when a new key arrives at capacity. Its behaviour is specified
//! against the model in `model`: a sequence of key/value pairs ordered by
//! recency, most recent first.
//!
//! `shared_cache::ThreadSafeCache` wraps one core cache behind a verified
//! reader-writer lock, so any number of handles may call `get` and
//! `insert` concurrently; the lock's invariant keeps every state
//! well formed and within capacity.

pub mod laws;
pub mod lru;
pub mod model;
pub mod shared_cache;
