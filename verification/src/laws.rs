//! The laws of the cache, proved over the model.
//!
//! Each proof function here states one guarantee of the cache for every
//! input, over the spec functions of `crate::model` that the contracts of
//! `LRUCache::get` and `LRUCache::insert` are written in.

use vstd::prelude::*;

use crate::model::{
    distinct_keys, has_key, key_index, lemma_drop_last_props, lemma_insert_index_shift,
    lemma_key_index_unique, lemma_promote_props, lemma_push_front_props, promote, remove_key,
    spec_after_get, spec_insert, spec_lookup, wf_model,
};

verus! {

/// The state after the inserts of `ops`, applied front to back.
pub open spec fn insert_all<V>(
    s: Seq<(Seq<char>, V)>,
    cap: nat,
    ops: Seq<(Seq<char>, V)>,
) -> Seq<(Seq<char>, V)>
    decreases ops.len(),
{
    if ops.len() == 0 {
        s
    } else {
        insert_all(spec_insert(s, cap, ops[0].0, ops[0].1), cap, ops.drop_first())
    }
}

/// One insert keeps the state well formed; it stores the new value under
/// its key (capacity permitting), brings in no key but its own, and moves
/// the entry count exactly as the eviction policy says.
pub proof fn lemma_insert_preserves_wf<V>(s: Seq<(Seq<char>, V)>, cap: nat, k: Seq<char>, v: V)
    requires
        wf_model(s, cap),
    ensures
        wf_model(spec_insert(s, cap, k, v), cap),
        cap > 0 ==> has_key(spec_insert(s, cap, k, v), k) && spec_lookup(spec_insert(s, cap, k, v), k)
            == Some(v),
        forall|kk: Seq<char>| #[trigger] has_key(spec_insert(s, cap, k, v), kk) ==> kk == k
            || has_key(s, kk),
        cap > 0 && !has_key(s, k) ==> spec_insert(s, cap, k, v).len() == (if s.len() < cap {
            s.len() + 1 as int
        } else {
            cap as int
        }),
        has_key(s, k) ==> spec_insert(s, cap, k, v).len() == s.len(),
{
    let r = spec_insert(s, cap, k, v);
    if cap == 0 {
    } else if has_key(s, k) {
        lemma_promote_props(s, k, v);
    } else if s.len() >= cap {
        lemma_drop_last_props(s);
        assert(!has_key(s.drop_last(), k));
        lemma_push_front_props(s.drop_last(), k, v);
        assert forall|kk: Seq<char>| #[trigger] has_key(r, kk) implies kk == k || has_key(s, kk) by {
            if kk != k {
                assert(has_key(s.drop_last(), kk));
                assert(kk != s.last().0);
            }
        }
    } else {
        lemma_push_front_props(s, k, v);
    }
}

/// Law (capacity invariant): from a well-formed state, no sequence of
/// inserts ever pushes the number of entries above the capacity, and the
/// keys stay distinct.
pub proof fn lemma_capacity_invariant<V>(
    s: Seq<(Seq<char>, V)>,
    cap: nat,
    ops: Seq<(Seq<char>, V)>,
)
    requires
        wf_model(s, cap),
    ensures
        wf_model(insert_all(s, cap, ops), cap),
        insert_all(s, cap, ops).len() <= cap,
    decreases ops.len(),
{
    if ops.len() > 0 {
        lemma_insert_preserves_wf(s, cap, ops[0].0, ops[0].1);
        lemma_capacity_invariant(spec_insert(s, cap, ops[0].0, ops[0].1), cap, ops.drop_first());
    }
}

/// Law (recency, first half): a lookup hit moves the key to the front of
/// the recency order and keeps every entry of the cache.
pub proof fn lemma_get_promotes<V>(s: Seq<(Seq<char>, V)>, k: Seq<char>)
    requires
        distinct_keys(s),
        has_key(s, k),
    ensures
        spec_after_get(s, k).len() == s.len(),
        distinct_keys(spec_after_get(s, k)),
        spec_after_get(s, k)[0].0 == k,
        key_index(spec_after_get(s, k), k) == 0,
        forall|kk: Seq<char>| #[trigger] has_key(spec_after_get(s, k), kk) <==> has_key(s, kk),
{
    let v = s[key_index(s, k)].1;
    lemma_promote_props(s, k, v);
    lemma_key_index_unique(promote(s, k, v), k, 0);
}

/// Law (recency, second half): an insert of a different key evicts only
/// the least recently used entry, so a key that is not the least recently
/// used one survives, with its value.
pub proof fn lemma_eviction_order<V>(
    s: Seq<(Seq<char>, V)>,
    cap: nat,
    k: Seq<char>,
    k2: Seq<char>,
    v: V,
)
    requires
        wf_model(s, cap),
        has_key(s, k),
        k2 != k,
        key_index(s, k) < s.len() - 1,
    ensures
        has_key(spec_insert(s, cap, k2, v), k),
        spec_lookup(spec_insert(s, cap, k2, v), k) == spec_lookup(s, k),
{
    let i = key_index(s, k);
    assert(0 <= i < s.len() && s[i].0 == k);
    if has_key(s, k2) {
        lemma_promote_props(s, k2, v);
    } else if s.len() >= cap {
        if k == s.last().0 {
            lemma_key_index_unique(s, k, s.len() - 1);
        }
        assert(k != s.last().0);
        lemma_drop_last_props(s);
        assert(!has_key(s.drop_last(), k2));
        lemma_push_front_props(s.drop_last(), k2, v);
    } else {
        lemma_push_front_props(s, k2, v);
    }
}

/// Law (recency invariant): after a lookup of `k`, an immediately
/// following insert of any other key cannot evict `k` as long as any
/// other key is present — every other entry would have to be evicted
/// first. The inserted value is found under `k` unchanged.
pub proof fn lemma_recency_invariant<V>(
    s: Seq<(Seq<char>, V)>,
    cap: nat,
    k: Seq<char>,
    k2: Seq<char>,
    v: V,
)
    requires
        wf_model(s, cap),
        has_key(s, k),
        k2 != k,
        s.len() >= 2,
    ensures
        has_key(spec_insert(spec_after_get(s, k), cap, k2, v), k),
        spec_lookup(spec_insert(spec_after_get(s, k), cap, k2, v), k) == spec_lookup(s, k),
{
    let p = spec_after_get(s, k);
    lemma_get_promotes(s, k);
    lemma_idempotent_lookup(s, k);
    lemma_key_index_unique(p, k, 0);
    lemma_eviction_order(p, cap, k, k2, v);
}

/// Law (eviction hits the least recently used): when a full cache takes a
/// fresh key, exactly the entry at the back leaves; every other entry
/// stays and the new key is present.
pub proof fn lemma_evicts_lru<V>(s: Seq<(Seq<char>, V)>, cap: nat, k2: Seq<char>, v: V)
    requires
        wf_model(s, cap),
        cap > 0,
        !has_key(s, k2),
        s.len() == cap,
    ensures
        !has_key(spec_insert(s, cap, k2, v), s.last().0),
        has_key(spec_insert(s, cap, k2, v), k2),
        forall|kk: Seq<char>|
            kk != s.last().0 && kk != k2 ==> (#[trigger] has_key(spec_insert(s, cap, k2, v), kk)
                <==> has_key(s, kk)),
{
    lemma_drop_last_props(s);
    assert(!has_key(s.drop_last(), k2));
    lemma_push_front_props(s.drop_last(), k2, v);
    assert(s.last().0 != k2);
}

/// Law (update in place): inserting an existing key updates its value and
/// changes neither the entry count nor the set of keys present.
pub proof fn lemma_update_in_place<V>(s: Seq<(Seq<char>, V)>, cap: nat, k: Seq<char>, v: V)
    requires
        wf_model(s, cap),
        has_key(s, k),
    ensures
        spec_insert(s, cap, k, v).len() == s.len(),
        spec_lookup(spec_insert(s, cap, k, v), k) == Some(v),
        forall|kk: Seq<char>| #[trigger] has_key(spec_insert(s, cap, k, v), kk) <==> has_key(s, kk),
        forall|kk: Seq<char>|
            kk != k && has_key(s, kk) ==> #[trigger] spec_lookup(spec_insert(s, cap, k, v), kk)
                == spec_lookup(s, kk),
{
    lemma_promote_props(s, k, v);
}

/// Law (idempotent lookup): a second lookup of the same key, with nothing
/// in between, returns the same value and leaves the state exactly as the
/// first one left it.
pub proof fn lemma_idempotent_lookup<V>(s: Seq<(Seq<char>, V)>, k: Seq<char>)
    requires
        distinct_keys(s),
    ensures
        spec_lookup(spec_after_get(s, k), k) == spec_lookup(s, k),
        spec_after_get(spec_after_get(s, k), k) == spec_after_get(s, k),
{
    if has_key(s, k) {
        let v = s[key_index(s, k)].1;
        let p = promote(s, k, v);
        lemma_promote_props(s, k, v);
        lemma_key_index_unique(p, k, 0);
        assert(spec_lookup(p, k) == Some(v));
        assert(remove_key(p, k) =~= remove_key(s, k));
        assert(spec_after_get(p, k) =~= p);
    }
}

/// Law (distinct inserts fill to capacity): starting from a well-formed
/// state, inserting pairwise-distinct keys that are not yet present gives
/// exactly `min(capacity, initial count + number inserted)` entries. Under
/// the lock every interleaving of concurrent inserts is one such sequence,
/// so the final count does not depend on the interleaving.
pub proof fn lemma_distinct_insert_count<V>(
    s: Seq<(Seq<char>, V)>,
    cap: nat,
    ops: Seq<(Seq<char>, V)>,
)
    requires
        wf_model(s, cap),
        forall|i: int, j: int| 0 <= i < j < ops.len() ==> ops[i].0 != ops[j].0,
        forall|i: int| 0 <= i < ops.len() ==> !has_key(s, #[trigger] ops[i].0),
    ensures
        insert_all(s, cap, ops).len() == (if s.len() + ops.len() <= cap {
            s.len() + ops.len() as int
        } else {
            cap as int
        }),
    decreases ops.len(),
{
    if ops.len() > 0 {
        let k = ops[0].0;
        let v = ops[0].1;
        let s1 = spec_insert(s, cap, k, v);
        lemma_insert_preserves_wf(s, cap, k, v);
        let rest = ops.drop_first();
        assert forall|i: int| 0 <= i < rest.len() implies !has_key(s1, #[trigger] rest[i].0) by {
            assert(rest[i] == ops[i + 1]);
            assert(ops[i + 1].0 != k);
            assert(!has_key(s, ops[i + 1].0));
        }
        assert(forall|i: int, j: int| 0 <= i < j < rest.len() ==> rest[i].0 != rest[j].0);
        lemma_distinct_insert_count(s1, cap, rest);
    }
}

/// `k` is present in `t` and every key of the earlier state `s` that is
/// still present sits behind `k` in the recency order.
pub open spec fn earlier_keys_behind<V>(
    t: Seq<(Seq<char>, V)>,
    s: Seq<(Seq<char>, V)>,
    k: Seq<char>,
) -> bool {
    &&& has_key(t, k)
    &&& forall|kk: Seq<char>|
        kk != k && has_key(s, kk) && #[trigger] has_key(t, kk) ==> key_index(t, kk) > key_index(
            t,
            k,
        )
}

/// No key of the earlier state `s` other than `k` is present in `t`.
pub open spec fn earlier_keys_gone<V>(
    t: Seq<(Seq<char>, V)>,
    s: Seq<(Seq<char>, V)>,
    k: Seq<char>,
) -> bool {
    forall|kk: Seq<char>| kk != k && has_key(s, kk) ==> !#[trigger] has_key(t, kk)
}

proof fn lemma_recency_step<V>(
    t: Seq<(Seq<char>, V)>,
    s: Seq<(Seq<char>, V)>,
    cap: nat,
    k: Seq<char>,
    k2: Seq<char>,
    v: V,
)
    requires
        wf_model(t, cap),
        k2 != k,
        !has_key(s, k2),
        earlier_keys_behind(t, s, k) || earlier_keys_gone(t, s, k),
    ensures
        earlier_keys_behind(spec_insert(t, cap, k2, v), s, k) || earlier_keys_gone(
            spec_insert(t, cap, k2, v),
            s,
            k,
        ),
{
    let u = spec_insert(t, cap, k2, v);
    lemma_insert_preserves_wf(t, cap, k2, v);
    if cap == 0 {
        assert(earlier_keys_gone(u, s, k));
    } else if earlier_keys_behind(t, s, k) {
        let xk = key_index(t, k);
        assert(0 <= xk < t.len() && t[xk].0 == k);
        lemma_insert_index_shift(t, cap, k2, v, k);
        if !has_key(t, k2) && t.len() >= cap && xk == t.len() - 1 {
            // `k` itself was the least recently used entry, so nothing of
            // `s` stood behind it, hence nothing of `s` but `k` was
            // present at all; the insert brings in only `k2`.
            assert forall|kk: Seq<char>| kk != k && has_key(s, kk) implies !has_key(u, kk) by {
                if has_key(t, kk) {
                    assert(key_index(t, kk) > xk);
                    assert(key_index(t, kk) < t.len());
                } else {
                    assert(kk != k2);
                    assert(!has_key(u, kk));
                }
            }
        } else {
            assert(has_key(u, k));
            assert forall|kk: Seq<char>|
                kk != k && has_key(s, kk) && #[trigger] has_key(u, kk) implies key_index(u, kk)
                > key_index(u, k) by {
                assert(kk != k2);
                assert(has_key(t, kk));
                assert(key_index(t, kk) > xk);
                lemma_insert_index_shift(t, cap, k2, v, kk);
            }
        }
    } else {
        assert forall|kk: Seq<char>| kk != k && has_key(s, kk) implies !has_key(u, kk) by {
            assert(kk != k2);
            assert(!has_key(t, kk));
        }
    }
}

proof fn lemma_recency_sequence<V>(
    t: Seq<(Seq<char>, V)>,
    s: Seq<(Seq<char>, V)>,
    cap: nat,
    k: Seq<char>,
    ops: Seq<(Seq<char>, V)>,
)
    requires
        wf_model(t, cap),
        forall|i: int|
            0 <= i < ops.len() ==> (#[trigger] ops[i]).0 != k && !has_key(s, ops[i].0),
        earlier_keys_behind(t, s, k) || earlier_keys_gone(t, s, k),
    ensures
        earlier_keys_behind(insert_all(t, cap, ops), s, k) || earlier_keys_gone(
            insert_all(t, cap, ops),
            s,
            k,
        ),
    decreases ops.len(),
{
    if ops.len() > 0 {
        lemma_recency_step(t, s, cap, k, ops[0].0, ops[0].1);
        lemma_insert_preserves_wf(t, cap, ops[0].0, ops[0].1);
        let rest = ops.drop_first();
        assert(forall|i: int| 0 <= i < rest.len() ==> rest[i] == ops[i + 1]);
        lemma_recency_sequence(spec_insert(t, cap, ops[0].0, ops[0].1), s, cap, k, rest);
    }
}

/// Law (recency invariant, over a whole run): after a lookup of `k`, any
/// number of inserts of keys that are neither `k` nor present at the
/// lookup can evict `k` only after every key that was present at the
/// lookup has been evicted first: as long as `k` is gone, they are all
/// gone.
pub proof fn lemma_recency_run<V>(
    s: Seq<(Seq<char>, V)>,
    cap: nat,
    k: Seq<char>,
    ops: Seq<(Seq<char>, V)>,
)
    requires
        wf_model(s, cap),
        has_key(s, k),
        forall|i: int|
            0 <= i < ops.len() ==> (#[trigger] ops[i]).0 != k && !has_key(s, ops[i].0),
    ensures
        has_key(insert_all(spec_after_get(s, k), cap, ops), k) || (forall|kk: Seq<char>|
            kk != k && has_key(s, kk) ==> !#[trigger] has_key(
                insert_all(spec_after_get(s, k), cap, ops),
                kk,
            )),
{
    let t0 = spec_after_get(s, k);
    lemma_get_promotes(s, k);
    assert forall|kk: Seq<char>|
        kk != k && has_key(s, kk) && #[trigger] has_key(t0, kk) implies key_index(t0, kk)
        > key_index(t0, k) by {
        let j = key_index(t0, kk);
        assert(0 <= j < t0.len() && t0[j].0 == kk);
        if j == 0 {
            assert(t0[0].0 == k);
        }
    }
    assert(earlier_keys_behind(t0, s, k));
    lemma_recency_sequence(t0, s, cap, k, ops);
}

} // verus!
