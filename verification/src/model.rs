//! The mathematical model of the cache.
//!
//! A cache state is a sequence of key/value pairs in recency order: the
//! entry at index 0 is the most recently used, the entry at the back is
//! the least recently used. A state is well formed for a capacity when
//! its keys are pairwise distinct and its length is at most the capacity.

use vstd::prelude::*;

verus! {

/// No key occurs twice.
pub open spec fn distinct_keys<V>(s: Seq<(Seq<char>, V)>) -> bool {
    forall|i: int, j: int| 0 <= i < j < s.len() ==> s[i].0 != s[j].0
}

/// A state that a cache of capacity `cap` may hold.
pub open spec fn wf_model<V>(s: Seq<(Seq<char>, V)>, cap: nat) -> bool {
    &&& distinct_keys(s)
    &&& s.len() <= cap
}

/// Whether key `k` is present.
pub open spec fn has_key<V>(s: Seq<(Seq<char>, V)>, k: Seq<char>) -> bool {
    exists|i: int| 0 <= i < s.len() && s[i].0 == k
}

/// The position of key `k`; meaningful only when `has_key(s, k)`,
/// and unique when the keys are distinct.
pub open spec fn key_index<V>(s: Seq<(Seq<char>, V)>, k: Seq<char>) -> int {
    choose|i: int| 0 <= i < s.len() && s[i].0 == k
}

/// The value stored under `k`, if any.
pub open spec fn spec_lookup<V>(s: Seq<(Seq<char>, V)>, k: Seq<char>) -> Option<V> {
    if has_key(s, k) {
        Some(s[key_index(s, k)].1)
    } else {
        None
    }
}

/// The state with the entry for `k` (if any) taken out, order kept.
pub open spec fn remove_key<V>(s: Seq<(Seq<char>, V)>, k: Seq<char>) -> Seq<(Seq<char>, V)> {
    if has_key(s, k) {
        s.subrange(0, key_index(s, k)) + s.subrange(key_index(s, k) + 1, s.len() as int)
    } else {
        s
    }
}

/// The state with `(k, v)` brought to the front and any older entry for
/// `k` taken out.
pub open spec fn promote<V>(s: Seq<(Seq<char>, V)>, k: Seq<char>, v: V) -> Seq<(Seq<char>, V)> {
    seq![(k, v)] + remove_key(s, k)
}

/// The state after a lookup of `k`: on a hit the entry moves to the
/// front, on a miss nothing changes.
pub open spec fn spec_after_get<V>(s: Seq<(Seq<char>, V)>, k: Seq<char>) -> Seq<(Seq<char>, V)> {
    if has_key(s, k) {
        promote(s, k, s[key_index(s, k)].1)
    } else {
        s
    }
}

/// The state after `insert(k, v)` into a cache of capacity `cap`:
/// a zero-capacity cache retains nothing; an existing key is updated in
/// place and promoted; a new key goes to the front, evicting the least
/// recently used entry when the cache is full.
pub open spec fn spec_insert<V>(
    s: Seq<(Seq<char>, V)>,
    cap: nat,
    k: Seq<char>,
    v: V,
) -> Seq<(Seq<char>, V)> {
    if cap == 0 {
        Seq::empty()
    } else if has_key(s, k) {
        promote(s, k, v)
    } else if s.len() >= cap {
        seq![(k, v)] + s.drop_last()
    } else {
        seq![(k, v)] + s
    }
}

/// When `s[i].0 == k` and the keys are distinct, `i` is the one and only
/// index of `k`, so `key_index` picks it.
pub proof fn lemma_key_index_unique<V>(s: Seq<(Seq<char>, V)>, k: Seq<char>, i: int)
    requires
        distinct_keys(s),
        0 <= i < s.len(),
        s[i].0 == k,
    ensures
        has_key(s, k),
        key_index(s, k) == i,
{
    assert(has_key(s, k));
    let j = key_index(s, k);
    assert(0 <= j < s.len() && s[j].0 == k);
    if i < j {
        assert(s[i].0 != s[j].0);
    } else if j < i {
        assert(s[j].0 != s[i].0);
    }
}

/// Taking the entry for `k` out keeps every other entry, with its value,
/// and keeps the keys distinct.
pub proof fn lemma_remove_key_props<V>(s: Seq<(Seq<char>, V)>, k: Seq<char>)
    requires
        distinct_keys(s),
        has_key(s, k),
    ensures
        remove_key(s, k).len() == s.len() - 1,
        distinct_keys(remove_key(s, k)),
        !has_key(remove_key(s, k), k),
        forall|kk: Seq<char>|
            kk != k ==> (#[trigger] has_key(remove_key(s, k), kk) <==> has_key(s, kk)),
        forall|kk: Seq<char>|
            kk != k && has_key(s, kk) ==> #[trigger] spec_lookup(remove_key(s, k), kk)
                == spec_lookup(s, kk),
{
    let i = key_index(s, k);
    assert(0 <= i < s.len() && s[i].0 == k);
    let r = remove_key(s, k);
    assert(forall|j: int|
        0 <= j < r.len() ==> r[j] == (if j < i {
            s[j]
        } else {
            s[j + 1]
        }));
    assert forall|kk: Seq<char>| kk != k && has_key(s, kk) implies #[trigger] has_key(r, kk) by {
        let j = choose|j: int| 0 <= j < s.len() && s[j].0 == kk;
        if j < i {
            assert(r[j].0 == kk);
        } else {
            assert(j != i);
            assert(r[j - 1].0 == kk);
        }
    }
    assert forall|j: int| 0 <= j < r.len() implies r[j].0 != k by {
        if j >= i {
            lemma_key_index_unique(s, k, i);
            assert(s[j + 1].0 != s[i].0);
        }
    }
    assert(!has_key(r, k));
    assert forall|kk: Seq<char>| kk != k && has_key(r, kk) implies has_key(s, kk) by {
        let j = choose|j: int| 0 <= j < r.len() && r[j].0 == kk;
        if j < i {
            assert(s[j].0 == kk);
        } else {
            assert(s[j + 1].0 == kk);
        }
    }
    assert forall|kk: Seq<char>| kk != k && has_key(s, kk) implies #[trigger] spec_lookup(r, kk)
        == spec_lookup(s, kk) by {
        let j = key_index(s, kk);
        assert(0 <= j < s.len() && s[j].0 == kk);
        assert(j != i);
        if j < i {
            lemma_key_index_unique(r, kk, j);
            assert(r[j] == s[j]);
        } else {
            lemma_key_index_unique(r, kk, j - 1);
            assert(r[j - 1] == s[j]);
        }
    }
}

/// Entry by entry, taking the entry for `k` out shifts the entries
/// behind it forward by one and leaves the ones in front in place.
pub proof fn lemma_remove_key_pointwise<V>(s: Seq<(Seq<char>, V)>, k: Seq<char>)
    requires
        distinct_keys(s),
        has_key(s, k),
    ensures
        remove_key(s, k).len() == s.len() - 1,
        forall|j: int|
            0 <= j < s.len() - 1 ==> remove_key(s, k)[j] == (if j < key_index(s, k) {
                s[j]
            } else {
                s[j + 1]
            }),
{
}

/// Bringing `(k, v)` to the front keeps the other entries, with their
/// values, keeps the keys distinct, and stores `v` under `k` at index 0.
pub proof fn lemma_promote_props<V>(s: Seq<(Seq<char>, V)>, k: Seq<char>, v: V)
    requires
        distinct_keys(s),
        has_key(s, k),
    ensures
        promote(s, k, v).len() == s.len(),
        distinct_keys(promote(s, k, v)),
        promote(s, k, v)[0] == (k, v),
        forall|kk: Seq<char>| #[trigger] has_key(promote(s, k, v), kk) <==> has_key(s, kk) || kk == k,
        spec_lookup(promote(s, k, v), k) == Some(v),
        forall|kk: Seq<char>|
            kk != k && has_key(s, kk) ==> #[trigger] spec_lookup(promote(s, k, v), kk)
                == spec_lookup(s, kk),
{
    lemma_remove_key_props(s, k);
    lemma_push_front_props(remove_key(s, k), k, v);
    let p = promote(s, k, v);
    assert forall|kk: Seq<char>| #[trigger] has_key(p, kk) implies has_key(s, kk) || kk == k by {
        if kk != k {
            assert(has_key(remove_key(s, k), kk));
        }
    }
}

/// Putting a fresh key at the front keeps the other entries, with their
/// values, and keeps the keys distinct.
pub proof fn lemma_push_front_props<V>(s: Seq<(Seq<char>, V)>, k: Seq<char>, v: V)
    requires
        distinct_keys(s),
        !has_key(s, k),
    ensures
        (seq![(k, v)] + s).len() == s.len() + 1,
        distinct_keys(seq![(k, v)] + s),
        (seq![(k, v)] + s)[0] == (k, v),
        forall|kk: Seq<char>| #[trigger] has_key(seq![(k, v)] + s, kk) <==> has_key(s, kk) || kk == k,
        spec_lookup(seq![(k, v)] + s, k) == Some(v),
        forall|kk: Seq<char>|
            kk != k && has_key(s, kk) ==> #[trigger] spec_lookup(seq![(k, v)] + s, kk)
                == spec_lookup(s, kk),
{
    let p = seq![(k, v)] + s;
    assert(forall|j: int| 0 <= j < s.len() ==> p[j + 1] == s[j]);
    assert forall|i: int, j: int| 0 <= i < j < p.len() implies p[i].0 != p[j].0 by {
        if i == 0 {
            assert(p[j].0 == s[j - 1].0);
            assert(!(s[j - 1].0 == k));
        } else {
            assert(s[i - 1].0 != s[j - 1].0);
        }
    }
    assert forall|kk: Seq<char>| #[trigger] has_key(p, kk) implies has_key(s, kk) || kk == k by {
        let j = choose|j: int| 0 <= j < p.len() && p[j].0 == kk;
        if j > 0 {
            assert(s[j - 1].0 == kk);
        }
    }
    assert forall|kk: Seq<char>| has_key(s, kk) || kk == k implies #[trigger] has_key(p, kk) by {
        if kk == k {
            assert(p[0].0 == k);
        } else {
            let j = choose|j: int| 0 <= j < s.len() && s[j].0 == kk;
            assert(p[j + 1].0 == kk);
        }
    }
    lemma_key_index_unique(p, k, 0);
    assert forall|kk: Seq<char>| kk != k && has_key(s, kk) implies #[trigger] spec_lookup(p, kk)
        == spec_lookup(s, kk) by {
        let j = key_index(s, kk);
        assert(0 <= j < s.len() && s[j].0 == kk);
        lemma_key_index_unique(p, kk, j + 1);
        assert(p[j + 1] == s[j]);
    }
}

/// Dropping the last entry (the least recently used) keeps every other
/// entry, with its value, and keeps the keys distinct.
pub proof fn lemma_drop_last_props<V>(s: Seq<(Seq<char>, V)>)
    requires
        distinct_keys(s),
        s.len() > 0,
    ensures
        s.drop_last().len() == s.len() - 1,
        distinct_keys(s.drop_last()),
        !has_key(s.drop_last(), s.last().0),
        forall|kk: Seq<char>|
            kk != s.last().0 ==> (#[trigger] has_key(s.drop_last(), kk) <==> has_key(s, kk)),
        forall|kk: Seq<char>|
            kk != s.last().0 && has_key(s, kk) ==> #[trigger] spec_lookup(s.drop_last(), kk)
                == spec_lookup(s, kk),
{
    let d = s.drop_last();
    let n = s.len() - 1;
    assert(forall|j: int| 0 <= j < n ==> d[j] == s[j]);
    assert forall|j: int| 0 <= j < n implies d[j].0 != s.last().0 by {
        assert(s[j].0 != s[n].0);
    }
    assert(!has_key(d, s.last().0));
    assert forall|kk: Seq<char>| kk != s.last().0 && has_key(s, kk) implies #[trigger] has_key(
        d,
        kk,
    ) by {
        let j = choose|j: int| 0 <= j < s.len() && s[j].0 == kk;
        assert(j != n);
        assert(d[j].0 == kk);
    }
    assert forall|kk: Seq<char>| kk != s.last().0 && has_key(s, kk) implies #[trigger] spec_lookup(
        d,
        kk,
    ) == spec_lookup(s, kk) by {
        let j = key_index(s, kk);
        assert(0 <= j < s.len() && s[j].0 == kk);
        assert(j != n);
        lemma_key_index_unique(d, kk, j);
    }
}

/// How one insert moves the position of a present key `kk` other than
/// the inserted one: it shifts back by one step, or keeps its place when
/// a promoted key passes it from behind; it leaves the cache only when it
/// was the least recently used entry of a full cache taking a fresh key.
pub proof fn lemma_insert_index_shift<V>(
    t: Seq<(Seq<char>, V)>,
    cap: nat,
    k2: Seq<char>,
    v: V,
    kk: Seq<char>,
)
    requires
        wf_model(t, cap),
        cap > 0,
        kk != k2,
        has_key(t, kk),
    ensures
        has_key(t, k2) ==> has_key(spec_insert(t, cap, k2, v), kk) && key_index(
            spec_insert(t, cap, k2, v),
            kk,
        ) == (if key_index(t, kk) < key_index(t, k2) {
            key_index(t, kk) + 1
        } else {
            key_index(t, kk)
        }),
        !has_key(t, k2) && t.len() < cap ==> has_key(spec_insert(t, cap, k2, v), kk) && key_index(
            spec_insert(t, cap, k2, v),
            kk,
        ) == key_index(t, kk) + 1,
        !has_key(t, k2) && t.len() >= cap && key_index(t, kk) == t.len() - 1 ==> !has_key(
            spec_insert(t, cap, k2, v),
            kk,
        ),
        !has_key(t, k2) && t.len() >= cap && key_index(t, kk) < t.len() - 1 ==> has_key(
            spec_insert(t, cap, k2, v),
            kk,
        ) && key_index(spec_insert(t, cap, k2, v), kk) == key_index(t, kk) + 1,
{
    let x = key_index(t, kk);
    assert(0 <= x < t.len() && t[x].0 == kk);
    let u = spec_insert(t, cap, k2, v);
    if has_key(t, k2) {
        let i2 = key_index(t, k2);
        assert(0 <= i2 < t.len() && t[i2].0 == k2);
        lemma_remove_key_pointwise(t, k2);
        lemma_promote_props(t, k2, v);
        assert(u == promote(t, k2, v));
        if x < i2 {
            assert(u[x + 1] == remove_key(t, k2)[x]);
            assert(remove_key(t, k2)[x] == t[x]);
            lemma_key_index_unique(u, kk, x + 1);
        } else {
            assert(x != i2);
            assert(u[x] == remove_key(t, k2)[x - 1]);
            assert(remove_key(t, k2)[x - 1] == t[x]);
            lemma_key_index_unique(u, kk, x);
        }
    } else if t.len() < cap {
        lemma_push_front_props(t, k2, v);
        assert(u == seq![(k2, v)] + t);
        assert(u[x + 1] == t[x]);
        lemma_key_index_unique(u, kk, x + 1);
    } else {
        lemma_drop_last_props(t);
        assert(!has_key(t.drop_last(), k2));
        lemma_push_front_props(t.drop_last(), k2, v);
        assert(u == seq![(k2, v)] + t.drop_last());
        if x == t.len() - 1 {
            assert(kk == t.last().0);
            assert(!has_key(t.drop_last(), kk));
            assert(!has_key(u, kk));
        } else {
            assert(t.drop_last()[x] == t[x]);
            assert(u[x + 1] == t[x]);
            lemma_key_index_unique(u, kk, x + 1);
        }
    }
}

} // verus!
