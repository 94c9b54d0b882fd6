//! Keyed tables.
//!
//! Every piece of durable state in this crate is a vector of entries with a
//! unique key: plans keyed by id, price entries keyed by `(plan, asset)`,
//! entitlements keyed by `(user, plan)`, totals keyed by asset.  This module
//! gives the common spec vocabulary over such a vector's sequence view —
//! key uniqueness, membership, lookup — together with the lemmas describing
//! how they evolve under push, in-place update and removal.

use vstd::prelude::*;

verus! {

/// No two entries of `s` share a key.
pub open spec fn keys_unique<T, K>(s: Seq<T>, key: spec_fn(T) -> K) -> bool {
    forall|i: int, j: int| 0 <= i < j < s.len() ==> key(s[i]) != key(s[j])
}

/// Some entry of `s` has key `k`.
pub open spec fn has_key<T, K>(s: Seq<T>, key: spec_fn(T) -> K, k: K) -> bool {
    exists|i: int| 0 <= i < s.len() && key(s[i]) == k
}

/// The index of the entry with key `k`; meaningful only when `has_key` holds.
pub open spec fn key_index<T, K>(s: Seq<T>, key: spec_fn(T) -> K, k: K) -> int {
    choose|i: int| 0 <= i < s.len() && key(s[i]) == k
}

/// The entry with key `k`; meaningful only when `has_key` holds.
pub open spec fn entry_of<T, K>(s: Seq<T>, key: spec_fn(T) -> K, k: K) -> T {
    s[key_index(s, key, k)]
}

/// In a table with unique keys, any index holding key `k` is the index the
/// lookup returns.
pub proof fn lemma_key_index_is<T, K>(s: Seq<T>, key: spec_fn(T) -> K, i: int)
    requires
        keys_unique(s, key),
        0 <= i < s.len(),
    ensures
        has_key(s, key, key(s[i])),
        key_index(s, key, key(s[i])) == i,
        entry_of(s, key, key(s[i])) == s[i],
{
    let k = key(s[i]);
    assert(has_key(s, key, k));
    let j = key_index(s, key, k);
    assert(0 <= j < s.len() && key(s[j]) == k);
    if j < i {
        assert(key(s[j]) != key(s[i]));
    }
    if i < j {
        assert(key(s[i]) != key(s[j]));
    }
}

/// Appending an entry with a fresh key keeps keys unique, makes the new key
/// present, and leaves every other key's lookup unchanged.
pub proof fn lemma_push_fresh<T, K>(s: Seq<T>, key: spec_fn(T) -> K, e: T)
    requires
        keys_unique(s, key),
        !has_key(s, key, key(e)),
    ensures
        keys_unique(s.push(e), key),
        has_key(s.push(e), key, key(e)),
        entry_of(s.push(e), key, key(e)) == e,
        key_index(s.push(e), key, key(e)) == s.len(),
        forall|k: K|
            k != key(e) ==> #[trigger] has_key(s.push(e), key, k) == has_key(s, key, k),
        forall|k: K|
            k != key(e) && has_key(s, key, k) ==> #[trigger] entry_of(s.push(e), key, k)
                == entry_of(s, key, k),
{
    let t = s.push(e);
    assert(t[s.len() as int] == e);
    assert forall|i: int, j: int| 0 <= i < j < t.len() implies key(t[i]) != key(t[j]) by {
        if j < s.len() {
            assert(key(s[i]) != key(s[j]));
        } else {
            assert(t[j] == e);
            if key(t[i]) == key(e) {
                assert(has_key(s, key, key(e)));
            }
        }
    }
    lemma_key_index_is(t, key, s.len() as int);
    assert forall|k: K| k != key(e) implies #[trigger] has_key(t, key, k) == has_key(
        s,
        key,
        k,
    ) by {
        if has_key(t, key, k) {
            let i = choose|i: int| 0 <= i < t.len() && key(t[i]) == k;
            assert(i < s.len());
            assert(key(s[i]) == k);
        }
        if has_key(s, key, k) {
            let i = choose|i: int| 0 <= i < s.len() && key(s[i]) == k;
            assert(key(t[i]) == k);
        }
    }
    assert forall|k: K| k != key(e) && has_key(s, key, k) implies #[trigger] entry_of(t, key, k)
        == entry_of(s, key, k) by {
        let i = key_index(s, key, k);
        assert(0 <= i < s.len() && key(s[i]) == k);
        lemma_key_index_is(s, key, i);
        lemma_key_index_is(t, key, i);
    }
}

/// Replacing the entry at `i` by one with the same key keeps keys unique and
/// leaves every other key's lookup unchanged.
pub proof fn lemma_update_entry<T, K>(s: Seq<T>, key: spec_fn(T) -> K, i: int, e: T)
    requires
        keys_unique(s, key),
        0 <= i < s.len(),
        key(e) == key(s[i]),
    ensures
        keys_unique(s.update(i, e), key),
        has_key(s.update(i, e), key, key(e)),
        entry_of(s.update(i, e), key, key(e)) == e,
        key_index(s.update(i, e), key, key(e)) == i,
        forall|k: K| #[trigger] has_key(s.update(i, e), key, k) == has_key(s, key, k),
        forall|k: K|
            k != key(e) && has_key(s, key, k) ==> #[trigger] entry_of(s.update(i, e), key, k)
                == entry_of(s, key, k),
{
    let t = s.update(i, e);
    assert forall|p: int, q: int| 0 <= p < q < t.len() implies key(t[p]) != key(t[q]) by {
        assert(key(t[p]) == key(s[p]));
        assert(key(t[q]) == key(s[q]));
        assert(key(s[p]) != key(s[q]));
    }
    lemma_key_index_is(t, key, i);
    assert forall|k: K| #[trigger] has_key(t, key, k) == has_key(s, key, k) by {
        if has_key(t, key, k) {
            let p = choose|p: int| 0 <= p < t.len() && key(t[p]) == k;
            assert(key(s[p]) == k);
        }
        if has_key(s, key, k) {
            let p = choose|p: int| 0 <= p < s.len() && key(s[p]) == k;
            assert(key(t[p]) == k);
        }
    }
    assert forall|k: K| k != key(e) && has_key(s, key, k) implies #[trigger] entry_of(t, key, k)
        == entry_of(s, key, k) by {
        let p = key_index(s, key, k);
        assert(0 <= p < s.len() && key(s[p]) == k);
        assert(p != i);
        lemma_key_index_is(s, key, p);
        assert(key(t[p]) == k);
        lemma_key_index_is(t, key, p);
    }
}

/// Removing the entry at `i` keeps keys unique, erases its key, and leaves
/// every other key's lookup unchanged.
pub proof fn lemma_remove_at<T, K>(s: Seq<T>, key: spec_fn(T) -> K, i: int)
    requires
        keys_unique(s, key),
        0 <= i < s.len(),
    ensures
        keys_unique(s.remove(i), key),
        !has_key(s.remove(i), key, key(s[i])),
        forall|k: K|
            k != key(s[i]) ==> #[trigger] has_key(s.remove(i), key, k) == has_key(s, key, k),
        forall|k: K|
            k != key(s[i]) && has_key(s, key, k) ==> #[trigger] entry_of(s.remove(i), key, k)
                == entry_of(s, key, k),
{
    s.remove_ensures(i);
    let t = s.remove(i);
    assert forall|p: int, q: int| 0 <= p < q < t.len() implies key(t[p]) != key(t[q]) by {
        let p0: int = if p < i {
            p
        } else {
            p + 1
        };
        let q0: int = if q < i {
            q
        } else {
            q + 1
        };
        assert(t[p] == s[p0]);
        assert(t[q] == s[q0]);
        assert(key(s[p0]) != key(s[q0]));
    }
    assert forall|p: int| 0 <= p < t.len() implies key(t[p]) != key(s[i]) by {
        let p0: int = if p < i {
            p
        } else {
            p + 1
        };
        assert(t[p] == s[p0]);
        assert(p0 != i);
        if p0 < i {
            assert(key(s[p0]) != key(s[i]));
        } else {
            assert(key(s[i]) != key(s[p0]));
        }
    }
    assert forall|k: K| k != key(s[i]) implies #[trigger] has_key(t, key, k) == has_key(
        s,
        key,
        k,
    ) by {
        if has_key(t, key, k) {
            let p = choose|p: int| 0 <= p < t.len() && key(t[p]) == k;
            let p0: int = if p < i {
                p
            } else {
                p + 1
            };
            assert(t[p] == s[p0]);
            assert(key(s[p0]) == k);
        }
        if has_key(s, key, k) {
            let p0 = choose|p0: int| 0 <= p0 < s.len() && key(s[p0]) == k;
            assert(p0 != i);
            let p: int = if p0 < i {
                p0
            } else {
                p0 - 1
            };
            assert(t[p] == s[p0]);
            assert(key(t[p]) == k);
        }
    }
    assert forall|k: K| k != key(s[i]) && has_key(s, key, k) implies #[trigger] entry_of(
        t,
        key,
        k,
    ) == entry_of(s, key, k) by {
        let p0 = key_index(s, key, k);
        assert(0 <= p0 < s.len() && key(s[p0]) == k);
        assert(p0 != i);
        let p: int = if p0 < i {
            p0
        } else {
            p0 - 1
        };
        assert(t[p] == s[p0]);
        lemma_key_index_is(t, key, p);
        lemma_key_index_is(s, key, p0);
    }
}

} // verus!
