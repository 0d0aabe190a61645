//! Maps read off sequences whose items carry unique keys.

use vstd::prelude::*;

verus! {

/// The map from the key of each item of `s` to its value.
pub open spec fn keyed<T, K, V>(s: Seq<T>, key: spec_fn(T) -> K, val: spec_fn(T) -> V) -> Map<K, V> {
    Map::new(
        |k: K| exists|i: int| 0 <= i < s.len() && key(s[i]) == k,
        |k: K| val(s[choose|i: int| 0 <= i < s.len() && key(s[i]) == k]),
    )
}

/// No two items of `s` carry the same key.
pub open spec fn unique_keys<T, K>(s: Seq<T>, key: spec_fn(T) -> K) -> bool {
    forall|i: int, j: int|
        #![trigger key(s[i]), key(s[j])]
        0 <= i < s.len() && 0 <= j < s.len() && i != j ==> key(s[i]) != key(s[j])
}

pub proof fn lemma_keyed_has<T, K, V>(s: Seq<T>, key: spec_fn(T) -> K, val: spec_fn(T) -> V, k: K)
    ensures
        keyed(s, key, val).contains_key(k) <==> exists|i: int| 0 <= i < s.len() && key(s[i]) == k,
{
}

pub proof fn lemma_keyed_at<T, K, V>(s: Seq<T>, key: spec_fn(T) -> K, val: spec_fn(T) -> V, i: int)
    requires
        unique_keys(s, key),
        0 <= i < s.len(),
    ensures
        keyed(s, key, val).contains_key(key(s[i])),
        keyed(s, key, val)[key(s[i])] == val(s[i]),
{
    let k = key(s[i]);
    assert(0 <= i < s.len() && key(s[i]) == k);
    let j = choose|j: int| 0 <= j < s.len() && key(s[j]) == k;
    assert(key(s[j]) == key(s[i]));
    assert(j == i);
}

pub proof fn lemma_keyed_push<T, K, V>(s: Seq<T>, key: spec_fn(T) -> K, val: spec_fn(T) -> V, x: T)
    requires
        unique_keys(s, key),
        !keyed(s, key, val).contains_key(key(x)),
    ensures
        unique_keys(s.push(x), key),
        keyed(s.push(x), key, val) == keyed(s, key, val).insert(key(x), val(x)),
{
    let t = s.push(x);
    assert forall|i: int, j: int|
        0 <= i < t.len() && 0 <= j < t.len() && i != j implies #[trigger] key(t[i]) != #[trigger] key(t[j]) by {
        if i == s.len() {
            assert(key(s[j]) != key(x));
        } else if j == s.len() {
            assert(key(s[i]) != key(x));
        } else {
            assert(t[i] == s[i] && t[j] == s[j]);
        }
    }
    let a = keyed(t, key, val);
    let b = keyed(s, key, val).insert(key(x), val(x));
    assert forall|k: K| a.contains_key(k) <==> b.contains_key(k) by {
        if a.contains_key(k) {
            let i = choose|i: int| 0 <= i < t.len() && key(t[i]) == k;
            if i < s.len() {
                assert(key(s[i]) == k);
            }
        }
        if b.contains_key(k) && k != key(x) {
            let i = choose|i: int| 0 <= i < s.len() && key(s[i]) == k;
            assert(key(t[i]) == k);
        }
        if k == key(x) {
            assert(key(t[s.len() as int]) == k);
        }
    }
    assert forall|k: K| #[trigger] a.contains_key(k) implies a[k] == b[k] by {
        let i = choose|i: int| 0 <= i < t.len() && key(t[i]) == k;
        lemma_keyed_at(t, key, val, i);
        if i < s.len() {
            lemma_keyed_at(s, key, val, i);
        }
    }
    assert(a =~= b);
}

pub proof fn lemma_keyed_update<T, K, V>(
    s: Seq<T>,
    key: spec_fn(T) -> K,
    val: spec_fn(T) -> V,
    i: int,
    x: T,
)
    requires
        unique_keys(s, key),
        0 <= i < s.len(),
        key(x) == key(s[i]),
    ensures
        unique_keys(s.update(i, x), key),
        keyed(s.update(i, x), key, val) == keyed(s, key, val).insert(key(x), val(x)),
{
    let t = s.update(i, x);
    assert forall|p: int, q: int|
        0 <= p < t.len() && 0 <= q < t.len() && p != q implies #[trigger] key(t[p]) != #[trigger] key(t[q]) by {
        assert(key(t[p]) == key(s[p]));
        assert(key(t[q]) == key(s[q]));
    }
    let a = keyed(t, key, val);
    let b = keyed(s, key, val).insert(key(x), val(x));
    assert forall|k: K| a.contains_key(k) <==> b.contains_key(k) by {
        if a.contains_key(k) {
            let p = choose|p: int| 0 <= p < t.len() && key(t[p]) == k;
            assert(key(s[p]) == k);
        }
        if b.contains_key(k) && k != key(x) {
            let p = choose|p: int| 0 <= p < s.len() && key(s[p]) == k;
            assert(key(t[p]) == k);
        }
        if k == key(x) {
            assert(key(t[i]) == k);
        }
    }
    assert forall|k: K| #[trigger] a.contains_key(k) implies a[k] == b[k] by {
        let p = choose|p: int| 0 <= p < t.len() && key(t[p]) == k;
        lemma_keyed_at(t, key, val, p);
        if p != i {
            lemma_keyed_at(s, key, val, p);
        }
    }
    assert(a =~= b);
}

pub proof fn lemma_keyed_remove<T, K, V>(s: Seq<T>, key: spec_fn(T) -> K, val: spec_fn(T) -> V, i: int)
    requires
        unique_keys(s, key),
        0 <= i < s.len(),
    ensures
        unique_keys(s.remove(i), key),
        keyed(s.remove(i), key, val) == keyed(s, key, val).remove(key(s[i])),
{
    let t = s.remove(i);
    assert forall|p: int, q: int|
        0 <= p < t.len() && 0 <= q < t.len() && p != q implies #[trigger] key(t[p]) != #[trigger] key(t[q]) by {
        let p_old = if p < i { p } else { p + 1 };
        let q_old = if q < i { q } else { q + 1 };
        assert(t[p] == s[p_old] && t[q] == s[q_old]);
    }
    let a = keyed(t, key, val);
    let b = keyed(s, key, val).remove(key(s[i]));
    assert forall|k: K| a.contains_key(k) <==> b.contains_key(k) by {
        if a.contains_key(k) {
            let p = choose|p: int| 0 <= p < t.len() && key(t[p]) == k;
            let p_old = if p < i { p } else { p + 1 };
            assert(t[p] == s[p_old]);
            assert(key(s[p_old]) == k);
        }
        if b.contains_key(k) {
            let p = choose|p: int| 0 <= p < s.len() && key(s[p]) == k;
            assert(p != i);
            let p_old = if p < i { p } else { p - 1 };
            assert(t[p_old] == s[p]);
            assert(key(t[p_old]) == k);
        }
    }
    assert forall|k: K| #[trigger] a.contains_key(k) implies a[k] == b[k] by {
        let p = choose|p: int| 0 <= p < t.len() && key(t[p]) == k;
        let p_old = if p < i { p } else { p + 1 };
        assert(t[p] == s[p_old]);
        lemma_keyed_at(t, key, val, p);
        lemma_keyed_at(s, key, val, p_old);
    }
    assert(a =~= b);
}

} // verus!
