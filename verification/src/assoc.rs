//! Sequences of key-value pairs with distinct keys, read as maps.

use vstd::prelude::*;

verus! {

/// Whether no key stands twice in `s`.
pub open spec fn distinct_keys<K, V>(s: Seq<(K, V)>) -> bool {
    forall|i: int, j: int|
        0 <= i < s.len() && 0 <= j < s.len() && i != j ==> (#[trigger] s[i]).0 != (#[trigger] s[j]).0
}

/// Whether some pair of `s` has the key `k`.
pub open spec fn has_key<K, V>(s: Seq<(K, V)>, k: K) -> bool {
    exists|i: int| 0 <= i < s.len() && (#[trigger] s[i]).0 == k
}

/// The index of a pair of `s` with the key `k`.
pub open spec fn index_of<K, V>(s: Seq<(K, V)>, k: K) -> int {
    choose|i: int| 0 <= i < s.len() && (#[trigger] s[i]).0 == k
}

/// The map that takes each key of `s` to its value.
pub open spec fn to_map<K, V>(s: Seq<(K, V)>) -> Map<K, V> {
    Map::new(|k: K| has_key(s, k), |k: K| s[index_of(s, k)].1)
}

/// With distinct keys, the pair at an index is what the map holds for its
/// key.
pub proof fn lemma_index<K, V>(s: Seq<(K, V)>, i: int)
    requires
        distinct_keys(s),
        0 <= i < s.len(),
    ensures
        has_key(s, s[i].0),
        index_of(s, s[i].0) == i,
        to_map(s).contains_key(s[i].0),
        to_map(s)[s[i].0] == s[i].1,
{
    assert(s[i].0 == s[i].0);
    let j = index_of(s, s[i].0);
    assert(0 <= j < s.len() && s[j].0 == s[i].0);
}

/// A key of the map stands at its index.
pub proof fn lemma_key<K, V>(s: Seq<(K, V)>, k: K)
    requires
        has_key(s, k),
    ensures
        0 <= index_of(s, k) < s.len(),
        s[index_of(s, k)].0 == k,
        to_map(s).contains_key(k),
        to_map(s)[k] == s[index_of(s, k)].1,
{
}

/// A pair with a new key, added at the end, is an insertion into the map.
pub proof fn lemma_push<K, V>(s: Seq<(K, V)>, kv: (K, V))
    requires
        distinct_keys(s),
        !has_key(s, kv.0),
    ensures
        distinct_keys(s.push(kv)),
        to_map(s.push(kv)) == to_map(s).insert(kv.0, kv.1),
{
    lemma_insert_at(s, s.len() as int, kv);
    assert(s.insert(s.len() as int, kv) =~= s.push(kv));
}

/// A pair with a new key, put in at any index, is an insertion into the
/// map.
pub proof fn lemma_insert_at<K, V>(s: Seq<(K, V)>, p: int, kv: (K, V))
    requires
        distinct_keys(s),
        !has_key(s, kv.0),
        0 <= p <= s.len(),
    ensures
        distinct_keys(s.insert(p, kv)),
        to_map(s.insert(p, kv)) == to_map(s).insert(kv.0, kv.1),
{
    let t = s.insert(p, kv);
    assert forall|i: int, j: int| 0 <= i < t.len() && 0 <= j < t.len() && i != j implies (
    #[trigger] t[i]).0 != (#[trigger] t[j]).0 by {
        let a = if i < p { i } else { i - 1 };
        let b = if j < p { j } else { j - 1 };
        if i != p {
            assert(t[i] == s[a]);
        }
        if j != p {
            assert(t[j] == s[b]);
        }
    }
    assert(t[p] == kv);
    lemma_index(t, p);
    assert forall|k: K| to_map(t).contains_key(k) <==> to_map(s).insert(kv.0, kv.1).contains_key(
        k,
    ) by {
        if has_key(t, k) {
            let i = index_of(t, k);
            if i != p {
                let a = if i < p { i } else { i - 1 };
                assert(t[i] == s[a]);
            }
        }
        if has_key(s, k) {
            let a = index_of(s, k);
            let i = if a < p { a } else { a + 1 };
            assert(t[i] == s[a]);
        }
    }
    assert forall|k: K| to_map(t).contains_key(k) implies to_map(t)[k] == to_map(s).insert(
        kv.0,
        kv.1,
    )[k] by {
        let i = index_of(t, k);
        if i != p {
            let a = if i < p { i } else { i - 1 };
            assert(t[i] == s[a]);
            lemma_index(s, a);
        }
    }
    assert(to_map(t) =~= to_map(s).insert(kv.0, kv.1));
}

/// A new value for the key at an index is an insertion into the map.
pub proof fn lemma_update<K, V>(s: Seq<(K, V)>, i: int, v: V)
    requires
        distinct_keys(s),
        0 <= i < s.len(),
    ensures
        distinct_keys(s.update(i, (s[i].0, v))),
        to_map(s.update(i, (s[i].0, v))) == to_map(s).insert(s[i].0, v),
{
    let t = s.update(i, (s[i].0, v));
    assert forall|a: int, b: int| 0 <= a < t.len() && 0 <= b < t.len() && a != b implies (
    #[trigger] t[a]).0 != (#[trigger] t[b]).0 by {
        assert(t[a].0 == s[a].0);
        assert(t[b].0 == s[b].0);
    }
    lemma_index(t, i);
    assert forall|k: K| to_map(t).contains_key(k) <==> to_map(s).insert(s[i].0, v).contains_key(
        k,
    ) by {
        if has_key(t, k) {
            let a = index_of(t, k);
            assert(t[a].0 == s[a].0);
        }
        if has_key(s, k) {
            let a = index_of(s, k);
            assert(t[a].0 == s[a].0);
        }
    }
    assert forall|k: K| to_map(t).contains_key(k) implies to_map(t)[k] == to_map(s).insert(
        s[i].0,
        v,
    )[k] by {
        let a = index_of(t, k);
        assert(t[a].0 == s[a].0);
        lemma_index(t, a);
        if a != i {
            lemma_index(s, a);
        }
    }
    assert(to_map(t) =~= to_map(s).insert(s[i].0, v));
}

/// Taking the pair at an index out removes its key from the map.
pub proof fn lemma_remove<K, V>(s: Seq<(K, V)>, i: int)
    requires
        distinct_keys(s),
        0 <= i < s.len(),
    ensures
        distinct_keys(s.remove(i)),
        !has_key(s.remove(i), s[i].0),
        to_map(s.remove(i)) == to_map(s).remove(s[i].0),
{
    let t = s.remove(i);
    assert forall|a: int| 0 <= a < t.len() implies #[trigger] t[a] == s[if a < i {
        a
    } else {
        a + 1
    }] by {}
    assert forall|a: int, b: int| 0 <= a < t.len() && 0 <= b < t.len() && a != b implies (
    #[trigger] t[a]).0 != (#[trigger] t[b]).0 by {
        let a2 = if a < i { a } else { a + 1 };
        let b2 = if b < i { b } else { b + 1 };
        assert(t[a] == s[a2]);
        assert(t[b] == s[b2]);
    }
    if has_key(t, s[i].0) {
        let a = index_of(t, s[i].0);
        let a2 = if a < i { a } else { a + 1 };
        assert(t[a] == s[a2]);
    }
    lemma_index(s, i);
    assert forall|k: K| to_map(t).contains_key(k) <==> to_map(s).remove(s[i].0).contains_key(
        k,
    ) by {
        if has_key(t, k) {
            let a = index_of(t, k);
            let a2 = if a < i { a } else { a + 1 };
            assert(t[a] == s[a2]);
        }
        if has_key(s, k) && k != s[i].0 {
            let a2 = index_of(s, k);
            let a = if a2 < i { a2 } else { a2 - 1 };
            assert(t[a] == s[a2]);
        }
    }
    assert forall|k: K| to_map(t).contains_key(k) implies to_map(t)[k] == to_map(s).remove(
        s[i].0,
    )[k] by {
        let a = index_of(t, k);
        let a2 = if a < i { a } else { a + 1 };
        assert(t[a] == s[a2]);
        lemma_index(s, a2);
    }
    assert(to_map(t) =~= to_map(s).remove(s[i].0));
}

} // verus!
