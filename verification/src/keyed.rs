//! A list of key-value pairs whose keys are strings and occur once each:
//! the model is the map from keys to values.
use crate::text::str_eq;
use vstd::prelude::*;

verus! {

/// The views of the pairs.
pub open spec fn pair_views<T: View>(v: Seq<(String, T)>) -> Seq<(Seq<char>, T::V)> {
    v.map_values(|p: (String, T)| (p.0@, p.1@))
}

pub proof fn lemma_pair_views_push<T: View>(v: Seq<(String, T)>, x: (String, T))
    ensures
        pair_views(v.push(x)) == pair_views(v).push((x.0@, x.1@)),
{
    assert(pair_views(v.push(x)) =~= pair_views(v).push((x.0@, x.1@)));
}

/// No key occurs twice.
pub open spec fn keys_distinct<V>(s: Seq<(Seq<char>, V)>) -> bool {
    forall|i: int, j: int| 0 <= i < s.len() && 0 <= j < s.len() && i != j ==> s[i].0 != s[j].0
}

/// Whether `k` is the key of some pair.
pub open spec fn has_key<V>(s: Seq<(Seq<char>, V)>, k: Seq<char>) -> bool {
    exists|i: int| 0 <= i < s.len() && #[trigger] s[i].0 == k
}

/// The map from keys to values.
pub open spec fn pairs_map<V>(s: Seq<(Seq<char>, V)>) -> Map<Seq<char>, V> {
    Map::new(
        |k: Seq<char>| has_key(s, k),
        |k: Seq<char>| s[choose|i: int| 0 <= i < s.len() && #[trigger] s[i].0 == k].1,
    )
}

pub proof fn lemma_pairs_map_at<V>(s: Seq<(Seq<char>, V)>, i: int)
    requires
        keys_distinct(s),
        0 <= i < s.len(),
    ensures
        pairs_map(s).contains_key(s[i].0),
        pairs_map(s)[s[i].0] == s[i].1,
{
    let k = s[i].0;
    assert(has_key(s, k));
    let j = choose|j: int| 0 <= j < s.len() && #[trigger] s[j].0 == k;
    assert(j == i);
}

/// Setting the value of a key that is present.
pub proof fn lemma_pairs_map_update<V>(s: Seq<(Seq<char>, V)>, i: int, v: V)
    requires
        keys_distinct(s),
        0 <= i < s.len(),
    ensures
        keys_distinct(s.update(i, (s[i].0, v))),
        pairs_map(s.update(i, (s[i].0, v))) == pairs_map(s).insert(s[i].0, v),
{
    let t = s.update(i, (s[i].0, v));
    assert forall|a: int, b: int| 0 <= a < t.len() && 0 <= b < t.len() && a != b implies t[a].0
        != t[b].0 by {
        assert(t[a].0 == s[a].0 && t[b].0 == s[b].0);
    }
    assert forall|k: Seq<char>| has_key(t, k) <==> has_key(s, k) by {
        if has_key(t, k) {
            let j = choose|j: int| 0 <= j < t.len() && #[trigger] t[j].0 == k;
            assert(s[j].0 == k);
        }
        if has_key(s, k) {
            let j = choose|j: int| 0 <= j < s.len() && #[trigger] s[j].0 == k;
            assert(t[j].0 == k);
        }
    }
    assert forall|k: Seq<char>| #[trigger] pairs_map(t).contains_key(k) implies pairs_map(t)[k]
        == pairs_map(s).insert(s[i].0, v)[k] by {
        let j = choose|j: int| 0 <= j < t.len() && #[trigger] t[j].0 == k;
        lemma_pairs_map_at(t, j);
        if j != i {
            assert(s[j].0 == k);
            lemma_pairs_map_at(s, j);
        }
    }
    assert(pairs_map(t) =~= pairs_map(s).insert(s[i].0, v));
}

/// Adding a pair whose key is absent.
pub proof fn lemma_pairs_map_push<V>(s: Seq<(Seq<char>, V)>, k: Seq<char>, v: V)
    requires
        keys_distinct(s),
        !has_key(s, k),
    ensures
        keys_distinct(s.push((k, v))),
        pairs_map(s.push((k, v))) == pairs_map(s).insert(k, v),
{
    let t = s.push((k, v));
    assert forall|a: int, b: int| 0 <= a < t.len() && 0 <= b < t.len() && a != b implies t[a].0
        != t[b].0 by {
        if a == s.len() {
            assert(t[b].0 == s[b].0);
        } else if b == s.len() {
            assert(t[a].0 == s[a].0);
        }
    }
    assert forall|q: Seq<char>| has_key(t, q) <==> (has_key(s, q) || q == k) by {
        if has_key(t, q) {
            let j = choose|j: int| 0 <= j < t.len() && #[trigger] t[j].0 == q;
            if j < s.len() {
                assert(s[j].0 == q);
            }
        }
        if has_key(s, q) {
            let j = choose|j: int| 0 <= j < s.len() && #[trigger] s[j].0 == q;
            assert(t[j].0 == q);
        }
        if q == k {
            assert(t[s.len() as int].0 == q);
        }
    }
    assert forall|q: Seq<char>| #[trigger] pairs_map(t).contains_key(q) implies pairs_map(t)[q]
        == pairs_map(s).insert(k, v)[q] by {
        let j = choose|j: int| 0 <= j < t.len() && #[trigger] t[j].0 == q;
        lemma_pairs_map_at(t, j);
        if j < s.len() {
            assert(s[j].0 == q);
            lemma_pairs_map_at(s, j);
        }
    }
    assert(pairs_map(t) =~= pairs_map(s).insert(k, v));
}

/// The position of `key` among the pairs.
pub fn key_position<T: View>(v: &Vec<(String, T)>, key: &str) -> (r: Option<usize>)
    ensures
        match r {
            Some(i) => i < v.len() && pair_views(v@)[i as int].0 == key@,
            None => !has_key(pair_views(v@), key@),
        },
{
    let mut i: usize = 0;
    while i < v.len()
        invariant
            i <= v.len(),
            forall|j: int| 0 <= j < i ==> pair_views(v@)[j].0 != key@,
        decreases v.len() - i,
    {
        if str_eq(v[i].0.as_str(), key) {
            return Some(i);
        }
        i = i + 1;
    }
    None
}

/// Sets `key` to `val`, keeping the position of a key already present.
pub fn insert_pair<T: View>(v: &mut Vec<(String, T)>, key: String, val: T)
    requires
        keys_distinct(pair_views(old(v)@)),
    ensures
        keys_distinct(pair_views(final(v)@)),
        pairs_map(pair_views(final(v)@)) == pairs_map(pair_views(old(v)@)).insert(key@, val@),
{
    let ghost s = pair_views(v@);
    match key_position(v, key.as_str()) {
        Some(i) => {
            let ghost kv = key@;
            let ghost vv = val@;
            v.set(i, (key, val));
            proof {
                lemma_pairs_map_update(s, i as int, vv);
                assert(pair_views(v@) =~= s.update(i as int, (s[i as int].0, vv)));
            }
        },
        None => {
            let ghost kv = key@;
            let ghost vv = val@;
            v.push((key, val));
            proof {
                lemma_pairs_map_push(s, kv, vv);
                assert(pair_views(v@) =~= s.push((kv, vv)));
            }
        },
    }
}

// ---------------------------------------------------------------------------
// Lists of pairs read in order: the first pair with a key is the one found
// ---------------------------------------------------------------------------
/// The first position of key `k`.
pub open spec fn first_key<K, V>(s: Seq<(K, V)>, k: K) -> Option<int>
    decreases s.len(),
{
    if s.len() == 0 {
        None
    } else {
        match first_key(s.drop_last(), k) {
            Some(i) => Some(i),
            None => if s.last().0 == k {
                Some(s.len() - 1)
            } else {
                None
            },
        }
    }
}

/// The value of the first pair with key `k`.
pub open spec fn lookup<K, V>(s: Seq<(K, V)>, k: K) -> Option<V> {
    match first_key(s, k) {
        Some(i) => Some(s[i].1),
        None => None,
    }
}

/// The pairs with `k` set to `v`: in the place of the first pair with that
/// key, or added at the end.
pub open spec fn upsert<K, V>(s: Seq<(K, V)>, k: K, v: V) -> Seq<(K, V)> {
    match first_key(s, k) {
        Some(i) => s.update(i, (k, v)),
        None => s.push((k, v)),
    }
}

/// The pairs with `x` appended to the list of key `k` (a new list where
/// the key is absent).
pub open spec fn append_to<K, X>(s: Seq<(K, Seq<X>)>, k: K, x: X) -> Seq<(K, Seq<X>)> {
    match first_key(s, k) {
        Some(i) => s.update(i, (k, s[i].1.push(x))),
        None => s.push((k, seq![x])),
    }
}

pub proof fn lemma_first_key<K, V>(s: Seq<(K, V)>, k: K)
    ensures
        match first_key(s, k) {
            Some(i) => 0 <= i < s.len() && s[i].0 == k && forall|j: int|
                0 <= j < i ==> s[j].0 != k,
            None => forall|j: int| 0 <= j < s.len() ==> s[j].0 != k,
        },
    decreases s.len(),
{
    if s.len() > 0 {
        lemma_first_key(s.drop_last(), k);
        assert(forall|j: int| 0 <= j < s.len() - 1 ==> s.drop_last()[j] == s[j]);
    }
}

pub proof fn lemma_first_key_at<K, V>(s: Seq<(K, V)>, k: K, i: int)
    requires
        0 <= i < s.len(),
        s[i].0 == k,
        forall|j: int| 0 <= j < i ==> s[j].0 != k,
    ensures
        first_key(s, k) == Some(i),
{
    lemma_first_key(s, k);
    match first_key(s, k) {
        Some(m) => {
            if m < i {
                assert(s[m].0 != k);
            }
            if m > i {
                assert(s[i].0 != k);
            }
        },
        None => {
            assert(s[i].0 != k);
        },
    }
}

pub proof fn lemma_first_key_none<K, V>(s: Seq<(K, V)>, k: K)
    requires
        forall|j: int| 0 <= j < s.len() ==> s[j].0 != k,
    ensures
        first_key(s, k) is None,
{
    lemma_first_key(s, k);
}

/// After `upsert`, the key maps to the new value and every other key to
/// what it did.
pub proof fn lemma_upsert_lookup<K, V>(s: Seq<(K, V)>, k: K, v: V, q: K)
    ensures
        lookup(upsert(s, k, v), q) == if q == k {
            Some(v)
        } else {
            lookup(s, q)
        },
{
    lemma_first_key(s, k);
    lemma_first_key(s, q);
    let t = upsert(s, k, v);
    lemma_first_key(t, q);
    match first_key(s, k) {
        Some(i) => {
            if q == k {
                lemma_first_key_at(t, q, i);
            } else {
                match first_key(s, q) {
                    Some(m) => {
                        assert(t[m].0 == q);
                        lemma_first_key_at(t, q, m);
                    },
                    None => {
                        assert forall|j: int| 0 <= j < t.len() implies t[j].0 != q by {
                            if j != i {
                                assert(t[j] == s[j]);
                            }
                        }
                        lemma_first_key_none(t, q);
                    },
                }
            }
        },
        None => {
            if q == k {
                lemma_first_key_at(t, q, s.len() as int);
            } else {
                match first_key(s, q) {
                    Some(m) => {
                        assert(t[m] == s[m]);
                        lemma_first_key_at(t, q, m);
                    },
                    None => {
                        assert forall|j: int| 0 <= j < t.len() implies t[j].0 != q by {
                            if j < s.len() {
                                assert(t[j] == s[j]);
                            }
                        }
                        lemma_first_key_none(t, q);
                    },
                }
            }
        },
    }
}

/// `upsert` and `append_to` keep the keys that were there, and add `k`.
pub proof fn lemma_upsert_keys<K, V>(s: Seq<(K, V)>, k: K, v: V)
    ensures
        forall|q: K| #[trigger] first_key(upsert(s, k, v), q) is Some <==> (first_key(s, q) is Some
            || q == k),
{
    assert forall|q: K| #[trigger] first_key(upsert(s, k, v), q) is Some <==> (first_key(s, q) is Some
        || q == k) by {
        lemma_upsert_lookup(s, k, v, q);
    }
}

} // verus!
