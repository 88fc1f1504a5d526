use vstd::prelude::*;

verus! {

/// No key occurs twice in `s`.
pub open spec fn unique_keys<K, V>(s: Seq<(K, V)>) -> bool {
    forall|i: int, j: int| 0 <= i < s.len() && 0 <= j < s.len() && #[trigger] s[i].0 == #[trigger] s[j].0 ==> i == j
}

/// `k` is the key of some record of `s`.
pub open spec fn has_key<K, V>(s: Seq<(K, V)>, k: K) -> bool {
    exists|i: int| 0 <= i < s.len() && #[trigger] s[i].0 == k
}

/// The records of `s` read as a map from key to value.
pub open spec fn as_map<K, V>(s: Seq<(K, V)>) -> Map<K, V> {
    Map::new(|k: K| has_key(s, k), |k: K| s[choose|i: int| 0 <= i < s.len() && #[trigger] s[i].0 == k].1)
}

pub proof fn lemma_as_map_index<K, V>(s: Seq<(K, V)>, i: int)
    requires
        unique_keys(s),
        0 <= i < s.len(),
    ensures
        as_map(s).contains_key(s[i].0),
        as_map(s)[s[i].0] == s[i].1,
{
    let k = s[i].0;
    assert(has_key(s, k));
    let j = choose|j: int| 0 <= j < s.len() && #[trigger] s[j].0 == k;
    assert(s[j].0 == s[i].0);
}

pub proof fn lemma_as_map_absent<K, V>(s: Seq<(K, V)>, k: K)
    requires
        forall|i: int| 0 <= i < s.len() ==> (#[trigger] s[i]).0 != k,
    ensures
        !as_map(s).contains_key(k),
{
}

pub proof fn lemma_as_map_push<K, V>(s: Seq<(K, V)>, kv: (K, V))
    requires
        unique_keys(s),
        !as_map(s).contains_key(kv.0),
    ensures
        unique_keys(s.push(kv)),
        as_map(s.push(kv)) == as_map(s).insert(kv.0, kv.1),
{
    let t = s.push(kv);
    let n = s.len() as int;
    assert forall|i: int| 0 <= i < n implies #[trigger] s[i].0 != kv.0 by {
        if s[i].0 == kv.0 {
            assert(has_key(s, kv.0));
        }
    }
    assert forall|i: int, j: int| 0 <= i < t.len() && 0 <= j < t.len() && #[trigger] t[i].0 == #[trigger] t[j].0 implies i == j by {
        if i < n && j < n {
            assert(t[i] == s[i] && t[j] == s[j]);
        } else if i < n {
            assert(t[i] == s[i]);
        } else if j < n {
            assert(t[j] == s[j]);
        }
    }
    let m = as_map(s).insert(kv.0, kv.1);
    assert forall|k: K| #[trigger] as_map(t).contains_key(k) <==> m.contains_key(k) by {
        if has_key(s, k) {
            let i = choose|i: int| 0 <= i < s.len() && #[trigger] s[i].0 == k;
            assert(t[i] == s[i]);
        }
        if has_key(t, k) && k != kv.0 {
            let i = choose|i: int| 0 <= i < t.len() && #[trigger] t[i].0 == k;
            assert(t[i] == s[i]);
        }
        if k == kv.0 {
            assert(t[n].0 == k);
        }
    }
    assert forall|k: K| #[trigger] as_map(t).contains_key(k) implies as_map(t)[k] == m[k] by {
        if k == kv.0 {
            lemma_as_map_index(t, n);
        } else {
            let i = choose|i: int| 0 <= i < t.len() && #[trigger] t[i].0 == k;
            assert(t[i] == s[i]);
            lemma_as_map_index(t, i);
            lemma_as_map_index(s, i);
        }
    }
    assert(as_map(t) =~= m);
}

pub proof fn lemma_as_map_update<K, V>(s: Seq<(K, V)>, i: int, v: V)
    requires
        unique_keys(s),
        0 <= i < s.len(),
    ensures
        unique_keys(s.update(i, (s[i].0, v))),
        as_map(s.update(i, (s[i].0, v))) == as_map(s).insert(s[i].0, v),
{
    let t = s.update(i, (s[i].0, v));
    assert forall|a: int, b: int| 0 <= a < t.len() && 0 <= b < t.len() && #[trigger] t[a].0 == #[trigger] t[b].0 implies a == b by {
        assert(t[a].0 == s[a].0 && t[b].0 == s[b].0);
    }
    let m = as_map(s).insert(s[i].0, v);
    assert forall|k: K| #[trigger] as_map(t).contains_key(k) <==> m.contains_key(k) by {
        if has_key(s, k) {
            let j = choose|j: int| 0 <= j < s.len() && #[trigger] s[j].0 == k;
            assert(t[j].0 == s[j].0);
        }
        if has_key(t, k) {
            let j = choose|j: int| 0 <= j < t.len() && #[trigger] t[j].0 == k;
            assert(t[j].0 == s[j].0);
        }
        if k == s[i].0 {
            assert(t[i].0 == k);
        }
    }
    assert forall|k: K| #[trigger] as_map(t).contains_key(k) implies as_map(t)[k] == m[k] by {
        let j = choose|j: int| 0 <= j < t.len() && #[trigger] t[j].0 == k;
        assert(t[j].0 == s[j].0);
        lemma_as_map_index(t, j);
        if j != i {
            lemma_as_map_index(s, j);
        }
    }
    assert(as_map(t) =~= m);
}

pub proof fn lemma_as_map_remove<K, V>(s: Seq<(K, V)>, i: int)
    requires
        unique_keys(s),
        0 <= i < s.len(),
    ensures
        unique_keys(s.remove(i)),
        as_map(s.remove(i)) == as_map(s).remove(s[i].0),
{
    let t = s.remove(i);
    assert forall|a: int| 0 <= a < t.len() implies #[trigger] t[a] == s[if a < i { a } else { a + 1 }] by {}
    assert forall|a: int, b: int| 0 <= a < t.len() && 0 <= b < t.len() && #[trigger] t[a].0 == #[trigger] t[b].0 implies a == b by {
        let a1 = if a < i { a } else { a + 1 };
        let b1 = if b < i { b } else { b + 1 };
        assert(t[a] == s[a1] && t[b] == s[b1]);
    }
    let m = as_map(s).remove(s[i].0);
    assert forall|k: K| #[trigger] as_map(t).contains_key(k) <==> m.contains_key(k) by {
        if has_key(s, k) && k != s[i].0 {
            let j = choose|j: int| 0 <= j < s.len() && #[trigger] s[j].0 == k;
            let j1 = if j < i { j } else { j - 1 };
            assert(t[j1] == s[j]);
        }
        if has_key(t, k) {
            let j = choose|j: int| 0 <= j < t.len() && #[trigger] t[j].0 == k;
            let j1 = if j < i { j } else { j + 1 };
            assert(t[j] == s[j1]);
            assert(s[j1].0 == k);
            if k == s[i].0 {
                assert(s[j1].0 == s[i].0);
            }
        }
    }
    assert forall|k: K| #[trigger] as_map(t).contains_key(k) implies as_map(t)[k] == m[k] by {
        let j = choose|j: int| 0 <= j < t.len() && #[trigger] t[j].0 == k;
        let j1 = if j < i { j } else { j + 1 };
        assert(t[j] == s[j1]);
        lemma_as_map_index(t, j);
        lemma_as_map_index(s, j1);
    }
    assert(as_map(t) =~= m);
}

pub proof fn lemma_as_map_insert<K, V>(s: Seq<(K, V)>, p: int, kv: (K, V))
    requires
        unique_keys(s),
        !as_map(s).contains_key(kv.0),
        0 <= p <= s.len(),
    ensures
        unique_keys(s.insert(p, kv)),
        as_map(s.insert(p, kv)) == as_map(s).insert(kv.0, kv.1),
{
    let t = s.insert(p, kv);
    assert forall|a: int| 0 <= a < s.len() implies #[trigger] s[a].0 != kv.0 by {
        if s[a].0 == kv.0 {
            assert(has_key(s, kv.0));
        }
    }
    assert forall|a: int| 0 <= a < t.len() && a != p implies #[trigger] t[a] == s[if a < p { a } else { a - 1 }] by {}
    assert(t[p] == kv);
    assert forall|a: int, b: int| 0 <= a < t.len() && 0 <= b < t.len() && #[trigger] t[a].0 == #[trigger] t[b].0 implies a == b by {
        let a1 = if a < p { a } else { a - 1 };
        let b1 = if b < p { b } else { b - 1 };
        if a != p && b != p {
            assert(t[a] == s[a1] && t[b] == s[b1]);
        } else if a != p {
            assert(t[a] == s[a1]);
        } else if b != p {
            assert(t[b] == s[b1]);
        }
    }
    let m = as_map(s).insert(kv.0, kv.1);
    assert forall|k: K| #[trigger] as_map(t).contains_key(k) <==> m.contains_key(k) by {
        if has_key(s, k) {
            let j = choose|j: int| 0 <= j < s.len() && #[trigger] s[j].0 == k;
            let j1 = if j < p { j } else { j + 1 };
            assert(t[j1] == s[j]);
        }
        if has_key(t, k) && k != kv.0 {
            let j = choose|j: int| 0 <= j < t.len() && #[trigger] t[j].0 == k;
            let j1 = if j < p { j } else { j - 1 };
            assert(t[j] == s[j1]);
        }
        if k == kv.0 {
            assert(t[p].0 == k);
        }
    }
    assert forall|k: K| #[trigger] as_map(t).contains_key(k) implies as_map(t)[k] == m[k] by {
        let j = choose|j: int| 0 <= j < t.len() && #[trigger] t[j].0 == k;
        lemma_as_map_index(t, j);
        if j != p {
            let j1 = if j < p { j } else { j - 1 };
            assert(t[j] == s[j1]);
            lemma_as_map_index(s, j1);
        }
    }
    assert(as_map(t) =~= m);
}

} // verus!
