use vstd::prelude::*;

verus! {

/// The position of the first entry whose key is `k`.
pub open spec fn key_index<K, V>(s: Seq<(K, V)>, k: K) -> Option<int>
    decreases s.len(),
{
    if s.len() == 0 {
        None
    } else if s[0].0 == k {
        Some(0)
    } else {
        match key_index(s.drop_first(), k) {
            Some(i) => Some(i + 1),
            None => None,
        }
    }
}

/// What inserting `(k, v)` into an insertion-ordered map does: an entry with
/// key `k` keeps its place and takes the value `v`; otherwise `(k, v)` goes
/// last.
pub open spec fn upsert<K, V>(s: Seq<(K, V)>, k: K, v: V) -> Seq<(K, V)> {
    match key_index(s, k) {
        Some(i) => s.update(i, (k, v)),
        None => s.push((k, v)),
    }
}

/// No key occurs twice.
pub open spec fn unique_keys<K, V>(s: Seq<(K, V)>) -> bool {
    forall|i: int, j: int| 0 <= i < j < s.len() ==> #[trigger] s[i].0 != #[trigger] s[j].0
}

pub open spec fn has_key<K, V>(s: Seq<(K, V)>, k: K) -> bool {
    exists|i: int| 0 <= i < s.len() && #[trigger] s[i].0 == k
}

/// The entries as a map from each key to the value of its first entry.
pub open spec fn as_map<K, V>(s: Seq<(K, V)>) -> Map<K, V> {
    Map::new(|k: K| has_key(s, k), |k: K| s[key_index(s, k).unwrap()].1)
}

pub proof fn lemma_key_index<K, V>(s: Seq<(K, V)>, k: K)
    ensures
        key_index(s, k) matches Some(i) ==> 0 <= i < s.len() && s[i].0 == k && (forall|j: int|
            0 <= j < i ==> #[trigger] s[j].0 != k),
        key_index(s, k) is None ==> forall|j: int| 0 <= j < s.len() ==> #[trigger] s[j].0 != k,
        key_index(s, k) is Some <==> has_key(s, k),
    decreases s.len(),
{
    if s.len() > 0 {
        lemma_key_index(s.drop_first(), k);
        if s[0].0 != k {
            assert forall|j: int| 1 <= j < s.len() implies #[trigger] s[j].0 == s.drop_first()[j
                - 1].0 by {}
            if key_index(s, k) is None {
                assert forall|j: int| 0 <= j < s.len() implies #[trigger] s[j].0 != k by {
                    if j > 0 {
                        assert(s.drop_first()[j - 1] == s[j]);
                    }
                }
            }
            if has_key(s, k) {
                let j = choose|j: int| 0 <= j < s.len() && #[trigger] s[j].0 == k;
                assert(s.drop_first()[j - 1] == s[j]);
            }
        } else {
            assert(s[0].0 == k);
        }
    }
}

pub proof fn lemma_unique_key_index<K, V>(s: Seq<(K, V)>, i: int)
    requires
        unique_keys(s),
        0 <= i < s.len(),
    ensures
        key_index(s, s[i].0) == Some(i),
{
    lemma_key_index(s, s[i].0);
    let j = key_index(s, s[i].0).unwrap();
    if j != i {
        assert(s[j].0 == s[i].0);
    }
}

pub proof fn lemma_upsert<K, V>(s: Seq<(K, V)>, k: K, v: V)
    requires
        unique_keys(s),
    ensures
        unique_keys(upsert(s, k, v)),
        as_map(upsert(s, k, v)) == as_map(s).insert(k, v),
        has_key(upsert(s, k, v), k),
{
    lemma_key_index(s, k);
    let t = upsert(s, k, v);
    match key_index(s, k) {
        Some(i) => {
            assert(t[i].0 == k);
        },
        None => {
            assert(t[s.len() as int].0 == k);
        },
    }
    assert(unique_keys(t)) by {
        assert forall|a: int, b: int| 0 <= a < b < t.len() implies #[trigger] t[a].0
            != #[trigger] t[b].0 by {
            match key_index(s, k) {
                Some(i) => {
                    assert(t[a].0 == s[a].0);
                    assert(t[b].0 == s[b].0);
                },
                None => {
                    if b == s.len() {
                        assert(t[a] == s[a]);
                    } else {
                        assert(t[a] == s[a]);
                        assert(t[b] == s[b]);
                    }
                },
            }
        }
    }
    assert(as_map(t) =~= as_map(s).insert(k, v)) by {
        assert forall|x: K| #[trigger] has_key(t, x) <==> (has_key(s, x) || x == k) by {
            if has_key(t, x) {
                let j = choose|j: int| 0 <= j < t.len() && #[trigger] t[j].0 == x;
                if x != k {
                    if j < s.len() {
                        assert(s[j].0 == x);
                    }
                }
            }
            if has_key(s, x) && x != k {
                let j = choose|j: int| 0 <= j < s.len() && #[trigger] s[j].0 == x;
                assert(t[j].0 == x);
            }
        }
        assert forall|x: K| #[trigger] has_key(t, x) implies as_map(t)[x] == as_map(s).insert(k, v)[x] by {
            lemma_key_index(t, x);
            lemma_key_index(s, x);
            let j = key_index(t, x).unwrap();
            lemma_unique_key_index(t, j);
            if x == k {
                match key_index(s, k) {
                    Some(i) => {
                        lemma_unique_key_index(t, i);
                    },
                    None => {
                        lemma_unique_key_index(t, s.len() as int);
                    },
                }
            } else {
                let i = key_index(s, x).unwrap();
                lemma_unique_key_index(s, i);
                assert(t[i] == s[i]);
                lemma_unique_key_index(t, i);
            }
        }
    }
}

/// Every entry after an insertion is the inserted one or an entry from before.
pub proof fn lemma_upsert_entries<K, V>(s: Seq<(K, V)>, k: K, v: V)
    ensures
        forall|i: int| 0 <= i < upsert(s, k, v).len() ==> #[trigger] upsert(s, k, v)[i] == (k, v) || s.contains(upsert(s, k, v)[i]),
{
    lemma_key_index(s, k);
    let t = upsert(s, k, v);
    assert forall|i: int| 0 <= i < t.len() implies #[trigger] t[i] == (k, v) || s.contains(t[i]) by {
        match key_index(s, k) {
            Some(j) => {
                if i != j {
                    assert(t[i] == s[i]);
                }
            },
            None => {
                if i < s.len() {
                    assert(t[i] == s[i]);
                }
            },
        }
    }
}

/// Two sequences with unique keys and the same entries give the same map.
pub proof fn lemma_same_entries_map<K, V>(s1: Seq<(K, V)>, s2: Seq<(K, V)>)
    requires
        unique_keys(s1),
        unique_keys(s2),
        forall|i: int| 0 <= i < s1.len() ==> s2.contains(#[trigger] s1[i]),
        forall|i: int| 0 <= i < s2.len() ==> s1.contains(#[trigger] s2[i]),
    ensures
        as_map(s1) == as_map(s2),
{
    assert forall|x: K| #[trigger] has_key(s1, x) <==> has_key(s2, x) by {
        if has_key(s1, x) {
            let i = choose|i: int| 0 <= i < s1.len() && #[trigger] s1[i].0 == x;
            assert(s2.contains(s1[i]));
            let j = choose|j: int| 0 <= j < s2.len() && s2[j] == s1[i];
            assert(s2[j].0 == x);
        }
        if has_key(s2, x) {
            let i = choose|i: int| 0 <= i < s2.len() && #[trigger] s2[i].0 == x;
            assert(s1.contains(s2[i]));
            let j = choose|j: int| 0 <= j < s1.len() && s1[j] == s2[i];
            assert(s1[j].0 == x);
        }
    }
    assert forall|x: K| #[trigger] has_key(s1, x) implies as_map(s1)[x] == as_map(s2)[x] by {
        lemma_key_index(s1, x);
        lemma_key_index(s2, x);
        let i = key_index(s1, x).unwrap();
        let j = key_index(s2, x).unwrap();
        assert(s2.contains(s1[i]));
        let j2 = choose|j2: int| 0 <= j2 < s2.len() && s2[j2] == s1[i];
        if j2 != j {
            assert(s2[j2].0 == s2[j].0);
        }
    }
    assert(as_map(s1) =~= as_map(s2));
}

} // verus!
