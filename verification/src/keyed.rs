//! Values stored under text keys, in the order the keys were first stored,
//! each key at most once.
use vstd::prelude::*;

verus! {

/// Values under text keys, in the order they were first stored.
pub type Keyed<V> = Seq<(Seq<char>, V)>;

/// Keys occur at most once.
pub open spec fn unique_keys<V>(v: Keyed<V>) -> bool {
    forall|i: int, j: int| 0 <= i < j < v.len() ==> v[i].0 != v[j].0
}

/// The position of key `k`, if present (the last one, should it occur twice).
pub open spec fn find_key<V>(v: Keyed<V>, k: Seq<char>) -> Option<int>
    decreases v.len(),
{
    if v.len() == 0 {
        None
    } else if v.last().0 == k {
        Some(v.len() - 1)
    } else {
        find_key(v.drop_last(), k)
    }
}

/// The value stored under `k`, if any.
pub open spec fn lookup<V>(v: Keyed<V>, k: Seq<char>) -> Option<V> {
    match find_key(v, k) {
        Some(i) => Some(v[i].1),
        None => None,
    }
}

pub proof fn lemma_find_key<V>(v: Keyed<V>, k: Seq<char>)
    ensures
        match find_key(v, k) {
            Some(i) => 0 <= i < v.len() && v[i].0 == k && forall|j: int|
                i < j < v.len() ==> v[j].0 != k,
            None => forall|j: int| 0 <= j < v.len() ==> v[j].0 != k,
        },
    decreases v.len(),
{
    if v.len() > 0 && v.last().0 != k {
        let d = v.drop_last();
        lemma_find_key(d, k);
        match find_key(d, k) {
            Some(i) => {
                assert(v[i] == d[i]);
                assert forall|j: int| i < j < v.len() implies v[j].0 != k by {
                    if j < v.len() - 1 {
                        assert(v[j] == d[j]);
                    }
                }
            },
            None => {
                assert forall|j: int| 0 <= j < v.len() implies v[j].0 != k by {
                    if j < v.len() - 1 {
                        assert(v[j] == d[j]);
                    }
                }
            },
        }
    }
}

/// With unique keys, the key found is the only one equal to `k`.
pub proof fn lemma_find_key_unique<V>(v: Keyed<V>, k: Seq<char>, j: int)
    requires
        unique_keys(v),
        0 <= j < v.len(),
        v[j].0 == k,
    ensures
        find_key(v, k) == Some(j),
{
    lemma_find_key(v, k);
}

/// The entries after storing `x` under `k`: in place of the value there, or at the end.
pub open spec fn stored<V>(v: Keyed<V>, k: Seq<char>, x: V) -> Keyed<V> {
    match find_key(v, k) {
        Some(i) => v.update(i, (k, x)),
        None => v.push((k, x)),
    }
}

/// A stored value is found under its key, and storing it leaves every other
/// key's value as it was; keys stay unique.
pub proof fn lemma_store_then_get<V>(v: Keyed<V>, k: Seq<char>, x: V, other: Seq<char>)
    requires
        unique_keys(v),
    ensures
        unique_keys(stored(v, k, x)),
        lookup(stored(v, k, x), k) == Some(x),
        other != k ==> lookup(stored(v, k, x), other) == lookup(v, other),
{
    lemma_find_key(v, k);
    lemma_find_key(v, other);
    let w = stored(v, k, x);
    match find_key(v, k) {
        Some(i) => {
            assert forall|a: int, b: int| 0 <= a < b < w.len() implies w[a].0 != w[b].0 by {
                if a == i {
                    assert(v[b].0 != v[i].0);
                } else if b == i {
                    assert(v[a].0 != v[i].0);
                }
            }
        },
        None => {
            assert forall|a: int, b: int| 0 <= a < b < w.len() implies w[a].0 != w[b].0 by {
                if b == v.len() {
                    assert(v[a].0 != k);
                }
            }
        },
    }
    lemma_find_key_unique(w, k, if find_key(v, k) is Some { find_key(v, k)->0 } else { v.len() as int });
    if other != k {
        lemma_find_key(w, other);
        match find_key(v, other) {
            Some(j) => {
                lemma_find_key_unique(w, other, j);
            },
            None => {
                assert forall|j: int| 0 <= j < w.len() implies w[j].0 != other by {
                    if j < v.len() {
                        assert(w[j].0 == v[j].0 || w[j].0 == k);
                    }
                }
            },
        }
    }
}

/// A removed key is no longer found, and removing it leaves every other key's
/// value as it was; keys stay unique.
pub proof fn lemma_remove_then_get<V>(v: Keyed<V>, k: Seq<char>, other: Seq<char>)
    requires
        unique_keys(v),
        find_key(v, k) is Some,
    ensures
        unique_keys(v.remove(find_key(v, k)->0)),
        lookup(v.remove(find_key(v, k)->0), k) is None,
        other != k ==> lookup(v.remove(find_key(v, k)->0), other) == lookup(v, other),
{
    lemma_find_key(v, k);
    let i = find_key(v, k)->0;
    let w = v.remove(i);
    lemma_find_key(w, k);
    assert forall|j: int| 0 <= j < w.len() implies w[j] == (if j < i { v[j] } else { v[j + 1] }) by {}
    assert forall|j: int| 0 <= j < w.len() implies w[j].0 != k by {
        if j < i {
            assert(w[j] == v[j]);
        } else {
            assert(w[j] == v[j + 1]);
        }
    }
    assert forall|a: int, b: int| 0 <= a < b < w.len() implies w[a].0 != w[b].0 by {
        let a2 = if a < i { a } else { a + 1 };
        let b2 = if b < i { b } else { b + 1 };
        assert(w[a] == v[a2] && w[b] == v[b2]);
    }
    if other != k {
        lemma_find_key(v, other);
        lemma_find_key(w, other);
        match find_key(v, other) {
            Some(j) => {
                let j2 = if j < i { j } else { j - 1 };
                assert(w[j2] == v[j]);
                lemma_find_key_unique(w, other, j2);
            },
            None => {
                assert forall|j: int| 0 <= j < w.len() implies w[j].0 != other by {
                    let j2 = if j < i { j } else { j + 1 };
                    assert(w[j] == v[j2]);
                }
            },
        }
    }
}

/// Replacing the value at a position keeps the keys unique.
pub proof fn lemma_update_keeps_keys<V>(v: Keyed<V>, i: int)
    requires
        unique_keys(v),
        0 <= i < v.len(),
    ensures
        forall|x: V| #[trigger] unique_keys(v.update(i, (v[i].0, x))),
{
    assert forall|x: V| #[trigger] unique_keys(v.update(i, (v[i].0, x))) by {
        let w = v.update(i, (v[i].0, x));
        assert forall|a: int, b: int| 0 <= a < b < w.len() implies w[a].0 != w[b].0 by {
            assert(w[a].0 == v[a].0 && w[b].0 == v[b].0);
        }
    }
}

} // verus!
