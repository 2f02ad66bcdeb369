//! Association sequences: the mathematical model of every keyed container
//! in this crate (entry fields by path, entries by id, collections by name).
//! Lookup, replacement and removal all act on the first pair whose key
//! matches.
use vstd::prelude::*;

verus! {

/// True when no two pairs share a key.
pub open spec fn distinct_keys<K, V>(s: Seq<(K, V)>) -> bool {
    forall|i: int, j: int| 0 <= i < j < s.len() ==> s[i].0 != s[j].0
}

/// The value paired with the first occurrence of `k`, if any.
pub open spec fn assoc_find<K, V>(s: Seq<(K, V)>, k: K) -> Option<V>
    decreases s.len(),
{
    if s.len() == 0 {
        None
    } else if s[0].0 == k {
        Some(s[0].1)
    } else {
        assoc_find(s.skip(1), k)
    }
}

/// The index of the first occurrence of `k`, or `s.len()` when `k` is absent.
pub open spec fn assoc_index<K, V>(s: Seq<(K, V)>, k: K) -> int
    decreases s.len(),
{
    if s.len() == 0 {
        0
    } else if s[0].0 == k {
        0
    } else {
        1 + assoc_index(s.skip(1), k)
    }
}

/// Replaces the value at the first occurrence of `k`, or appends the pair
/// when the key is absent.
pub open spec fn assoc_set<K, V>(s: Seq<(K, V)>, k: K, v: V) -> Seq<(K, V)>
    decreases s.len(),
{
    if s.len() == 0 {
        seq![(k, v)]
    } else if s[0].0 == k {
        seq![(k, v)] + s.skip(1)
    } else {
        seq![s[0]] + assoc_set(s.skip(1), k, v)
    }
}

/// Removes the first occurrence of `k`, if any.
pub open spec fn assoc_remove<K, V>(s: Seq<(K, V)>, k: K) -> Seq<(K, V)>
    decreases s.len(),
{
    if s.len() == 0 {
        s
    } else if s[0].0 == k {
        s.skip(1)
    } else {
        seq![s[0]] + assoc_remove(s.skip(1), k)
    }
}

/// `assoc_index` is the first index holding `k`, and `assoc_find` reads it.
pub proof fn lemma_assoc_index<K, V>(s: Seq<(K, V)>, k: K)
    ensures
        0 <= assoc_index(s, k) <= s.len(),
        forall|j: int| 0 <= j < assoc_index(s, k) ==> s[j].0 != k,
        assoc_index(s, k) < s.len() ==> s[assoc_index(s, k)].0 == k,
        assoc_index(s, k) < s.len() ==> assoc_find(s, k) == Some(s[assoc_index(s, k)].1),
        assoc_index(s, k) == s.len() ==> assoc_find(s, k) is None,
    decreases s.len(),
{
    if s.len() == 0 {
    } else if s[0].0 == k {
    } else {
        lemma_assoc_index(s.skip(1), k);
        assert forall|j: int| 0 <= j < assoc_index(s, k) implies s[j].0 != k by {
            if j > 0 {
                assert(s.skip(1)[j - 1] == s[j]);
            }
        }
        if assoc_index(s, k) < s.len() {
            assert(s.skip(1)[assoc_index(s, k) - 1] == s[assoc_index(s, k)]);
        }
    }
}

/// `assoc_set` is an in-place update when the key is present, an append
/// when it is absent.
pub proof fn lemma_assoc_set_form<K, V>(s: Seq<(K, V)>, k: K, v: V)
    ensures
        assoc_index(s, k) < s.len() ==> assoc_set(s, k, v) == s.update(assoc_index(s, k), (k, v)),
        assoc_index(s, k) == s.len() ==> assoc_set(s, k, v) == s.push((k, v)),
    decreases s.len(),
{
    lemma_assoc_index(s, k);
    if s.len() == 0 {
        assert(assoc_set(s, k, v) =~= s.push((k, v)));
    } else if s[0].0 == k {
        assert(assoc_set(s, k, v) =~= s.update(0, (k, v)));
    } else {
        lemma_assoc_set_form(s.skip(1), k, v);
        lemma_assoc_index(s.skip(1), k);
        let i = assoc_index(s, k);
        if i < s.len() {
            assert(assoc_set(s, k, v) =~= s.update(i, (k, v)));
        } else {
            assert(assoc_set(s, k, v) =~= s.push((k, v)));
        }
    }
}

/// `assoc_remove` deletes the first occurrence when the key is present,
/// and is the identity when it is absent.
pub proof fn lemma_assoc_remove_form<K, V>(s: Seq<(K, V)>, k: K)
    ensures
        assoc_index(s, k) < s.len() ==> assoc_remove(s, k) == s.remove(assoc_index(s, k)),
        assoc_index(s, k) == s.len() ==> assoc_remove(s, k) == s,
    decreases s.len(),
{
    lemma_assoc_index(s, k);
    if s.len() == 0 {
    } else if s[0].0 == k {
        assert(assoc_remove(s, k) =~= s.remove(0));
    } else {
        lemma_assoc_remove_form(s.skip(1), k);
        lemma_assoc_index(s.skip(1), k);
        let i = assoc_index(s, k);
        if i < s.len() {
            assert(assoc_remove(s, k) =~= s.remove(i));
        } else {
            assert(assoc_remove(s, k) =~= s);
        }
    }
}

/// A position that holds `k` after positions that do not is the first one.
pub proof fn lemma_first_index<K, V>(s: Seq<(K, V)>, k: K, i: int)
    requires
        0 <= i < s.len(),
        s[i].0 == k,
        forall|j: int| 0 <= j < i ==> s[j].0 != k,
    ensures
        assoc_index(s, k) == i,
        assoc_find(s, k) == Some(s[i].1),
{
    lemma_assoc_index(s, k);
    let x = assoc_index(s, k);
    if x < i {
        assert(s[x].0 != k);
        assert(false);
    }
    if x > i {
        assert(s[i].0 != k);
        assert(false);
    }
}

/// A sequence none of whose keys is `k` does not contain `k`.
pub proof fn lemma_absent_index<K, V>(s: Seq<(K, V)>, k: K)
    requires
        forall|j: int| 0 <= j < s.len() ==> s[j].0 != k,
    ensures
        assoc_index(s, k) == s.len(),
        assoc_find(s, k) is None,
{
    lemma_assoc_index(s, k);
    if assoc_index(s, k) < s.len() {
        assert(s[assoc_index(s, k)].0 != k);
        assert(false);
    }
}

/// Looking a key up right after setting it yields the value just set.
pub proof fn lemma_find_after_set<K, V>(s: Seq<(K, V)>, k: K, v: V)
    ensures
        assoc_find(assoc_set(s, k, v), k) == Some(v),
        assoc_index(assoc_set(s, k, v), k) == if assoc_index(s, k) < s.len() {
            assoc_index(s, k)
        } else {
            s.len() as int
        },
{
    lemma_assoc_index(s, k);
    lemma_assoc_set_form(s, k, v);
    let i = if assoc_index(s, k) < s.len() {
        assoc_index(s, k)
    } else {
        s.len() as int
    };
    let s2 = assoc_set(s, k, v);
    assert(s2[i] == (k, v));
    assert forall|j: int| 0 <= j < i implies s2[j].0 != k by {
        assert(s2[j] == s[j]);
    }
    lemma_first_index(s2, k, i);
}

/// Setting one key leaves every other key's binding unchanged.
pub proof fn lemma_find_after_set_other<K, V>(s: Seq<(K, V)>, k: K, v: V, k2: K)
    requires
        k2 != k,
    ensures
        assoc_find(assoc_set(s, k, v), k2) == assoc_find(s, k2),
{
    lemma_assoc_index(s, k);
    lemma_assoc_set_form(s, k, v);
    lemma_assoc_index(s, k2);
    let s2 = assoc_set(s, k, v);
    let i2 = assoc_index(s, k2);
    if i2 < s.len() {
        assert(s2[i2] == s[i2]);
        assert forall|j: int| 0 <= j < i2 implies s2[j].0 != k2 by {
            if s2[j] != s[j] {
                assert(s2[j].0 == k);
            }
        }
        lemma_first_index(s2, k2, i2);
        lemma_first_index(s, k2, i2);
    } else {
        assert forall|j: int| 0 <= j < s2.len() implies s2[j].0 != k2 by {
            if j < s.len() && s2[j] == s[j] {
            } else {
                assert(s2[j].0 == k);
            }
        }
        lemma_absent_index(s2, k2);
    }
}

/// Removing one key leaves every other key's binding unchanged.
pub proof fn lemma_find_after_remove_other<K, V>(s: Seq<(K, V)>, k: K, k2: K)
    requires
        k2 != k,
    ensures
        assoc_find(assoc_remove(s, k), k2) == assoc_find(s, k2),
{
    lemma_assoc_index(s, k);
    lemma_assoc_remove_form(s, k);
    lemma_assoc_index(s, k2);
    let i = assoc_index(s, k);
    if i == s.len() {
    } else {
        let s2 = assoc_remove(s, k);
        let i2 = assoc_index(s, k2);
        if i2 < s.len() {
            if i2 < i {
                assert(s2[i2] == s[i2]);
                assert forall|j: int| 0 <= j < i2 implies s2[j].0 != k2 by {
                    assert(s2[j] == s[j]);
                }
                lemma_first_index(s2, k2, i2);
                lemma_first_index(s, k2, i2);
            } else {
                // i2 != i because s[i].0 == k != k2
                assert(s2[i2 - 1] == s[i2]);
                assert forall|j: int| 0 <= j < i2 - 1 implies s2[j].0 != k2 by {
                    if j < i {
                        assert(s2[j] == s[j]);
                    } else {
                        assert(s2[j] == s[j + 1]);
                    }
                }
                lemma_first_index(s2, k2, i2 - 1);
                lemma_first_index(s, k2, i2);
            }
        } else {
            assert forall|j: int| 0 <= j < s2.len() implies s2[j].0 != k2 by {
                if j < i {
                    assert(s2[j] == s[j]);
                } else {
                    assert(s2[j] == s[j + 1]);
                }
            }
            lemma_absent_index(s2, k2);
        }
    }
}

/// With distinct keys, a removed key is gone.
pub proof fn lemma_find_after_remove<K, V>(s: Seq<(K, V)>, k: K)
    requires
        distinct_keys(s),
    ensures
        assoc_find(assoc_remove(s, k), k) is None,
{
    lemma_assoc_index(s, k);
    lemma_assoc_remove_form(s, k);
    let i = assoc_index(s, k);
    if i == s.len() {
    } else {
        let s2 = assoc_remove(s, k);
        assert forall|j: int| 0 <= j < s2.len() implies s2[j].0 != k by {
            if j < i {
                assert(s2[j] == s[j]);
            } else {
                assert(s2[j] == s[j + 1]);
                assert(s[i].0 != s[j + 1].0);
            }
        }
        lemma_absent_index(s2, k);
    }
}

/// `assoc_set` keeps keys distinct.
pub proof fn lemma_set_preserves_distinct<K, V>(s: Seq<(K, V)>, k: K, v: V)
    requires
        distinct_keys(s),
    ensures
        distinct_keys(assoc_set(s, k, v)),
{
    lemma_assoc_index(s, k);
    lemma_assoc_set_form(s, k, v);
    let s2 = assoc_set(s, k, v);
    let i = assoc_index(s, k);
    if i < s.len() {
        assert forall|x: int, y: int| 0 <= x < y < s2.len() implies s2[x].0 != s2[y].0 by {
            assert(s2[x].0 == s[x].0);
            assert(s2[y].0 == s[y].0);
        }
    } else {
        assert forall|x: int, y: int| 0 <= x < y < s2.len() implies s2[x].0 != s2[y].0 by {
            if y == s.len() {
                assert(s[x].0 != k);
            }
        }
    }
}

/// `assoc_remove` keeps keys distinct.
pub proof fn lemma_remove_preserves_distinct<K, V>(s: Seq<(K, V)>, k: K)
    requires
        distinct_keys(s),
    ensures
        distinct_keys(assoc_remove(s, k)),
{
    lemma_assoc_index(s, k);
    lemma_assoc_remove_form(s, k);
    let i = assoc_index(s, k);
    if i < s.len() {
        let s2 = assoc_remove(s, k);
        assert forall|x: int, y: int| 0 <= x < y < s2.len() implies s2[x].0 != s2[y].0 by {
            let x0 = if x < i { x } else { x + 1 };
            let y0 = if y < i { y } else { y + 1 };
            assert(s2[x] == s[x0]);
            assert(s2[y] == s[y0]);
        }
    }
}

/// Setting the same key twice keeps only the second value.
pub proof fn lemma_set_set_same<K, V>(s: Seq<(K, V)>, k: K, a: V, b: V)
    ensures
        assoc_set(assoc_set(s, k, a), k, b) == assoc_set(s, k, b),
{
    lemma_assoc_index(s, k);
    lemma_assoc_set_form(s, k, a);
    lemma_assoc_set_form(s, k, b);
    lemma_find_after_set(s, k, a);
    let s1 = assoc_set(s, k, a);
    lemma_assoc_set_form(s1, k, b);
    let i = assoc_index(s, k);
    if i < s.len() {
        assert(assoc_set(s1, k, b) =~= assoc_set(s, k, b));
    } else {
        assert(assoc_set(s1, k, b) =~= assoc_set(s, k, b));
    }
}

} // verus!
