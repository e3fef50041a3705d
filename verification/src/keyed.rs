//! Shared reasoning about sequences of entries addressed by a resource key.
//!
//! The arbiter, the store cache and the in-memory storage model all keep
//! their per-key state as a vector of entries, each entry carrying its key.
//! This module gives that layout one spec-level lookup function, `key_index`,
//! together with the lemmas the three modules need: how the lookup behaves
//! under an in-place update and under appending a fresh entry.

use vstd::prelude::*;

verus! {

/// An entry addressed by a resource key.
pub trait Keyed {
    /// The key under which this entry is filed.
    spec fn key_of(&self) -> Seq<char>;
}

/// The index of the first entry filed under `k`, or -1 when no entry is.
pub open spec fn key_index<T: Keyed>(s: Seq<T>, k: Seq<char>) -> int
    decreases s.len(),
{
    if s.len() == 0 {
        -1
    } else if s[0].key_of() == k {
        0
    } else {
        let r = key_index(s.drop_first(), k);
        if r == -1 {
            -1
        } else {
            r + 1
        }
    }
}

/// No two entries are filed under the same key.
pub open spec fn distinct_keys<T: Keyed>(s: Seq<T>) -> bool {
    forall|i: int, j: int| 0 <= i < j < s.len() ==> s[i].key_of() != s[j].key_of()
}

/// `key_index` finds the first entry under `k`: a miss means no entry has
/// that key, a hit points at the earliest one.
pub proof fn lemma_key_index<T: Keyed>(s: Seq<T>, k: Seq<char>)
    ensures
        key_index(s, k) == -1 <==> (forall|j: int| 0 <= j < s.len() ==> s[j].key_of() != k),
        key_index(s, k) != -1 ==> 0 <= key_index(s, k) < s.len()
            && s[key_index(s, k)].key_of() == k
            && (forall|j: int| 0 <= j < key_index(s, k) ==> s[j].key_of() != k),
    decreases s.len(),
{
    if s.len() > 0 && s[0].key_of() != k {
        lemma_key_index(s.drop_first(), k);
        assert forall|j: int| 1 <= j < s.len() implies s[j].key_of() == s.drop_first()[j - 1].key_of() by {}
    }
}

/// Replacing an entry with one filed under the same key moves no lookup.
pub proof fn lemma_key_index_update<T: Keyed>(s: Seq<T>, i: int, e: T)
    requires
        0 <= i < s.len(),
        e.key_of() == s[i].key_of(),
    ensures
        forall|k: Seq<char>| #[trigger] key_index(s.update(i, e), k) == key_index(s, k),
    decreases s.len(),
{
    let s2 = s.update(i, e);
    if i == 0 {
        assert forall|k: Seq<char>| #[trigger] key_index(s2, k) == key_index(s, k) by {
            assert(s2.drop_first() =~= s.drop_first());
        }
    } else {
        lemma_key_index_update(s.drop_first(), i - 1, e);
        assert forall|k: Seq<char>| #[trigger] key_index(s2, k) == key_index(s, k) by {
            assert(s2.drop_first() =~= s.drop_first().update(i - 1, e));
            assert(key_index(s2.drop_first(), k) == key_index(s.drop_first(), k));
        }
    }
}

/// Appending an entry leaves every other key's lookup alone; the new entry
/// is found exactly where no earlier entry shadows it.
pub proof fn lemma_key_index_push<T: Keyed>(s: Seq<T>, e: T)
    ensures
        forall|k: Seq<char>| k != e.key_of() ==> #[trigger] key_index(s.push(e), k) == key_index(
            s,
            k,
        ),
        key_index(s, e.key_of()) == -1 ==> key_index(s.push(e), e.key_of()) == s.len(),
        key_index(s, e.key_of()) != -1 ==> key_index(s.push(e), e.key_of()) == key_index(
            s,
            e.key_of(),
        ),
    decreases s.len(),
{
    let s2 = s.push(e);
    if s.len() == 0 {
        assert(s2.len() == 1);
        assert(s2[0] == e);
        assert(s2.drop_first() =~= Seq::<T>::empty());
        assert forall|k: Seq<char>| k != e.key_of() implies #[trigger] key_index(s2, k)
            == key_index(s, k) by {
            assert(key_index(s2.drop_first(), k) == -1);
            assert(key_index(s2, k) == -1);
        }
        assert(key_index(s2, e.key_of()) == 0);
    } else {
        lemma_key_index_push(s.drop_first(), e);
        assert(s2[0] == s[0]);
        assert(s2.drop_first() =~= s.drop_first().push(e));
        assert forall|k: Seq<char>| k != e.key_of() implies #[trigger] key_index(s2, k)
            == key_index(s, k) by {
            if s[0].key_of() != k {
                assert(key_index(s2.drop_first(), k) == key_index(s.drop_first(), k));
            }
        }
        let ek = e.key_of();
        if s[0].key_of() != ek {
            assert(key_index(s2.drop_first(), ek) == key_index(s.drop_first().push(e), ek));
            let r = key_index(s.drop_first(), ek);
            lemma_key_index(s.drop_first(), ek);
            assert(key_index(s, ek) == if r == -1 { -1 } else { r + 1 });
            if key_index(s, ek) == -1 {
                assert(key_index(s.drop_first(), ek) == -1);
                assert(key_index(s2.drop_first(), ek) == s.drop_first().len());
                assert(key_index(s2, ek) == s.len());
            } else {
                assert(key_index(s.drop_first(), ek) == key_index(s, ek) - 1);
                assert(key_index(s2, ek) == key_index(s, ek));
            }
        }
    }
}

/// Removing an entry unfiles its key, and every other key's lookup still
/// resolves to the same entry as before.
pub proof fn lemma_key_index_remove<T: Keyed>(s: Seq<T>, i: int)
    requires
        0 <= i < s.len(),
        distinct_keys(s),
    ensures
        key_index(s.remove(i), s[i].key_of()) == -1,
        forall|k: Seq<char>|
            k != s[i].key_of() ==> ((#[trigger] key_index(s.remove(i), k) == -1) <==> key_index(
                s,
                k,
            ) == -1),
        forall|k: Seq<char>|
            k != s[i].key_of() && key_index(s, k) != -1 ==> s.remove(i)[key_index(s.remove(i), k)]
                == s[key_index(s, k)],
{
    let s2 = s.remove(i);
    assert(s2.len() == s.len() - 1);
    assert forall|j: int| 0 <= j < s2.len() implies #[trigger] s2[j] == (if j < i {
        s[j]
    } else {
        s[j + 1]
    }) by {}
    lemma_key_index(s2, s[i].key_of());
    assert forall|j: int| 0 <= j < s2.len() implies #[trigger] s2[j].key_of() != s[i].key_of() by {
        if j < i {
            assert(s2[j] == s[j]);
        } else {
            assert(s2[j] == s[j + 1]);
        }
    }
    assert forall|k: Seq<char>|
        k != s[i].key_of() implies ((#[trigger] key_index(s2, k) == -1) <==> key_index(s, k) == -1)
        && (key_index(s, k) != -1 ==> s2[key_index(s2, k)] == s[key_index(s, k)]) by {
        lemma_key_index(s2, k);
        lemma_key_index(s, k);
        if key_index(s, k) != -1 {
            let m = key_index(s, k);
            if m < i {
                assert(s2[m] == s[m]);
            } else {
                assert(m != i);
                assert(s2[m - 1] == s[m]);
            }
            assert(key_index(s2, k) != -1);
            let j2 = key_index(s2, k);
            let m2: int = if j2 < i {
                j2
            } else {
                j2 + 1
            };
            assert(s2[j2] == s[m2]);
            assert(s[m2].key_of() == k);
            assert(m2 == m);
        } else {
            if key_index(s2, k) != -1 {
                let j2 = key_index(s2, k);
                let m2: int = if j2 < i {
                    j2
                } else {
                    j2 + 1
                };
                assert(s2[j2] == s[m2]);
                assert(s[m2].key_of() == k);
            }
        }
    }
}

/// Two sequences whose entries are filed under pointwise equal keys resolve
/// every lookup to the same index.
pub proof fn lemma_key_index_same_keys<T: Keyed>(s1: Seq<T>, s2: Seq<T>)
    requires
        s1.len() == s2.len(),
        forall|i: int| 0 <= i < s1.len() ==> s1[i].key_of() == s2[i].key_of(),
    ensures
        forall|k: Seq<char>| key_index(s1, k) == key_index(s2, k),
    decreases s1.len(),
{
    if s1.len() > 0 {
        assert forall|i: int| 0 <= i < s1.drop_first().len() implies s1.drop_first()[i].key_of()
            == s2.drop_first()[i].key_of() by {
            assert(s1.drop_first()[i] == s1[i + 1]);
            assert(s2.drop_first()[i] == s2[i + 1]);
        }
        lemma_key_index_same_keys(s1.drop_first(), s2.drop_first());
        assert forall|k: Seq<char>| key_index(s1, k) == key_index(s2, k) by {
            assert(key_index(s1.drop_first(), k) == key_index(s2.drop_first(), k));
            assert(s1[0].key_of() == s2[0].key_of());
        }
    }
}

} // verus!
