//! Association lists that behave as insertion-ordered maps.
use vstd::prelude::*;

verus! {

/// The position of the first entry with key `k`.
pub open spec fn afind<K, V>(es: Seq<(K, V)>, k: K) -> Option<int>
    decreases es.len(),
{
    if es.len() == 0 {
        None
    } else {
        match afind(es.drop_last(), k) {
            Some(i) => Some(i),
            None => if es.last().0 == k {
                Some(es.len() - 1)
            } else {
                None
            },
        }
    }
}

/// The value under key `k`.
pub open spec fn aget<K, V>(es: Seq<(K, V)>, k: K) -> Option<V> {
    match afind(es, k) {
        Some(i) => Some(es[i].1),
        None => None,
    }
}

/// Whether some entry has key `k`.
pub open spec fn ahas<K, V>(es: Seq<(K, V)>, k: K) -> bool {
    afind(es, k) is Some
}

/// Inserting as an insertion-ordered map does: a present key keeps its
/// place and takes the new value, a new key goes last.
pub open spec fn ainsert<K, V>(es: Seq<(K, V)>, k: K, v: V) -> Seq<(K, V)> {
    match afind(es, k) {
        Some(i) => es.update(i, (k, v)),
        None => es.push((k, v)),
    }
}

/// Removing a key by swapping the last entry into its place (the cheap
/// removal of an insertion-ordered map).
pub open spec fn aswap_remove<K, V>(es: Seq<(K, V)>, k: K) -> Seq<(K, V)> {
    match afind(es, k) {
        Some(i) => es.update(i, es.last()).drop_last(),
        None => es,
    }
}

/// No key occurs twice.
pub open spec fn keys_distinct<K, V>(es: Seq<(K, V)>) -> bool {
    forall|i: int, j: int| 0 <= i < j < es.len() ==> es[i].0 != es[j].0
}

pub proof fn lemma_afind_range<K, V>(es: Seq<(K, V)>, k: K)
    ensures
        afind(es, k) matches Some(i) ==> 0 <= i < es.len() && es[i].0 == k && forall|j: int|
            0 <= j < i ==> es[j].0 != k,
        afind(es, k) is None ==> forall|j: int| 0 <= j < es.len() ==> es[j].0 != k,
    decreases es.len(),
{
    if es.len() > 0 {
        let d = es.drop_last();
        lemma_afind_range(d, k);
        assert forall|j: int| 0 <= j < d.len() implies d[j] == es[j] by {}
    }
}

pub proof fn lemma_afind_first<K, V>(es: Seq<(K, V)>, k: K, i: int)
    requires
        0 <= i < es.len(),
        es[i].0 == k,
        forall|j: int| 0 <= j < i ==> es[j].0 != k,
    ensures
        afind(es, k) == Some(i),
    decreases es.len(),
{
    lemma_afind_range(es, k);
    if i < es.len() - 1 {
        lemma_afind_first(es.drop_last(), k, i);
    } else {
        lemma_afind_range(es.drop_last(), k);
    }
}

pub proof fn lemma_afind_none<K, V>(es: Seq<(K, V)>, k: K)
    requires
        forall|j: int| 0 <= j < es.len() ==> es[j].0 != k,
    ensures
        afind(es, k) is None,
{
    lemma_afind_range(es, k);
}

/// Finding in a list with distinct keys: the unique position.
pub proof fn lemma_afind_at<K, V>(es: Seq<(K, V)>, k: K, i: int)
    requires
        keys_distinct(es),
        0 <= i < es.len(),
        es[i].0 == k,
    ensures
        afind(es, k) == Some(i),
        aget(es, k) == Some(es[i].1),
{
    lemma_afind_first(es, k, i);
}

/// Inserting a key that is not present appends it.
pub proof fn lemma_ainsert_new<K, V>(es: Seq<(K, V)>, k: K, v: V)
    requires
        forall|j: int| 0 <= j < es.len() ==> es[j].0 != k,
    ensures
        ainsert(es, k, v) == es.push((k, v)),
{
    lemma_afind_none(es, k);
}

} // verus!

verus! {

/// Finding in a concatenation: the first part first.
pub proof fn lemma_afind_concat<K, V>(a: Seq<(K, V)>, b: Seq<(K, V)>, k: K)
    ensures
        afind(a + b, k) == match afind(a, k) {
            Some(i) => Some(i),
            None => match afind(b, k) {
                Some(j) => Some(a.len() + j),
                None => None,
            },
        },
    decreases b.len(),
{
    if b.len() == 0 {
        assert(a + b =~= a);
    } else {
        assert((a + b).drop_last() =~= a + b.drop_last());
        lemma_afind_concat(a, b.drop_last(), k);
        assert((a + b).last() == b.last());
    }
}

/// Looking up in a concatenation: the first part first.
pub proof fn lemma_aget_concat<K, V>(a: Seq<(K, V)>, b: Seq<(K, V)>, k: K)
    ensures
        aget(a + b, k) == match aget(a, k) {
            Some(v) => Some(v),
            None => aget(b, k),
        },
        ahas(a + b, k) == (ahas(a, k) || ahas(b, k)),
{
    lemma_afind_concat(a, b, k);
    lemma_afind_range(a, k);
    lemma_afind_range(b, k);
    match afind(a, k) {
        Some(i) => {
            assert((a + b)[i] == a[i]);
        },
        None => match afind(b, k) {
            Some(j) => {
                assert((a + b)[a.len() + j] == b[j]);
            },
            None => {},
        },
    }
}

/// Looking up in a one-entry list.
pub proof fn lemma_aget_single<K, V>(k0: K, v0: V, k: K)
    ensures
        aget(seq![(k0, v0)], k) == (if k == k0 { Some(v0) } else { None }),
        ahas(seq![(k0, v0)], k) == (k == k0),
{
    let s = seq![(k0, v0)];
    assert(s.drop_last() =~= Seq::<(K, V)>::empty());
    assert(afind(s.drop_last(), k) is None);
    assert(s.last() == (k0, v0));
    assert(afind(s, k) == (if k == k0 { Some(0int) } else { None }));
}

pub proof fn lemma_ainsert_distinct<K, V>(es: Seq<(K, V)>, k: K, v: V)
    requires
        keys_distinct(es),
    ensures
        keys_distinct(ainsert(es, k, v)),
        forall|i: int|
            0 <= i < ainsert(es, k, v).len() ==> (#[trigger] ainsert(es, k, v)[i]).0 == k || (i < es.len()
                && ainsert(es, k, v)[i].0 == es[i].0),
{
    lemma_afind_range(es, k);
}

/// Looking up after an insertion: the inserted key gives the new value,
/// every other key what it gave before.
pub proof fn lemma_aget_ainsert<K, V>(es: Seq<(K, V)>, k1: K, v1: V, k: K)
    ensures
        aget(ainsert(es, k1, v1), k) == if k == k1 {
            Some(v1)
        } else {
            aget(es, k)
        },
{
    lemma_afind_range(es, k1);
    lemma_afind_range(es, k);
    match afind(es, k1) {
        Some(i) => {
            let u = es.update(i, (k1, v1));
            if k == k1 {
                lemma_afind_first(u, k, i);
            } else {
                match afind(es, k) {
                    Some(j) => {
                        assert(j != i);
                        assert forall|q: int| 0 <= q < j implies u[q].0 != k by {
                            if q == i {
                            } else {
                                assert(u[q] == es[q]);
                            }
                        }
                        lemma_afind_first(u, k, j);
                    },
                    None => {
                        assert forall|q: int| 0 <= q < u.len() implies u[q].0 != k by {
                            if q != i {
                                assert(u[q] == es[q]);
                            }
                        }
                        lemma_afind_none(u, k);
                    },
                }
            }
        },
        None => {
            let u = es.push((k1, v1));
            assert(u =~= es + seq![(k1, v1)]);
            lemma_aget_concat(es, seq![(k1, v1)], k);
            lemma_aget_single(k1, v1, k);
            if k == k1 {
                assert(aget(es, k) is None);
            }
        },
    }
}

/// Removing a key by swapping keeps the keys distinct; the removed key is
/// gone and every other key gives what it gave before.
pub proof fn lemma_aget_swap_remove<K, V>(es: Seq<(K, V)>, k0: K, k: K)
    requires
        keys_distinct(es),
    ensures
        keys_distinct(aswap_remove(es, k0)),
        aget(aswap_remove(es, k0), k) == if k == k0 {
            None
        } else {
            aget(es, k)
        },
{
    lemma_afind_range(es, k0);
    lemma_afind_range(es, k);
    match afind(es, k0) {
        Some(i) => {
            let n = es.len();
            let r = es.update(i, es.last()).drop_last();
            assert(r.len() == n - 1);
            assert forall|q: int| 0 <= q < r.len() implies (#[trigger] r[q]) == if q == i {
                es[n - 1]
            } else {
                es[q]
            } by {}
            assert forall|a: int, b: int| 0 <= a < b < r.len() implies r[a].0 != r[b].0 by {
                if a == i {
                    assert(r[a] == es[n - 1] && r[b] == es[b]);
                } else if b == i {
                    assert(r[b] == es[n - 1] && r[a] == es[a]);
                } else {
                    assert(r[a] == es[a] && r[b] == es[b]);
                }
            }
            if k == k0 {
                assert forall|q: int| 0 <= q < r.len() implies r[q].0 != k by {
                    if q == i {
                        assert(r[q] == es[n - 1]);
                    } else {
                        assert(r[q] == es[q]);
                    }
                }
                lemma_afind_none(r, k);
            } else {
                match afind(es, k) {
                    Some(j) => {
                        if j < n - 1 {
                            assert(r[j] == es[j]);
                            lemma_afind_at(r, k, j);
                        } else {
                            assert(i < n - 1);
                            assert(r[i] == es[n - 1]);
                            lemma_afind_at(r, k, i);
                        }
                        lemma_afind_at(es, k, j);
                    },
                    None => {
                        assert forall|q: int| 0 <= q < r.len() implies r[q].0 != k by {
                            if q == i {
                                assert(r[q] == es[n - 1]);
                            } else {
                                assert(r[q] == es[q]);
                            }
                        }
                        lemma_afind_none(r, k);
                    },
                }
            }
        },
        None => {},
    }
}

/// Inserting under the same key twice: the second value is what stays.
pub proof fn lemma_ainsert_ainsert<K, V>(es: Seq<(K, V)>, k: K, v1: V, v2: V)
    ensures
        ainsert(ainsert(es, k, v1), k, v2) == ainsert(es, k, v2),
{
    lemma_afind_range(es, k);
    let once = ainsert(es, k, v1);
    match afind(es, k) {
        Some(i) => {
            lemma_afind_first(once, k, i);
            assert(once.update(i, (k, v2)) =~= es.update(i, (k, v2)));
        },
        None => {
            lemma_afind_first(once, k, es.len() as int);
            assert(once.update(es.len() as int, (k, v2)) =~= es.push((k, v2)));
        },
    }
}

} // verus!
