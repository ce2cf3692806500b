//! A map keyed by strings whose keys are kept in ascending order, so that
//! it is walked and written in key order.
use vstd::prelude::*;
use crate::strings::{seq_lt, str_eq, str_lt, lemma_seq_lt_irreflexive, lemma_seq_lt_transitive, lemma_seq_lt_total};
use crate::assoc::{aget, lemma_afind_first, lemma_afind_none};

verus! {

/// The keys are strictly ascending.
pub open spec fn sorted_keys<V>(es: Seq<(Seq<char>, V)>) -> bool {
    forall|i: int, j: int| 0 <= i < j < es.len() ==> seq_lt(#[trigger] es[i].0, #[trigger] es[j].0)
}

/// Some entry has key `k`.
pub open spec fn has_key<V>(es: Seq<(Seq<char>, V)>, k: Seq<char>) -> bool {
    exists|i: int| 0 <= i < es.len() && (#[trigger] es[i]).0 == k
}

/// The value under key `k`.
pub open spec fn lookup<V>(es: Seq<(Seq<char>, V)>, k: Seq<char>) -> Option<V> {
    aget(es, k)
}

pub proof fn lemma_lookup_none<V>(es: Seq<(Seq<char>, V)>, k: Seq<char>)
    requires
        !has_key(es, k),
    ensures
        lookup(es, k) is None,
{
    lemma_afind_none(es, k);
}

pub proof fn lemma_lookup_at<V>(es: Seq<(Seq<char>, V)>, idx: int)
    requires
        sorted_keys(es),
        0 <= idx < es.len(),
    ensures
        lookup(es, es[idx].0) == Some(es[idx].1),
{
    let k = es[idx].0;
    assert forall|j: int| 0 <= j < idx implies es[j].0 != k by {
        assert(seq_lt(es[j].0, es[idx].0));
        lemma_seq_lt_irreflexive(k);
    }
    lemma_afind_first(es, k, idx);
}

/// The entries with their keys as character sequences.
pub open spec fn keyed_view<V>(es: Seq<(String, V)>) -> Seq<(Seq<char>, V)> {
    Seq::new(es.len(), |i: int| (es[i].0@, es[i].1))
}

/// A map keyed by strings, walked in ascending key order.
pub struct StrMap<V> {
    entries: Vec<(String, V)>,
}

impl<V> StrMap<V> {
    /// The entries, in ascending key order.
    pub closed spec fn view(&self) -> Seq<(Seq<char>, V)> {
        keyed_view(self.entries@)
    }

    #[verifier::type_invariant]
    spec fn keys_ascending(self) -> bool {
        sorted_keys(keyed_view(self.entries@))
    }

    /// An empty map.
    pub fn new() -> (r: Self)
        ensures
            r@ == Seq::<(Seq<char>, V)>::empty(),
    {
        let r = StrMap { entries: Vec::new() };
        assert(r@ =~= Seq::<(Seq<char>, V)>::empty());
        r
    }

    /// Whether the map has no entry.
    pub fn is_empty(&self) -> (r: bool)
        ensures
            r == (self@.len() == 0),
    {
        self.entries.len() == 0
    }

    /// The number of entries.
    pub fn len(&self) -> (r: usize)
        ensures
            r == self@.len(),
    {
        self.entries.len()
    }

    /// The entries, in ascending key order.
    pub fn entries(&self) -> (r: &Vec<(String, V)>)
        ensures
            keyed_view(r@) == self@,
            sorted_keys(self@),
    {
        proof { use_type_invariant(self); }
        &self.entries
    }

    /// Removes every entry.
    pub fn clear(&mut self)
        ensures
            final(self)@.len() == 0,
    {
        self.entries = Vec::new();
        assert(self@.len() == 0);
    }

    /// A map with the given entries, whose keys are ascending.
    pub(crate) fn from_sorted(entries: Vec<(String, V)>) -> (r: Self)
        requires
            sorted_keys(keyed_view(entries@)),
        ensures
            r@ == keyed_view(entries@),
    {
        StrMap { entries }
    }

    /// The value under key `k`.
    pub fn get(&self, k: &str) -> (r: Option<&V>)
        ensures
            r matches Some(v) ==> lookup(self@, k@) == Some(*v),
            r is None ==> lookup(self@, k@) is None,
    {
        proof { use_type_invariant(self); }
        let ghost es = self@;
        let n = self.entries.len();
        let mut i: usize = 0;
        while i < n
            invariant
                n == self.entries@.len(),
                es == keyed_view(self.entries@),
                sorted_keys(es),
                i <= n,
                forall|q: int| 0 <= q < i ==> (#[trigger] es[q]).0 != k@,
            decreases n - i,
        {
            if str_eq(self.entries[i].0.as_str(), k) {
                proof { lemma_lookup_at(es, i as int); }
                return Some(&self.entries[i].1);
            }
            i = i + 1;
        }
        proof { lemma_afind_none(es, k@); }
        None
    }

    /// Sets the value under key `k`, keeping the keys in order; gives back
    /// the value that was there.
    pub fn insert(&mut self, k: String, v: V) -> (r: Option<V>)
        ensures
            forall|k2: Seq<char>| #[trigger] lookup(final(self)@, k2) == if k2 == k@ {
                Some(v)
            } else {
                lookup(old(self)@, k2)
            },
            r matches Some(o) ==> lookup(old(self)@, k@) == Some(o),
            r is None ==> lookup(old(self)@, k@) is None,
            sorted_keys(final(self)@),
    {
        proof { use_type_invariant(&*self); }
        let ghost es = self@;
        let ghost kv = k@;
        let ghost vv = v;
        let n = self.entries.len();
        let mut p: usize = 0;
        while p < n && str_lt(self.entries[p].0.as_str(), k.as_str())
            invariant
                n == self.entries@.len(),
                es == keyed_view(self.entries@),
                kv == k@,
                sorted_keys(es),
                p <= n,
                forall|q: int| 0 <= q < p ==> seq_lt((#[trigger] es[q]).0, kv),
            decreases n - p,
        {
            p = p + 1;
        }
        if p < n && str_eq(self.entries[p].0.as_str(), k.as_str()) {
            proof { lemma_lookup_at(es, p as int); }
            let ghost ne = es.update(p as int, (kv, vv));
            assert(sorted_keys(ne));
            let mut entries = Vec::new();
            std::mem::swap(&mut entries, &mut self.entries);
            let (_, old_v) = entries.remove(p);
            entries.insert(p, (k, v));
            assert(keyed_view(entries@) =~= ne);
            self.entries = entries;
            proof {
                assert forall|k2: Seq<char>| #[trigger] lookup(ne, k2) == if k2 == kv {
                    Some(vv)
                } else {
                    lookup(es, k2)
                } by {
                    if k2 == kv {
                        lemma_lookup_at(ne, p as int);
                    } else if has_key(es, k2) {
                        let i = choose|i: int| 0 <= i < es.len() && (#[trigger] es[i]).0 == k2;
                        lemma_lookup_at(es, i);
                        lemma_lookup_at(ne, i);
                    } else {
                        assert(!has_key(ne, k2));
                        lemma_lookup_none(ne, k2);
                        lemma_lookup_none(es, k2);
                    }
                }
            }
            Some(old_v)
        } else {
            if p < n {
                proof {
                    lemma_seq_lt_total(es[p as int].0, kv);
                }
            }
            let ghost ne = es.insert(p as int, (kv, vv));
            assert forall|i: int, j: int| 0 <= i < j < ne.len() implies seq_lt(#[trigger] ne[i].0, #[trigger] ne[j].0) by {
                if j < p {
                } else if j == p {
                } else if i < p {
                    lemma_seq_lt_transitive(ne[i].0, kv, es[p as int].0);
                    if j - 1 > p {
                        lemma_seq_lt_transitive(ne[i].0, es[p as int].0, ne[j].0);
                    }
                } else if i == p {
                    if j - 1 > p {
                        lemma_seq_lt_transitive(kv, es[p as int].0, ne[j].0);
                    }
                } else {
                }
            }
            let mut entries = Vec::new();
            std::mem::swap(&mut entries, &mut self.entries);
            entries.insert(p, (k, v));
            assert(keyed_view(entries@) =~= ne);
            self.entries = entries;
            proof {
                assert(!has_key(es, kv)) by {
                    if has_key(es, kv) {
                        let i = choose|i: int| 0 <= i < es.len() && (#[trigger] es[i]).0 == kv;
                        if i < p {
                            lemma_seq_lt_irreflexive(kv);
                        } else {
                            if i > p {
                                lemma_seq_lt_transitive(kv, es[p as int].0, es[i].0);
                            }
                            lemma_seq_lt_irreflexive(kv);
                        }
                    }
                }
                lemma_lookup_none(es, kv);
                assert forall|k2: Seq<char>| #[trigger] lookup(ne, k2) == if k2 == kv {
                    Some(vv)
                } else {
                    lookup(es, k2)
                } by {
                    if k2 == kv {
                        lemma_lookup_at(ne, p as int);
                    } else if has_key(es, k2) {
                        let i = choose|i: int| 0 <= i < es.len() && (#[trigger] es[i]).0 == k2;
                        lemma_lookup_at(es, i);
                        if i < p {
                            lemma_lookup_at(ne, i);
                        } else {
                            assert(ne[i + 1] == es[i]);
                            lemma_lookup_at(ne, i + 1);
                        }
                    } else {
                        if has_key(ne, k2) {
                            let i = choose|i: int| 0 <= i < ne.len() && (#[trigger] ne[i]).0 == k2;
                            if i < p {
                                assert(es[i].0 == k2);
                            } else if i > p {
                                assert(es[i - 1].0 == k2);
                            }
                        }
                        lemma_lookup_none(ne, k2);
                        lemma_lookup_none(es, k2);
                    }
                }
            }
            None
        }
    }
}

} // verus!
