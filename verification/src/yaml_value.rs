//! The YAML value tree that the compact YAML formats are written in.
use vstd::prelude::*;
use crate::strings::str_eq;
use crate::assoc::{afind, aget, ainsert, aswap_remove, lemma_afind_first, lemma_afind_none};

verus! {

/// Mathematical model of a YAML value. Sequences and mappings carry, besides
/// their items, their YAML text (`rendered`, trimmed), and a tagged value is
/// held only by its YAML text: the conversion back to XML reads those where
/// such a value stands in the place of text. Values built by this library
/// leave the text empty.
pub ghost enum YVal {
    Null,
    Bool(bool),
    Number(Seq<char>),
    Str(Seq<char>),
    Sequence(Seq<YVal>, Seq<char>),
    Mapping(Seq<(YVal, YVal)>, Seq<char>),
    Tagged(Seq<char>),
}

/// A YAML value. A number holds its decimal text; a sequence or mapping
/// holds its items and its trimmed YAML text (empty in values built here);
/// a tagged value holds its trimmed YAML text.
pub enum YamlValue {
    Null,
    Bool(bool),
    Number(String),
    Str(String),
    Sequence(Vec<YamlValue>, String),
    Mapping(Vec<(YamlValue, YamlValue)>, String),
    Tagged(String),
}

impl YamlValue {
    pub open spec fn view(&self) -> YVal
        decreases self,
    {
        match self {
            YamlValue::Null => YVal::Null,
            YamlValue::Bool(b) => YVal::Bool(*b),
            YamlValue::Number(n) => YVal::Number(n@),
            YamlValue::Str(s) => YVal::Str(s@),
            YamlValue::Sequence(items, r) => YVal::Sequence(
                Seq::new(
                    items@.len(),
                    |i: int|
                        if 0 <= i < items@.len() {
                            items@[i].view()
                        } else {
                            YVal::Null
                        },
                ),
                r@,
            ),
            YamlValue::Mapping(es, r) => YVal::Mapping(
                Seq::new(
                    es@.len(),
                    |i: int|
                        if 0 <= i < es@.len() {
                            (es@[i].0.view(), es@[i].1.view())
                        } else {
                            (YVal::Null, YVal::Null)
                        },
                ),
                r@,
            ),
            YamlValue::Tagged(r) => YVal::Tagged(r@),
        }
    }
}

/// The models of a sequence of values.
pub open spec fn yvals_view(vs: Seq<YamlValue>) -> Seq<YVal> {
    Seq::new(vs.len(), |i: int| vs[i].view())
}

/// The models of the entries of a mapping.
pub open spec fn yentries_view(es: Seq<(YamlValue, YamlValue)>) -> Seq<(YVal, YVal)> {
    Seq::new(es.len(), |i: int| (es[i].0.view(), es[i].1.view()))
}

pub proof fn lemma_sequence_view(items: Vec<YamlValue>, r: String)
    ensures
        YamlValue::Sequence(items, r).view() == YVal::Sequence(yvals_view(items@), r@),
{
    assert(YamlValue::Sequence(items, r).view()->Sequence_0 =~= yvals_view(items@));
}

pub proof fn lemma_mapping_view(es: Vec<(YamlValue, YamlValue)>, r: String)
    ensures
        YamlValue::Mapping(es, r).view() == YVal::Mapping(yentries_view(es@), r@),
{
    assert(YamlValue::Mapping(es, r).view()->Mapping_0 =~= yentries_view(es@));
}

/// The key `k` as a YAML string key.
pub open spec fn ykey(k: Seq<char>) -> YVal {
    YVal::Str(k)
}

// ─── Size, for termination of the readers ───────────────────────────

/// The number of sequences and mappings in a value.
pub open spec fn ysize(v: YVal) -> nat
    decreases v, 0int,
{
    match v {
        YVal::Sequence(items, _) => 1 + ysize_items(items),
        YVal::Mapping(es, _) => 1 + ysize_entries(es),
        _ => 0,
    }
}

/// The sizes of items, summed.
pub open spec fn ysize_items(items: Seq<YVal>) -> nat
    decreases items, 0int,
{
    if items.len() == 0 {
        0
    } else {
        ysize_items(items.drop_last()) + ysize(items.last())
    }
}

/// The sizes of the values of entries, summed.
pub open spec fn ysize_entries(es: Seq<(YVal, YVal)>) -> nat
    decreases es, 0int,
{
    if es.len() == 0 {
        0
    } else {
        ysize_entries(es.drop_last()) + ysize(es.last().1)
    }
}

pub proof fn lemma_ysize_item_le(items: Seq<YVal>, i: int)
    requires
        0 <= i < items.len(),
    ensures
        ysize(items[i]) <= ysize_items(items),
    decreases items.len(),
{
    if i < items.len() - 1 {
        lemma_ysize_item_le(items.drop_last(), i);
    }
}

pub proof fn lemma_ysize_entry_le(es: Seq<(YVal, YVal)>, i: int)
    requires
        0 <= i < es.len(),
    ensures
        ysize(es[i].1) <= ysize_entries(es),
    decreases es.len(),
{
    if i < es.len() - 1 {
        lemma_ysize_entry_le(es.drop_last(), i);
    }
}

pub proof fn lemma_ysize_entries_update(es: Seq<(YVal, YVal)>, i: int, e: (YVal, YVal))
    requires
        0 <= i < es.len(),
    ensures
        ysize_entries(es.update(i, e)) + ysize(es[i].1) == ysize_entries(es) + ysize(e.1),
    decreases es.len(),
{
    let u = es.update(i, e);
    if i < es.len() - 1 {
        assert(u.drop_last() =~= es.drop_last().update(i, e));
        lemma_ysize_entries_update(es.drop_last(), i, e);
    } else {
        assert(u.drop_last() =~= es.drop_last());
    }
}

pub proof fn lemma_ysize_entries_insert(es: Seq<(YVal, YVal)>, k: YVal, v: YVal)
    ensures
        ysize_entries(ainsert(es, k, v)) <= ysize_entries(es) + ysize(v),
{
    crate::assoc::lemma_afind_range(es, k);
    match afind(es, k) {
        Some(i) => {
            lemma_ysize_entries_update(es, i, (k, v));
        },
        None => {
            assert(es.push((k, v)).drop_last() =~= es);
        },
    }
}

// ─── Mappings as association lists ─────────────────────────────────

/// The position of the string key `k` in a mapping's entries.
pub fn map_find(es: &Vec<(YamlValue, YamlValue)>, k: &str) -> (r: Option<usize>)
    ensures
        r matches Some(i) ==> afind(yentries_view(es@), ykey(k@)) == Some(i as int) && i < es@.len(),
        r is None ==> afind(yentries_view(es@), ykey(k@)) is None,
{
    let ghost ev = yentries_view(es@);
    let n = es.len();
    let mut i: usize = 0;
    while i < n
        invariant
            n == es.len(),
            ev == yentries_view(es@),
            i <= n,
            forall|j: int| 0 <= j < i ==> ev[j].0 != ykey(k@),
        decreases n - i,
    {
        let hit = match &es[i].0 {
            YamlValue::Str(s) => str_eq(s.as_str(), k),
            _ => false,
        };
        if hit {
            proof { lemma_afind_first(ev, ykey(k@), i as int); }
            return Some(i);
        }
        i = i + 1;
    }
    proof { lemma_afind_none(ev, ykey(k@)); }
    None
}

/// The value under the string key `k`.
pub fn map_get<'a>(es: &'a Vec<(YamlValue, YamlValue)>, k: &str) -> (r: Option<&'a YamlValue>)
    ensures
        r matches Some(v) ==> aget(yentries_view(es@), ykey(k@)) == Some(v.view()),
        r is None ==> aget(yentries_view(es@), ykey(k@)) is None,
{
    match map_find(es, k) {
        Some(i) => Some(&es[i].1),
        None => None,
    }
}

/// Whether two values are equal (their models are).
#[verifier::loop_isolation(false)]
pub fn yaml_eq(a: &YamlValue, b: &YamlValue) -> (r: bool)
    ensures
        r == (a.view() == b.view()),
    decreases a,
{
    match (a, b) {
        (YamlValue::Null, YamlValue::Null) => true,
        (YamlValue::Bool(x), YamlValue::Bool(y)) => *x == *y,
        (YamlValue::Number(x), YamlValue::Number(y)) => *x == *y,
        (YamlValue::Str(x), YamlValue::Str(y)) => *x == *y,
        (YamlValue::Tagged(x), YamlValue::Tagged(y)) => *x == *y,
        (YamlValue::Sequence(xs, xr), YamlValue::Sequence(ys, yr)) => {
            proof {
                lemma_sequence_view(*xs, *xr);
                lemma_sequence_view(*ys, *yr);
            }
            if *xr != *yr || xs.len() != ys.len() {
                assert(yvals_view(xs@).len() == xs@.len());
                assert(yvals_view(ys@).len() == ys@.len());
                return false;
            }
            let n = xs.len();
            let mut i: usize = 0;
            while i < n
                invariant
                    n == xs.len(),
                    n == ys.len(),
                    i <= n,
                    forall|j: int| 0 <= j < i ==> xs@[j].view() == ys@[j].view(),
                decreases n - i,
            {
                proof {
                    assert(decreases_to!(*a => *xs));
                    assert(decreases_to!(*xs => xs@));
                    assert(decreases_to!(xs@ => xs@[i as int]));
                }
                if !yaml_eq(&xs[i], &ys[i]) {
                    assert(yvals_view(xs@)[i as int] != yvals_view(ys@)[i as int]);
                    return false;
                }
                i = i + 1;
            }
            assert(yvals_view(xs@) =~= yvals_view(ys@));
            true
        },
        (YamlValue::Mapping(xs, xr), YamlValue::Mapping(ys, yr)) => {
            proof {
                lemma_mapping_view(*xs, *xr);
                lemma_mapping_view(*ys, *yr);
            }
            if *xr != *yr || xs.len() != ys.len() {
                assert(yentries_view(xs@).len() == xs@.len());
                assert(yentries_view(ys@).len() == ys@.len());
                return false;
            }
            let n = xs.len();
            let mut i: usize = 0;
            while i < n
                invariant
                    n == xs.len(),
                    n == ys.len(),
                    i <= n,
                    forall|j: int| 0 <= j < i ==> xs@[j].0.view() == ys@[j].0.view() && xs@[j].1.view() == ys@[j].1.view(),
                decreases n - i,
            {
                proof {
                    assert(decreases_to!(*a => *xs));
                    assert(decreases_to!(*xs => xs@));
                    assert(decreases_to!(xs@ => xs@[i as int]));
                    assert(decreases_to!(xs@[i as int] => xs@[i as int].0));
                    assert(decreases_to!(xs@[i as int] => xs@[i as int].1));
                }
                if !yaml_eq(&xs[i].0, &ys[i].0) || !yaml_eq(&xs[i].1, &ys[i].1) {
                    assert(yentries_view(xs@)[i as int] != yentries_view(ys@)[i as int]);
                    return false;
                }
                i = i + 1;
            }
            assert(yentries_view(xs@) =~= yentries_view(ys@));
            true
        },
        _ => false,
    }
}

/// A copy of a value with the same model.
#[verifier::loop_isolation(false)]
pub fn yaml_clone(v: &YamlValue) -> (r: YamlValue)
    ensures
        r.view() == v.view(),
    decreases v,
{
    match v {
        YamlValue::Null => YamlValue::Null,
        YamlValue::Bool(b) => YamlValue::Bool(*b),
        YamlValue::Number(n) => YamlValue::Number(n.clone()),
        YamlValue::Str(s) => YamlValue::Str(s.clone()),
        YamlValue::Tagged(t) => YamlValue::Tagged(t.clone()),
        YamlValue::Sequence(xs, xr) => {
            proof { lemma_sequence_view(*xs, *xr); }
            let mut out: Vec<YamlValue> = Vec::new();
            let n = xs.len();
            let mut i: usize = 0;
            while i < n
                invariant
                    n == xs.len(),
                    i <= n,
                    yvals_view(out@) == yvals_view(xs@).take(i as int),
                decreases n - i,
            {
                proof {
                    assert(decreases_to!(*v => *xs));
                    assert(decreases_to!(*xs => xs@));
                    assert(decreases_to!(xs@ => xs@[i as int]));
                }
                out.push(yaml_clone(&xs[i]));
                assert(yvals_view(out@) =~= yvals_view(xs@).take(i + 1));
                i = i + 1;
            }
            assert(yvals_view(xs@).take(n as int) =~= yvals_view(xs@));
            let r = xr.clone();
            proof { lemma_sequence_view(out, r); }
            YamlValue::Sequence(out, r)
        },
        YamlValue::Mapping(xs, xr) => {
            proof { lemma_mapping_view(*xs, *xr); }
            let mut out: Vec<(YamlValue, YamlValue)> = Vec::new();
            let n = xs.len();
            let mut i: usize = 0;
            while i < n
                invariant
                    n == xs.len(),
                    i <= n,
                    yentries_view(out@) == yentries_view(xs@).take(i as int),
                decreases n - i,
            {
                proof {
                    assert(decreases_to!(*v => *xs));
                    assert(decreases_to!(*xs => xs@));
                    assert(decreases_to!(xs@ => xs@[i as int]));
                    assert(decreases_to!(xs@[i as int] => xs@[i as int].0));
                    assert(decreases_to!(xs@[i as int] => xs@[i as int].1));
                }
                let k = yaml_clone(&xs[i].0);
                let val = yaml_clone(&xs[i].1);
                out.push((k, val));
                assert(yentries_view(out@) =~= yentries_view(xs@).take(i + 1));
                i = i + 1;
            }
            assert(yentries_view(xs@).take(n as int) =~= yentries_view(xs@));
            let r = xr.clone();
            proof { lemma_mapping_view(out, r); }
            YamlValue::Mapping(out, r)
        },
    }
}

/// Inserts `k: v` as an insertion-ordered map does.
pub fn map_insert(es: &mut Vec<(YamlValue, YamlValue)>, k: YamlValue, v: YamlValue)
    ensures
        yentries_view(final(es)@) == ainsert(yentries_view(old(es)@), k.view(), v.view()),
{
    let ghost ev = yentries_view(es@);
    let ghost kv = k.view();
    let ghost vv = v.view();
    let n = es.len();
    let mut i: usize = 0;
    while i < n
        invariant
            n == es.len(),
            ev == yentries_view(es@),
            es@ == old(es)@,
            kv == k.view(),
            vv == v.view(),
            i <= n,
            forall|j: int| 0 <= j < i ==> ev[j].0 != kv,
        decreases n - i,
    {
        if yaml_eq(&es[i].0, &k) {
            proof { lemma_afind_first(ev, kv, i as int); }
            es.set(i, (k, v));
            assert(yentries_view(es@) =~= ainsert(ev, kv, vv));
            return;
        }
        i = i + 1;
    }
    proof { lemma_afind_none(ev, kv); }
    es.push((k, v));
    assert(yentries_view(es@) =~= ainsert(ev, kv, vv));
}

/// Removes the string key `k` by swapping the last entry into its place.
pub fn map_swap_remove(es: &mut Vec<(YamlValue, YamlValue)>, k: &str)
    ensures
        yentries_view(final(es)@) == aswap_remove(yentries_view(old(es)@), ykey(k@)),
{
    let ghost ev = yentries_view(es@);
    match map_find(es, k) {
        Some(i) => {
            es.swap_remove(i);
            assert(yentries_view(es@) =~= ev.update(i as int, ev.last()).drop_last());
        },
        None => {},
    }
}

} // verus!
