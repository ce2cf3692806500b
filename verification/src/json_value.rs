//! The JSON value tree that the compact JSON format is written in.
use vstd::prelude::*;
use crate::strings::{str_eq, to_owned_string};
use crate::assoc::{afind, aget, ainsert, lemma_afind_first, lemma_afind_none, lemma_afind_range};

verus! {

/// Mathematical model of a JSON value. Arrays and objects carry, besides
/// their items, the compact JSON text of the whole value (`rendered`): the
/// conversion back to XML reads it where such a value stands in the place
/// of text. Values built by this library leave it empty.
pub ghost enum JVal {
    Null,
    Bool(bool),
    Number(Seq<char>),
    Str(Seq<char>),
    Array(Seq<JVal>, Seq<char>),
    Object(Seq<(Seq<char>, JVal)>, Seq<char>),
}

/// A JSON value. A number holds its decimal text; an array or object holds
/// its items and its compact JSON text (empty in values built here).
pub enum JsonValue {
    Null,
    Bool(bool),
    Number(String),
    Str(String),
    Array(Vec<JsonValue>, String),
    Object(Vec<(String, JsonValue)>, String),
}

impl JsonValue {
    pub open spec fn view(&self) -> JVal
        decreases self,
    {
        match self {
            JsonValue::Null => JVal::Null,
            JsonValue::Bool(b) => JVal::Bool(*b),
            JsonValue::Number(n) => JVal::Number(n@),
            JsonValue::Str(s) => JVal::Str(s@),
            JsonValue::Array(items, r) => JVal::Array(
                Seq::new(
                    items@.len(),
                    |i: int|
                        if 0 <= i < items@.len() {
                            items@[i].view()
                        } else {
                            JVal::Null
                        },
                ),
                r@,
            ),
            JsonValue::Object(es, r) => JVal::Object(
                Seq::new(
                    es@.len(),
                    |i: int|
                        if 0 <= i < es@.len() {
                            (es@[i].0@, es@[i].1.view())
                        } else {
                            (Seq::empty(), JVal::Null)
                        },
                ),
                r@,
            ),
        }
    }
}

/// The models of a sequence of values.
pub open spec fn jvals_view(vs: Seq<JsonValue>) -> Seq<JVal> {
    Seq::new(vs.len(), |i: int| vs[i].view())
}

/// The models of the entries of an object.
pub open spec fn jentries_view(es: Seq<(String, JsonValue)>) -> Seq<(Seq<char>, JVal)> {
    Seq::new(es.len(), |i: int| (es[i].0@, es[i].1.view()))
}

pub proof fn lemma_array_view(items: Vec<JsonValue>, r: String)
    ensures
        JsonValue::Array(items, r).view() == JVal::Array(jvals_view(items@), r@),
{
    assert(JsonValue::Array(items, r).view()->Array_0 =~= jvals_view(items@));
}

pub proof fn lemma_object_view(es: Vec<(String, JsonValue)>, r: String)
    ensures
        JsonValue::Object(es, r).view() == JVal::Object(jentries_view(es@), r@),
{
    assert(JsonValue::Object(es, r).view()->Object_0 =~= jentries_view(es@));
}

// ─── Objects as association lists ──────────────────────────────────

/// The position of key `k` among an object's entries.
pub open spec fn jfind(es: Seq<(Seq<char>, JVal)>, k: Seq<char>) -> Option<int> {
    afind(es, k)
}

/// The value under key `k`.
pub open spec fn jget(es: Seq<(Seq<char>, JVal)>, k: Seq<char>) -> Option<JVal> {
    aget(es, k)
}

/// Inserting into an object as a map that keeps insertion order does.
pub open spec fn jinsert(es: Seq<(Seq<char>, JVal)>, k: Seq<char>, v: JVal) -> Seq<(Seq<char>, JVal)> {
    ainsert(es, k, v)
}

/// The position of key `k` among the entries.
pub fn obj_find(es: &Vec<(String, JsonValue)>, k: &str) -> (r: Option<usize>)
    ensures
        r matches Some(i) ==> jfind(jentries_view(es@), k@) == Some(i as int) && i < es@.len(),
        r is None ==> jfind(jentries_view(es@), k@) is None,
{
    let ghost ev = jentries_view(es@);
    let n = es.len();
    let mut i: usize = 0;
    while i < n
        invariant
            n == es.len(),
            ev == jentries_view(es@),
            i <= n,
            forall|j: int| 0 <= j < i ==> ev[j].0 != k@,
        decreases n - i,
    {
        if str_eq(es[i].0.as_str(), k) {
            proof { lemma_afind_first(ev, k@, i as int); }
            return Some(i);
        }
        i = i + 1;
    }
    proof { lemma_afind_none(ev, k@); }
    None
}

/// The value under key `k`.
pub fn obj_get<'a>(es: &'a Vec<(String, JsonValue)>, k: &str) -> (r: Option<&'a JsonValue>)
    ensures
        r matches Some(v) ==> jget(jentries_view(es@), k@) == Some(v.view()),
        r is None ==> jget(jentries_view(es@), k@) is None,
{
    match obj_find(es, k) {
        Some(i) => Some(&es[i].1),
        None => None,
    }
}

/// Inserts `k: v` (see `jinsert`).
pub fn obj_insert(es: &mut Vec<(String, JsonValue)>, k: String, v: JsonValue)
    ensures
        jentries_view(final(es)@) == jinsert(jentries_view(old(es)@), k@, v.view()),
{
    let ghost kv = k@;
    let ghost vv = v.view();
    match obj_find(es, k.as_str()) {
        Some(i) => {
            es.set(i, (k, v));
            assert(jentries_view(es@) =~= jinsert(jentries_view(old(es)@), kv, vv));
        },
        None => {
            es.push((k, v));
            assert(jentries_view(es@) =~= jinsert(jentries_view(old(es)@), kv, vv));
        },
    }
}

/// Takes the entry under `k` out of an object's entries.
pub(crate) fn take_entry(es: &mut Vec<(String, JsonValue)>, k: &str) -> (r: Option<(usize, String, JsonValue)>)
    ensures
        r matches Some((i, ks, v)) ==> {
            &&& jfind(jentries_view(old(es)@), k@) == Some(i as int)
            &&& jget(jentries_view(old(es)@), k@) == Some(v.view())
            &&& ks@ == k@
            &&& final(es)@ == old(es)@.remove(i as int)
        },
        r is None ==> jfind(jentries_view(old(es)@), k@) is None && final(es)@ == old(es)@,
{
    match obj_find(es, k) {
        Some(i) => {
            proof { lemma_afind_range(jentries_view(es@), k@); }
            let (ks, v) = es.remove(i);
            Some((i, ks, v))
        },
        None => None,
    }
}

/// Puts `k: v` back where `take_entry` took it from (or last).
pub(crate) fn put_entry(
    es: &mut Vec<(String, JsonValue)>,
    at: Option<(usize, String)>,
    k: &str,
    v: JsonValue,
    Ghost(orig): Ghost<Seq<(String, JsonValue)>>,
)
    requires
        match at {
            Some((i, ks)) => {
                &&& jfind(jentries_view(orig), k@) == Some(i as int)
                &&& ks@ == k@
                &&& old(es)@ == orig.remove(i as int)
            },
            None => jfind(jentries_view(orig), k@) is None && old(es)@ == orig,
        },
    ensures
        jentries_view(final(es)@) == jinsert(jentries_view(orig), k@, v.view()),
{
    let ghost vv = v.view();
    proof { lemma_afind_range(jentries_view(orig), k@); }
    match at {
        Some((i, ks)) => {
            es.insert(i, (ks, v));
            assert(jentries_view(es@) =~= jentries_view(orig).update(i as int, (k@, vv)));
        },
        None => {
            es.push((to_owned_string(k), v));
            assert(jentries_view(es@) =~= jentries_view(orig).push((k@, vv)));
        },
    }
}

} // verus!
