//! XML tree to compact JSON value and back.
//!
//! Every element child of an element goes, in document order, into a
//! `_children` array, so the JSON form keeps element order.
use vstd::prelude::*;
use crate::strings::{str_eq, to_owned_string};
use crate::xml_node::{
    XNode, XVal, XmlNode, XmlValue, pairs_view, vals_view, lemma_children_view, spec_is_text_leaf,
    spec_is_simple_kv, spec_leaf_text, is_text_leaf, is_simple_kv_node, leaf_text, spec_text_leaf,
    spec_text_element, node_result_view, opt_str_view, lemma_vals_view_push, text_leaf_node,
    text_element_node, attr_insert,
};
use crate::error::ConvertError;
use crate::assoc::{afind, aget, ahas, ainsert, lemma_afind_range};
use crate::json_value::{
    JVal, JsonValue, jinsert, jentries_view, jvals_view, lemma_object_view, lemma_array_view,
    obj_insert, obj_get, obj_find,
};

verus! {

/// `"true"` and `"false"` become JSON booleans; every other text stays a string.
pub open spec fn spec_smart_json(t: Seq<char>) -> JVal {
    if t == "true"@ {
        JVal::Bool(true)
    } else if t == "false"@ {
        JVal::Bool(false)
    } else {
        JVal::Str(t)
    }
}

/// The text children of a sequence of children, in order.
pub open spec fn texts_of(cs: Seq<XVal>) -> Seq<Seq<char>>
    decreases cs.len(),
{
    if cs.len() == 0 {
        Seq::empty()
    } else {
        texts_of(cs.drop_last()) + match cs.last() {
            XVal::Text(t) => seq![t],
            XVal::Node(_) => Seq::empty(),
        }
    }
}

/// The attributes as a JSON object's entries.
pub open spec fn attrs_json(attrs: Seq<(Seq<char>, Seq<char>)>) -> Seq<(Seq<char>, JVal)>
    decreases attrs.len(),
{
    if attrs.len() == 0 {
        Seq::empty()
    } else {
        jinsert(attrs_json(attrs.drop_last()), attrs.last().0, JVal::Str(attrs.last().1))
    }
}

/// `_tag`, then `_ns` when there is a namespace, then `_attrs` when there are attributes.
pub open spec fn json_head(n: XNode) -> Seq<(Seq<char>, JVal)> {
    let m0 = seq![("_tag"@, JVal::Str(n.tag))];
    let m1 = match n.ns {
        Some(ns) => jinsert(m0, "_ns"@, JVal::Str(ns)),
        None => m0,
    };
    if n.attrs.len() > 0 {
        jinsert(m1, "_attrs"@, JVal::Object(attrs_json(n.attrs), Seq::empty()))
    } else {
        m1
    }
}

/// Texts as JSON strings.
pub open spec fn json_strs(ts: Seq<Seq<char>>) -> Seq<JVal> {
    Seq::new(ts.len(), |i: int| JVal::Str(ts[i]))
}

/// An element as a JSON object: `_tag`, `_ns`, `_attrs`, then `_text` (the
/// only child when that is text, with `true`/`false` as booleans; else the
/// text children as a string or an array of strings), then `_children`, the
/// element children in document order.
pub open spec fn spec_node_to_json(n: XNode) -> JVal
    decreases n, 0int,
{
    let m = json_head(n);
    if n.children.len() == 0 {
        JVal::Object(m, Seq::empty())
    } else if n.children.len() == 1 && n.children[0] is Text {
        JVal::Object(jinsert(m, "_text"@, spec_smart_json(n.children[0]->Text_0)), Seq::empty())
    } else {
        let texts = texts_of(n.children);
        let m3 = if texts.len() == 0 {
            m
        } else if texts.len() == 1 {
            jinsert(m, "_text"@, JVal::Str(texts[0]))
        } else {
            jinsert(m, "_text"@, JVal::Array(json_strs(texts), Seq::empty()))
        };
        let kids = spec_children_json(n.children);
        let m4 = if kids.len() > 0 {
            jinsert(m3, "_children"@, JVal::Array(kids, Seq::empty()))
        } else {
            m3
        };
        JVal::Object(m4, Seq::empty())
    }
}

/// The `_children` entries of the element children, in order.
pub open spec fn spec_children_json(cs: Seq<XVal>) -> Seq<JVal>
    decreases cs, 0int,
{
    if cs.len() == 0 {
        Seq::empty()
    } else {
        spec_children_json(cs.drop_last()) + match cs.last() {
            XVal::Node(c) => seq![spec_child_node_to_json(c)],
            XVal::Text(_) => Seq::empty(),
        }
    }
}

/// The key-value entries of a container: each element child's tag with its
/// text (booleans for `true`/`false`), after the entries of `init`.
pub open spec fn kv_json(cs: Seq<XVal>, init: Seq<(Seq<char>, JVal)>) -> Seq<(Seq<char>, JVal)>
    decreases cs.len(),
{
    if cs.len() == 0 {
        init
    } else {
        let rest = kv_json(cs.drop_last(), init);
        match cs.last() {
            XVal::Node(c) => jinsert(rest, c.tag, spec_smart_json(spec_leaf_text(c))),
            XVal::Text(_) => rest,
        }
    }
}

/// A child element in `_children`: a leaf as `{"_tag", "_text"}`, a
/// key-value container as `{"_tag", key: value, ...}`, anything else in full.
pub open spec fn spec_child_node_to_json(c: XNode) -> JVal
    decreases c, 1int,
{
    let m0 = seq![("_tag"@, JVal::Str(c.tag))];
    if spec_is_text_leaf(c) {
        JVal::Object(jinsert(m0, "_text"@, spec_smart_json(spec_leaf_text(c))), Seq::empty())
    } else if spec_is_simple_kv(c) {
        JVal::Object(kv_json(c.children, m0), Seq::empty())
    } else {
        spec_node_to_json(c)
    }
}

// ─── Executable ────────────────────────────────────────────────────

/// `"true"`/`"false"` as booleans, other text as a string.
pub fn smart_json_value(text: &str) -> (r: JsonValue)
    ensures
        r.view() == spec_smart_json(text@),
{
    if str_eq(text, "true") {
        JsonValue::Bool(true)
    } else if str_eq(text, "false") {
        JsonValue::Bool(false)
    } else {
        JsonValue::Str(to_owned_string(text))
    }
}

fn key(s: &str) -> (r: String)
    ensures
        r@ == s@,
{
    to_owned_string(s)
}

fn empty_rendered() -> (r: String)
    ensures
        r@ == Seq::<char>::empty(),
{
    String::new()
}

fn head_entries(node: &XmlNode) -> (r: Vec<(String, JsonValue)>)
    ensures
        jentries_view(r@) == json_head(node.view()),
{
    let mut m: Vec<(String, JsonValue)> = Vec::new();
    m.push((key("_tag"), JsonValue::Str(node.tag.clone())));
    assert(jentries_view(m@) =~= seq![("_tag"@, JVal::Str(node.tag@))]);
    match &node.namespace {
        Some(ns) => obj_insert(&mut m, key("_ns"), JsonValue::Str(ns.clone())),
        None => {},
    }
    if node.attrs.len() > 0 {
        let mut attrs: Vec<(String, JsonValue)> = Vec::new();
        let n = node.attrs.len();
        let mut i: usize = 0;
        while i < n
            invariant
                n == node.attrs.len(),
                i <= n,
                jentries_view(attrs@) == attrs_json(pairs_view(node.attrs@.take(i as int))),
            decreases n - i,
        {
            proof {
                let pv = pairs_view(node.attrs@.take(i + 1));
                assert(pv.drop_last() =~= pairs_view(node.attrs@.take(i as int)));
            }
            obj_insert(&mut attrs, node.attrs[i].0.clone(), JsonValue::Str(node.attrs[i].1.clone()));
            i = i + 1;
        }
        assert(node.attrs@.take(n as int) =~= node.attrs@);
        let ghost av = jentries_view(attrs@);
        let r = empty_rendered();
        proof { lemma_object_view(attrs, r); }
        obj_insert(&mut m, key("_attrs"), JsonValue::Object(attrs, r));
    }
    m
}

/// An element as a JSON object (see `spec_node_to_json`).
pub fn node_to_json_value(node: &XmlNode) -> (r: JsonValue)
    ensures
        r.view() == spec_node_to_json(node.view()),
    decreases node, 0int,
{
    proof { lemma_children_view(node); }
    let ghost nv = node.view();
    let mut m = head_entries(node);
    if node.children.len() == 0 {
        let r = empty_rendered();
        proof { lemma_object_view(m, r); }
        return JsonValue::Object(m, r);
    }
    if node.children.len() == 1 {
        assert(nv.children[0] == node.children@[0].view());
        if let XmlValue::Text(t) = &node.children[0] {
            obj_insert(&mut m, key("_text"), smart_json_value(t.as_str()));
            let r = empty_rendered();
            proof { lemma_object_view(m, r); }
            return JsonValue::Object(m, r);
        }
    }
    // Text children, and the `_children` entries, in one pass in document order.
    let mut texts: Vec<JsonValue> = Vec::new();
    let mut kids: Vec<JsonValue> = Vec::new();
    let n = node.children.len();
    let mut i: usize = 0;
    while i < n
        invariant
            n == node.children.len(),
            nv == node.view(),
            nv.children == vals_view(node.children@),
            i <= n,
            jvals_view(texts@) == json_strs(texts_of(nv.children.take(i as int))),
            jvals_view(kids@) == spec_children_json(nv.children.take(i as int)),
        decreases n - i,
    {
        let ghost cv = nv.children.take(i + 1);
        assert(cv.drop_last() =~= nv.children.take(i as int));
        assert(cv.last() == node.children@[i as int].view());
        let ghost old_texts = texts@;
        let ghost old_kids = kids@;
        match &node.children[i] {
            XmlValue::Text(t) => {
                texts.push(JsonValue::Str(t.clone()));
                assert(texts_of(cv) == texts_of(nv.children.take(i as int)) + seq![t@]);
                assert(spec_children_json(cv) == spec_children_json(nv.children.take(i as int)));
                assert(jvals_view(texts@) =~= jvals_view(old_texts).push(JVal::Str(t@)));
                assert(json_strs(texts_of(cv)) =~= json_strs(texts_of(nv.children.take(i as int))).push(JVal::Str(t@)));
            },
            XmlValue::Node(c) => {
                let cj = child_node_to_json(c);
                kids.push(cj);
                assert(texts_of(cv) == texts_of(nv.children.take(i as int)));
                assert(spec_children_json(cv) == spec_children_json(nv.children.take(i as int)) + seq![spec_child_node_to_json(c.view())]);
                assert(jvals_view(kids@) =~= jvals_view(old_kids).push(cj.view()));
            },
        }
        assert(jvals_view(texts@) =~= json_strs(texts_of(cv)));
        assert(jvals_view(kids@) =~= spec_children_json(cv));
        i = i + 1;
    }
    assert(nv.children.take(n as int) =~= nv.children);
    let ghost tv = texts_of(nv.children);
    assert(texts@.len() == tv.len());
    if texts.len() == 1 {
        assert(texts@[0].view() == jvals_view(texts@)[0]);
        let t = texts.pop().unwrap();
        assert(t.view() == JVal::Str(tv[0]));
        obj_insert(&mut m, key("_text"), t);
    } else if texts.len() > 1 {
        let r = empty_rendered();
        proof { lemma_array_view(texts, r); }
        obj_insert(&mut m, key("_text"), JsonValue::Array(texts, r));
    }
    if kids.len() > 0 {
        let r = empty_rendered();
        proof { lemma_array_view(kids, r); }
        obj_insert(&mut m, key("_children"), JsonValue::Array(kids, r));
    }
    let r = empty_rendered();
    proof { lemma_object_view(m, r); }
    JsonValue::Object(m, r)
}

/// A child element as a `_children` entry (see `spec_child_node_to_json`).
pub fn child_node_to_json(node: &XmlNode) -> (r: JsonValue)
    ensures
        r.view() == spec_child_node_to_json(node.view()),
    decreases node, 1int,
{
    proof { lemma_children_view(node); }
    let ghost nv = node.view();
    let mut m: Vec<(String, JsonValue)> = Vec::new();
    m.push((key("_tag"), JsonValue::Str(node.tag.clone())));
    let ghost m0 = seq![("_tag"@, JVal::Str(nv.tag))];
    assert(jentries_view(m@) =~= m0);
    if is_text_leaf(node) {
        obj_insert(&mut m, key("_text"), smart_json_value(leaf_text(node)));
        let r = empty_rendered();
        proof { lemma_object_view(m, r); }
        return JsonValue::Object(m, r);
    }
    if is_simple_kv_node(node) {
        let n = node.children.len();
        let mut i: usize = 0;
        while i < n
            invariant
                n == node.children.len(),
                nv == node.view(),
                nv.children == vals_view(node.children@),
                i <= n,
                jentries_view(m@) == kv_json(nv.children.take(i as int), m0),
            decreases n - i,
        {
            let ghost cv = nv.children.take(i + 1);
            assert(cv.drop_last() =~= nv.children.take(i as int));
            assert(cv.last() == node.children@[i as int].view());
            if let XmlValue::Node(c) = &node.children[i] {
                obj_insert(&mut m, c.tag.clone(), smart_json_value(leaf_text(c)));
            }
            i = i + 1;
        }
        assert(nv.children.take(n as int) =~= nv.children);
        let r = empty_rendered();
        proof { lemma_object_view(m, r); }
        return JsonValue::Object(m, r);
    }
    node_to_json_value(node)
}


// ─── JSON → XML ────────────────────────────────────────────────────

/// A JSON value standing where text is expected: a string as itself, a
/// boolean as `true`/`false`, a number as its decimal text, `null` as
/// nothing, an array or object as its compact JSON text.
pub open spec fn json_value_text(v: JVal) -> Seq<char> {
    match v {
        JVal::Str(s) => s,
        JVal::Bool(b) => if b { "true"@ } else { "false"@ },
        JVal::Number(n) => n,
        JVal::Null => Seq::empty(),
        JVal::Array(_, r) => r,
        JVal::Object(_, r) => r,
    }
}

/// The attributes of `_attrs`: each entry whose value is a string, inserted in order.
pub open spec fn json_attrs_back(a: Seq<(Seq<char>, JVal)>) -> Seq<(Seq<char>, Seq<char>)>
    decreases a.len(),
{
    if a.len() == 0 {
        Seq::empty()
    } else {
        let rest = json_attrs_back(a.drop_last());
        match a.last().1 {
            JVal::Str(v) => ainsert(rest, a.last().0, v),
            _ => rest,
        }
    }
}

/// The text children that `_text` stands for: an array gives one text per
/// item, `null` none, anything else one.
pub open spec fn json_text_children(t: JVal) -> Seq<XVal> {
    match t {
        JVal::Null => Seq::empty(),
        JVal::Array(items, _) => Seq::new(items.len(), |i: int| XVal::Text(json_value_text(items[i]))),
        _ => seq![XVal::Text(json_value_text(t))],
    }
}

/// Keys with a meaning of their own in an element object.
pub open spec fn json_reserved(k: Seq<char>) -> bool {
    k == "_tag"@ || k == "_ns"@ || k == "_attrs"@ || k == "_text"@ || k == "_children"@
}

/// A JSON element object as an XML element: `_tag` (required), `_ns`,
/// `_attrs`, the text children of `_text`, then the elements of `_children`
/// in order, then one element per other key (an array giving one per item).
pub open spec fn spec_json_to_node(v: JVal) -> Result<XNode, ConvertError>
    decreases v, 0int,
{
    match v {
        JVal::Object(es, _) => match aget(es, "_tag"@) {
            Some(JVal::Str(tag)) => {
                let ns = match aget(es, "_ns"@) {
                    Some(JVal::Str(s)) => Some(s),
                    _ => None,
                };
                let attrs = match aget(es, "_attrs"@) {
                    Some(JVal::Object(a, _)) => json_attrs_back(a),
                    _ => Seq::empty(),
                };
                let c1 = match aget(es, "_text"@) {
                    Some(t) => json_text_children(t),
                    None => Seq::empty(),
                };
                let c2 = match afind(es, "_children"@) {
                    Some(ci) => {
                        proof { lemma_afind_range(es, "_children"@); }
                        match es[ci].1 {
                            JVal::Array(items, _) => json_children_items(items),
                            _ => Ok(Seq::empty()),
                        }
                    },
                    None => Ok(Seq::empty()),
                };
                match c2 {
                    Err(e) => Err(e),
                    Ok(c2) => match json_named_children(es) {
                        Err(e) => Err(e),
                        Ok(c3) => Ok(XNode { tag, ns, attrs, children: c1 + c2 + c3 }),
                    },
                }
            },
            _ => Err(ConvertError::MissingJsonTag),
        },
        _ => Err(ConvertError::ExpectedJsonObject),
    }
}

/// The elements of a `_children` array, in order; the first failure stops.
pub open spec fn json_children_items(items: Seq<JVal>) -> Result<Seq<XVal>, ConvertError>
    decreases items, 0int,
{
    if items.len() == 0 {
        Ok(Seq::empty())
    } else {
        match json_children_items(items.drop_last()) {
            Err(e) => Err(e),
            Ok(acc) => match spec_json_child(items.last()) {
                Err(e) => Err(e),
                Ok(c) => Ok(acc.push(XVal::Node(c))),
            },
        }
    }
}

/// The leaf elements of a key-value entry object: one per key other than `_tag`.
pub open spec fn json_kv_back(es: Seq<(Seq<char>, JVal)>, skip_tag: bool) -> Seq<XVal>
    decreases es.len(),
{
    if es.len() == 0 {
        Seq::empty()
    } else {
        let rest = json_kv_back(es.drop_last(), skip_tag);
        if skip_tag && es.last().0 == "_tag"@ {
            rest
        } else {
            rest.push(XVal::Node(spec_text_leaf(es.last().0, json_value_text(es.last().1))))
        }
    }
}

/// An entry of `_children`: with `_children`, `_ns` or `_attrs` a full
/// element; else with `_text` a leaf; else a key-value container.
pub open spec fn spec_json_child(v: JVal) -> Result<XNode, ConvertError>
    decreases v, 1int,
{
    match v {
        JVal::Object(es, _) => match aget(es, "_tag"@) {
            Some(JVal::Str(tag)) => if ahas(es, "_children"@) || ahas(es, "_ns"@) || ahas(es, "_attrs"@) {
                spec_json_to_node(v)
            } else {
                match aget(es, "_text"@) {
                    Some(t) => Ok(spec_text_leaf(tag, json_value_text(t))),
                    None => Ok(XNode { tag, ns: None, attrs: Seq::empty(), children: json_kv_back(es, true) }),
                }
            },
            _ => Err(ConvertError::MissingJsonChildTag),
        },
        _ => Err(ConvertError::ExpectedJsonObjectInChildren),
    }
}

/// The elements for the keys other than the reserved ones, in order.
pub open spec fn json_named_children(es: Seq<(Seq<char>, JVal)>) -> Result<Seq<XVal>, ConvertError>
    decreases es, 0int,
{
    if es.len() == 0 {
        Ok(Seq::empty())
    } else {
        match json_named_children(es.drop_last()) {
            Err(e) => Err(e),
            Ok(acc) => {
                let k = es.last().0;
                let val = es.last().1;
                if json_reserved(k) {
                    Ok(acc)
                } else {
                    match val {
                        JVal::Object(_, _) => match spec_json_named(k, val) {
                            Err(e) => Err(e),
                            Ok(c) => Ok(acc.push(XVal::Node(c))),
                        },
                        JVal::Array(arr, _) => match json_named_items(k, arr) {
                            Err(e) => Err(e),
                            Ok(cs) => Ok(acc + cs),
                        },
                        _ => Ok(acc.push(XVal::Node(spec_text_element(k, json_value_text(val))))),
                    }
                }
            },
        }
    }
}

/// The elements named `tag` for the items of an array, in order.
pub open spec fn json_named_items(tag: Seq<char>, arr: Seq<JVal>) -> Result<Seq<XVal>, ConvertError>
    decreases arr, 0int,
{
    if arr.len() == 0 {
        Ok(Seq::empty())
    } else {
        match json_named_items(tag, arr.drop_last()) {
            Err(e) => Err(e),
            Ok(acc) => match spec_json_named(tag, arr.last()) {
                Err(e) => Err(e),
                Ok(c) => Ok(acc.push(XVal::Node(c))),
            },
        }
    }
}

/// The element named `tag` for a value under that key: an object with its
/// own `_tag` is a full element, another object a key-value container,
/// anything else a text element.
pub open spec fn spec_json_named(tag: Seq<char>, v: JVal) -> Result<XNode, ConvertError>
    decreases v, 1int,
{
    match v {
        JVal::Object(m, _) => if ahas(m, "_tag"@) {
            spec_json_to_node(v)
        } else {
            Ok(XNode { tag, ns: None, attrs: Seq::empty(), children: json_kv_back(m, false) })
        },
        _ => Ok(spec_text_element(tag, json_value_text(v))),
    }
}


// ─── JSON → XML, executable ────────────────────────────────────────

proof fn lemma_items_err(items: Seq<JVal>, m: int)
    requires
        0 <= m <= items.len(),
        json_children_items(items.take(m)) is Err,
    ensures
        json_children_items(items) == json_children_items(items.take(m)),
    decreases items.len() - m,
{
    if m < items.len() {
        assert(items.take(m + 1).drop_last() =~= items.take(m));
        lemma_items_err(items, m + 1);
    } else {
        assert(items.take(m) =~= items);
    }
}

proof fn lemma_named_items_err(tag: Seq<char>, arr: Seq<JVal>, m: int)
    requires
        0 <= m <= arr.len(),
        json_named_items(tag, arr.take(m)) is Err,
    ensures
        json_named_items(tag, arr) == json_named_items(tag, arr.take(m)),
    decreases arr.len() - m,
{
    if m < arr.len() {
        assert(arr.take(m + 1).drop_last() =~= arr.take(m));
        lemma_named_items_err(tag, arr, m + 1);
    } else {
        assert(arr.take(m) =~= arr);
    }
}

proof fn lemma_named_children_err(es: Seq<(Seq<char>, JVal)>, m: int)
    requires
        0 <= m <= es.len(),
        json_named_children(es.take(m)) is Err,
    ensures
        json_named_children(es) == json_named_children(es.take(m)),
    decreases es.len() - m,
{
    if m < es.len() {
        assert(es.take(m + 1).drop_last() =~= es.take(m));
        lemma_named_children_err(es, m + 1);
    } else {
        assert(es.take(m) =~= es);
    }
}

/// A JSON value as text (see `json_value_text`).
pub fn json_value_to_string(v: &JsonValue) -> (r: String)
    ensures
        r@ == json_value_text(v.view()),
{
    match v {
        JsonValue::Str(s) => s.clone(),
        JsonValue::Bool(b) => if *b {
            to_owned_string("true")
        } else {
            to_owned_string("false")
        },
        JsonValue::Number(n) => n.clone(),
        JsonValue::Null => String::new(),
        JsonValue::Array(items, r) => {
            proof { lemma_array_view(*items, *r); }
            r.clone()
        },
        JsonValue::Object(es, r) => {
            proof { lemma_object_view(*es, *r); }
            r.clone()
        },
    }
}

pub(crate) fn push_node(children: &mut Vec<XmlValue>, n: XmlNode)
    ensures
        vals_view(final(children)@) == vals_view(old(children)@).push(XVal::Node(n.view())),
{
    let ghost nv = n.view();
    proof { lemma_vals_view_push(children@, XmlValue::Node(n)); }
    children.push(XmlValue::Node(n));
}

pub(crate) fn push_text(children: &mut Vec<XmlValue>, t: String)
    ensures
        vals_view(final(children)@) == vals_view(old(children)@).push(XVal::Text(t@)),
{
    let ghost tv = t@;
    proof { lemma_vals_view_push(children@, XmlValue::Text(t)); }
    children.push(XmlValue::Text(t));
}

fn json_attrs_to_xml(a: &Vec<(String, JsonValue)>) -> (r: Vec<(String, String)>)
    ensures
        pairs_view(r@) == json_attrs_back(jentries_view(a@)),
{
    let ghost av = jentries_view(a@);
    let mut attrs: Vec<(String, String)> = Vec::new();
    let n = a.len();
    let mut i: usize = 0;
    while i < n
        invariant
            n == a.len(),
            av == jentries_view(a@),
            i <= n,
            pairs_view(attrs@) == json_attrs_back(av.take(i as int)),
        decreases n - i,
    {
        assert(av.take(i + 1).drop_last() =~= av.take(i as int));
        assert(av.take(i + 1).last() == (a@[i as int].0@, a@[i as int].1.view()));
        if let JsonValue::Str(val) = &a[i].1 {
            attr_insert(&mut attrs, a[i].0.clone(), val.clone());
        }
        i = i + 1;
    }
    assert(av.take(n as int) =~= av);
    attrs
}

fn push_json_text_children(children: &mut Vec<XmlValue>, t: &JsonValue)
    ensures
        vals_view(final(children)@) == vals_view(old(children)@) + json_text_children(t.view()),
{
    match t {
        JsonValue::Null => {
            assert(vals_view(children@) =~= vals_view(old(children)@) + json_text_children(t.view()));
        },
        JsonValue::Array(items, r) => {
            proof { lemma_array_view(*items, *r); }
            let ghost iv = jvals_view(items@);
            let n = items.len();
            let mut i: usize = 0;
            while i < n
                invariant
                    n == items.len(),
                    iv == jvals_view(items@),
                    i <= n,
                    vals_view(children@) == vals_view(old(children)@) + Seq::new(
                        i as nat,
                        |j: int| XVal::Text(json_value_text(iv[j])),
                    ),
                decreases n - i,
            {
                let ghost before = vals_view(children@);
                push_text(children, json_value_to_string(&items[i]));
                assert(vals_view(children@) =~= vals_view(old(children)@) + Seq::new(
                    (i + 1) as nat,
                    |j: int| XVal::Text(json_value_text(iv[j])),
                ));
                i = i + 1;
            }
            assert(vals_view(children@) =~= vals_view(old(children)@) + json_text_children(t.view()));
        },
        _ => {
            push_text(children, json_value_to_string(t));
            assert(vals_view(children@) =~= vals_view(old(children)@) + json_text_children(t.view()));
        },
    }
}

pub(crate) fn make_node(tag: String, namespace: Option<String>, attrs: Vec<(String, String)>, children: Vec<XmlValue>) -> (r: XmlNode)
    ensures
        r.view() == (XNode { tag: tag@, ns: opt_str_view(namespace), attrs: pairs_view(attrs@), children: vals_view(children@) }),
{
    let r = XmlNode { tag, namespace, attrs, children };
    proof { lemma_children_view(&r); }
    r
}

fn push_json_children_items(children: &mut Vec<XmlValue>, items: &Vec<JsonValue>) -> (r: Result<(), ConvertError>)
    ensures
        r is Ok ==> json_children_items(jvals_view(items@)) is Ok && vals_view(final(children)@) == vals_view(
            old(children)@,
        ) + json_children_items(jvals_view(items@))->Ok_0,
        r matches Err(e) ==> json_children_items(jvals_view(items@)) == Err::<Seq<XVal>, ConvertError>(e),
    decreases items, 0int,
{
    let ghost iv = jvals_view(items@);
    let ghost start = vals_view(children@);
    let n = items.len();
    let mut i: usize = 0;
    while i < n
        invariant
            n == items.len(),
            iv == jvals_view(items@),
            i <= n,
            json_children_items(iv.take(i as int)) is Ok,
            vals_view(children@) == start + json_children_items(iv.take(i as int))->Ok_0,
        decreases n - i,
    {
        assert(iv.take(i + 1).drop_last() =~= iv.take(i as int));
        assert(iv.take(i + 1).last() == items@[i as int].view());
        proof {
            assert(decreases_to!(*items => items@));
            assert(decreases_to!(items@ => items@[i as int]));
        }
        match json_child(&items[i]) {
            Ok(c) => {
                push_node(children, c);
                assert(vals_view(children@) =~= start + json_children_items(iv.take(i + 1))->Ok_0);
            },
            Err(e) => {
                proof { lemma_items_err(iv, i + 1); }
                return Err(e);
            },
        }
        i = i + 1;
    }
    assert(iv.take(n as int) =~= iv);
    Ok(())
}

fn push_json_named_items(children: &mut Vec<XmlValue>, tag: &str, arr: &Vec<JsonValue>) -> (r: Result<(), ConvertError>)
    ensures
        r is Ok ==> json_named_items(tag@, jvals_view(arr@)) is Ok && vals_view(final(children)@) == vals_view(
            old(children)@,
        ) + json_named_items(tag@, jvals_view(arr@))->Ok_0,
        r matches Err(e) ==> json_named_items(tag@, jvals_view(arr@)) == Err::<Seq<XVal>, ConvertError>(e),
    decreases arr, 0int,
{
    let ghost av = jvals_view(arr@);
    let ghost start = vals_view(children@);
    let m = arr.len();
    let mut j: usize = 0;
    while j < m
        invariant
            m == arr.len(),
            av == jvals_view(arr@),
            j <= m,
            json_named_items(tag@, av.take(j as int)) is Ok,
            vals_view(children@) == start + json_named_items(tag@, av.take(j as int))->Ok_0,
        decreases m - j,
    {
        assert(av.take(j + 1).drop_last() =~= av.take(j as int));
        assert(av.take(j + 1).last() == arr@[j as int].view());
        proof {
            assert(decreases_to!(*arr => arr@));
            assert(decreases_to!(arr@ => arr@[j as int]));
        }
        match json_named(tag, &arr[j]) {
            Ok(c) => {
                push_node(children, c);
                assert(vals_view(children@) =~= start + json_named_items(tag@, av.take(j + 1))->Ok_0);
            },
            Err(e) => {
                proof { lemma_named_items_err(tag@, av, j + 1); }
                return Err(e);
            },
        }
        j = j + 1;
    }
    assert(av.take(m as int) =~= av);
    Ok(())
}

fn push_json_named_children(children: &mut Vec<XmlValue>, es: &Vec<(String, JsonValue)>) -> (r: Result<(), ConvertError>)
    ensures
        r is Ok ==> json_named_children(jentries_view(es@)) is Ok && vals_view(final(children)@) == vals_view(
            old(children)@,
        ) + json_named_children(jentries_view(es@))->Ok_0,
        r matches Err(e) ==> json_named_children(jentries_view(es@)) == Err::<Seq<XVal>, ConvertError>(e),
    decreases es, 0int,
{
    let ghost ev = jentries_view(es@);
    let ghost start = vals_view(children@);
    let n = es.len();
    let mut i: usize = 0;
    while i < n
        invariant
            n == es.len(),
            ev == jentries_view(es@),
            i <= n,
            json_named_children(ev.take(i as int)) is Ok,
            vals_view(children@) == start + json_named_children(ev.take(i as int))->Ok_0,
        decreases n - i,
    {
        let ghost pre = ev.take(i as int);
        assert(ev.take(i + 1).drop_last() =~= pre);
        assert(ev.take(i + 1).last() == (es@[i as int].0@, es@[i as int].1.view()));
        let ghost before = vals_view(children@);
        let k = &es[i].0;
        let val = &es[i].1;
        proof {
            assert(decreases_to!(*es => es@));
            assert(decreases_to!(es@ => es@[i as int]));
            assert(decreases_to!(es@[i as int] => es@[i as int].1));
        }
        let reserved = str_eq(k.as_str(), "_tag") || str_eq(k.as_str(), "_ns") || str_eq(k.as_str(), "_attrs")
            || str_eq(k.as_str(), "_text") || str_eq(k.as_str(), "_children");
        if !reserved {
            match val {
                JsonValue::Object(_, _) => {
                    match json_named(k.as_str(), val) {
                        Ok(c) => {
                            push_node(children, c);
                        },
                        Err(e) => {
                            proof {
                                assert(json_named_children(ev.take(i + 1)) == Err::<Seq<XVal>, ConvertError>(e));
                                lemma_named_children_err(ev, i + 1);
                            }
                            return Err(e);
                        },
                    }
                },
                JsonValue::Array(arr, ar) => {
                    proof {
                        lemma_array_view(*arr, *ar);
                        assert(decreases_to!(es@[i as int].1 => *arr));
                    }
                    match push_json_named_items(children, k.as_str(), arr) {
                        Ok(()) => {},
                        Err(e) => {
                            proof {
                                assert(json_named_children(ev.take(i + 1)) == Err::<Seq<XVal>, ConvertError>(e));
                                lemma_named_children_err(ev, i + 1);
                            }
                            return Err(e);
                        },
                    }
                },
                _ => {
                    push_node(children, text_element_node(k.clone(), json_value_to_string(val)));
                },
            }
        }
        assert(vals_view(children@) =~= start + json_named_children(ev.take(i + 1))->Ok_0);
        i = i + 1;
    }
    assert(ev.take(n as int) =~= ev);
    Ok(())
}

/// Turns a JSON element object back into an element (see `spec_json_to_node`).
pub fn json_value_to_node(v: &JsonValue) -> (r: Result<XmlNode, ConvertError>)
    ensures
        node_result_view(r) == spec_json_to_node(v.view()),
    decreases v, 1int,
{
    let es = match v {
        JsonValue::Object(es, rendered) => {
            proof { lemma_object_view(*es, *rendered); }
            es
        },
        _ => return Err(ConvertError::ExpectedJsonObject),
    };
    let ghost ev = jentries_view(es@);
    assert(v.view() == JVal::Object(ev, v.view()->Object_1));
    let tag = match obj_get(es, "_tag") {
        Some(JsonValue::Str(t)) => t.clone(),
        _ => return Err(ConvertError::MissingJsonTag),
    };
    let namespace = match obj_get(es, "_ns") {
        Some(JsonValue::Str(s)) => Some(s.clone()),
        _ => None,
    };
    let attrs = match obj_get(es, "_attrs") {
        Some(JsonValue::Object(a, ar)) => {
            proof { lemma_object_view(*a, *ar); }
            json_attrs_to_xml(a)
        },
        _ => Vec::new(),
    };
    assert(pairs_view(attrs@) =~= match aget(ev, "_attrs"@) {
        Some(JVal::Object(a, _)) => json_attrs_back(a),
        _ => Seq::<(Seq<char>, Seq<char>)>::empty(),
    });
    assert(opt_str_view(namespace) == match aget(ev, "_ns"@) {
        Some(JVal::Str(s)) => Some(s),
        _ => None::<Seq<char>>,
    });
    let mut children: Vec<XmlValue> = Vec::new();
    match obj_get(es, "_text") {
        Some(t) => push_json_text_children(&mut children, t),
        None => {},
    }
    let ghost c1 = vals_view(children@);
    assert(c1 =~= match aget(ev, "_text"@) {
        Some(t) => json_text_children(t),
        None => Seq::<XVal>::empty(),
    });
    let ghost c2spec: Result<Seq<XVal>, ConvertError> = match afind(ev, "_children"@) {
        Some(ci) => match ev[ci].1 {
            JVal::Array(items, _) => json_children_items(items),
            _ => Ok(Seq::<XVal>::empty()),
        },
        None => Ok(Seq::<XVal>::empty()),
    };
    match obj_find(es, "_children") {
        Some(ci) => {
            assert(ev[ci as int] == (es@[ci as int].0@, es@[ci as int].1.view()));
            match &es[ci].1 {
                JsonValue::Array(items, ir) => {
                    proof {
                        lemma_array_view(*items, *ir);
                        assert(decreases_to!(*v => v->Object_0));
                        assert(decreases_to!(v->Object_0 => v->Object_0@));
                        assert(decreases_to!(v->Object_0@ => v->Object_0@[ci as int]));
                        assert(decreases_to!(es@[ci as int] => es@[ci as int].1));
                        assert(decreases_to!(es@[ci as int].1 => *items));
                    }
                    match push_json_children_items(&mut children, items) {
                        Ok(()) => {},
                        Err(e) => return Err(e),
                    }
                },
                _ => {
                    assert(vals_view(children@) =~= c1 + Seq::<XVal>::empty());
                },
            }
        },
        None => {
            assert(vals_view(children@) =~= c1 + Seq::<XVal>::empty());
        },
    }
    assert(c2spec is Ok);
    let ghost c12 = vals_view(children@);
    assert(c12 == c1 + c2spec->Ok_0);
    proof {
        assert(decreases_to!(*v => v->Object_0));
    }
    match push_json_named_children(&mut children, es) {
        Ok(()) => {},
        Err(e) => return Err(e),
    }
    let r = make_node(tag, namespace, attrs, children);
    assert(r.view().children =~= c1 + c2spec->Ok_0 + json_named_children(ev)->Ok_0);
    Ok(r)
}

fn json_kv_to_children(es: &Vec<(String, JsonValue)>, skip_tag: bool) -> (r: Vec<XmlValue>)
    ensures
        vals_view(r@) == json_kv_back(jentries_view(es@), skip_tag),
{
    let ghost ev = jentries_view(es@);
    let mut children: Vec<XmlValue> = Vec::new();
    let n = es.len();
    let mut i: usize = 0;
    while i < n
        invariant
            n == es.len(),
            ev == jentries_view(es@),
            i <= n,
            vals_view(children@) == json_kv_back(ev.take(i as int), skip_tag),
        decreases n - i,
    {
        assert(ev.take(i + 1).drop_last() =~= ev.take(i as int));
        assert(ev.take(i + 1).last() == (es@[i as int].0@, es@[i as int].1.view()));
        if !(skip_tag && str_eq(es[i].0.as_str(), "_tag")) {
            push_node(&mut children, text_leaf_node(es[i].0.clone(), json_value_to_string(&es[i].1)));
        }
        i = i + 1;
    }
    assert(ev.take(n as int) =~= ev);
    children
}

/// An entry of `_children` as an element (see `spec_json_child`).
pub fn json_child(v: &JsonValue) -> (r: Result<XmlNode, ConvertError>)
    ensures
        node_result_view(r) == spec_json_child(v.view()),
    decreases v, 2int,
{
    match v {
        JsonValue::Object(es, rendered) => {
            proof { lemma_object_view(*es, *rendered); }
            let tag = match obj_get(es, "_tag") {
                Some(JsonValue::Str(t)) => t.clone(),
                _ => return Err(ConvertError::MissingJsonChildTag),
            };
            if obj_find(es, "_children").is_some() || obj_find(es, "_ns").is_some() || obj_find(es, "_attrs").is_some() {
                return json_value_to_node(v);
            }
            match obj_get(es, "_text") {
                Some(t) => Ok(text_leaf_node(tag, json_value_to_string(t))),
                None => {
                    let children = json_kv_to_children(es, true);
                    let r = make_node(tag, None, Vec::new(), children);
                    assert(r.view().attrs =~= Seq::<(Seq<char>, Seq<char>)>::empty());
                    Ok(r)
                },
            }
        },
        _ => Err(ConvertError::ExpectedJsonObjectInChildren),
    }
}

/// The element named `tag` for a value under that key (see `spec_json_named`).
pub fn json_named(tag: &str, v: &JsonValue) -> (r: Result<XmlNode, ConvertError>)
    ensures
        node_result_view(r) == spec_json_named(tag@, v.view()),
    decreases v, 2int,
{
    match v {
        JsonValue::Object(m, mr) => {
            proof { lemma_object_view(*m, *mr); }
            if obj_find(m, "_tag").is_some() {
                json_value_to_node(v)
            } else {
                let children = json_kv_to_children(m, false);
                let r = make_node(to_owned_string(tag), None, Vec::new(), children);
                assert(r.view().attrs =~= Seq::<(Seq<char>, Seq<char>)>::empty());
                Ok(r)
            }
        },
        _ => Ok(text_element_node(to_owned_string(tag), json_value_to_string(v))),
    }
}

} // verus!
