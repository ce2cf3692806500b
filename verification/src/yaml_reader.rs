//! Compact YAML value back to an XML tree, for the grouped and the ordered form.
use vstd::prelude::*;
use crate::assoc::{afind, aget, ahas, ainsert, lemma_afind_range};
use crate::error::ConvertError;
use crate::strings::{str_eq, to_owned_string};
use crate::xml_node::{
    XNode, XVal, XmlNode, XmlValue, node_result_view, opt_str_view, pairs_view, vals_view, attr_insert,
    spec_text_leaf, spec_text_element, text_leaf_node, text_element_node,
};
use crate::json_writer::{push_node, push_text, make_node};
use crate::yaml_value::{
    YVal, YamlValue, ykey, ysize, ysize_items, ysize_entries, yvals_view, yentries_view, lemma_mapping_view,
    lemma_sequence_view, lemma_ysize_entries_insert, lemma_ysize_entry_le, lemma_ysize_item_le, map_find, map_get,
    map_insert, yaml_clone,
};

verus! {

/// A YAML value standing where text is expected: a string as itself, a
/// boolean as `true`/`false`, a number as its text, null as nothing, any
/// other value as its YAML text.
pub open spec fn yaml_value_text(v: YVal) -> Seq<char> {
    match v {
        YVal::Str(s) => s,
        YVal::Bool(b) => if b {
            "true"@
        } else {
            "false"@
        },
        YVal::Number(n) => n,
        YVal::Null => Seq::empty(),
        YVal::Sequence(_, r) => r,
        YVal::Mapping(_, r) => r,
        YVal::Tagged(r) => r,
    }
}

/// The attributes of `_attrs`: each entry whose key and value are strings, inserted in order.
pub open spec fn yaml_attrs_back(a: Seq<(YVal, YVal)>) -> Seq<(Seq<char>, Seq<char>)>
    decreases a.len(),
{
    if a.len() == 0 {
        Seq::empty()
    } else {
        let rest = yaml_attrs_back(a.drop_last());
        match (a.last().0, a.last().1) {
            (YVal::Str(k), YVal::Str(v)) => ainsert(rest, k, v),
            _ => rest,
        }
    }
}

/// The string items of a sequence as text children; other items are dropped.
pub open spec fn yaml_str_items(items: Seq<YVal>) -> Seq<XVal>
    decreases items.len(),
{
    if items.len() == 0 {
        Seq::empty()
    } else {
        let rest = yaml_str_items(items.drop_last());
        match items.last() {
            YVal::Str(s) => rest.push(XVal::Text(s)),
            _ => rest,
        }
    }
}

/// The text children that `_text` stands for: a string one text, a
/// sequence one text per string item, anything else its text.
pub open spec fn yaml_text_children(t: YVal) -> Seq<XVal> {
    match t {
        YVal::Str(s) => seq![XVal::Text(s)],
        YVal::Sequence(items, _) => yaml_str_items(items),
        _ => seq![XVal::Text(yaml_value_text(t))],
    }
}

/// The string under `_tag`.
pub open spec fn yaml_tag(es: Seq<(YVal, YVal)>) -> Option<Seq<char>> {
    match aget(es, ykey("_tag"@)) {
        Some(YVal::Str(t)) => Some(t),
        _ => None,
    }
}

/// The string under `_ns`.
pub open spec fn yaml_ns(es: Seq<(YVal, YVal)>) -> Option<Seq<char>> {
    match aget(es, ykey("_ns"@)) {
        Some(YVal::Str(t)) => Some(t),
        _ => None,
    }
}

/// The attributes under `_attrs`.
pub open spec fn yaml_attrs_of(es: Seq<(YVal, YVal)>) -> Seq<(Seq<char>, Seq<char>)> {
    match aget(es, ykey("_attrs"@)) {
        Some(YVal::Mapping(a, _)) => yaml_attrs_back(a),
        _ => Seq::empty(),
    }
}

/// The text children under `_text`.
pub open spec fn yaml_texts_of(es: Seq<(YVal, YVal)>) -> Seq<XVal> {
    match aget(es, ykey("_text"@)) {
        Some(t) => yaml_text_children(t),
        None => Seq::empty(),
    }
}

/// Keys with a meaning of their own in a grouped element mapping.
pub open spec fn grouped_reserved(k: Seq<char>) -> bool {
    k == "_tag"@ || k == "_ns"@ || k == "_attrs"@ || k == "_text"@
}

/// `_tag: tag` followed by the entries of `m`, each inserted in order (an
/// entry of `m` with key `_tag` replaces the tag's value in place).
pub open spec fn with_tag(tag: Seq<char>, m: Seq<(YVal, YVal)>) -> Seq<(YVal, YVal)>
    decreases m.len(),
{
    if m.len() == 0 {
        seq![(ykey("_tag"@), YVal::Str(tag))]
    } else {
        ainsert(with_tag(tag, m.drop_last()), m.last().0, m.last().1)
    }
}

pub proof fn lemma_with_tag_size(tag: Seq<char>, m: Seq<(YVal, YVal)>)
    ensures
        ysize_entries(with_tag(tag, m)) <= ysize_entries(m),
    decreases m.len(),
{
    if m.len() == 0 {
        let s = seq![(ykey("_tag"@), YVal::Str(tag))];
        assert(s.drop_last() =~= Seq::<(YVal, YVal)>::empty());
        assert(ysize_entries(s) == ysize_entries(s.drop_last()) + ysize(s.last().1));
        assert(with_tag(tag, m) == s);
    } else {
        lemma_with_tag_size(tag, m.drop_last());
        lemma_ysize_entries_insert(with_tag(tag, m.drop_last()), m.last().0, m.last().1);
        assert(ysize_entries(m) == ysize_entries(m.drop_last()) + ysize(m.last().1));
    }
}

/// The leaf elements of a key-value mapping: one per string key, its text
/// the value's text (no child when that is empty).
pub open spec fn yaml_kv_back(m: Seq<(YVal, YVal)>) -> Seq<XVal>
    decreases m.len(),
{
    if m.len() == 0 {
        Seq::empty()
    } else {
        let rest = yaml_kv_back(m.drop_last());
        match m.last().0 {
            YVal::Str(k) => rest.push(XVal::Node(spec_text_leaf(k, yaml_value_text(m.last().1)))),
            _ => rest,
        }
    }
}

/// Some value of the mapping is itself a mapping or a sequence.
pub open spec fn has_nested_values(m: Seq<(YVal, YVal)>) -> bool {
    exists|i: int| 0 <= i < m.len() && (m[i].1 is Mapping || m[i].1 is Sequence)
}

// ─── Grouped form ─────────────────────────────────────────────────

/// A grouped element mapping as an element: `_tag` (required), `_ns`,
/// `_attrs`, the text children of `_text`, then for every other string key
/// in order its element (a sequence giving one element per item).
pub open spec fn spec_yaml_to_node(v: YVal) -> Result<XNode, ConvertError>
    decreases ysize(v), 0int, 2int,
{
    match v {
        YVal::Mapping(es, _) => match yaml_tag(es) {
            Some(tag) => match yaml_named_children(es) {
                Err(e) => Err(e),
                Ok(cs) => Ok(
                    XNode { tag, ns: yaml_ns(es), attrs: yaml_attrs_of(es), children: yaml_texts_of(es) + cs },
                ),
            },
            None => Err(ConvertError::MissingYamlTag),
        },
        _ => Err(ConvertError::ExpectedYamlMapping),
    }
}

/// The elements for the string keys other than the reserved ones, in order.
pub open spec fn yaml_named_children(es: Seq<(YVal, YVal)>) -> Result<Seq<XVal>, ConvertError>
    decreases ysize_entries(es), es.len(), 1int,
{
    if es.len() == 0 {
        Ok(Seq::empty())
    } else {
        match yaml_named_children(es.drop_last()) {
            Err(e) => Err(e),
            Ok(acc) => {
                let val = es.last().1;
                match es.last().0 {
                    YVal::Str(key) => if grouped_reserved(key) {
                        Ok(acc)
                    } else {
                        match val {
                            YVal::Mapping(_, _) => match spec_yaml_child(key, val) {
                                Err(e) => Err(e),
                                Ok(c) => Ok(acc.push(XVal::Node(c))),
                            },
                            YVal::Sequence(arr, _) => match yaml_child_items(key, arr) {
                                Err(e) => Err(e),
                                Ok(cs) => Ok(acc + cs),
                            },
                            _ => Ok(acc.push(XVal::Node(spec_text_element(key, yaml_value_text(val))))),
                        }
                    },
                    _ => Ok(acc),
                }
            },
        }
    }
}

/// The elements named `tag` for the items of a sequence, in order.
pub open spec fn yaml_child_items(tag: Seq<char>, arr: Seq<YVal>) -> Result<Seq<XVal>, ConvertError>
    decreases ysize_items(arr), arr.len(), 1int,
{
    if arr.len() == 0 {
        Ok(Seq::empty())
    } else {
        match yaml_child_items(tag, arr.drop_last()) {
            Err(e) => Err(e),
            Ok(acc) => match spec_yaml_child(tag, arr.last()) {
                Err(e) => Err(e),
                Ok(c) => Ok(acc.push(XVal::Node(c))),
            },
        }
    }
}

/// The element named `tag` for a value under that key: a mapping with
/// `_ns`, `_attrs` or `_text`, or with a nested value, is a full element
/// (`_tag` added in front); another mapping a key-value container; anything
/// else a text element.
pub open spec fn spec_yaml_child(tag: Seq<char>, v: YVal) -> Result<XNode, ConvertError>
    decreases ysize(v), 0int, 3int,
{
    match v {
        YVal::Mapping(m, _) => if ahas(m, ykey("_ns"@)) || ahas(m, ykey("_attrs"@)) || ahas(m, ykey("_text"@))
            || has_nested_values(m) {
            proof { lemma_with_tag_size(tag, m); }
            spec_yaml_to_node(YVal::Mapping(with_tag(tag, m), Seq::empty()))
        } else {
            Ok(XNode { tag, ns: None, attrs: Seq::empty(), children: yaml_kv_back(m) })
        },
        _ => Ok(spec_text_element(tag, yaml_value_text(v))),
    }
}

// ─── Ordered form ─────────────────────────────────────────────────

/// An ordered element mapping as an element: `_tag` (required), `_ns`,
/// `_attrs`, the text children of `_text`, then the elements of the
/// `_children` sequence in order.
pub open spec fn spec_yaml_ordered_to_node(v: YVal) -> Result<XNode, ConvertError>
    decreases ysize(v), 0int, 2int,
{
    match v {
        YVal::Mapping(es, _) => match yaml_tag(es) {
            Some(tag) => {
                let c2 = match afind(es, ykey("_children"@)) {
                    Some(ci) => {
                        proof {
                            lemma_afind_range(es, ykey("_children"@));
                            lemma_ysize_entry_le(es, ci);
                        }
                        match es[ci].1 {
                            YVal::Sequence(items, _) => yaml_ordered_items(items),
                            _ => Ok(Seq::empty()),
                        }
                    },
                    None => Ok(Seq::empty()),
                };
                match c2 {
                    Err(e) => Err(e),
                    Ok(c2) => Ok(
                        XNode { tag, ns: yaml_ns(es), attrs: yaml_attrs_of(es), children: yaml_texts_of(es) + c2 },
                    ),
                }
            },
            None => Err(ConvertError::MissingYamlOrderedTag),
        },
        _ => Err(ConvertError::ExpectedYamlMapping),
    }
}

/// The elements of a `_children` sequence, in order; the first failure stops.
pub open spec fn yaml_ordered_items(items: Seq<YVal>) -> Result<Seq<XVal>, ConvertError>
    decreases ysize_items(items), items.len(), 1int,
{
    if items.len() == 0 {
        Ok(Seq::empty())
    } else {
        match yaml_ordered_items(items.drop_last()) {
            Err(e) => Err(e),
            Ok(acc) => match spec_yaml_ordered_child(items.last()) {
                Err(e) => Err(e),
                Ok(c) => Ok(acc.push(XVal::Node(c))),
            },
        }
    }
}

/// A scalar: string, boolean, number or null.
pub open spec fn is_scalar(v: YVal) -> bool {
    v is Str || v is Bool || v is Number || v is Null
}

/// An entry of `_children`, a mapping with a single string key: a scalar
/// value gives a leaf; a mapping with `_children`, `_ns`, `_attrs` or
/// `_text` a full element (`_tag` added in front); another mapping a
/// key-value container; anything else a text element.
pub open spec fn spec_yaml_ordered_child(v: YVal) -> Result<XNode, ConvertError>
    decreases ysize(v), 0int, 3int,
{
    match v {
        YVal::Mapping(es, _) => if es.len() != 1 {
            Err(ConvertError::NotSingleKey(es.len() as usize))
        } else {
            match es[0].0 {
                YVal::Str(tag) => {
                    let val = es[0].1;
                    if is_scalar(val) {
                        Ok(spec_text_leaf(tag, yaml_value_text(val)))
                    } else {
                        match val {
                            YVal::Mapping(m, _) => if ahas(m, ykey("_children"@)) || ahas(m, ykey("_ns"@)) || ahas(
                                m,
                                ykey("_attrs"@),
                            ) || ahas(m, ykey("_text"@)) {
                                proof {
                                    lemma_with_tag_size(tag, m);
                                    lemma_ysize_entry_le(es, 0);
                                }
                                spec_yaml_ordered_to_node(YVal::Mapping(with_tag(tag, m), Seq::empty()))
                            } else {
                                Ok(XNode { tag, ns: None, attrs: Seq::empty(), children: yaml_kv_back(m) })
                            },
                            _ => Ok(spec_text_element(tag, yaml_value_text(val))),
                        }
                    }
                },
                _ => Err(ConvertError::ExpectedStringKey),
            }
        },
        _ => Err(ConvertError::ExpectedMappingInChildren),
    }
}

/// A compact YAML document as an element: the ordered form when the root
/// mapping has `_children`, else the grouped form.
pub open spec fn spec_yaml_doc_to_node(v: YVal) -> Result<XNode, ConvertError> {
    match v {
        YVal::Mapping(es, _) => if ahas(es, ykey("_children"@)) {
            spec_yaml_ordered_to_node(v)
        } else {
            spec_yaml_to_node(v)
        },
        _ => Err(ConvertError::ExpectedYamlMapping),
    }
}

// ─── Executable ────────────────────────────────────────────────────

proof fn lemma_named_children_err(es: Seq<(YVal, YVal)>, m: int)
    requires
        0 <= m <= es.len(),
        yaml_named_children(es.take(m)) is Err,
    ensures
        yaml_named_children(es) == yaml_named_children(es.take(m)),
    decreases es.len() - m,
{
    if m < es.len() {
        assert(es.take(m + 1).drop_last() =~= es.take(m));
        lemma_named_children_err(es, m + 1);
    } else {
        assert(es.take(m) =~= es);
    }
}

proof fn lemma_child_items_err(tag: Seq<char>, arr: Seq<YVal>, m: int)
    requires
        0 <= m <= arr.len(),
        yaml_child_items(tag, arr.take(m)) is Err,
    ensures
        yaml_child_items(tag, arr) == yaml_child_items(tag, arr.take(m)),
    decreases arr.len() - m,
{
    if m < arr.len() {
        assert(arr.take(m + 1).drop_last() =~= arr.take(m));
        lemma_child_items_err(tag, arr, m + 1);
    } else {
        assert(arr.take(m) =~= arr);
    }
}

proof fn lemma_ordered_items_err(items: Seq<YVal>, m: int)
    requires
        0 <= m <= items.len(),
        yaml_ordered_items(items.take(m)) is Err,
    ensures
        yaml_ordered_items(items) == yaml_ordered_items(items.take(m)),
    decreases items.len() - m,
{
    if m < items.len() {
        assert(items.take(m + 1).drop_last() =~= items.take(m));
        lemma_ordered_items_err(items, m + 1);
    } else {
        assert(items.take(m) =~= items);
    }
}

/// A YAML value as text (see `yaml_value_text`).
pub fn yaml_value_to_string(v: &YamlValue) -> (r: String)
    ensures
        r@ == yaml_value_text(v.view()),
{
    match v {
        YamlValue::Str(s) => s.clone(),
        YamlValue::Bool(b) => if *b {
            to_owned_string("true")
        } else {
            to_owned_string("false")
        },
        YamlValue::Number(n) => n.clone(),
        YamlValue::Null => String::new(),
        YamlValue::Sequence(items, r) => {
            proof { lemma_sequence_view(*items, *r); }
            r.clone()
        },
        YamlValue::Mapping(es, r) => {
            proof { lemma_mapping_view(*es, *r); }
            r.clone()
        },
        YamlValue::Tagged(r) => r.clone(),
    }
}

fn yaml_attrs_to_xml(a: &Vec<(YamlValue, YamlValue)>) -> (r: Vec<(String, String)>)
    ensures
        pairs_view(r@) == yaml_attrs_back(yentries_view(a@)),
{
    let ghost av = yentries_view(a@);
    let mut attrs: Vec<(String, String)> = Vec::new();
    let n = a.len();
    let mut i: usize = 0;
    while i < n
        invariant
            n == a.len(),
            av == yentries_view(a@),
            i <= n,
            pairs_view(attrs@) == yaml_attrs_back(av.take(i as int)),
        decreases n - i,
    {
        assert(av.take(i + 1).drop_last() =~= av.take(i as int));
        assert(av.take(i + 1).last() == (a@[i as int].0.view(), a@[i as int].1.view()));
        match (&a[i].0, &a[i].1) {
            (YamlValue::Str(k), YamlValue::Str(val)) => {
                attr_insert(&mut attrs, k.clone(), val.clone());
            },
            _ => {},
        }
        i = i + 1;
    }
    assert(av.take(n as int) =~= av);
    attrs
}

fn push_yaml_text_children(children: &mut Vec<XmlValue>, t: &YamlValue)
    ensures
        vals_view(final(children)@) == vals_view(old(children)@) + yaml_text_children(t.view()),
{
    match t {
        YamlValue::Str(s) => {
            push_text(children, s.clone());
            assert(vals_view(children@) =~= vals_view(old(children)@) + yaml_text_children(t.view()));
        },
        YamlValue::Sequence(items, r) => {
            proof { lemma_sequence_view(*items, *r); }
            let ghost iv = yvals_view(items@);
            let n = items.len();
            let mut i: usize = 0;
            while i < n
                invariant
                    n == items.len(),
                    iv == yvals_view(items@),
                    i <= n,
                    vals_view(children@) == vals_view(old(children)@) + yaml_str_items(iv.take(i as int)),
                decreases n - i,
            {
                assert(iv.take(i + 1).drop_last() =~= iv.take(i as int));
                assert(iv.take(i + 1).last() == items@[i as int].view());
                let ghost before = vals_view(children@);
                if let YamlValue::Str(s) = &items[i] {
                    push_text(children, s.clone());
                }
                assert(vals_view(children@) =~= vals_view(old(children)@) + yaml_str_items(iv.take(i + 1)));
                i = i + 1;
            }
            assert(iv.take(n as int) =~= iv);
        },
        _ => {
            push_text(children, yaml_value_to_string(t));
            assert(vals_view(children@) =~= vals_view(old(children)@) + yaml_text_children(t.view()));
        },
    }
}

fn yaml_kv_to_children(m: &Vec<(YamlValue, YamlValue)>) -> (r: Vec<XmlValue>)
    ensures
        vals_view(r@) == yaml_kv_back(yentries_view(m@)),
{
    let ghost mv = yentries_view(m@);
    let mut children: Vec<XmlValue> = Vec::new();
    let n = m.len();
    let mut i: usize = 0;
    while i < n
        invariant
            n == m.len(),
            mv == yentries_view(m@),
            i <= n,
            vals_view(children@) == yaml_kv_back(mv.take(i as int)),
        decreases n - i,
    {
        assert(mv.take(i + 1).drop_last() =~= mv.take(i as int));
        assert(mv.take(i + 1).last() == (m@[i as int].0.view(), m@[i as int].1.view()));
        if let YamlValue::Str(k) = &m[i].0 {
            push_node(&mut children, text_leaf_node(k.clone(), yaml_value_to_string(&m[i].1)));
        }
        i = i + 1;
    }
    assert(mv.take(n as int) =~= mv);
    children
}

fn has_nested(m: &Vec<(YamlValue, YamlValue)>) -> (r: bool)
    ensures
        r == has_nested_values(yentries_view(m@)),
{
    let ghost mv = yentries_view(m@);
    let n = m.len();
    let mut i: usize = 0;
    while i < n
        invariant
            n == m.len(),
            mv == yentries_view(m@),
            i <= n,
            forall|j: int| 0 <= j < i ==> !(mv[j].1 is Mapping || mv[j].1 is Sequence),
        decreases n - i,
    {
        assert(mv[i as int].1 == m@[i as int].1.view());
        match &m[i].1 {
            YamlValue::Mapping(_, _) => return true,
            YamlValue::Sequence(_, _) => return true,
            _ => {},
        }
        i = i + 1;
    }
    false
}

/// `_tag: tag` followed by the entries of `m` (see `with_tag`).
fn with_tag_entries(tag: &str, m: &Vec<(YamlValue, YamlValue)>) -> (r: Vec<(YamlValue, YamlValue)>)
    ensures
        yentries_view(r@) == with_tag(tag@, yentries_view(m@)),
{
    let ghost mv = yentries_view(m@);
    let mut full: Vec<(YamlValue, YamlValue)> = Vec::new();
    full.push((YamlValue::Str(to_owned_string("_tag")), YamlValue::Str(to_owned_string(tag))));
    assert(mv.take(0) =~= Seq::<(YVal, YVal)>::empty());
    assert(yentries_view(full@) =~= with_tag(tag@, mv.take(0)));
    let n = m.len();
    let mut i: usize = 0;
    while i < n
        invariant
            n == m.len(),
            mv == yentries_view(m@),
            i <= n,
            yentries_view(full@) == with_tag(tag@, mv.take(i as int)),
        decreases n - i,
    {
        assert(mv.take(i + 1).drop_last() =~= mv.take(i as int));
        assert(mv.take(i + 1).last() == (m@[i as int].0.view(), m@[i as int].1.view()));
        map_insert(&mut full, yaml_clone(&m[i].0), yaml_clone(&m[i].1));
        i = i + 1;
    }
    assert(mv.take(n as int) =~= mv);
    full
}

/// The mapping `_tag: tag` followed by the entries of `m`.
fn full_mapping(tag: &str, m: &Vec<(YamlValue, YamlValue)>) -> (r: YamlValue)
    ensures
        r.view() == YVal::Mapping(with_tag(tag@, yentries_view(m@)), Seq::empty()),
        ysize(r.view()) <= 1 + ysize_entries(yentries_view(m@)),
{
    let full = with_tag_entries(tag, m);
    let r = String::new();
    proof {
        lemma_mapping_view(full, r);
        lemma_with_tag_size(tag@, yentries_view(m@));
    }
    YamlValue::Mapping(full, r)
}

fn element_head(es: &Vec<(YamlValue, YamlValue)>) -> (r: (Option<String>, Vec<(String, String)>, Vec<XmlValue>))
    ensures
        opt_str_view(r.0) == yaml_ns(yentries_view(es@)),
        pairs_view(r.1@) == yaml_attrs_of(yentries_view(es@)),
        vals_view(r.2@) == yaml_texts_of(yentries_view(es@)),
{
    let ghost ev = yentries_view(es@);
    let namespace = match map_get(es, "_ns") {
        Some(YamlValue::Str(s)) => Some(s.clone()),
        _ => None,
    };
    let attrs = match map_get(es, "_attrs") {
        Some(YamlValue::Mapping(a, ar)) => {
            proof { lemma_mapping_view(*a, *ar); }
            yaml_attrs_to_xml(a)
        },
        _ => Vec::new(),
    };
    assert(pairs_view(attrs@) =~= yaml_attrs_of(ev));
    let mut children: Vec<XmlValue> = Vec::new();
    match map_get(es, "_text") {
        Some(t) => push_yaml_text_children(&mut children, t),
        None => {},
    }
    assert(vals_view(children@) =~= yaml_texts_of(ev));
    (namespace, attrs, children)
}

/// Turns a grouped element mapping back into an element (see `spec_yaml_to_node`).
pub fn yaml_value_to_node(v: &YamlValue) -> (r: Result<XmlNode, ConvertError>)
    ensures
        node_result_view(r) == spec_yaml_to_node(v.view()),
    decreases ysize(v.view()), 0int, 2int,
{
    let es = match v {
        YamlValue::Mapping(es, rendered) => {
            proof { lemma_mapping_view(*es, *rendered); }
            es
        },
        _ => return Err(ConvertError::ExpectedYamlMapping),
    };
    let ghost ev = yentries_view(es@);
    let tag = match map_get(es, "_tag") {
        Some(YamlValue::Str(t)) => t.clone(),
        _ => return Err(ConvertError::MissingYamlTag),
    };
    let (namespace, attrs, mut children) = element_head(es);
    let ghost c1 = vals_view(children@);
    match push_yaml_named_children(&mut children, es) {
        Ok(()) => {},
        Err(e) => return Err(e),
    }
    let r = make_node(tag, namespace, attrs, children);
    assert(r.view().children =~= c1 + yaml_named_children(ev)->Ok_0);
    Ok(r)
}

fn push_yaml_named_children(children: &mut Vec<XmlValue>, es: &Vec<(YamlValue, YamlValue)>) -> (r: Result<(), ConvertError>)
    ensures
        r is Ok ==> yaml_named_children(yentries_view(es@)) is Ok && vals_view(final(children)@) == vals_view(
            old(children)@,
        ) + yaml_named_children(yentries_view(es@))->Ok_0,
        r matches Err(e) ==> yaml_named_children(yentries_view(es@)) == Err::<Seq<XVal>, ConvertError>(e),
    decreases ysize_entries(yentries_view(es@)), es@.len(), 1int,
{
    let ghost ev = yentries_view(es@);
    let ghost start = vals_view(children@);
    let n = es.len();
    let mut i: usize = 0;
    while i < n
        invariant
            n == es.len(),
            ev == yentries_view(es@),
            i <= n,
            yaml_named_children(ev.take(i as int)) is Ok,
            vals_view(children@) == start + yaml_named_children(ev.take(i as int))->Ok_0,
        decreases n - i,
    {
        let ghost pre = ev.take(i as int);
        assert(ev.take(i + 1).drop_last() =~= pre);
        assert(ev.take(i + 1).last() == (es@[i as int].0.view(), es@[i as int].1.view()));
        let val = &es[i].1;
        proof { lemma_ysize_entry_le(ev, i as int); }
        if let YamlValue::Str(key) = &es[i].0 {
            let reserved = str_eq(key.as_str(), "_tag") || str_eq(key.as_str(), "_ns") || str_eq(key.as_str(), "_attrs")
                || str_eq(key.as_str(), "_text");
            if !reserved {
                match val {
                    YamlValue::Mapping(_, _) => {
                        match yaml_child(key.as_str(), val) {
                            Ok(c) => {
                                push_node(children, c);
                            },
                            Err(e) => {
                                proof {
                                    assert(yaml_named_children(ev.take(i + 1)) == Err::<Seq<XVal>, ConvertError>(e));
                                    lemma_named_children_err(ev, i + 1);
                                }
                                return Err(e);
                            },
                        }
                    },
                    YamlValue::Sequence(arr, ar) => {
                        proof { lemma_sequence_view(*arr, *ar); }
                        match push_yaml_child_items(children, key.as_str(), arr) {
                            Ok(()) => {},
                            Err(e) => {
                                proof {
                                    assert(yaml_named_children(ev.take(i + 1)) == Err::<Seq<XVal>, ConvertError>(e));
                                    lemma_named_children_err(ev, i + 1);
                                }
                                return Err(e);
                            },
                        }
                    },
                    _ => {
                        push_node(children, text_element_node(key.clone(), yaml_value_to_string(val)));
                    },
                }
            }
        }
        assert(vals_view(children@) =~= start + yaml_named_children(ev.take(i + 1))->Ok_0);
        i = i + 1;
    }
    assert(ev.take(n as int) =~= ev);
    Ok(())
}

fn push_yaml_child_items(children: &mut Vec<XmlValue>, tag: &str, arr: &Vec<YamlValue>) -> (r: Result<(), ConvertError>)
    ensures
        r is Ok ==> yaml_child_items(tag@, yvals_view(arr@)) is Ok && vals_view(final(children)@) == vals_view(
            old(children)@,
        ) + yaml_child_items(tag@, yvals_view(arr@))->Ok_0,
        r matches Err(e) ==> yaml_child_items(tag@, yvals_view(arr@)) == Err::<Seq<XVal>, ConvertError>(e),
    decreases ysize_items(yvals_view(arr@)), arr@.len(), 1int,
{
    let ghost av = yvals_view(arr@);
    let ghost start = vals_view(children@);
    let m = arr.len();
    let mut j: usize = 0;
    while j < m
        invariant
            m == arr.len(),
            av == yvals_view(arr@),
            j <= m,
            yaml_child_items(tag@, av.take(j as int)) is Ok,
            vals_view(children@) == start + yaml_child_items(tag@, av.take(j as int))->Ok_0,
        decreases m - j,
    {
        assert(av.take(j + 1).drop_last() =~= av.take(j as int));
        assert(av.take(j + 1).last() == arr@[j as int].view());
        proof { lemma_ysize_item_le(av, j as int); }
        match yaml_child(tag, &arr[j]) {
            Ok(c) => {
                push_node(children, c);
                assert(vals_view(children@) =~= start + yaml_child_items(tag@, av.take(j + 1))->Ok_0);
            },
            Err(e) => {
                proof { lemma_child_items_err(tag@, av, j + 1); }
                return Err(e);
            },
        }
        j = j + 1;
    }
    assert(av.take(m as int) =~= av);
    Ok(())
}

/// The element named `tag` for a value under that key (see `spec_yaml_child`).
pub fn yaml_child(tag: &str, v: &YamlValue) -> (r: Result<XmlNode, ConvertError>)
    ensures
        node_result_view(r) == spec_yaml_child(tag@, v.view()),
    decreases ysize(v.view()), 0int, 3int,
{
    match v {
        YamlValue::Mapping(m, mr) => {
            proof { lemma_mapping_view(*m, *mr); }
            if map_find(m, "_ns").is_some() || map_find(m, "_attrs").is_some() || map_find(m, "_text").is_some()
                || has_nested(m) {
                let full = full_mapping(tag, m);
                yaml_value_to_node(&full)
            } else {
                let children = yaml_kv_to_children(m);
                let r = make_node(to_owned_string(tag), None, Vec::new(), children);
                assert(r.view().attrs =~= Seq::<(Seq<char>, Seq<char>)>::empty());
                Ok(r)
            }
        },
        _ => Ok(text_element_node(to_owned_string(tag), yaml_value_to_string(v))),
    }
}

/// Turns an ordered element mapping back into an element (see `spec_yaml_ordered_to_node`).
pub fn yaml_ordered_value_to_node(v: &YamlValue) -> (r: Result<XmlNode, ConvertError>)
    ensures
        node_result_view(r) == spec_yaml_ordered_to_node(v.view()),
    decreases ysize(v.view()), 0int, 2int,
{
    let es = match v {
        YamlValue::Mapping(es, rendered) => {
            proof { lemma_mapping_view(*es, *rendered); }
            es
        },
        _ => return Err(ConvertError::ExpectedYamlMapping),
    };
    let ghost ev = yentries_view(es@);
    let tag = match map_get(es, "_tag") {
        Some(YamlValue::Str(t)) => t.clone(),
        _ => return Err(ConvertError::MissingYamlOrderedTag),
    };
    let (namespace, attrs, mut children) = element_head(es);
    let ghost c1 = vals_view(children@);
    let ghost c2spec: Result<Seq<XVal>, ConvertError> = match afind(ev, ykey("_children"@)) {
        Some(ci) => match ev[ci].1 {
            YVal::Sequence(items, _) => yaml_ordered_items(items),
            _ => Ok(Seq::<XVal>::empty()),
        },
        None => Ok(Seq::<XVal>::empty()),
    };
    match map_find(es, "_children") {
        Some(ci) => {
            assert(ev[ci as int] == (es@[ci as int].0.view(), es@[ci as int].1.view()));
            proof { lemma_ysize_entry_le(ev, ci as int); }
            match &es[ci].1 {
                YamlValue::Sequence(items, ir) => {
                    proof { lemma_sequence_view(*items, *ir); }
                    match push_yaml_ordered_items(&mut children, items) {
                        Ok(()) => {},
                        Err(e) => return Err(e),
                    }
                },
                _ => {
                    assert(vals_view(children@) =~= c1 + Seq::<XVal>::empty());
                },
            }
        },
        None => {
            assert(vals_view(children@) =~= c1 + Seq::<XVal>::empty());
        },
    }
    assert(c2spec is Ok);
    let r = make_node(tag, namespace, attrs, children);
    assert(r.view().children =~= c1 + c2spec->Ok_0);
    Ok(r)
}

fn push_yaml_ordered_items(children: &mut Vec<XmlValue>, items: &Vec<YamlValue>) -> (r: Result<(), ConvertError>)
    ensures
        r is Ok ==> yaml_ordered_items(yvals_view(items@)) is Ok && vals_view(final(children)@) == vals_view(
            old(children)@,
        ) + yaml_ordered_items(yvals_view(items@))->Ok_0,
        r matches Err(e) ==> yaml_ordered_items(yvals_view(items@)) == Err::<Seq<XVal>, ConvertError>(e),
    decreases ysize_items(yvals_view(items@)), items@.len(), 1int,
{
    let ghost iv = yvals_view(items@);
    let ghost start = vals_view(children@);
    let n = items.len();
    let mut i: usize = 0;
    while i < n
        invariant
            n == items.len(),
            iv == yvals_view(items@),
            i <= n,
            yaml_ordered_items(iv.take(i as int)) is Ok,
            vals_view(children@) == start + yaml_ordered_items(iv.take(i as int))->Ok_0,
        decreases n - i,
    {
        assert(iv.take(i + 1).drop_last() =~= iv.take(i as int));
        assert(iv.take(i + 1).last() == items@[i as int].view());
        proof { lemma_ysize_item_le(iv, i as int); }
        match yaml_ordered_child(&items[i]) {
            Ok(c) => {
                push_node(children, c);
                assert(vals_view(children@) =~= start + yaml_ordered_items(iv.take(i + 1))->Ok_0);
            },
            Err(e) => {
                proof { lemma_ordered_items_err(iv, i + 1); }
                return Err(e);
            },
        }
        i = i + 1;
    }
    assert(iv.take(n as int) =~= iv);
    Ok(())
}

/// An entry of `_children` as an element (see `spec_yaml_ordered_child`).
pub fn yaml_ordered_child(v: &YamlValue) -> (r: Result<XmlNode, ConvertError>)
    ensures
        node_result_view(r) == spec_yaml_ordered_child(v.view()),
    decreases ysize(v.view()), 0int, 3int,
{
    let es = match v {
        YamlValue::Mapping(es, rendered) => {
            proof { lemma_mapping_view(*es, *rendered); }
            es
        },
        _ => return Err(ConvertError::ExpectedMappingInChildren),
    };
    let ghost ev = yentries_view(es@);
    if es.len() != 1 {
        return Err(ConvertError::NotSingleKey(es.len()));
    }
    assert(ev[0] == (es@[0].0.view(), es@[0].1.view()));
    let tag = match &es[0].0 {
        YamlValue::Str(t) => t,
        _ => return Err(ConvertError::ExpectedStringKey),
    };
    let val = &es[0].1;
    proof { lemma_ysize_entry_le(ev, 0); }
    match val {
        YamlValue::Str(_) | YamlValue::Bool(_) | YamlValue::Number(_) | YamlValue::Null => {
            Ok(text_leaf_node(tag.clone(), yaml_value_to_string(val)))
        },
        YamlValue::Mapping(m, mr) => {
            proof { lemma_mapping_view(*m, *mr); }
            if map_find(m, "_children").is_some() || map_find(m, "_ns").is_some() || map_find(m, "_attrs").is_some()
                || map_find(m, "_text").is_some() {
                let full = full_mapping(tag.as_str(), m);
                yaml_ordered_value_to_node(&full)
            } else {
                let children = yaml_kv_to_children(m);
                let r = make_node(tag.clone(), None, Vec::new(), children);
                assert(r.view().attrs =~= Seq::<(Seq<char>, Seq<char>)>::empty());
                Ok(r)
            }
        },
        _ => Ok(text_element_node(tag.clone(), yaml_value_to_string(val))),
    }
}

/// Turns a compact YAML document back into an element, in the form that it
/// is written in (see `spec_yaml_doc_to_node`).
pub fn yaml_to_xml_node(v: &YamlValue) -> (r: Result<XmlNode, ConvertError>)
    ensures
        node_result_view(r) == spec_yaml_doc_to_node(v.view()),
{
    match v {
        YamlValue::Mapping(es, rendered) => {
            proof { lemma_mapping_view(*es, *rendered); }
            if map_find(es, "_children").is_some() {
                yaml_ordered_value_to_node(v)
            } else {
                yaml_value_to_node(v)
            }
        },
        _ => Err(ConvertError::ExpectedYamlMapping),
    }
}

} // verus!
