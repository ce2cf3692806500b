//! What the JSON form keeps: turning an element into JSON and back gives
//! the element again.
use vstd::prelude::*;
use crate::assoc::{
    afind, aget, ahas, keys_distinct, lemma_aget_concat, lemma_aget_single, lemma_ainsert_new,
};
use crate::xml_node::{
    XNode, XVal, spec_is_text_leaf, spec_is_simple_kv, spec_leaf_text, spec_text_leaf, is_leaf_child,
    child_tag, distinct_child_tags,
};
use crate::json_value::{JVal, jinsert};
use crate::json_writer::{
    spec_smart_json, texts_of, attrs_json, json_head, json_strs, spec_node_to_json, spec_children_json,
    kv_json, spec_child_node_to_json, json_value_text, json_attrs_back, json_text_children, json_reserved,
    spec_json_to_node, json_children_items, json_kv_back, spec_json_child, json_named_children,
};

verus! {

/// No text child comes after an element child.
pub open spec fn texts_first(cs: Seq<XVal>) -> bool {
    forall|i: int, j: int| 0 <= i < j < cs.len() && cs[i] is Node ==> cs[j] is Node
}

/// The element children, in order.
pub open spec fn nodes_of(cs: Seq<XVal>) -> Seq<XVal>
    decreases cs.len(),
{
    if cs.len() == 0 {
        Seq::empty()
    } else {
        nodes_of(cs.drop_last()) + if cs.last() is Node {
            seq![cs.last()]
        } else {
            Seq::empty()
        }
    }
}

/// Texts as text children.
pub open spec fn text_vals(ts: Seq<Seq<char>>) -> Seq<XVal> {
    Seq::new(ts.len(), |i: int| XVal::Text(ts[i]))
}

/// Every text child is non-empty.
pub open spec fn no_empty_text(c: XNode) -> bool {
    forall|i: int| 0 <= i < c.children.len() && c.children[i] is Text ==> (c.children[i]->Text_0).len() > 0
}

/// Some child is an element.
pub open spec fn has_node_child(cs: Seq<XVal>) -> bool {
    exists|i: int| 0 <= i < cs.len() && cs[i] is Node
}

/// A child of a key-value container that comes back from its JSON entry:
/// no namespace, a tag that is not a reserved key, no empty text.
pub open spec fn json_kv_entry_ok(g: XVal) -> bool {
    match g {
        XVal::Node(x) => x.ns is None && !json_reserved(x.tag) && no_empty_text(x),
        XVal::Text(_) => false,
    }
}

/// An element that comes back from the JSON form as it was: text children
/// before element children, each attribute once, and every element child
/// coming back from its `_children` entry.
pub open spec fn json_roundtrips(n: XNode) -> bool
    decreases n, 0int,
{
    texts_first(n.children) && keys_distinct(n.attrs) && json_children_ok(n.children)
}

/// Every element child comes back from its `_children` entry.
pub open spec fn json_children_ok(cs: Seq<XVal>) -> bool
    decreases cs, 0int,
{
    if cs.len() == 0 {
        true
    } else {
        json_children_ok(cs.drop_last()) && match cs.last() {
            XVal::Node(c) => json_child_ok(c),
            XVal::Text(_) => true,
        }
    }
}

/// A child element that comes back from its `_children` entry: a leaf or a
/// key-value container (which the entry writes without namespaces) with no
/// namespace, no empty text and, for a container, children whose tags are
/// not reserved keys; any other element must show in its entry as a full
/// element (a namespace, attributes or an element child) and come back itself.
pub open spec fn json_child_ok(c: XNode) -> bool
    decreases c, 1int,
{
    if spec_is_text_leaf(c) {
        c.ns is None && no_empty_text(c)
    } else if spec_is_simple_kv(c) {
        c.ns is None && forall|i: int| 0 <= i < c.children.len() ==> json_kv_entry_ok(#[trigger] c.children[i])
    } else {
        (c.ns is Some || c.attrs.len() > 0 || has_node_child(c.children)) && json_roundtrips(c)
    }
}

// ─── Lemmas ────────────────────────────────────────────────────────

proof fn lemma_reserved_keys()
    ensures
        "_tag"@ != "_ns"@,
        "_tag"@ != "_attrs"@,
        "_tag"@ != "_text"@,
        "_tag"@ != "_children"@,
        "_ns"@ != "_attrs"@,
        "_ns"@ != "_text"@,
        "_ns"@ != "_children"@,
        "_attrs"@ != "_text"@,
        "_attrs"@ != "_children"@,
        "_text"@ != "_children"@,
        json_reserved("_tag"@),
        json_reserved("_ns"@),
        json_reserved("_attrs"@),
        json_reserved("_text"@),
        json_reserved("_children"@),
{
    reveal_strlit("_tag");
    reveal_strlit("_ns");
    reveal_strlit("_attrs");
    reveal_strlit("_text");
    reveal_strlit("_children");
    assert("_tag"@.len() == 4);
    assert("_ns"@.len() == 3);
    assert("_attrs"@.len() == 6);
    assert("_text"@.len() == 5);
    assert("_children"@.len() == 9);
}

proof fn lemma_smart_text(t: Seq<char>)
    ensures
        json_value_text(spec_smart_json(t)) == t,
{
}

proof fn lemma_nodes_of_all_text(cs: Seq<XVal>)
    requires
        forall|i: int| 0 <= i < cs.len() ==> cs[i] is Text,
    ensures
        nodes_of(cs) == Seq::<XVal>::empty(),
        text_vals(texts_of(cs)) == cs,
    decreases cs.len(),
{
    if cs.len() > 0 {
        let d = cs.drop_last();
        assert forall|i: int| 0 <= i < d.len() implies d[i] is Text by {
            assert(d[i] == cs[i]);
        }
        lemma_nodes_of_all_text(d);
        let t = cs.last()->Text_0;
        assert(cs.last() is Text);
        assert(texts_of(cs) == texts_of(d) + seq![t]);
        assert(text_vals(texts_of(d) + seq![t]) =~= text_vals(texts_of(d)).push(XVal::Text(t)));
        assert(cs =~= d.push(cs.last()));
        assert(nodes_of(cs) =~= nodes_of(d));
    }
}

pub proof fn lemma_texts_first_split(cs: Seq<XVal>)
    requires
        texts_first(cs),
    ensures
        cs == text_vals(texts_of(cs)) + nodes_of(cs),
    decreases cs.len(),
{
    if cs.len() > 0 {
        let d = cs.drop_last();
        assert(texts_first(d)) by {
            assert forall|i: int, j: int| 0 <= i < j < d.len() && d[i] is Node implies d[j] is Node by {
                assert(d[i] == cs[i] && d[j] == cs[j]);
            }
        }
        lemma_texts_first_split(d);
        if cs.last() is Text {
            assert forall|i: int| 0 <= i < d.len() implies d[i] is Text by {
                assert(d[i] == cs[i]);
                if cs[i] is Node {
                    assert(cs[cs.len() - 1] is Node);
                }
            }
            lemma_nodes_of_all_text(d);
            let t = cs.last()->Text_0;
            assert(texts_of(cs) == texts_of(d) + seq![t]);
            assert(text_vals(texts_of(d) + seq![t]) =~= text_vals(texts_of(d)).push(XVal::Text(t)));
            assert(nodes_of(cs) =~= nodes_of(d));
            assert(cs =~= d.push(cs.last()));
            assert(cs =~= text_vals(texts_of(cs)) + nodes_of(cs));
        } else {
            assert(texts_of(cs) =~= texts_of(d));
            assert(nodes_of(cs) == nodes_of(d) + seq![cs.last()]);
            assert(cs =~= d.push(cs.last()));
            assert(cs =~= text_vals(texts_of(cs)) + nodes_of(cs));
        }
    }
}

proof fn lemma_attrs_json(attrs: Seq<(Seq<char>, Seq<char>)>)
    requires
        keys_distinct(attrs),
    ensures
        attrs_json(attrs) == Seq::new(attrs.len(), |i: int| (attrs[i].0, JVal::Str(attrs[i].1))),
        json_attrs_back(attrs_json(attrs)) == attrs,
    decreases attrs.len(),
{
    if attrs.len() > 0 {
        let d = attrs.drop_last();
        assert(keys_distinct(d)) by {
            assert forall|i: int, j: int| 0 <= i < j < d.len() implies d[i].0 != d[j].0 by {
                assert(d[i] == attrs[i] && d[j] == attrs[j]);
            }
        }
        lemma_attrs_json(d);
        let prev = attrs_json(d);
        let k = attrs.last().0;
        assert forall|j: int| 0 <= j < prev.len() implies prev[j].0 != k by {
            assert(prev[j].0 == attrs[j].0);
        }
        lemma_ainsert_new(prev, k, JVal::Str(attrs.last().1));
        assert(attrs_json(attrs) =~= Seq::new(attrs.len(), |i: int| (attrs[i].0, JVal::Str(attrs[i].1))));
        let full = attrs_json(attrs);
        assert(full.drop_last() =~= prev);
        assert forall|j: int| 0 <= j < d.len() implies d[j].0 != k by {
            assert(d[j] == attrs[j]);
        }
        lemma_ainsert_new(d, k, attrs.last().1);
        assert(json_attrs_back(full) =~= attrs);
    }
}

/// All keys reserved: no element comes from the other keys.
proof fn lemma_named_children_reserved(es: Seq<(Seq<char>, JVal)>)
    requires
        forall|i: int| 0 <= i < es.len() ==> json_reserved(#[trigger] es[i].0),
    ensures
        json_named_children(es) == Ok::<Seq<XVal>, crate::error::ConvertError>(Seq::empty()),
    decreases es.len(),
{
    if es.len() > 0 {
        let d = es.drop_last();
        assert forall|i: int| 0 <= i < d.len() implies json_reserved(#[trigger] d[i].0) by {
            assert(d[i] == es[i]);
        }
        lemma_named_children_reserved(d);
        assert(json_reserved(es[es.len() - 1].0));
    }
}


proof fn lemma_ins_fresh(es: Seq<(Seq<char>, JVal)>, k: Seq<char>, v: JVal)
    requires
        !ahas(es, k),
    ensures
        jinsert(es, k, v) == es + seq![(k, v)],
{
    crate::assoc::lemma_afind_range(es, k);
    lemma_ainsert_new(es, k, v);
    assert(es.push((k, v)) =~= es + seq![(k, v)]);
}

/// The entries `_tag`, `_ns` and `_attrs` of an element object.
spec fn head_list(n: XNode) -> Seq<(Seq<char>, JVal)> {
    seq![("_tag"@, JVal::Str(n.tag))] + (match n.ns {
        Some(ns) => seq![("_ns"@, JVal::Str(ns))],
        None => Seq::empty(),
    }) + (if n.attrs.len() > 0 {
        seq![("_attrs"@, JVal::Object(attrs_json(n.attrs), Seq::empty()))]
    } else {
        Seq::empty()
    })
}

proof fn lemma_lookup3(a: Seq<(Seq<char>, JVal)>, b: Seq<(Seq<char>, JVal)>, c: Seq<(Seq<char>, JVal)>, k: Seq<char>)
    ensures
        aget(a + b + c, k) == match aget(a, k) {
            Some(v) => Some(v),
            None => match aget(b, k) {
                Some(v) => Some(v),
                None => aget(c, k),
            },
        },
        ahas(a + b + c, k) == (ahas(a, k) || ahas(b, k) || ahas(c, k)),
{
    lemma_aget_concat(a, b, k);
    lemma_aget_concat(a + b, c, k);
}

proof fn lemma_empty_lookup(k: Seq<char>)
    ensures
        aget(Seq::<(Seq<char>, JVal)>::empty(), k) is None,
        !ahas(Seq::<(Seq<char>, JVal)>::empty(), k),
{
}

/// What the head entries hold under each reserved key.
proof fn lemma_head(n: XNode)
    ensures
        json_head(n) == head_list(n),
        aget(head_list(n), "_tag"@) == Some(JVal::Str(n.tag)),
        aget(head_list(n), "_ns"@) == match n.ns {
            Some(ns) => Some(JVal::Str(ns)),
            None => None,
        },
        aget(head_list(n), "_attrs"@) == if n.attrs.len() > 0 {
            Some(JVal::Object(attrs_json(n.attrs), Seq::empty()))
        } else {
            None
        },
        !ahas(head_list(n), "_text"@),
        !ahas(head_list(n), "_children"@),
        forall|i: int| 0 <= i < head_list(n).len() ==> json_reserved(#[trigger] head_list(n)[i].0),
{
    lemma_reserved_keys();
    let t = seq![("_tag"@, JVal::Str(n.tag))];
    let a = match n.ns {
        Some(ns) => seq![("_ns"@, JVal::Str(ns))],
        None => Seq::<(Seq<char>, JVal)>::empty(),
    };
    let b = if n.attrs.len() > 0 {
        seq![("_attrs"@, JVal::Object(attrs_json(n.attrs), Seq::empty()))]
    } else {
        Seq::<(Seq<char>, JVal)>::empty()
    };
    let keys = seq!["_tag"@, "_ns"@, "_attrs"@, "_text"@, "_children"@];
    assert forall|i: int| 0 <= i < 5 implies {
        &&& aget(t + a + b, #[trigger] keys[i]) == match aget(t, keys[i]) {
            Some(v) => Some(v),
            None => match aget(a, keys[i]) {
                Some(v) => Some(v),
                None => aget(b, keys[i]),
            },
        }
        &&& ahas(t + a + b, keys[i]) == (ahas(t, keys[i]) || ahas(a, keys[i]) || ahas(b, keys[i]))
    } by {
        lemma_lookup3(t, a, b, keys[i]);
    }
    assert(keys[0] == "_tag"@ && keys[1] == "_ns"@ && keys[2] == "_attrs"@ && keys[3] == "_text"@ && keys[4]
        == "_children"@);
    lemma_aget_single("_tag"@, JVal::Str(n.tag), "_tag"@);
    lemma_aget_single("_tag"@, JVal::Str(n.tag), "_ns"@);
    lemma_aget_single("_tag"@, JVal::Str(n.tag), "_attrs"@);
    lemma_aget_single("_tag"@, JVal::Str(n.tag), "_text"@);
    lemma_aget_single("_tag"@, JVal::Str(n.tag), "_children"@);
    lemma_empty_lookup("_ns"@);
    lemma_empty_lookup("_attrs"@);
    lemma_empty_lookup("_text"@);
    lemma_empty_lookup("_children"@);
    lemma_empty_lookup("_tag"@);
    match n.ns {
        Some(ns) => {
            lemma_aget_single("_ns"@, JVal::Str(ns), "_tag"@);
            lemma_aget_single("_ns"@, JVal::Str(ns), "_ns"@);
            lemma_aget_single("_ns"@, JVal::Str(ns), "_attrs"@);
            lemma_aget_single("_ns"@, JVal::Str(ns), "_text"@);
            lemma_aget_single("_ns"@, JVal::Str(ns), "_children"@);
            lemma_ins_fresh(t, "_ns"@, JVal::Str(ns));
        },
        None => {
            assert(t + a =~= t);
        },
    }
    let o = JVal::Object(attrs_json(n.attrs), Seq::empty());
    lemma_aget_single("_attrs"@, o, "_tag"@);
    lemma_aget_single("_attrs"@, o, "_ns"@);
    lemma_aget_single("_attrs"@, o, "_attrs"@);
    lemma_aget_single("_attrs"@, o, "_text"@);
    lemma_aget_single("_attrs"@, o, "_children"@);
    lemma_aget_concat(t, a, "_attrs"@);
    if n.attrs.len() > 0 {
        lemma_ins_fresh(t + a, "_attrs"@, o);
    } else {
        assert(t + a + b =~= t + a);
    }
    assert forall|i: int| 0 <= i < head_list(n).len() implies json_reserved(#[trigger] head_list(n)[i].0) by {
        let h = head_list(n);
        assert(h == t + a + b);
        if i == 0 {
        } else if i < 1 + a.len() {
            assert(h[i] == a[i - 1]);
        } else {
            assert(h[i] == b[i - 1 - a.len()]);
        }
    }
}


/// Whether an element's only child is text.
spec fn single_text(n: XNode) -> bool {
    n.children.len() == 1 && n.children[0] is Text
}

/// The `_text` entry of an element object, if any.
spec fn text_part(n: XNode) -> Seq<(Seq<char>, JVal)> {
    if n.children.len() == 0 {
        Seq::empty()
    } else if single_text(n) {
        seq![("_text"@, spec_smart_json(n.children[0]->Text_0))]
    } else {
        let texts = texts_of(n.children);
        if texts.len() == 0 {
            Seq::empty()
        } else if texts.len() == 1 {
            seq![("_text"@, JVal::Str(texts[0]))]
        } else {
            seq![("_text"@, JVal::Array(json_strs(texts), Seq::empty()))]
        }
    }
}

/// The `_children` entry of an element object, if any.
spec fn children_part(n: XNode) -> Seq<(Seq<char>, JVal)> {
    if n.children.len() == 0 || single_text(n) {
        Seq::empty()
    } else {
        let kids = spec_children_json(n.children);
        if kids.len() > 0 {
            seq![("_children"@, JVal::Array(kids, Seq::empty()))]
        } else {
            Seq::empty()
        }
    }
}

proof fn lemma_node_entries(n: XNode)
    ensures
        spec_node_to_json(n) == JVal::Object(head_list(n) + text_part(n) + children_part(n), Seq::empty()),
{
    lemma_head(n);
    lemma_reserved_keys();
    let h = head_list(n);
    let tp = text_part(n);
    let cp = children_part(n);
    if n.children.len() == 0 {
        assert(h + tp + cp =~= h);
    } else {
        lemma_ins_fresh(h, "_text"@, tp[0].1) ;
        if single_text(n) {
            assert(h + tp + cp =~= h + tp);
        } else {
            let texts = texts_of(n.children);
            let m3 = if texts.len() == 0 {
                h
            } else if texts.len() == 1 {
                jinsert(h, "_text"@, JVal::Str(texts[0]))
            } else {
                jinsert(h, "_text"@, JVal::Array(json_strs(texts), Seq::empty()))
            };
            assert(m3 == h + tp) by {
                if texts.len() == 0 {
                    assert(h + tp =~= h);
                }
            }
            lemma_aget_concat(h, tp, "_children"@);
            if tp.len() > 0 {
                lemma_aget_single("_text"@, tp[0].1, "_children"@);
                assert(tp =~= seq![("_text"@, tp[0].1)]);
            } else {
                lemma_empty_lookup("_children"@);
            }
            let kids = spec_children_json(n.children);
            if kids.len() > 0 {
                lemma_ins_fresh(h + tp, "_children"@, JVal::Array(kids, Seq::empty()));
            } else {
                assert(h + tp + cp =~= h + tp);
            }
        }
    }
}


/// The entries a key-value container writes after `_tag`.
spec fn kv_entries(cs: Seq<XVal>) -> Seq<(Seq<char>, JVal)> {
    Seq::new(cs.len(), |i: int| (child_tag(cs[i]), spec_smart_json(spec_leaf_text(cs[i]->Node_0))))
}

proof fn lemma_kv_json(cs: Seq<XVal>, m0: Seq<(Seq<char>, JVal)>)
    requires
        forall|i: int| 0 <= i < cs.len() ==> is_leaf_child(#[trigger] cs[i]),
        distinct_child_tags(cs),
        forall|i: int| 0 <= i < cs.len() ==> !ahas(m0, child_tag(#[trigger] cs[i])),
    ensures
        kv_json(cs, m0) == m0 + kv_entries(cs),
    decreases cs.len(),
{
    if cs.len() > 0 {
        let d = cs.drop_last();
        assert forall|i: int| 0 <= i < d.len() implies is_leaf_child(#[trigger] d[i]) by {
            assert(d[i] == cs[i]);
        }
        assert forall|i: int| 0 <= i < d.len() implies !ahas(m0, child_tag(#[trigger] d[i])) by {
            assert(d[i] == cs[i]);
        }
        assert(distinct_child_tags(d)) by {
            assert forall|i: int, j: int| 0 <= i < j < d.len() implies child_tag(d[i]) != child_tag(d[j]) by {
                assert(d[i] == cs[i] && d[j] == cs[j]);
            }
        }
        lemma_kv_json(d, m0);
        let last = cs.last();
        assert(is_leaf_child(cs[cs.len() - 1]));
        let k = child_tag(last);
        let prev = m0 + kv_entries(d);
        lemma_aget_concat(m0, kv_entries(d), k);
        assert(!ahas(m0, child_tag(cs[cs.len() - 1])));
        assert(!ahas(kv_entries(d), k)) by {
            crate::assoc::lemma_afind_range(kv_entries(d), k);
            if ahas(kv_entries(d), k) {
                let j = afind(kv_entries(d), k)->Some_0;
                assert(kv_entries(d)[j].0 == child_tag(cs[j]));
                assert(child_tag(cs[j]) != child_tag(cs[cs.len() - 1]));
            }
        }
        lemma_ins_fresh(prev, k, spec_smart_json(spec_leaf_text(last->Node_0)));
        assert(kv_json(cs, m0) =~= m0 + kv_entries(cs));
    }
}

proof fn lemma_kv_back(kvs: Seq<(Seq<char>, JVal)>, tag: Seq<char>)
    requires
        forall|i: int| 0 <= i < kvs.len() ==> (#[trigger] kvs[i]).0 != "_tag"@,
    ensures
        json_kv_back(seq![("_tag"@, JVal::Str(tag))] + kvs, true) == Seq::new(
            kvs.len(),
            |i: int| XVal::Node(spec_text_leaf(kvs[i].0, json_value_text(kvs[i].1))),
        ),
    decreases kvs.len(),
{
    let m0 = seq![("_tag"@, JVal::Str(tag))];
    if kvs.len() == 0 {
        assert(m0 + kvs =~= m0);
        assert(m0.drop_last() =~= Seq::<(Seq<char>, JVal)>::empty());
        assert(m0.last().0 == "_tag"@);
        assert(json_kv_back(m0.drop_last(), true) =~= Seq::<XVal>::empty());
        assert(json_kv_back(m0, true) =~= Seq::<XVal>::empty());
    } else {
        let d = kvs.drop_last();
        assert forall|i: int| 0 <= i < d.len() implies (#[trigger] d[i]).0 != "_tag"@ by {
            assert(d[i] == kvs[i]);
        }
        lemma_kv_back(d, tag);
        assert((m0 + kvs).drop_last() =~= m0 + d);
        assert((m0 + kvs).last() == kvs[kvs.len() - 1]);
        assert(json_kv_back(m0 + kvs, true) =~= Seq::new(
            kvs.len(),
            |i: int| XVal::Node(spec_text_leaf(kvs[i].0, json_value_text(kvs[i].1))),
        ));
    }
}

proof fn lemma_text_leaf_back(c: XNode)
    requires
        spec_is_text_leaf(c),
        c.ns is None,
        no_empty_text(c),
    ensures
        spec_text_leaf(c.tag, json_value_text(spec_smart_json(spec_leaf_text(c)))) == c,
{
    lemma_smart_text(spec_leaf_text(c));
    let r = spec_text_leaf(c.tag, spec_leaf_text(c));
    assert(r.attrs =~= c.attrs);
    assert(r.children =~= c.children);
}

proof fn lemma_spec_children_json_len(cs: Seq<XVal>)
    ensures
        spec_children_json(cs).len() == nodes_of(cs).len(),
    decreases cs.len(),
{
    if cs.len() > 0 {
        lemma_spec_children_json_len(cs.drop_last());
    }
}

/// The `_children` entries come back as the element children.
proof fn lemma_json_items(cs: Seq<XVal>)
    requires
        json_children_ok(cs),
    ensures
        json_children_items(spec_children_json(cs)) == Ok::<Seq<XVal>, crate::error::ConvertError>(nodes_of(cs)),
    decreases cs, 0int,
{
    if cs.len() > 0 {
        let d = cs.drop_last();
        lemma_json_items(d);
        match cs.last() {
            XVal::Node(c) => {
                lemma_json_child(c);
                let kids = spec_children_json(cs);
                assert(kids == spec_children_json(d) + seq![spec_child_node_to_json(c)]);
                assert(kids.drop_last() =~= spec_children_json(d));
                assert(kids.last() == spec_child_node_to_json(c));
                assert(nodes_of(cs) == nodes_of(d) + seq![XVal::Node(c)]);
                assert(nodes_of(d).push(XVal::Node(c)) =~= nodes_of(cs));
            },
            XVal::Text(_) => {
                assert(spec_children_json(cs) =~= spec_children_json(d));
                assert(nodes_of(cs) =~= nodes_of(d));
            },
        }
    }
}

/// A child element comes back from its `_children` entry.
proof fn lemma_json_child(c: XNode)
    requires
        json_child_ok(c),
    ensures
        spec_json_child(spec_child_node_to_json(c)) == Ok::<XNode, crate::error::ConvertError>(c),
    decreases c, 2int,
{
    lemma_reserved_keys();
    let m0 = seq![("_tag"@, JVal::Str(c.tag))];
    lemma_aget_single("_tag"@, JVal::Str(c.tag), "_tag"@);
    lemma_aget_single("_tag"@, JVal::Str(c.tag), "_ns"@);
    lemma_aget_single("_tag"@, JVal::Str(c.tag), "_attrs"@);
    lemma_aget_single("_tag"@, JVal::Str(c.tag), "_text"@);
    lemma_aget_single("_tag"@, JVal::Str(c.tag), "_children"@);
    if spec_is_text_leaf(c) {
        let x = spec_smart_json(spec_leaf_text(c));
        lemma_ins_fresh(m0, "_text"@, x);
        let es = m0 + seq![("_text"@, x)];
        lemma_aget_concat(m0, seq![("_text"@, x)], "_tag"@);
        lemma_aget_concat(m0, seq![("_text"@, x)], "_ns"@);
        lemma_aget_concat(m0, seq![("_text"@, x)], "_attrs"@);
        lemma_aget_concat(m0, seq![("_text"@, x)], "_text"@);
        lemma_aget_concat(m0, seq![("_text"@, x)], "_children"@);
        lemma_aget_single("_text"@, x, "_tag"@);
        lemma_aget_single("_text"@, x, "_ns"@);
        lemma_aget_single("_text"@, x, "_attrs"@);
        lemma_aget_single("_text"@, x, "_text"@);
        lemma_aget_single("_text"@, x, "_children"@);
        lemma_text_leaf_back(c);
    } else if spec_is_simple_kv(c) {
        let cs = c.children;
        assert forall|i: int| 0 <= i < cs.len() implies !ahas(m0, child_tag(#[trigger] cs[i])) by {
            assert(json_kv_entry_ok(cs[i]));
            lemma_aget_single("_tag"@, JVal::Str(c.tag), child_tag(cs[i]));
        }
        lemma_kv_json(cs, m0);
        let kvs = kv_entries(cs);
        assert forall|i: int| 0 <= i < kvs.len() implies !json_reserved((#[trigger] kvs[i]).0) by {
            assert(json_kv_entry_ok(cs[i]));
        }
        let keys = seq!["_ns"@, "_attrs"@, "_text"@, "_children"@];
        assert forall|j: int| 0 <= j < 4 implies !ahas(kvs, #[trigger] keys[j]) by {
            crate::assoc::lemma_afind_range(kvs, keys[j]);
            if ahas(kvs, keys[j]) {
                let p = afind(kvs, keys[j])->Some_0;
                assert(!json_reserved(kvs[p].0));
            }
        }
        assert(keys[0] == "_ns"@ && keys[1] == "_attrs"@ && keys[2] == "_text"@ && keys[3] == "_children"@);
        lemma_aget_concat(m0, kvs, "_tag"@);
        lemma_aget_concat(m0, kvs, "_ns"@);
        lemma_aget_concat(m0, kvs, "_attrs"@);
        lemma_aget_concat(m0, kvs, "_text"@);
        lemma_aget_concat(m0, kvs, "_children"@);
        lemma_kv_back(kvs, c.tag);
        let back = Seq::new(kvs.len(), |i: int| XVal::Node(spec_text_leaf(kvs[i].0, json_value_text(kvs[i].1))));
        assert forall|i: int| 0 <= i < cs.len() implies back[i] == cs[i] by {
            assert(json_kv_entry_ok(cs[i]));
            assert(is_leaf_child(cs[i]));
            lemma_text_leaf_back(cs[i]->Node_0);
        }
        assert(back =~= cs);
        let r = XNode { tag: c.tag, ns: None, attrs: Seq::empty(), children: back };
        assert(r.attrs =~= c.attrs);
        assert(r == c);
    } else {
        let h = head_list(c);
        let tp = text_part(c);
        let cp = children_part(c);
        lemma_node_entries(c);
        lemma_head(c);
        lemma_lookup3(h, tp, cp, "_tag"@);
        lemma_lookup3(h, tp, cp, "_ns"@);
        lemma_lookup3(h, tp, cp, "_attrs"@);
        lemma_lookup3(h, tp, cp, "_children"@);
        if c.ns is None && c.attrs.len() == 0 {
            assert(has_node_child(c.children));
            let k = choose|k: int| 0 <= k < c.children.len() && c.children[k] is Node;
            assert(!single_text(c));
            lemma_spec_children_json_len(c.children);
            lemma_nodes_of_nonempty(c.children, k);
            lemma_aget_single("_children"@, JVal::Array(spec_children_json(c.children), Seq::empty()), "_children"@);
        }
        lemma_text_part_lookup(c, "_tag"@);
        lemma_json_node(c);
    }
}

pub proof fn lemma_nodes_of_nonempty(cs: Seq<XVal>, k: int)
    requires
        0 <= k < cs.len(),
        cs[k] is Node,
    ensures
        nodes_of(cs).len() > 0,
    decreases cs.len(),
{
    if k < cs.len() - 1 {
        assert(cs.drop_last()[k] == cs[k]);
        lemma_nodes_of_nonempty(cs.drop_last(), k);
    }
}

proof fn lemma_text_part_lookup(n: XNode, k: Seq<char>)
    requires
        k != "_text"@,
    ensures
        !ahas(text_part(n), k),
        !ahas(children_part(n), k) || k == "_children"@,
{
    lemma_empty_lookup(k);
    let tp = text_part(n);
    if tp.len() > 0 {
        assert(tp =~= seq![("_text"@, tp[0].1)]);
        lemma_aget_single("_text"@, tp[0].1, k);
    }
    let cp = children_part(n);
    if cp.len() > 0 {
        assert(cp =~= seq![("_children"@, cp[0].1)]);
        lemma_aget_single("_children"@, cp[0].1, k);
    }
}

/// An element comes back from its JSON object.
proof fn lemma_json_node(n: XNode)
    requires
        json_roundtrips(n),
    ensures
        spec_json_to_node(spec_node_to_json(n)) == Ok::<XNode, crate::error::ConvertError>(n),
    decreases n, 1int,
{
    lemma_reserved_keys();
    let h = head_list(n);
    let tp = text_part(n);
    let cp = children_part(n);
    let es = h + tp + cp;
    lemma_node_entries(n);
    lemma_head(n);
    lemma_text_part_lookup(n, "_tag"@);
    lemma_text_part_lookup(n, "_ns"@);
    lemma_text_part_lookup(n, "_attrs"@);
    lemma_text_part_lookup(n, "_children"@);
    lemma_lookup3(h, tp, cp, "_tag"@);
    lemma_lookup3(h, tp, cp, "_ns"@);
    lemma_lookup3(h, tp, cp, "_attrs"@);
    lemma_lookup3(h, tp, cp, "_text"@);
    lemma_lookup3(h, tp, cp, "_children"@);
    // `_attrs` comes back as the attributes.
    if n.attrs.len() > 0 {
        lemma_attrs_json(n.attrs);
    }
    let attrs = match aget(es, "_attrs"@) {
        Some(JVal::Object(a, _)) => json_attrs_back(a),
        _ => Seq::empty(),
    };
    assert(attrs =~= n.attrs);
    // No other keys.
    assert forall|i: int| 0 <= i < es.len() implies json_reserved(#[trigger] es[i].0) by {
        if i < h.len() {
            assert(es[i] == h[i]);
        } else if i < h.len() + tp.len() {
            assert(es[i] == tp[i - h.len()]);
        } else {
            assert(es[i] == cp[i - h.len() - tp.len()]);
        }
    }
    lemma_named_children_reserved(es);
    // `_text` and `_children`.
    let cs = n.children;
    if tp.len() > 0 {
        assert(tp =~= seq![("_text"@, tp[0].1)]);
        lemma_aget_single("_text"@, tp[0].1, "_text"@);
    } else {
        lemma_empty_lookup("_text"@);
    }
    if cp.len() > 0 {
        assert(cp =~= seq![("_children"@, cp[0].1)]);
        lemma_aget_single("_children"@, cp[0].1, "_children"@);
    } else {
        lemma_empty_lookup("_children"@);
    }
    let c1 = match aget(es, "_text"@) {
        Some(t) => json_text_children(t),
        None => Seq::<XVal>::empty(),
    };
    let c2 = match afind(es, "_children"@) {
        Some(ci) => match es[ci].1 {
            JVal::Array(items, _) => json_children_items(items),
            _ => Ok(Seq::<XVal>::empty()),
        },
        None => Ok(Seq::<XVal>::empty()),
    };
    if cs.len() == 0 {
        assert(c1 + c2->Ok_0 + Seq::<XVal>::empty() =~= cs);
    } else if single_text(n) {
        lemma_smart_text(cs[0]->Text_0);
        assert(c1 + c2->Ok_0 + Seq::<XVal>::empty() =~= cs);
    } else {
        let texts = texts_of(cs);
        lemma_texts_first_split(cs);
        if cp.len() > 0 {
            lemma_aget_single("_children"@, cp[0].1, "_text"@);
        }
        if texts.len() == 0 {
            assert(tp.len() == 0);
            assert(aget(es, "_text"@) is None);
            assert(c1 =~= text_vals(texts));
        } else if texts.len() == 1 {
            assert(c1 =~= text_vals(texts));
        } else {
            assert(aget(es, "_text"@) == Some(JVal::Array(json_strs(texts), Seq::empty())));
            assert(c1 =~= text_vals(texts));
        }
        lemma_spec_children_json_len(cs);
        lemma_json_items(cs);
        if spec_children_json(cs).len() == 0 {
            assert(nodes_of(cs) =~= Seq::<XVal>::empty());
        }
        assert(c2 == Ok::<Seq<XVal>, crate::error::ConvertError>(nodes_of(cs)));
        assert(c1 + c2->Ok_0 + Seq::<XVal>::empty() =~= cs);
    }
    let r = XNode { tag: n.tag, ns: n.ns, attrs, children: c1 + c2->Ok_0 + Seq::<XVal>::empty() };
    assert(r == n);
}


/// Writing an element as its JSON object and reading the object back gives
/// the element again, whenever its text children come before its element
/// children, each attribute appears once, and its child elements come back
/// from their `_children` entries (see `json_child_ok`).
pub proof fn law_json_roundtrip(n: XNode)
    requires
        json_roundtrips(n),
    ensures
        spec_json_to_node(spec_node_to_json(n)) == Ok::<XNode, crate::error::ConvertError>(n),
{
    lemma_json_node(n);
}

} // verus!
