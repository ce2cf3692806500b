//! What the ordered YAML form keeps: writing an element in the ordered
//! form and reading it back gives the element again.
use vstd::prelude::*;
use crate::assoc::{
    afind, aget, ahas, ainsert, aswap_remove, keys_distinct, lemma_afind_at, lemma_afind_range, lemma_aget_ainsert,
    lemma_aget_swap_remove, lemma_ainsert_distinct, lemma_ainsert_new,
};
use crate::error::ConvertError;
use crate::json_laws::{lemma_nodes_of_nonempty, lemma_texts_first_split, no_empty_text, nodes_of, text_vals, texts_first};
use crate::json_writer::texts_of;
use crate::xml_node::{XNode, XVal, child_tag, distinct_child_tags, is_leaf_child, spec_is_simple_kv, spec_is_text_leaf,
    spec_leaf_text, spec_text_leaf};
use crate::yaml_reader::{
    grouped_reserved, spec_yaml_doc_to_node, yaml_named_children, is_scalar, spec_yaml_ordered_child,
    spec_yaml_ordered_to_node, with_tag, yaml_attrs_back, yaml_attrs_of, yaml_kv_back, yaml_ordered_items,
    yaml_str_items, yaml_texts_of, yaml_value_text,
};
use crate::yaml_value::{YVal, ykey};
use crate::yaml_writer::{
    attrs_yaml, kv_yaml, ordered_children, spec_child_ordered, spec_node_to_yaml_ordered, spec_simple_yaml,
    spec_smart_yaml, strip_tag, yaml_head, yaml_strs, yaml_with_text,
};

verus! {

/// A tag that the ordered reader treats as a mark of a full element.
pub open spec fn ordered_reserved(k: Seq<char>) -> bool {
    k == "_children"@ || k == "_ns"@ || k == "_attrs"@ || k == "_text"@
}

/// A child of a key-value container that comes back from its entry: no
/// namespace, a tag that is not a reserved key, no empty text.
pub open spec fn yaml_kv_entry_ok(g: XVal) -> bool {
    match g {
        XVal::Node(x) => x.ns is None && !ordered_reserved(x.tag) && no_empty_text(x),
        XVal::Text(_) => false,
    }
}

/// An element that comes back from the ordered YAML form as it was: text
/// children before element children, each attribute once, and every
/// element child coming back from its `_children` entry.
pub open spec fn yaml_roundtrips(n: XNode) -> bool
    decreases n, 0int,
{
    texts_first(n.children) && keys_distinct(n.attrs) && yaml_children_ok(n.children)
}

/// Every element child comes back from its `_children` entry.
pub open spec fn yaml_children_ok(cs: Seq<XVal>) -> bool
    decreases cs, 0int,
{
    if cs.len() == 0 {
        true
    } else {
        yaml_children_ok(cs.drop_last()) && match cs.last() {
            XVal::Node(c) => yaml_child_ok(c),
            XVal::Text(_) => true,
        }
    }
}

/// A child element that comes back from its `_children` entry: a leaf or a
/// key-value container (which the entry writes without namespaces) with no
/// namespace, no empty text and, for a container, children whose tags are
/// not reserved keys; any other element must come back itself.
pub open spec fn yaml_child_ok(c: XNode) -> bool
    decreases c, 1int,
{
    if spec_is_text_leaf(c) {
        c.ns is None && no_empty_text(c)
    } else if spec_is_simple_kv(c) {
        c.ns is None && forall|i: int| 0 <= i < c.children.len() ==> yaml_kv_entry_ok(#[trigger] c.children[i])
    } else {
        yaml_roundtrips(c)
    }
}

// ─── Keys ──────────────────────────────────────────────────────────

pub(crate) proof fn lemma_keys()
    ensures
        ykey("_tag"@) != ykey("_ns"@),
        ykey("_tag"@) != ykey("_attrs"@),
        ykey("_tag"@) != ykey("_text"@),
        ykey("_tag"@) != ykey("_children"@),
        ykey("_ns"@) != ykey("_attrs"@),
        ykey("_ns"@) != ykey("_text"@),
        ykey("_ns"@) != ykey("_children"@),
        ykey("_attrs"@) != ykey("_text"@),
        ykey("_attrs"@) != ykey("_children"@),
        ykey("_text"@) != ykey("_children"@),
        ordered_reserved("_children"@),
        ordered_reserved("_ns"@),
        ordered_reserved("_attrs"@),
        ordered_reserved("_text"@),
        !ordered_reserved("_tag"@),
{
    reveal_strlit("_tag");
    reveal_strlit("_ns");
    reveal_strlit("_attrs");
    reveal_strlit("_text");
    reveal_strlit("_children");
    assert("_tag"@.len() == 4);
    assert("_ns"@.len() == 3);
    assert("_attrs"@.len() == 6);
    assert("_text"@.len() == 5);
    assert("_children"@.len() == 9);
}

/// The entries of an element in the ordered form.
pub open spec fn oe(n: XNode) -> Seq<(YVal, YVal)> {
    spec_node_to_yaml_ordered(n)->Mapping_0
}

/// Whether an element's only child is text.
pub open spec fn single_text(n: XNode) -> bool {
    n.children.len() == 1 && n.children[0] is Text
}

/// What the ordered form of an element holds under `_text`.
pub open spec fn text_entry(n: XNode) -> Option<YVal> {
    if n.children.len() == 0 {
        None
    } else if single_text(n) {
        Some(YVal::Str(n.children[0]->Text_0))
    } else {
        let texts = texts_of(n.children);
        if texts.len() == 0 {
            None
        } else if texts.len() == 1 {
            Some(YVal::Str(texts[0]))
        } else {
            Some(YVal::Sequence(yaml_strs(texts), Seq::empty()))
        }
    }
}

/// What the ordered form of an element holds under `_children`.
pub open spec fn children_entry(n: XNode) -> Option<YVal> {
    if n.children.len() == 0 || single_text(n) {
        None
    } else {
        let kids = ordered_children(n.children);
        if kids.len() > 0 {
            Some(YVal::Sequence(kids, Seq::empty()))
        } else {
            None
        }
    }
}

/// What the ordered form of an element holds under each of the keys that
/// the reader looks at.
pub open spec fn entry_for(n: XNode, k: YVal) -> Option<YVal> {
    if k == ykey("_tag"@) {
        Some(YVal::Str(n.tag))
    } else if k == ykey("_ns"@) {
        match n.ns {
            Some(ns) => Some(YVal::Str(ns)),
            None => None,
        }
    } else if k == ykey("_attrs"@) {
        if n.attrs.len() > 0 {
            Some(YVal::Mapping(attrs_yaml(n.attrs), Seq::empty()))
        } else {
            None
        }
    } else if k == ykey("_text"@) {
        text_entry(n)
    } else if k == ykey("_children"@) {
        children_entry(n)
    } else {
        None
    }
}

pub(crate) proof fn lemma_single_lookup(k0: YVal, v0: YVal, k: YVal)
    ensures
        aget(seq![(k0, v0)], k) == (if k == k0 {
            Some(v0)
        } else {
            None
        }),
        keys_distinct(seq![(k0, v0)]),
{
    crate::assoc::lemma_aget_single(k0, v0, k);
}

/// The entries of the ordered form: distinct keys, and under each key what
/// `entry_for` says.
proof fn lemma_oe(n: XNode, k: YVal)
    ensures
        keys_distinct(oe(n)),
        aget(oe(n), k) == entry_for(n, k),
{
    lemma_keys();
    let m0 = seq![(ykey("_tag"@), YVal::Str(n.tag))];
    lemma_single_lookup(ykey("_tag"@), YVal::Str(n.tag), k);
    let m1 = match n.ns {
        Some(ns) => ainsert(m0, ykey("_ns"@), YVal::Str(ns)),
        None => m0,
    };
    match n.ns {
        Some(ns) => {
            lemma_aget_ainsert(m0, ykey("_ns"@), YVal::Str(ns), k);
            lemma_ainsert_distinct(m0, ykey("_ns"@), YVal::Str(ns));
        },
        None => {},
    }
    let av = YVal::Mapping(attrs_yaml(n.attrs), Seq::empty());
    let h = yaml_head(n);
    if n.attrs.len() > 0 {
        lemma_aget_ainsert(m1, ykey("_attrs"@), av, k);
        lemma_ainsert_distinct(m1, ykey("_attrs"@), av);
    }
    assert(keys_distinct(h));
    if n.children.len() == 0 {
    } else if single_text(n) {
        let tv = YVal::Str(n.children[0]->Text_0);
        lemma_aget_ainsert(h, ykey("_text"@), tv, k);
        lemma_ainsert_distinct(h, ykey("_text"@), tv);
    } else {
        let texts = texts_of(n.children);
        let m3 = yaml_with_text(h, n);
        if texts.len() > 0 {
            let tv = text_entry(n)->Some_0;
            lemma_aget_ainsert(h, ykey("_text"@), tv, k);
            lemma_ainsert_distinct(h, ykey("_text"@), tv);
        }
        assert(keys_distinct(m3));
        let kids = ordered_children(n.children);
        if kids.len() > 0 {
            let cv = YVal::Sequence(kids, Seq::empty());
            lemma_aget_ainsert(m3, ykey("_children"@), cv, k);
            lemma_ainsert_distinct(m3, ykey("_children"@), cv);
        }
    }
}

/// The ordered reader only looks up `_tag`, `_ns`, `_attrs`, `_text` and
/// `_children`: mappings that agree on them read the same.
proof fn lemma_reader_lookup(es1: Seq<(YVal, YVal)>, r1: Seq<char>, es2: Seq<(YVal, YVal)>, r2: Seq<char>)
    requires
        aget(es1, ykey("_tag"@)) == aget(es2, ykey("_tag"@)),
        aget(es1, ykey("_ns"@)) == aget(es2, ykey("_ns"@)),
        aget(es1, ykey("_attrs"@)) == aget(es2, ykey("_attrs"@)),
        aget(es1, ykey("_text"@)) == aget(es2, ykey("_text"@)),
        aget(es1, ykey("_children"@)) == aget(es2, ykey("_children"@)),
    ensures
        spec_yaml_ordered_to_node(YVal::Mapping(es1, r1)) == spec_yaml_ordered_to_node(YVal::Mapping(es2, r2)),
{
    lemma_afind_range(es1, ykey("_children"@));
    lemma_afind_range(es2, ykey("_children"@));
}

pub(crate) proof fn lemma_attrs_yaml(attrs: Seq<(Seq<char>, Seq<char>)>)
    requires
        keys_distinct(attrs),
    ensures
        attrs_yaml(attrs) == Seq::new(attrs.len(), |i: int| (ykey(attrs[i].0), YVal::Str(attrs[i].1))),
        yaml_attrs_back(attrs_yaml(attrs)) == attrs,
    decreases attrs.len(),
{
    if attrs.len() > 0 {
        let d = attrs.drop_last();
        assert(keys_distinct(d)) by {
            assert forall|i: int, j: int| 0 <= i < j < d.len() implies d[i].0 != d[j].0 by {
                assert(d[i] == attrs[i] && d[j] == attrs[j]);
            }
        }
        lemma_attrs_yaml(d);
        let prev = attrs_yaml(d);
        let k = attrs.last().0;
        assert forall|j: int| 0 <= j < prev.len() implies prev[j].0 != ykey(k) by {
            assert(prev[j].0 == ykey(attrs[j].0));
        }
        lemma_ainsert_new(prev, ykey(k), YVal::Str(attrs.last().1));
        assert(attrs_yaml(attrs) =~= Seq::new(attrs.len(), |i: int| (ykey(attrs[i].0), YVal::Str(attrs[i].1))));
        let full = attrs_yaml(attrs);
        assert(full.drop_last() =~= prev);
        assert forall|j: int| 0 <= j < d.len() implies d[j].0 != k by {
            assert(d[j] == attrs[j]);
        }
        lemma_ainsert_new(d, k, attrs.last().1);
        assert(yaml_attrs_back(full) =~= attrs);
    }
}

pub(crate) proof fn lemma_str_items(ts: Seq<Seq<char>>)
    ensures
        yaml_str_items(yaml_strs(ts)) == text_vals(ts),
    decreases ts.len(),
{
    if ts.len() > 0 {
        let d = ts.drop_last();
        lemma_str_items(d);
        assert(yaml_strs(ts).drop_last() =~= yaml_strs(d));
        assert(yaml_strs(ts).last() == YVal::Str(ts.last()));
        assert(text_vals(ts) =~= text_vals(d).push(XVal::Text(ts.last())));
    }
}

pub(crate) proof fn lemma_smart_text(t: Seq<char>)
    ensures
        yaml_value_text(spec_smart_yaml(t)) == t,
        is_scalar(spec_smart_yaml(t)),
{
}

pub(crate) proof fn lemma_text_leaf_back(c: XNode)
    requires
        spec_is_text_leaf(c),
        c.ns is None,
        no_empty_text(c),
    ensures
        spec_text_leaf(c.tag, yaml_value_text(spec_smart_yaml(spec_leaf_text(c)))) == c,
{
    lemma_smart_text(spec_leaf_text(c));
    let r = spec_text_leaf(c.tag, spec_leaf_text(c));
    assert(r.attrs =~= c.attrs);
    assert(r.children =~= c.children);
}

/// The entries a key-value container writes.
pub(crate) open spec fn kv_entries(cs: Seq<XVal>) -> Seq<(YVal, YVal)> {
    Seq::new(cs.len(), |i: int| (ykey(child_tag(cs[i])), spec_smart_yaml(spec_leaf_text(cs[i]->Node_0))))
}

pub(crate) proof fn lemma_kv_yaml(cs: Seq<XVal>)
    requires
        forall|i: int| 0 <= i < cs.len() ==> is_leaf_child(#[trigger] cs[i]),
        distinct_child_tags(cs),
    ensures
        kv_yaml(cs) == kv_entries(cs),
    decreases cs.len(),
{
    if cs.len() > 0 {
        let d = cs.drop_last();
        assert forall|i: int| 0 <= i < d.len() implies is_leaf_child(#[trigger] d[i]) by {
            assert(d[i] == cs[i]);
        }
        assert(distinct_child_tags(d)) by {
            assert forall|i: int, j: int| 0 <= i < j < d.len() implies child_tag(d[i]) != child_tag(d[j]) by {
                assert(d[i] == cs[i] && d[j] == cs[j]);
            }
        }
        lemma_kv_yaml(d);
        assert(is_leaf_child(cs[cs.len() - 1]));
        let last = cs.last();
        let prev = kv_entries(d);
        assert forall|j: int| 0 <= j < prev.len() implies prev[j].0 != ykey(child_tag(last)) by {
            assert(prev[j].0 == ykey(child_tag(cs[j])));
            assert(child_tag(cs[j]) != child_tag(cs[cs.len() - 1]));
        }
        lemma_ainsert_new(prev, ykey(child_tag(last)), spec_smart_yaml(spec_leaf_text(last->Node_0)));
        assert(kv_yaml(cs) =~= kv_entries(cs));
    }
}

pub(crate) proof fn lemma_kv_back(es: Seq<(YVal, YVal)>)
    requires
        forall|i: int| 0 <= i < es.len() ==> (#[trigger] es[i]).0 is Str,
    ensures
        yaml_kv_back(es) == Seq::new(
            es.len(),
            |i: int| XVal::Node(spec_text_leaf(es[i].0->Str_0, yaml_value_text(es[i].1))),
        ),
    decreases es.len(),
{
    if es.len() > 0 {
        let d = es.drop_last();
        assert forall|i: int| 0 <= i < d.len() implies (#[trigger] d[i]).0 is Str by {
            assert(d[i] == es[i]);
        }
        lemma_kv_back(d);
        assert(es[es.len() - 1].0 is Str);
        assert(yaml_kv_back(es) =~= Seq::new(
            es.len(),
            |i: int| XVal::Node(spec_text_leaf(es[i].0->Str_0, yaml_value_text(es[i].1))),
        ));
    }
}

proof fn lemma_ordered_children_len(cs: Seq<XVal>)
    ensures
        ordered_children(cs).len() == nodes_of(cs).len(),
    decreases cs.len(),
{
    if cs.len() > 0 {
        lemma_ordered_children_len(cs.drop_last());
    }
}

pub(crate) proof fn lemma_with_tag_lookup(tag: Seq<char>, m: Seq<(YVal, YVal)>, k: YVal)
    requires
        keys_distinct(m),
        !ahas(m, ykey("_tag"@)),
    ensures
        aget(with_tag(tag, m), k) == if k == ykey("_tag"@) {
            Some(YVal::Str(tag))
        } else {
            aget(m, k)
        },
    decreases m.len(),
{
    if m.len() == 0 {
        lemma_single_lookup(ykey("_tag"@), YVal::Str(tag), k);
    } else {
        let d = m.drop_last();
        let last = m.last();
        assert(keys_distinct(d)) by {
            assert forall|i: int, j: int| 0 <= i < j < d.len() implies d[i].0 != d[j].0 by {
                assert(d[i] == m[i] && d[j] == m[j]);
            }
        }
        assert(m =~= d + seq![last]);
        crate::assoc::lemma_aget_concat(d, seq![last], ykey("_tag"@));
        crate::assoc::lemma_aget_concat(d, seq![last], k);
        lemma_single_lookup(last.0, last.1, ykey("_tag"@));
        lemma_single_lookup(last.0, last.1, k);
        lemma_with_tag_lookup(tag, d, k);
        lemma_aget_ainsert(with_tag(tag, d), last.0, last.1, k);
        if k == last.0 {
            lemma_afind_at(m, k, m.len() - 1);
        }
    }
}

pub(crate) proof fn lemma_texts_of_empty(cs: Seq<XVal>)
    requires
        texts_of(cs).len() == 0,
    ensures
        forall|i: int| 0 <= i < cs.len() ==> (#[trigger] cs[i]) is Node,
    decreases cs.len(),
{
    if cs.len() > 0 {
        let d = cs.drop_last();
        if cs.last() is Text {
            assert(texts_of(cs).len() == texts_of(d).len() + 1);
        } else {
            assert(texts_of(cs) == texts_of(d));
            lemma_texts_of_empty(d);
            assert forall|i: int| 0 <= i < cs.len() implies (#[trigger] cs[i]) is Node by {
                if i < d.len() {
                    assert(cs[i] == d[i]);
                }
            }
        }
    }
}

/// The `_children` entries come back as the element children.
proof fn lemma_items(cs: Seq<XVal>)
    requires
        yaml_children_ok(cs),
    ensures
        yaml_ordered_items(ordered_children(cs)) == Ok::<Seq<XVal>, ConvertError>(nodes_of(cs)),
    decreases cs, 0int,
{
    if cs.len() > 0 {
        let d = cs.drop_last();
        lemma_items(d);
        match cs.last() {
            XVal::Node(c) => {
                lemma_child(c);
                let kids = ordered_children(cs);
                assert(kids == ordered_children(d) + seq![spec_child_ordered(c)]);
                assert(kids.drop_last() =~= ordered_children(d));
                assert(kids.last() == spec_child_ordered(c));
                assert(nodes_of(cs) == nodes_of(d) + seq![XVal::Node(c)]);
                assert(nodes_of(d).push(XVal::Node(c)) =~= nodes_of(cs));
            },
            XVal::Text(_) => {
                assert(ordered_children(cs) =~= ordered_children(d));
                assert(nodes_of(cs) =~= nodes_of(d));
            },
        }
    }
}

/// A child element comes back from its `_children` entry.
proof fn lemma_child(c: XNode)
    requires
        yaml_child_ok(c),
    ensures
        spec_yaml_ordered_child(spec_child_ordered(c)) == Ok::<XNode, ConvertError>(c),
    decreases c, 2int,
{
    lemma_keys();
    if spec_is_text_leaf(c) {
        lemma_text_leaf_back(c);
    } else if spec_is_simple_kv(c) {
        let cs = c.children;
        lemma_kv_yaml(cs);
        let m = kv_entries(cs);
        let keys = seq!["_children"@, "_ns"@, "_attrs"@, "_text"@];
        assert forall|j: int| 0 <= j < 4 implies !ahas(m, ykey(#[trigger] keys[j])) by {
            lemma_afind_range(m, ykey(keys[j]));
            if ahas(m, ykey(keys[j])) {
                let p = afind(m, ykey(keys[j]))->Some_0;
                assert(yaml_kv_entry_ok(cs[p]));
                assert(m[p].0 == ykey(child_tag(cs[p])));
            }
        }
        assert(keys[0] == "_children"@ && keys[1] == "_ns"@ && keys[2] == "_attrs"@ && keys[3] == "_text"@);
        assert forall|i: int| 0 <= i < m.len() implies (#[trigger] m[i]).0 is Str by {}
        lemma_kv_back(m);
        let back = Seq::new(m.len(), |i: int| XVal::Node(spec_text_leaf(m[i].0->Str_0, yaml_value_text(m[i].1))));
        assert forall|i: int| 0 <= i < cs.len() implies back[i] == cs[i] by {
            assert(yaml_kv_entry_ok(cs[i]));
            assert(is_leaf_child(cs[i]));
            lemma_text_leaf_back(cs[i]->Node_0);
        }
        assert(back =~= cs);
        let r = XNode { tag: c.tag, ns: None, attrs: Seq::empty(), children: back };
        assert(r.attrs =~= c.attrs);
        assert(r == c);
        assert(spec_simple_yaml(c) == YVal::Mapping(m, Seq::empty()));
    } else {
        let e = oe(c);
        let m = aswap_remove(e, ykey("_tag"@));
        lemma_oe(c, ykey("_tag"@));
        lemma_oe(c, ykey("_ns"@));
        lemma_oe(c, ykey("_attrs"@));
        lemma_oe(c, ykey("_text"@));
        lemma_oe(c, ykey("_children"@));
        lemma_aget_swap_remove(e, ykey("_tag"@), ykey("_tag"@));
        lemma_aget_swap_remove(e, ykey("_tag"@), ykey("_ns"@));
        lemma_aget_swap_remove(e, ykey("_tag"@), ykey("_attrs"@));
        lemma_aget_swap_remove(e, ykey("_tag"@), ykey("_text"@));
        lemma_aget_swap_remove(e, ykey("_tag"@), ykey("_children"@));
        assert(spec_node_to_yaml_ordered(c) == YVal::Mapping(e, Seq::empty()));
        assert(strip_tag(spec_node_to_yaml_ordered(c)) == YVal::Mapping(m, Seq::empty()));
        // The entry shows a mark of a full element.
        assert(ahas(m, ykey("_children"@)) || ahas(m, ykey("_ns"@)) || ahas(m, ykey("_attrs"@)) || ahas(
            m,
            ykey("_text"@),
        )) by {
            if c.attrs.len() == 0 && c.ns is None {
                assert(c.children.len() > 0) by {
                    if c.children.len() == 0 {
                        assert(spec_is_text_leaf(c));
                    }
                }
                if !single_text(c) && texts_of(c.children).len() == 0 {
                    lemma_texts_of_empty(c.children);
                    lemma_nodes_of_nonempty(c.children, 0);
                    lemma_ordered_children_len(c.children);
                }
            }
        }
        lemma_with_tag_lookup(c.tag, m, ykey("_tag"@));
        lemma_with_tag_lookup(c.tag, m, ykey("_ns"@));
        lemma_with_tag_lookup(c.tag, m, ykey("_attrs"@));
        lemma_with_tag_lookup(c.tag, m, ykey("_text"@));
        lemma_with_tag_lookup(c.tag, m, ykey("_children"@));
        lemma_reader_lookup(with_tag(c.tag, m), Seq::empty(), e, Seq::empty());
        lemma_node(c);
    }
}

/// An element comes back from its ordered form.
proof fn lemma_node(n: XNode)
    requires
        yaml_roundtrips(n),
    ensures
        spec_yaml_ordered_to_node(spec_node_to_yaml_ordered(n)) == Ok::<XNode, ConvertError>(n),
    decreases n, 1int,
{
    lemma_keys();
    let es = oe(n);
    assert(spec_node_to_yaml_ordered(n) == YVal::Mapping(es, Seq::empty()));
    lemma_oe(n, ykey("_tag"@));
    lemma_oe(n, ykey("_ns"@));
    lemma_oe(n, ykey("_attrs"@));
    lemma_oe(n, ykey("_text"@));
    lemma_oe(n, ykey("_children"@));
    lemma_afind_range(es, ykey("_children"@));
    if n.attrs.len() > 0 {
        lemma_attrs_yaml(n.attrs);
    } else {
        assert(n.attrs =~= Seq::<(Seq<char>, Seq<char>)>::empty());
    }
    assert(yaml_attrs_of(es) == n.attrs);
    let cs = n.children;
    let c1 = yaml_texts_of(es);
    let c2 = match afind(es, ykey("_children"@)) {
        Some(ci) => match es[ci].1 {
            YVal::Sequence(items, _) => yaml_ordered_items(items),
            _ => Ok(Seq::<XVal>::empty()),
        },
        None => Ok(Seq::<XVal>::empty()),
    };
    if cs.len() == 0 {
        assert(c1 + c2->Ok_0 =~= cs);
    } else if single_text(n) {
        assert(c1 + c2->Ok_0 =~= cs);
    } else {
        let texts = texts_of(cs);
        lemma_texts_first_split(cs);
        if texts.len() > 1 {
            lemma_str_items(texts);
        }
        assert(c1 =~= text_vals(texts));
        lemma_ordered_children_len(cs);
        lemma_items(cs);
        if ordered_children(cs).len() == 0 {
            assert(nodes_of(cs) =~= Seq::<XVal>::empty());
        }
        assert(c2 == Ok::<Seq<XVal>, ConvertError>(nodes_of(cs)));
        assert(c1 + c2->Ok_0 =~= cs);
    }
    let r = XNode { tag: n.tag, ns: n.ns, attrs: n.attrs, children: c1 + c2->Ok_0 };
    assert(r == n);
}

/// Writing an element in the ordered YAML form and reading it back gives
/// the element again, whenever its text children come before its element
/// children, each attribute appears once, and its child elements come back
/// from their `_children` entries (see `yaml_child_ok`).
pub proof fn law_yaml_ordered_roundtrip(n: XNode)
    requires
        yaml_roundtrips(n),
    ensures
        spec_yaml_ordered_to_node(spec_node_to_yaml_ordered(n)) == Ok::<XNode, ConvertError>(n),
{
    lemma_node(n);
}

pub(crate) proof fn lemma_named_children_reserved(es: Seq<(YVal, YVal)>)
    requires
        forall|i: int| 0 <= i < es.len() ==> (#[trigger] es[i]).0 is Str && grouped_reserved(es[i].0->Str_0),
    ensures
        yaml_named_children(es) == Ok::<Seq<XVal>, ConvertError>(Seq::empty()),
    decreases es.len(),
{
    if es.len() > 0 {
        let d = es.drop_last();
        assert forall|i: int| 0 <= i < d.len() implies (#[trigger] d[i]).0 is Str && grouped_reserved(d[i].0->Str_0) by {
            assert(d[i] == es[i]);
        }
        lemma_named_children_reserved(d);
        assert(es[es.len() - 1].0 is Str);
    }
}

/// Reading the ordered form of an element as a document (which picks the
/// reader by the presence of `_children`) gives the element again, under
/// the same conditions as `law_yaml_ordered_roundtrip`.
pub proof fn law_yaml_document_roundtrip(n: XNode)
    requires
        yaml_roundtrips(n),
    ensures
        spec_yaml_doc_to_node(spec_node_to_yaml_ordered(n)) == Ok::<XNode, ConvertError>(n),
{
    lemma_node(n);
    lemma_keys();
    let es = oe(n);
    assert(spec_node_to_yaml_ordered(n) == YVal::Mapping(es, Seq::empty()));
    lemma_oe(n, ykey("_children"@));
    if !ahas(es, ykey("_children"@)) {
        assert forall|i: int| 0 <= i < es.len() implies (#[trigger] es[i]).0 is Str && grouped_reserved(
            es[i].0->Str_0,
        ) by {
            let k = es[i].0;
            lemma_oe(n, k);
            lemma_afind_at(es, k, i);
            reveal_strlit("_tag");
            reveal_strlit("_ns");
            reveal_strlit("_attrs");
            reveal_strlit("_text");
        }
        lemma_named_children_reserved(es);
        lemma_afind_range(es, ykey("_children"@));
        let c1 = yaml_texts_of(es);
        assert(c1 + Seq::<XVal>::empty() =~= c1);
    }
}

} // verus!
