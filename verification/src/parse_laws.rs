//! What every tree read from XML text is like: at every level each
//! attribute name appears once and none is `xmlns`, and no text child is
//! empty.
use vstd::prelude::*;
use crate::assoc::lemma_ainsert_distinct;
use crate::json_laws::{
    has_node_child, json_child_ok, json_children_ok, json_kv_entry_ok, json_roundtrips, law_json_roundtrip,
    no_empty_text, texts_first,
};
use crate::json_writer::{json_reserved, spec_json_to_node, spec_node_to_json};
use crate::xml_node::{XNode, XVal, spec_is_simple_kv, spec_is_text_leaf};
use crate::yaml_grouped_laws::{
    grouped_child_ok, grouped_children_ok, grouped_ok, kv_child_ok, kv_tag, law_yaml_grouped_roundtrip, leaves_tag,
    marks_full, regrouped,
};
use crate::yaml_reader::{grouped_reserved, spec_yaml_to_node};
use crate::yaml_writer::spec_node_to_yaml;
use crate::xml_parser::{
    BuildState, XEvent, attrs_ok, push_child, reader_events, spec_build, spec_event, spec_parse_events,
    spec_parse_xml, spec_read_from, spec_step, spec_tag_attrs, spec_tag_node,
};

verus! {

/// An element as reading makes it: its attributes are `attrs_ok`, and so
/// are its children (see `parsed_children_ok`).
pub open spec fn parsed_ok(n: XNode) -> bool
    decreases n, 1int,
{
    attrs_ok(n.attrs) && parsed_children_ok(n.children)
}

/// Every text child is non-empty and every element child is `parsed_ok`.
pub open spec fn parsed_children_ok(cs: Seq<XVal>) -> bool
    decreases cs, 0int,
{
    if cs.len() == 0 {
        true
    } else {
        parsed_children_ok(cs.drop_last()) && match cs.last() {
            XVal::Text(t) => t.len() > 0,
            XVal::Node(c) => parsed_ok(c),
        }
    }
}

/// A child as reading makes it.
pub open spec fn parsed_val_ok(v: XVal) -> bool {
    match v {
        XVal::Text(t) => t.len() > 0,
        XVal::Node(c) => parsed_ok(c),
    }
}

/// Every open element is `parsed_ok`, and so is the finished one.
pub open spec fn state_ok(s: BuildState) -> bool {
    &&& forall|i: int| 0 <= i < s.stack.len() ==> parsed_ok(#[trigger] s.stack[i])
    &&& s.root matches Some(r) ==> parsed_ok(r)
}

/// An event as the reader's events are: an element it opens or closes at
/// once has no children and `attrs_ok` attributes.
pub open spec fn event_ok(ev: XEvent) -> bool {
    match ev {
        XEvent::Open(n) => n.children.len() == 0 && attrs_ok(n.attrs),
        XEvent::Leaf(n) => n.children.len() == 0 && attrs_ok(n.attrs),
        _ => true,
    }
}

proof fn lemma_children_push(cs: Seq<XVal>, v: XVal)
    ensures
        parsed_children_ok(cs.push(v)) == (parsed_children_ok(cs) && parsed_val_ok(v)),
{
    assert(cs.push(v).drop_last() =~= cs);
}

proof fn lemma_fresh_node(n: XNode)
    requires
        n.children.len() == 0,
        attrs_ok(n.attrs),
    ensures
        parsed_ok(n),
{
}

proof fn lemma_push_child(stack: Seq<XNode>, c: XVal)
    requires
        stack.len() > 0,
        forall|i: int| 0 <= i < stack.len() ==> parsed_ok(#[trigger] stack[i]),
        parsed_val_ok(c),
    ensures
        forall|i: int| 0 <= i < push_child(stack, c).len() ==> parsed_ok(#[trigger] push_child(stack, c)[i]),
{
    let top = stack.last();
    assert(parsed_ok(top));
    lemma_children_push(top.children, c);
    let s2 = push_child(stack, c);
    assert forall|i: int| 0 <= i < s2.len() implies parsed_ok(#[trigger] s2[i]) by {
        if i < stack.len() - 1 {
            assert(s2[i] == stack[i]);
        }
    }
}

proof fn lemma_step_ok(s: BuildState, ev: XEvent)
    requires
        state_ok(s),
        event_ok(ev),
    ensures
        spec_step(s, ev) matches Ok(s2) ==> state_ok(s2),
{
    match ev {
        XEvent::Open(n) => {
            lemma_fresh_node(n);
            let st = s.stack.push(n);
            assert forall|i: int| 0 <= i < st.len() implies parsed_ok(#[trigger] st[i]) by {
                if i < s.stack.len() {
                    assert(st[i] == s.stack[i]);
                }
            }
        },
        XEvent::Leaf(n) => {
            lemma_fresh_node(n);
            if s.stack.len() > 0 {
                lemma_push_child(s.stack, XVal::Node(n));
            }
        },
        XEvent::Text(t) => {
            if t.len() > 0 && s.stack.len() > 0 {
                lemma_push_child(s.stack, XVal::Text(t));
            }
        },
        XEvent::Close => {
            if s.stack.len() > 0 {
                let n = s.stack.last();
                let rest = s.stack.drop_last();
                assert(parsed_ok(n));
                assert forall|i: int| 0 <= i < rest.len() implies parsed_ok(#[trigger] rest[i]) by {
                    assert(rest[i] == s.stack[i]);
                }
                if rest.len() > 0 {
                    lemma_push_child(rest, XVal::Node(n));
                }
            }
        },
        _ => {},
    }
}

proof fn lemma_build_ok(evs: Seq<XEvent>)
    requires
        forall|i: int| 0 <= i < evs.len() ==> event_ok(#[trigger] evs[i]),
    ensures
        spec_build(evs) matches Ok(s) ==> state_ok(s),
    decreases evs.len(),
{
    if evs.len() > 0 {
        let d = evs.drop_last();
        assert forall|i: int| 0 <= i < d.len() implies event_ok(#[trigger] d[i]) by {
            assert(d[i] == evs[i]);
        }
        lemma_build_ok(d);
        if let Ok(s) = spec_build(d) {
            assert(event_ok(evs[evs.len() - 1]));
            lemma_step_ok(s, evs.last());
        }
    }
}

proof fn lemma_parse_events_ok(evs: Seq<XEvent>)
    requires
        forall|i: int| 0 <= i < evs.len() ==> event_ok(#[trigger] evs[i]),
    ensures
        spec_parse_events(evs) matches Ok(n) ==> parsed_ok(n),
{
    lemma_build_ok(evs);
}

proof fn lemma_tag_attrs_ok(
    text: Seq<char>,
    k: nat,
    j: nat,
    fuel: nat,
    acc: Seq<(Seq<char>, Seq<char>)>,
)
    requires
        attrs_ok(acc),
    ensures
        spec_tag_attrs(text, k, j, fuel, acc) matches Ok(a) ==> attrs_ok(a),
    decreases fuel,
{
    if fuel > 0 {
        let f = (fuel - 1) as nat;
        lemma_tag_attrs_ok(text, k, j + 1, f, acc);
        match crate::xml_parser::xml_attr_key(text, k, j) {
            Ok(key) => {
                if key != "xmlns"@ {
                    match crate::xml_parser::xml_attr_value(text, k, j) {
                        Ok(v) => {
                            let a2 = crate::assoc::ainsert(acc, key, v);
                            lemma_ainsert_distinct(acc, key, v);
                            assert forall|i: int| 0 <= i < a2.len() implies (#[trigger] a2[i]).0 != "xmlns"@ by {
                                if a2[i].0 != key {
                                    assert(a2[i].0 == acc[i].0);
                                }
                            }
                            lemma_tag_attrs_ok(text, k, j + 1, f, a2);
                        },
                        Err(_) => {},
                    }
                }
            },
            Err(_) => {},
        }
    }
}

proof fn lemma_event_ok(text: Seq<char>, k: nat, fuel: nat)
    ensures
        event_ok(spec_event(text, k, fuel)),
{
    assert(attrs_ok(Seq::<(Seq<char>, Seq<char>)>::empty()));
    lemma_tag_attrs_ok(text, k, 0, fuel, Seq::empty());
    assert(spec_tag_node(text, k, fuel) matches Ok(n) ==> n.children.len() == 0 && attrs_ok(n.attrs));
}

proof fn lemma_reader_events_ok(text: Seq<char>, fuel: nat, n: nat)
    ensures
        forall|i: int| 0 <= i < reader_events(text, fuel, n).len() ==> event_ok(
            #[trigger] reader_events(text, fuel, n)[i],
        ),
{
    assert forall|i: int| 0 <= i < reader_events(text, fuel, n).len() implies event_ok(
        #[trigger] reader_events(text, fuel, n)[i],
    ) by {
        lemma_event_ok(text, i as nat, fuel);
    }
}

proof fn lemma_read_from_ok(text: Seq<char>, fuel: nat, k: nat, budget: nat)
    ensures
        spec_read_from(text, fuel, k, budget) matches Ok(n) ==> parsed_ok(n),
    decreases budget,
{
    if budget > 0 {
        lemma_reader_events_ok(text, fuel, k + 1);
        lemma_parse_events_ok(reader_events(text, fuel, k + 1));
        lemma_read_from_ok(text, fuel, k + 1, (budget - 1) as nat);
    }
}

/// Every tree read from XML text keeps each attribute name once at every
/// level, holds no `xmlns` among its attributes (the namespace is kept
/// apart), and has no empty text child: blank text is dropped.
pub proof fn law_parsed_tree_well_formed(text: Seq<char>)
    ensures
        spec_parse_xml(text) matches Ok(n) ==> parsed_ok(n),
{
    lemma_read_from_ok(text, (text.len() + 2) as nat, 0, (text.len() + 2) as nat);
}

// ─── Reading XML, then the JSON form ───────────────────────────────

/// The shape under which the JSON form of an element reads back as the
/// element, beyond what reading XML already gives (`parsed_ok`): text
/// children before element children, and every element child coming back
/// from its entry (see `json_shape_child`).
pub open spec fn json_shape(n: XNode) -> bool
    decreases n, 1int,
{
    texts_first(n.children) && json_shape_children(n.children)
}

pub open spec fn json_shape_children(cs: Seq<XVal>) -> bool
    decreases cs, 0int,
{
    if cs.len() == 0 {
        true
    } else {
        json_shape_children(cs.drop_last()) && match cs.last() {
            XVal::Node(c) => json_shape_child(c),
            XVal::Text(_) => true,
        }
    }
}

/// A child element that its JSON entry gives back: a text leaf or a
/// key-value container with no namespace (the entry has no room for one),
/// whose entries are not named by a reserved key; any other element shows
/// in its entry as a full element (a namespace, attributes or an element
/// child) and has the shape itself.
pub open spec fn json_shape_child(c: XNode) -> bool
    decreases c, 2int,
{
    if spec_is_text_leaf(c) {
        c.ns is None
    } else if spec_is_simple_kv(c) {
        c.ns is None && forall|i: int|
            0 <= i < c.children.len() ==> match #[trigger] c.children[i] {
                XVal::Node(x) => x.ns is None && !json_reserved(x.tag),
                XVal::Text(_) => false,
            }
    } else {
        (c.ns is Some || c.attrs.len() > 0 || has_node_child(c.children)) && json_shape(c)
    }
}

proof fn lemma_children_each(cs: Seq<XVal>)
    requires
        parsed_children_ok(cs),
    ensures
        forall|i: int| 0 <= i < cs.len() ==> parsed_val_ok(#[trigger] cs[i]),
    decreases cs.len(),
{
    if cs.len() > 0 {
        let d = cs.drop_last();
        lemma_children_each(d);
        assert forall|i: int| 0 <= i < cs.len() implies parsed_val_ok(#[trigger] cs[i]) by {
            if i < d.len() {
                assert(cs[i] == d[i]);
            }
        }
    }
}

proof fn lemma_no_empty_text(c: XNode)
    requires
        parsed_ok(c),
    ensures
        no_empty_text(c),
{
    lemma_children_each(c.children);
}

proof fn lemma_json_shape(n: XNode)
    requires
        parsed_ok(n),
        json_shape(n),
    ensures
        json_roundtrips(n),
    decreases n, 1int,
{
    lemma_json_shape_children(n.children);
}

proof fn lemma_json_shape_children(cs: Seq<XVal>)
    requires
        parsed_children_ok(cs),
        json_shape_children(cs),
    ensures
        json_children_ok(cs),
    decreases cs, 0int,
{
    if cs.len() > 0 {
        lemma_json_shape_children(cs.drop_last());
        match cs.last() {
            XVal::Node(c) => lemma_json_shape_child(c),
            XVal::Text(_) => {},
        }
    }
}

proof fn lemma_json_shape_child(c: XNode)
    requires
        parsed_ok(c),
        json_shape_child(c),
    ensures
        json_child_ok(c),
    decreases c, 2int,
{
    lemma_no_empty_text(c);
    if spec_is_text_leaf(c) {
    } else if spec_is_simple_kv(c) {
        lemma_children_each(c.children);
        assert forall|i: int| 0 <= i < c.children.len() implies json_kv_entry_ok(#[trigger] c.children[i]) by {
            assert(parsed_val_ok(c.children[i]));
            if let XVal::Node(x) = c.children[i] {
                lemma_no_empty_text(x);
            }
        }
    } else {
        lemma_json_shape(c);
    }
}

/// Reading XML text, writing the tree as JSON and reading that back gives
/// the tree read, whenever the tree has the JSON shape (`json_shape`: no
/// text after an element child, and child elements that their entries can
/// hold).
pub proof fn law_parsed_json_roundtrip(text: Seq<char>, n: XNode)
    requires
        spec_parse_xml(text) == Ok::<XNode, crate::xml_parser::PErr>(n),
        json_shape(n),
    ensures
        spec_json_to_node(spec_node_to_json(n)) == Ok::<XNode, crate::error::ConvertError>(n),
{
    law_parsed_tree_well_formed(text);
    lemma_json_shape(n);
    law_json_roundtrip(n);
}

// ─── Reading XML, then the grouped YAML form ───────────────────────

/// The shape under which the grouped YAML form of an element reads back
/// as `regrouped` says, beyond what reading XML already gives
/// (`parsed_ok`): every child element fit for the way its tag is written
/// (see `grouped_shape_child`).
pub open spec fn grouped_shape(n: XNode) -> bool
    decreases n, 0int,
{
    grouped_shape_children(n.children, n.children)
}

pub open spec fn grouped_shape_children(cs: Seq<XVal>, all: Seq<XVal>) -> bool
    decreases cs, 0int,
{
    if cs.len() == 0 {
        true
    } else {
        grouped_shape_children(cs.drop_last(), all) && match cs.last() {
            XVal::Node(c) => grouped_shape_child(c, all),
            XVal::Text(_) => true,
        }
    }
}

/// A child element fit for the way its tag is written among `all`: a tag
/// that is not a reserved key; as leaves, a leaf with one text and no
/// namespace (no empty element); as key-value containers, no namespace and
/// entries with no namespace whose tags do not mark a full element; in
/// full, an element of this shape itself.
pub open spec fn grouped_shape_child(c: XNode, all: Seq<XVal>) -> bool
    decreases c, 1int,
{
    &&& !grouped_reserved(c.tag)
    &&& if leaves_tag(all, c.tag) {
        spec_is_text_leaf(c) && c.ns is None && c.children.len() == 1
    } else if kv_tag(all, c.tag) {
        c.ns is None && forall|i: int|
            0 <= i < c.children.len() ==> match #[trigger] c.children[i] {
                XVal::Node(x) => x.ns is None && !marks_full(x.tag),
                XVal::Text(_) => false,
            }
    } else {
        grouped_shape(c)
    }
}

proof fn lemma_grouped_shape(n: XNode)
    requires
        parsed_ok(n),
        grouped_shape(n),
    ensures
        grouped_ok(n),
    decreases n, 0int,
{
    lemma_grouped_shape_children(n.children, n.children);
}

proof fn lemma_grouped_shape_children(cs: Seq<XVal>, all: Seq<XVal>)
    requires
        parsed_children_ok(cs),
        grouped_shape_children(cs, all),
    ensures
        grouped_children_ok(cs, all),
    decreases cs, 0int,
{
    if cs.len() > 0 {
        lemma_grouped_shape_children(cs.drop_last(), all);
        match cs.last() {
            XVal::Node(c) => lemma_grouped_shape_child(c, all),
            XVal::Text(_) => {},
        }
    }
}

proof fn lemma_grouped_shape_child(c: XNode, all: Seq<XVal>)
    requires
        parsed_ok(c),
        grouped_shape_child(c, all),
    ensures
        grouped_child_ok(c, all),
    decreases c, 1int,
{
    lemma_children_each(c.children);
    if leaves_tag(all, c.tag) {
        assert(c.children[0] is Text);
        assert(parsed_val_ok(c.children[0]));
    } else if kv_tag(all, c.tag) {
        assert forall|i: int| 0 <= i < c.children.len() implies kv_child_ok(#[trigger] c.children[i]) by {
            assert(parsed_val_ok(c.children[i]));
            if let XVal::Node(x) = c.children[i] {
                lemma_no_empty_text(x);
            }
        }
    } else {
        lemma_grouped_shape(c);
    }
}

/// Reading XML text, writing the tree in the grouped YAML form and reading
/// that back gives the tree read with its element children grouped by tag,
/// each tag's children in their order (see `regrouped`), whenever the tree
/// has the grouped shape (`grouped_shape`).
pub proof fn law_parsed_yaml_grouped_roundtrip(text: Seq<char>, n: XNode)
    requires
        spec_parse_xml(text) == Ok::<XNode, crate::xml_parser::PErr>(n),
        grouped_shape(n),
    ensures
        spec_yaml_to_node(spec_node_to_yaml(n)) == Ok::<XNode, crate::error::ConvertError>(regrouped(n, false)),
{
    law_parsed_tree_well_formed(text);
    lemma_grouped_shape(n);
    law_yaml_grouped_roundtrip(n);
}

} // verus!
