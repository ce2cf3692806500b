//! What the grouped YAML form keeps: writing an element in the grouped
//! form and reading it back gives the element with its element children
//! grouped by tag, the children of each tag in their order. The groups
//! come in the order in which their tag first appears; inside a child
//! written in full, the last group comes first (the entry that takes the
//! place of `_tag` when that is removed).
use vstd::prelude::*;
use crate::assoc::{
    afind, aget, ahas, ainsert, aswap_remove, keys_distinct, lemma_afind_range, lemma_afind_first, lemma_afind_none,
    lemma_aget_ainsert,
};
use crate::error::ConvertError;
use crate::json_laws::{no_empty_text, text_vals};
use crate::json_writer::texts_of;
use crate::xml_node::{XNode, XVal, child_tag, spec_is_simple_kv, spec_is_text_leaf, spec_leaf_text, spec_text_element};
use crate::yaml_reader::{
    grouped_reserved, spec_yaml_child, spec_yaml_doc_to_node, spec_yaml_to_node, yaml_named_children, yaml_value_text,
};
use crate::yaml_value::{YVal, ykey};
use crate::yaml_writer::{
    ChildInfo, attrs_yaml, child_info, group_value, groups_of, insert_groups, spec_node_to_yaml, spec_simple_yaml,
    spec_smart_yaml, strip_tag, yaml_head, yaml_with_text,
};
use crate::yaml_laws::{entry_for, lemma_keys, lemma_single_lookup, single_text, text_entry};

verus! {

// ─── What comes back ───────────────────────────────────────────────

/// The element children with tag `t`, in order.
pub open spec fn nodes_tagged(cs: Seq<XVal>, t: Seq<char>) -> Seq<XNode>
    decreases cs.len(),
{
    if cs.len() == 0 {
        Seq::empty()
    } else {
        let rest = nodes_tagged(cs.drop_last(), t);
        match cs.last() {
            XVal::Node(c) => if c.tag == t {
                rest.push(c)
            } else {
                rest
            },
            XVal::Text(_) => rest,
        }
    }
}

/// The element children grouped by tag: the groups in the order in which
/// their tag first appears, each the children with that tag in order.
pub open spec fn node_groups(cs: Seq<XVal>) -> Seq<(Seq<char>, Seq<XNode>)>
    decreases cs.len(),
{
    if cs.len() == 0 {
        Seq::empty()
    } else {
        let g = node_groups(cs.drop_last());
        match cs.last() {
            XVal::Node(c) => match afind(g, c.tag) {
                Some(i) => g.update(i, (c.tag, g[i].1.push(c))),
                None => g.push((c.tag, seq![c])),
            },
            XVal::Text(_) => g,
        }
    }
}

/// The members of the groups in sequence, as element children.
pub open spec fn flat(gs: Seq<(Seq<char>, Seq<XNode>)>) -> Seq<XVal>
    decreases gs.len(),
{
    if gs.len() == 0 {
        Seq::empty()
    } else {
        flat(gs.drop_last()) + gs.last().1.map_values(|c: XNode| XVal::Node(c))
    }
}

/// The groups with the last one moved to the front.
pub open spec fn last_first(gs: Seq<(Seq<char>, Seq<XNode>)>) -> Seq<(Seq<char>, Seq<XNode>)> {
    if gs.len() == 0 {
        gs
    } else {
        seq![gs.last()] + gs.drop_last()
    }
}

/// Every element with tag `t` among `all` is a leaf.
pub open spec fn leaves_tag(all: Seq<XVal>, t: Seq<char>) -> bool {
    forall|j: int| 0 <= j < nodes_tagged(all, t).len() ==> spec_is_text_leaf(#[trigger] nodes_tagged(all, t)[j])
}

/// Every element with tag `t` among `all` is a key-value container.
pub open spec fn kv_tag(all: Seq<XVal>, t: Seq<char>) -> bool {
    forall|j: int| 0 <= j < nodes_tagged(all, t).len() ==> spec_is_simple_kv(#[trigger] nodes_tagged(all, t)[j])
}

/// The elements with tag `t` among `all` are written in full.
pub open spec fn full_tag(all: Seq<XVal>, t: Seq<char>) -> bool {
    !leaves_tag(all, t) && !kv_tag(all, t)
}

/// A child element among `all` as it comes back: itself when its tag is
/// written as leaves or key-value containers, else regrouped.
pub open spec fn child_back(c: XNode, all: Seq<XVal>) -> XNode
    decreases c, 2int,
{
    if full_tag(all, c.tag) {
        regrouped(c, true)
    } else {
        c
    }
}

/// The children as they come back, each element by `child_back`.
pub open spec fn children_back(cs: Seq<XVal>, all: Seq<XVal>) -> Seq<XVal>
    decreases cs, 0int,
{
    if cs.len() == 0 {
        Seq::empty()
    } else {
        children_back(cs.drop_last(), all).push(
            match cs.last() {
                XVal::Node(c) => XVal::Node(child_back(c, all)),
                XVal::Text(t) => XVal::Text(t),
            },
        )
    }
}

/// An element as it comes back from the grouped form: its text children,
/// then its element children (each as it comes back) grouped by tag; when
/// `nested` (a child written in full), the last group first.
pub open spec fn regrouped(n: XNode, nested: bool) -> XNode
    decreases n, 0int,
{
    let gs = node_groups(children_back(n.children, n.children));
    XNode {
        tag: n.tag,
        ns: n.ns,
        attrs: n.attrs,
        children: text_vals(texts_of(n.children)) + flat(
            if nested {
                last_first(gs)
            } else {
                gs
            },
        ),
    }
}

// ─── Conditions ────────────────────────────────────────────────────

/// A key that marks a mapping as an element written in full.
pub open spec fn marks_full(k: Seq<char>) -> bool {
    k == "_ns"@ || k == "_attrs"@ || k == "_text"@
}

/// A leaf that comes back from its text: no namespace, one non-empty text.
pub open spec fn good_leaf(c: XNode) -> bool {
    &&& spec_is_text_leaf(c)
    &&& c.ns is None
    &&& c.children.len() == 1
    &&& (c.children[0]->Text_0).len() > 0
}

/// A child of a key-value container that comes back from its entry.
pub open spec fn kv_child_ok(g: XVal) -> bool {
    match g {
        XVal::Node(x) => x.ns is None && !marks_full(x.tag) && no_empty_text(x),
        XVal::Text(_) => false,
    }
}

/// An element that comes back from the grouped form as `regrouped` says:
/// each attribute once, and every child element fit for the way its tag is
/// written.
pub open spec fn grouped_ok(n: XNode) -> bool
    decreases n, 0int,
{
    keys_distinct(n.attrs) && grouped_children_ok(n.children, n.children)
}

/// Every child element among `cs` is fit for the way its tag is written among `all`.
pub open spec fn grouped_children_ok(cs: Seq<XVal>, all: Seq<XVal>) -> bool
    decreases cs, 0int,
{
    if cs.len() == 0 {
        true
    } else {
        grouped_children_ok(cs.drop_last(), all) && match cs.last() {
            XVal::Node(c) => grouped_child_ok(c, all),
            XVal::Text(_) => true,
        }
    }
}

/// A child element fit for the way its tag is written among `all`: a tag
/// that is not a reserved key; as leaves, a leaf with one non-empty text
/// and no namespace; as key-value containers, no namespace and children
/// that come back from their entries; in full, an element that comes back.
pub open spec fn grouped_child_ok(c: XNode, all: Seq<XVal>) -> bool
    decreases c, 1int,
{
    &&& !grouped_reserved(c.tag)
    &&& if leaves_tag(all, c.tag) {
        good_leaf(c)
    } else if kv_tag(all, c.tag) {
        c.ns is None && forall|i: int| 0 <= i < c.children.len() ==> kv_child_ok(#[trigger] c.children[i])
    } else {
        grouped_ok(c)
    }
}

// ─── Grouping ──────────────────────────────────────────────────────

proof fn lemma_afind_same_keys<V, W>(a: Seq<(Seq<char>, V)>, b: Seq<(Seq<char>, W)>, k: Seq<char>)
    requires
        a.len() == b.len(),
        forall|i: int| 0 <= i < a.len() ==> a[i].0 == b[i].0,
    ensures
        afind(a, k) == afind(b, k),
    decreases a.len(),
{
    if a.len() > 0 {
        lemma_afind_same_keys(a.drop_last(), b.drop_last(), k);
    }
}

/// The groups: distinct tags, each group the children with its tag, none empty.
proof fn lemma_node_groups(cs: Seq<XVal>)
    ensures
        keys_distinct(node_groups(cs)),
        forall|i: int|
            0 <= i < node_groups(cs).len() ==> (#[trigger] node_groups(cs)[i]).1 == nodes_tagged(
                cs,
                node_groups(cs)[i].0,
            ) && node_groups(cs)[i].1.len() > 0,
        forall|t: Seq<char>| afind(node_groups(cs), t) is None ==> #[trigger] nodes_tagged(cs, t).len() == 0,
    decreases cs.len(),
{
    if cs.len() > 0 {
        let d = cs.drop_last();
        lemma_node_groups(d);
        let g = node_groups(d);
        lemma_afind_range(g, child_tag(cs.last()));
        match cs.last() {
            XVal::Node(c) => {
                match afind(g, c.tag) {
                    Some(i) => {
                        let g2 = g.update(i, (c.tag, g[i].1.push(c)));
                        assert(node_groups(cs) == g2);
                        assert forall|j: int| 0 <= j < g2.len() implies (#[trigger] g2[j]).1 == nodes_tagged(
                            cs,
                            g2[j].0,
                        ) && g2[j].1.len() > 0 by {
                            if j != i {
                                assert(g[j].0 != c.tag);
                            }
                        }
                        assert forall|t: Seq<char>| afind(g2, t) is None implies #[trigger] nodes_tagged(
                            cs,
                            t,
                        ).len() == 0 by {
                            lemma_afind_same_keys(g2, g, t);
                            assert(t != c.tag);
                            assert(nodes_tagged(d, t).len() == 0);
                            assert(nodes_tagged(cs, t) == nodes_tagged(d, t));
                        }
                    },
                    None => {
                        let g2 = g.push((c.tag, seq![c]));
                        assert(node_groups(cs) == g2);
                        assert(nodes_tagged(d, c.tag).len() == 0);
                        assert(nodes_tagged(cs, c.tag) =~= seq![c]);
                        assert forall|j: int| 0 <= j < g2.len() implies (#[trigger] g2[j]).1 == nodes_tagged(
                            cs,
                            g2[j].0,
                        ) && g2[j].1.len() > 0 by {
                            if j < g.len() {
                                assert(g[j].0 != c.tag);
                            }
                        }
                        assert forall|t: Seq<char>| afind(g2, t) is None implies #[trigger] nodes_tagged(
                            cs,
                            t,
                        ).len() == 0 by {
                            lemma_afind_range(g2, t);
                            if t != c.tag {
                                lemma_afind_range(g, t);
                                if afind(g, t) is Some {
                                    let p = afind(g, t)->Some_0;
                                    assert(g2[p].0 == t);
                                }
                                assert(nodes_tagged(d, t).len() == 0);
                                assert(nodes_tagged(cs, t) == nodes_tagged(d, t));
                            } else {
                                assert(g2[g.len() as int].0 == t);
                            }
                        }
                    },
                }
            },
            XVal::Text(_) => {
                assert forall|t: Seq<char>| #![auto] nodes_tagged(cs, t) == nodes_tagged(d, t) by {}
            },
        }
    }
}

/// A property of every element child holds of every element with a given tag.
proof fn lemma_tagged_all(cs: Seq<XVal>, t: Seq<char>, p: spec_fn(XNode) -> bool)
    requires
        forall|i: int| 0 <= i < cs.len() && (#[trigger] cs[i]) is Node ==> p(cs[i]->Node_0),
    ensures
        forall|j: int|
            0 <= j < nodes_tagged(cs, t).len() ==> p(#[trigger] nodes_tagged(cs, t)[j]) && nodes_tagged(
                cs,
                t,
            )[j].tag == t,
    decreases cs.len(),
{
    if cs.len() > 0 {
        let d = cs.drop_last();
        assert forall|i: int| 0 <= i < d.len() && (#[trigger] d[i]) is Node implies p(d[i]->Node_0) by {
            assert(d[i] == cs[i]);
        }
        lemma_tagged_all(d, t, p);
        assert(cs[cs.len() - 1] == cs.last());
    }
}

/// The information the writer keeps of each group member.
pub open spec fn infos(gs: Seq<(Seq<char>, Seq<XNode>)>) -> Seq<(Seq<char>, Seq<ChildInfo>)> {
    Seq::new(gs.len(), |i: int| (gs[i].0, gs[i].1.map_values(|c: XNode| child_info(c))))
}

proof fn lemma_groups_of(cs: Seq<XVal>)
    ensures
        groups_of(cs) == infos(node_groups(cs)),
    decreases cs.len(),
{
    if cs.len() > 0 {
        let d = cs.drop_last();
        lemma_groups_of(d);
        let g = node_groups(d);
        let gi = infos(g);
        match cs.last() {
            XVal::Node(c) => {
                lemma_afind_same_keys(gi, g, c.tag);
                match afind(g, c.tag) {
                    Some(i) => {
                        lemma_afind_range(g, c.tag);
                        assert(gi[i].1.push(child_info(c)) =~= g[i].1.push(c).map_values(|x: XNode| child_info(x)));
                        assert(groups_of(cs) =~= infos(node_groups(cs)));
                    },
                    None => {
                        assert(seq![c].map_values(|x: XNode| child_info(x)) =~= seq![child_info(c)]);
                        assert(groups_of(cs) =~= infos(node_groups(cs)));
                    },
                }
            },
            XVal::Text(_) => {},
        }
    }
}

/// The members of each group, each as it comes back.
pub open spec fn groups_back(gs: Seq<(Seq<char>, Seq<XNode>)>, all: Seq<XVal>) -> Seq<(Seq<char>, Seq<XNode>)> {
    Seq::new(gs.len(), |i: int| (gs[i].0, gs[i].1.map_values(|c: XNode| child_back(c, all))))
}

proof fn lemma_children_back_groups(cs: Seq<XVal>, all: Seq<XVal>)
    ensures
        node_groups(children_back(cs, all)) == groups_back(node_groups(cs), all),
        children_back(cs, all).len() == cs.len(),
    decreases cs.len(),
{
    if cs.len() > 0 {
        let d = cs.drop_last();
        lemma_children_back_groups(d, all);
        let b = children_back(cs, all);
        assert(b.drop_last() =~= children_back(d, all));
        let g = node_groups(d);
        let gb = groups_back(g, all);
        match cs.last() {
            XVal::Node(c) => {
                let cb = child_back(c, all);
                assert(cb.tag == c.tag);
                lemma_afind_same_keys(gb, g, c.tag);
                match afind(g, c.tag) {
                    Some(i) => {
                        lemma_afind_range(g, c.tag);
                        assert(gb[i].1.push(cb) =~= g[i].1.push(c).map_values(|x: XNode| child_back(x, all)));
                        assert(node_groups(b) =~= groups_back(node_groups(cs), all));
                    },
                    None => {
                        assert(seq![c].map_values(|x: XNode| child_back(x, all)) =~= seq![cb]);
                        assert(node_groups(b) =~= groups_back(node_groups(cs), all));
                    },
                }
            },
            XVal::Text(_) => {},
        }
    }
}

// ─── The written mapping ───────────────────────────────────────────

/// The entries of the grouped form before the groups: `_tag`, `_ns`,
/// `_attrs`, `_text`.
pub open spec fn head_of(n: XNode) -> Seq<(YVal, YVal)> {
    if n.children.len() == 0 {
        yaml_head(n)
    } else {
        yaml_with_text(yaml_head(n), n)
    }
}

/// The entry of each group: its tag, and the value the writer gives it.
pub open spec fn gentries(gis: Seq<(Seq<char>, Seq<ChildInfo>)>) -> Seq<(YVal, YVal)> {
    Seq::new(gis.len(), |i: int| (ykey(gis[i].0), group_value(gis[i].1)))
}

proof fn lemma_push_new(m: Seq<(YVal, YVal)>, k: YVal, v: YVal)
    requires
        keys_distinct(m),
        forall|j: int| 0 <= j < m.len() ==> m[j].0 != k,
    ensures
        ainsert(m, k, v) == m.push((k, v)),
        keys_distinct(m.push((k, v))),
{
    crate::assoc::lemma_ainsert_new(m, k, v);
}

proof fn lemma_head(n: XNode, k: YVal)
    ensures
        keys_distinct(head_of(n)),
        head_of(n).len() > 0,
        head_of(n)[0] == (ykey("_tag"@), YVal::Str(n.tag)),
        forall|i: int|
            0 <= i < head_of(n).len() ==> (#[trigger] head_of(n)[i]).0 is Str && grouped_reserved(
                head_of(n)[i].0->Str_0,
            ),
        aget(head_of(n), k) == (if k == ykey("_children"@) {
            None
        } else {
            entry_for(n, k)
        }),
{
    lemma_keys();
    let m0 = seq![(ykey("_tag"@), YVal::Str(n.tag))];
    lemma_single_lookup(ykey("_tag"@), YVal::Str(n.tag), k);
    let m1 = match n.ns {
        Some(ns) => ainsert(m0, ykey("_ns"@), YVal::Str(ns)),
        None => m0,
    };
    match n.ns {
        Some(ns) => {
            lemma_aget_ainsert(m0, ykey("_ns"@), YVal::Str(ns), k);
            lemma_push_new(m0, ykey("_ns"@), YVal::Str(ns));
        },
        None => {},
    }
    let av = YVal::Mapping(attrs_yaml(n.attrs), Seq::empty());
    let h = yaml_head(n);
    if n.attrs.len() > 0 {
        lemma_aget_ainsert(m1, ykey("_attrs"@), av, k);
        lemma_push_new(m1, ykey("_attrs"@), av);
    }
    assert(keys_distinct(h));
    assert(forall|i: int| 0 <= i < h.len() ==> (#[trigger] h[i]).0 is Str && grouped_reserved(h[i].0->Str_0));
    if n.children.len() > 0 {
        if single_text(n) {
            let tv = YVal::Str(n.children[0]->Text_0);
            lemma_aget_ainsert(h, ykey("_text"@), tv, k);
            lemma_push_new(h, ykey("_text"@), tv);
        } else {
            let texts = texts_of(n.children);
            if texts.len() > 0 {
                let tv = text_entry(n)->Some_0;
                lemma_aget_ainsert(h, ykey("_text"@), tv, k);
                lemma_push_new(h, ykey("_text"@), tv);
            }
        }
    }
}

proof fn lemma_insert_groups(m: Seq<(YVal, YVal)>, gis: Seq<(Seq<char>, Seq<ChildInfo>)>)
    requires
        keys_distinct(m),
        keys_distinct(gis),
        forall|i: int, j: int| 0 <= i < gis.len() && 0 <= j < m.len() ==> #[trigger] m[j].0 != ykey(#[trigger] gis[i].0),
    ensures
        insert_groups(m, gis) == m + gentries(gis),
        keys_distinct(m + gentries(gis)),
    decreases gis.len(),
{
    if gis.len() == 0 {
        assert(m + gentries(gis) =~= m);
    } else {
        let d = gis.drop_last();
        assert(keys_distinct(d)) by {
            assert forall|i: int, j: int| 0 <= i < j < d.len() implies d[i].0 != d[j].0 by {
                assert(d[i] == gis[i] && d[j] == gis[j]);
            }
        }
        assert forall|i: int, j: int| 0 <= i < d.len() && 0 <= j < m.len() implies #[trigger] m[j].0 != ykey(#[trigger] d[i].0) by {
            assert(d[i] == gis[i]);
        }
        lemma_insert_groups(m, d);
        let prev = m + gentries(d);
        let k = ykey(gis.last().0);
        assert forall|j: int| 0 <= j < prev.len() implies prev[j].0 != k by {
            if j >= m.len() {
                assert(prev[j].0 == ykey(gis[j - m.len()].0));
                assert(gis[j - m.len()].0 != gis[gis.len() - 1].0);
            } else {
                assert(m[j].0 != ykey(gis[gis.len() - 1].0));
            }
        }
        lemma_push_new(prev, k, group_value(gis.last().1));
        assert(prev.push((k, group_value(gis.last().1))) =~= m + gentries(gis));
    }
}

/// The grouped form of an element: the head entries, then one entry per
/// group, for an element whose children have no reserved tags.
proof fn lemma_written(n: XNode)
    requires
        grouped_children_ok(n.children, n.children),
    ensures
        spec_node_to_yaml(n) == YVal::Mapping(
            head_of(n) + (if n.children.len() == 0 || single_text(n) {
                Seq::empty()
            } else {
                gentries(infos(node_groups(n.children)))
            }),
            Seq::empty(),
        ),
        keys_distinct(spec_node_to_yaml(n)->Mapping_0),
{
    let cs = n.children;
    lemma_head(n, ykey("_tag"@));
    let h = head_of(n);
    if cs.len() == 0 || single_text(n) {
        assert(h + Seq::<(YVal, YVal)>::empty() =~= h);
    } else {
        lemma_groups_of(cs);
        lemma_node_groups(cs);
        let g = node_groups(cs);
        let gis = infos(g);
        assert(keys_distinct(gis)) by {
            assert forall|i: int, j: int| 0 <= i < j < gis.len() implies gis[i].0 != gis[j].0 by {
                assert(g[i].0 != g[j].0);
            }
        }
        lemma_children_ok_all(cs, cs);
        assert forall|i: int, j: int| 0 <= i < gis.len() && 0 <= j < h.len() implies #[trigger] h[j].0 != ykey(
            #[trigger] gis[i].0,
        ) by {
            let t = g[i].0;
            let ms = nodes_tagged(cs, t);
            lemma_tagged_all(cs, t, |c: XNode| grouped_child_ok(c, cs));
            assert(ms.len() > 0);
            assert(grouped_child_ok(ms[0], cs));
            assert(!grouped_reserved(t));
        }
        lemma_insert_groups(h, gis);
    }
}

/// Every child element of `cs` is fit, when `cs` as a whole is.
proof fn lemma_children_ok_all(cs: Seq<XVal>, all: Seq<XVal>)
    requires
        grouped_children_ok(cs, all),
    ensures
        forall|i: int| 0 <= i < cs.len() && (#[trigger] cs[i]) is Node ==> grouped_child_ok(cs[i]->Node_0, all),
    decreases cs.len(),
{
    if cs.len() > 0 {
        let d = cs.drop_last();
        lemma_children_ok_all(d, all);
        assert forall|i: int| 0 <= i < cs.len() && (#[trigger] cs[i]) is Node implies grouped_child_ok(
            cs[i]->Node_0,
            all,
        ) by {
            if i < d.len() {
                assert(cs[i] == d[i]);
            }
        }
    }
}

// ─── Reading ───────────────────────────────────────────────────────

proof fn lemma_named_concat(a: Seq<(YVal, YVal)>, b: Seq<(YVal, YVal)>)
    requires
        yaml_named_children(a) is Ok,
        yaml_named_children(b) is Ok,
    ensures
        yaml_named_children(a + b) == Ok::<Seq<XVal>, ConvertError>(
            yaml_named_children(a)->Ok_0 + yaml_named_children(b)->Ok_0,
        ),
    decreases b.len(),
{
    if b.len() == 0 {
        assert(a + b =~= a);
        assert(yaml_named_children(a)->Ok_0 + Seq::<XVal>::empty() =~= yaml_named_children(a)->Ok_0);
    } else {
        let d = b.drop_last();
        assert((a + b).drop_last() =~= a + d);
        assert((a + b).last() == b.last());
        lemma_named_concat(a, d);
        let x = yaml_named_children(a)->Ok_0;
        let y = yaml_named_children(d)->Ok_0;
        let z = yaml_named_children(b)->Ok_0;
        let key = b.last().0;
        let val = b.last().1;
        match key {
            YVal::Str(k) => if grouped_reserved(k) {
                assert(z == y);
            } else {
                match val {
                    YVal::Mapping(_, _) => {
                        assert(x + y.push(z.last()) =~= (x + y).push(z.last()));
                    },
                    YVal::Sequence(arr, _) => {
                        let cs = crate::yaml_reader::yaml_child_items(k, arr)->Ok_0;
                        assert(z == y + cs);
                        assert(x + (y + cs) =~= (x + y) + cs);
                    },
                    _ => {
                        assert(x + y.push(z.last()) =~= (x + y).push(z.last()));
                    },
                }
            },
            _ => {},
        }
    }
}

proof fn lemma_child_items(t: Seq<char>, arr: Seq<YVal>, out: Seq<XNode>)
    requires
        arr.len() == out.len(),
        forall|i: int| 0 <= i < arr.len() ==> spec_yaml_child(t, #[trigger] arr[i]) == Ok::<XNode, ConvertError>(out[i]),
    ensures
        crate::yaml_reader::yaml_child_items(t, arr) == Ok::<Seq<XVal>, ConvertError>(
            out.map_values(|c: XNode| XVal::Node(c)),
        ),
    decreases arr.len(),
{
    if arr.len() > 0 {
        let d = arr.drop_last();
        let od = out.drop_last();
        assert forall|i: int| 0 <= i < d.len() implies spec_yaml_child(t, #[trigger] d[i]) == Ok::<XNode, ConvertError>(od[i]) by {
            assert(d[i] == arr[i]);
        }
        lemma_child_items(t, d, od);
        assert(spec_yaml_child(t, arr[arr.len() - 1]) == Ok::<XNode, ConvertError>(out[out.len() - 1]));
        assert(od.map_values(|c: XNode| XVal::Node(c)).push(XVal::Node(out.last())) =~= out.map_values(
            |c: XNode| XVal::Node(c),
        ));
    } else {
        assert(out.map_values(|c: XNode| XVal::Node(c)) =~= Seq::<XVal>::empty());
    }
}

proof fn lemma_with_tag_seq(tag: Seq<char>, m: Seq<(YVal, YVal)>)
    requires
        keys_distinct(m),
        !ahas(m, ykey("_tag"@)),
    ensures
        crate::yaml_reader::with_tag(tag, m) == seq![(ykey("_tag"@), YVal::Str(tag))] + m,
    decreases m.len(),
{
    if m.len() == 0 {
        assert(seq![(ykey("_tag"@), YVal::Str(tag))] + m =~= seq![(ykey("_tag"@), YVal::Str(tag))]);
    } else {
        let d = m.drop_last();
        assert(keys_distinct(d)) by {
            assert forall|i: int, j: int| 0 <= i < j < d.len() implies d[i].0 != d[j].0 by {
                assert(d[i] == m[i] && d[j] == m[j]);
            }
        }
        lemma_afind_range(m, ykey("_tag"@));
        assert forall|j: int| 0 <= j < d.len() implies d[j].0 != ykey("_tag"@) by {
            assert(d[j] == m[j]);
        }
        lemma_afind_none(d, ykey("_tag"@));
        lemma_with_tag_seq(tag, d);
        let prev = seq![(ykey("_tag"@), YVal::Str(tag))] + d;
        assert forall|j: int| 0 <= j < prev.len() implies prev[j].0 != m.last().0 by {
            if j > 0 {
                assert(prev[j] == m[j - 1]);
            }
        }
        crate::assoc::lemma_ainsert_new(prev, m.last().0, m.last().1);
        assert(prev.push(m.last()) =~= seq![(ykey("_tag"@), YVal::Str(tag))] + m);
    }
}

proof fn lemma_flat_concat(a: Seq<(Seq<char>, Seq<XNode>)>, b: Seq<(Seq<char>, Seq<XNode>)>)
    ensures
        flat(a + b) == flat(a) + flat(b),
    decreases b.len(),
{
    if b.len() == 0 {
        assert(a + b =~= a);
        assert(flat(a) + flat(b) =~= flat(a));
    } else {
        assert((a + b).drop_last() =~= a + b.drop_last());
        lemma_flat_concat(a, b.drop_last());
        let m = b.last().1.map_values(|c: XNode| XVal::Node(c));
        assert(flat(a) + flat(b.drop_last()) + m =~= flat(a) + (flat(b.drop_last()) + m));
    }
}

/// Entries with reserved keys only name no children.
proof fn lemma_named_reserved(es: Seq<(YVal, YVal)>)
    requires
        forall|i: int| 0 <= i < es.len() ==> (#[trigger] es[i]).0 is Str && grouped_reserved(es[i].0->Str_0),
    ensures
        yaml_named_children(es) == Ok::<Seq<XVal>, ConvertError>(Seq::empty()),
{
    crate::yaml_laws::lemma_named_children_reserved(es);
}

/// A mapping that agrees with the head of an element on the reserved keys
/// and names `x` reads as the element with its text children and then `x`.
proof fn lemma_read_mapping(c: XNode, e: Seq<(YVal, YVal)>, r: Seq<char>, x: Seq<XVal>)
    requires
        keys_distinct(c.attrs),
        aget(e, ykey("_tag"@)) == aget(head_of(c), ykey("_tag"@)),
        aget(e, ykey("_ns"@)) == aget(head_of(c), ykey("_ns"@)),
        aget(e, ykey("_attrs"@)) == aget(head_of(c), ykey("_attrs"@)),
        aget(e, ykey("_text"@)) == aget(head_of(c), ykey("_text"@)),
        yaml_named_children(e) == Ok::<Seq<XVal>, ConvertError>(x),
    ensures
        spec_yaml_to_node(YVal::Mapping(e, r)) == Ok::<XNode, ConvertError>(
            XNode { tag: c.tag, ns: c.ns, attrs: c.attrs, children: text_vals(texts_of(c.children)) + x },
        ),
{
    lemma_keys();
    lemma_head(c, ykey("_tag"@));
    lemma_head(c, ykey("_ns"@));
    lemma_head(c, ykey("_attrs"@));
    lemma_head(c, ykey("_text"@));
    if c.attrs.len() > 0 {
        crate::yaml_laws::lemma_attrs_yaml(c.attrs);
    } else {
        assert(c.attrs =~= Seq::<(Seq<char>, Seq<char>)>::empty());
    }
    assert(crate::yaml_reader::yaml_attrs_of(e) == c.attrs);
    let cs = c.children;
    let texts = texts_of(cs);
    let t1 = crate::yaml_reader::yaml_texts_of(e);
    if cs.len() == 0 {
        assert(t1 =~= text_vals(texts));
    } else if single_text(c) {
        assert(texts_of(cs) == texts_of(cs.drop_last()).push(cs[0]->Text_0));
        assert(cs.drop_last() =~= Seq::<XVal>::empty());
        assert(t1 =~= text_vals(texts));
    } else if texts.len() > 1 {
        crate::yaml_laws::lemma_str_items(texts);
        assert(t1 =~= text_vals(texts));
    } else {
        assert(t1 =~= text_vals(texts));
    }
}

/// What reading a child element's part of its group gives: the element
/// itself for leaves and key-value containers, the element regrouped for
/// elements written in full.
pub open spec fn member_reads(c: XNode, all: Seq<XVal>) -> bool {
    if leaves_tag(all, c.tag) {
        spec_text_element(c.tag, yaml_value_text(spec_smart_yaml(spec_leaf_text(c)))) == c
    } else if kv_tag(all, c.tag) {
        spec_yaml_child(c.tag, spec_simple_yaml(c)) == Ok::<XNode, ConvertError>(c)
    } else {
        spec_yaml_child(c.tag, strip_tag(spec_node_to_yaml(c))) == Ok::<XNode, ConvertError>(regrouped(c, true))
    }
}

/// An entry whose value is a single element's reads as that element.
proof fn lemma_single_read(t: Seq<char>, v: YVal, x: XNode)
    requires
        !grouped_reserved(t),
        v is Mapping ==> spec_yaml_child(t, v) == Ok::<XNode, ConvertError>(x),
        !(v is Mapping) && !(v is Sequence) ==> spec_text_element(t, yaml_value_text(v)) == x,
        !(v is Sequence),
    ensures
        yaml_named_children(seq![(ykey(t), v)]) == Ok::<Seq<XVal>, ConvertError>(seq![XVal::Node(x)]),
{
    let e = seq![(ykey(t), v)];
    assert(e.drop_last() =~= Seq::<(YVal, YVal)>::empty());
    assert(yaml_named_children(Seq::<(YVal, YVal)>::empty()) == Ok::<Seq<XVal>, ConvertError>(Seq::empty()));
    assert(e.last() == (ykey(t), v));
    assert(Seq::<XVal>::empty().push(XVal::Node(x)) =~= seq![XVal::Node(x)]);
}

/// An entry whose value is a sequence reads as one element per item.
proof fn lemma_seq_read(t: Seq<char>, arr: Seq<YVal>, out: Seq<XNode>)
    requires
        !grouped_reserved(t),
        arr.len() == out.len(),
        forall|i: int| 0 <= i < arr.len() ==> spec_yaml_child(t, #[trigger] arr[i]) == Ok::<XNode, ConvertError>(out[i]),
    ensures
        yaml_named_children(seq![(ykey(t), YVal::Sequence(arr, Seq::empty()))]) == Ok::<Seq<XVal>, ConvertError>(
            out.map_values(|c: XNode| XVal::Node(c)),
        ),
{
    let e = seq![(ykey(t), YVal::Sequence(arr, Seq::empty()))];
    assert(e.drop_last() =~= Seq::<(YVal, YVal)>::empty());
    assert(yaml_named_children(Seq::<(YVal, YVal)>::empty()) == Ok::<Seq<XVal>, ConvertError>(Seq::empty()));
    assert(e.last() == (ykey(t), YVal::Sequence(arr, Seq::empty())));
    lemma_child_items(t, arr, out);
    assert(Seq::<XVal>::empty() + out.map_values(|c: XNode| XVal::Node(c)) =~= out.map_values(
        |c: XNode| XVal::Node(c),
    ));
}

/// The entry of one group reads as its members, each as it comes back.
#[verifier::rlimit(40)]
proof fn lemma_group_read(t: Seq<char>, ms: Seq<XNode>, all: Seq<XVal>)
    requires
        ms == nodes_tagged(all, t),
        ms.len() > 0,
        !grouped_reserved(t),
        forall|j: int| 0 <= j < ms.len() ==> (#[trigger] ms[j]).tag == t && member_reads(ms[j], all),
    ensures
        yaml_named_children(seq![(ykey(t), group_value(ms.map_values(|c: XNode| child_info(c))))]) == Ok::<
            Seq<XVal>,
            ConvertError,
        >(ms.map_values(|c: XNode| XVal::Node(child_back(c, all)))),
{
    let inf = ms.map_values(|c: XNode| child_info(c));
    let out = ms.map_values(|c: XNode| child_back(c, all));
    let want = ms.map_values(|c: XNode| XVal::Node(child_back(c, all)));
    assert(out.map_values(|c: XNode| XVal::Node(c)) =~= want);
    let all_leaves = forall|i: int| 0 <= i < inf.len() ==> (#[trigger] inf[i]).leaf;
    let all_kv = forall|i: int| 0 <= i < inf.len() ==> (#[trigger] inf[i]).kv;
    assert(all_leaves == leaves_tag(all, t)) by {
        if all_leaves {
            assert forall|j: int| 0 <= j < nodes_tagged(all, t).len() implies spec_is_text_leaf(
                #[trigger] nodes_tagged(all, t)[j],
            ) by {
                assert(inf[j].leaf);
            }
        }
        if leaves_tag(all, t) {
            assert forall|i: int| 0 <= i < inf.len() implies (#[trigger] inf[i]).leaf by {
                assert(spec_is_text_leaf(nodes_tagged(all, t)[i]));
            }
        }
    }
    assert(all_kv == kv_tag(all, t)) by {
        if all_kv {
            assert forall|j: int| 0 <= j < nodes_tagged(all, t).len() implies spec_is_simple_kv(
                #[trigger] nodes_tagged(all, t)[j],
            ) by {
                assert(inf[j].kv);
            }
        }
        if kv_tag(all, t) {
            assert forall|i: int| 0 <= i < inf.len() implies (#[trigger] inf[i]).kv by {
                assert(spec_is_simple_kv(nodes_tagged(all, t)[i]));
            }
        }
    }
    assert forall|j: int| 0 <= j < ms.len() implies #[trigger] out[j] == (if full_tag(all, t) {
        regrouped(ms[j], true)
    } else {
        ms[j]
    }) by {
        assert(ms[j].tag == t);
    }
    assert(member_reads(ms[0], all));
    if all_leaves {
        let arr = Seq::new(inf.len(), |i: int| inf[i].leaf_value);
        assert forall|j: int| 0 <= j < ms.len() implies spec_yaml_child(t, #[trigger] arr[j]) == Ok::<
            XNode,
            ConvertError,
        >(out[j]) by {
            assert(member_reads(ms[j], all));
        }
        if inf.len() == 1 {
            lemma_single_read(t, inf[0].leaf_value, out[0]);
            assert(seq![XVal::Node(out[0])] =~= want);
        } else {
            lemma_seq_read(t, arr, out);
        }
    } else if all_kv {
        let arr = Seq::new(inf.len(), |i: int| inf[i].kv_value);
        assert forall|j: int| 0 <= j < ms.len() implies spec_yaml_child(t, #[trigger] arr[j]) == Ok::<
            XNode,
            ConvertError,
        >(out[j]) by {
            assert(member_reads(ms[j], all));
        }
        if inf.len() == 1 {
            lemma_single_read(t, inf[0].kv_value, out[0]);
            assert(seq![XVal::Node(out[0])] =~= want);
        } else {
            lemma_seq_read(t, arr, out);
        }
    } else {
        let arr = Seq::new(inf.len(), |i: int| strip_tag(inf[i].full));
        assert forall|j: int| 0 <= j < ms.len() implies spec_yaml_child(t, #[trigger] arr[j]) == Ok::<
            XNode,
            ConvertError,
        >(out[j]) by {
            assert(member_reads(ms[j], all));
        }
        if inf.len() == 1 {
            lemma_single_read(t, strip_tag(inf[0].full), out[0]);
            assert(seq![XVal::Node(out[0])] =~= want);
        } else {
            lemma_seq_read(t, arr, out);
        }
    }
}

/// The entries of the groups read as their members in group order, each
/// as it comes back.
proof fn lemma_groups_read(gs: Seq<(Seq<char>, Seq<XNode>)>, all: Seq<XVal>)
    requires
        groups_fit(gs, all),
    ensures
        yaml_named_children(gentries(infos(gs))) == Ok::<Seq<XVal>, ConvertError>(flat(groups_back(gs, all))),
    decreases gs.len(),
{
    if gs.len() == 0 {
        assert(gentries(infos(gs)) =~= Seq::<(YVal, YVal)>::empty());
        assert(flat(groups_back(gs, all)) =~= Seq::<XVal>::empty());
    } else {
        let d = gs.drop_last();
        lemma_groups_fit_sub(gs, all);
        lemma_groups_read(d, all);
        let k = gs.len() - 1;
        let (t, ms) = gs[k];
        assert(ms == nodes_tagged(all, t) && ms.len() > 0 && !grouped_reserved(t));
        assert forall|j: int| 0 <= j < ms.len() implies (#[trigger] ms[j]).tag == t && member_reads(ms[j], all) by {
            assert(gs[k].1[j].tag == gs[k].0);
        }
        lemma_group_read(t, ms, all);
        let last = seq![(ykey(t), group_value(ms.map_values(|c: XNode| child_info(c))))];
        assert(gentries(infos(gs)) =~= gentries(infos(d)) + last);
        lemma_named_concat(gentries(infos(d)), last);
        let gb = groups_back(gs, all);
        assert(gb.drop_last() =~= groups_back(d, all));
        assert(gb.last().1.map_values(|c: XNode| XVal::Node(c)) =~= ms.map_values(
            |c: XNode| XVal::Node(child_back(c, all)),
        ));
    }
}

proof fn lemma_leaf_read(c: XNode)
    requires
        good_leaf(c),
    ensures
        spec_text_element(c.tag, yaml_value_text(spec_smart_yaml(spec_leaf_text(c)))) == c,
{
    crate::yaml_laws::lemma_smart_text(spec_leaf_text(c));
    let r = spec_text_element(c.tag, spec_leaf_text(c));
    assert(r.attrs =~= c.attrs);
    assert(r.children =~= c.children);
}

proof fn lemma_kv_read(c: XNode)
    requires
        spec_is_simple_kv(c),
        c.ns is None,
        forall|i: int| 0 <= i < c.children.len() ==> kv_child_ok(#[trigger] c.children[i]),
    ensures
        spec_yaml_child(c.tag, spec_simple_yaml(c)) == Ok::<XNode, ConvertError>(c),
{
    lemma_keys();
    let cs = c.children;
    crate::yaml_laws::lemma_kv_yaml(cs);
    let m = crate::yaml_laws::kv_entries(cs);
    assert(spec_simple_yaml(c) == YVal::Mapping(m, Seq::empty()));
    reveal_strlit("_ns");
    reveal_strlit("_attrs");
    reveal_strlit("_text");
    let keys = seq!["_ns"@, "_attrs"@, "_text"@];
    assert forall|j: int| 0 <= j < 3 implies !ahas(m, ykey(#[trigger] keys[j])) by {
        lemma_afind_range(m, ykey(keys[j]));
        if ahas(m, ykey(keys[j])) {
            let p = afind(m, ykey(keys[j]))->Some_0;
            assert(kv_child_ok(cs[p]));
            assert(m[p].0 == ykey(child_tag(cs[p])));
        }
    }
    assert(keys[0] == "_ns"@ && keys[1] == "_attrs"@ && keys[2] == "_text"@);
    assert(!crate::yaml_reader::has_nested_values(m)) by {
        assert forall|i: int| 0 <= i < m.len() implies !(m[i].1 is Mapping || m[i].1 is Sequence) by {}
    }
    assert forall|i: int| 0 <= i < m.len() implies (#[trigger] m[i]).0 is Str by {}
    crate::yaml_laws::lemma_kv_back(m);
    let back = Seq::new(
        m.len(),
        |i: int| XVal::Node(crate::xml_node::spec_text_leaf(m[i].0->Str_0, yaml_value_text(m[i].1))),
    );
    assert forall|i: int| 0 <= i < cs.len() implies back[i] == cs[i] by {
        assert(kv_child_ok(cs[i]));
        assert(crate::xml_node::is_leaf_child(cs[i]));
        crate::yaml_laws::lemma_text_leaf_back(cs[i]->Node_0);
    }
    assert(back =~= cs);
    let r = XNode { tag: c.tag, ns: None, attrs: Seq::empty(), children: back };
    assert(r.attrs =~= c.attrs);
    assert(r == c);
}

/// A property of the elements with tag `t` is a property of each child
/// element with that tag.
proof fn lemma_tagged_each(all: Seq<XVal>, t: Seq<char>, p: spec_fn(XNode) -> bool, k: int)
    requires
        forall|j: int| 0 <= j < nodes_tagged(all, t).len() ==> p(#[trigger] nodes_tagged(all, t)[j]),
        0 <= k < all.len(),
        all[k] is Node,
        all[k]->Node_0.tag == t,
    ensures
        p(all[k]->Node_0),
    decreases all.len(),
{
    let d = all.drop_last();
    let nt = nodes_tagged(all, t);
    if k == all.len() - 1 {
        assert(nt.last() == all[k]->Node_0);
        assert(p(nt[nt.len() - 1]));
    } else {
        assert(d[k] == all[k]);
        let nd = nodes_tagged(d, t);
        assert forall|j: int| 0 <= j < nd.len() implies p(#[trigger] nd[j]) by {
            assert(nt[j] == nd[j]);
        }
        lemma_tagged_each(d, t, p, k);
    }
}

/// A group value that is neither a mapping nor a sequence is that of a single leaf.
proof fn lemma_scalar_group(inf: Seq<ChildInfo>)
    requires
        inf.len() > 0,
        !(group_value(inf) is Mapping),
        !(group_value(inf) is Sequence),
        forall|i: int| 0 <= i < inf.len() ==> (#[trigger] inf[i]).full is Mapping && inf[i].kv_value is Mapping,
    ensures
        inf.len() == 1,
        inf[0].leaf,
{
    assert(inf[0].full is Mapping && inf[0].kv_value is Mapping);
    assert(strip_tag(inf[0].full) is Mapping);
}

/// The members of one-member groups, in order.
proof fn lemma_flat_singletons(gs: Seq<(Seq<char>, Seq<XNode>)>)
    requires
        forall|i: int| 0 <= i < gs.len() ==> (#[trigger] gs[i]).1.len() == 1,
    ensures
        flat(gs) == Seq::new(gs.len(), |i: int| XVal::Node(gs[i].1[0])),
    decreases gs.len(),
{
    if gs.len() > 0 {
        let d = gs.drop_last();
        assert forall|i: int| 0 <= i < d.len() implies (#[trigger] d[i]).1.len() == 1 by {
            assert(d[i] == gs[i]);
        }
        lemma_flat_singletons(d);
        assert(gs[gs.len() - 1].1.len() == 1);
        assert(gs.last().1.map_values(|c: XNode| XVal::Node(c)) =~= seq![XVal::Node(gs.last().1[0])]);
        assert(flat(gs) =~= Seq::new(gs.len(), |i: int| XVal::Node(gs[i].1[0])));
    }
}

/// The groups of `cs` meet what `lemma_groups_read` needs, when each child
/// element of `cs` reads back and is fit.
proof fn lemma_group_facts(cs: Seq<XVal>, gs: Seq<(Seq<char>, Seq<XNode>)>)
    requires
        forall|i: int|
            0 <= i < cs.len() && (#[trigger] cs[i]) is Node ==> member_reads(cs[i]->Node_0, cs) && grouped_child_ok(
                cs[i]->Node_0,
                cs,
            ),
        forall|i: int| 0 <= i < gs.len() ==> (#[trigger] gs[i]).1 == nodes_tagged(cs, gs[i].0) && gs[i].1.len() > 0,
    ensures
        forall|i: int|
            0 <= i < gs.len() ==> (#[trigger] gs[i]).1 == nodes_tagged(cs, gs[i].0) && gs[i].1.len() > 0
                && !grouped_reserved(gs[i].0),
        forall|i: int, j: int|
            0 <= i < gs.len() && 0 <= j < gs[i].1.len() ==> (#[trigger] gs[i].1[j]).tag == gs[i].0 && member_reads(
                gs[i].1[j],
                cs,
            ),
{
    let p = |x: XNode| member_reads(x, cs) && grouped_child_ok(x, cs);
    assert forall|i: int| 0 <= i < cs.len() && (#[trigger] cs[i]) is Node implies p(cs[i]->Node_0) by {}
    assert forall|i: int| 0 <= i < gs.len() implies (#[trigger] gs[i]).1 == nodes_tagged(cs, gs[i].0) && gs[i].1.len()
        > 0 && !grouped_reserved(gs[i].0) by {
        lemma_tagged_all(cs, gs[i].0, p);
        assert(p(nodes_tagged(cs, gs[i].0)[0]));
    }
    assert forall|i: int, j: int| 0 <= i < gs.len() && 0 <= j < gs[i].1.len() implies (#[trigger] gs[i].1[j]).tag
        == gs[i].0 && member_reads(gs[i].1[j], cs) by {
        lemma_tagged_all(cs, gs[i].0, p);
        assert(p(nodes_tagged(cs, gs[i].0)[j]));
    }
}

/// Each child element reads back as its group writes it.
proof fn lemma_children_read(cs: Seq<XVal>, all: Seq<XVal>)
    requires
        grouped_children_ok(cs, all),
        cs.len() <= all.len(),
        forall|i: int| 0 <= i < cs.len() ==> cs[i] == all[i],
    ensures
        forall|i: int| 0 <= i < cs.len() && (#[trigger] cs[i]) is Node ==> member_reads(cs[i]->Node_0, all),
    decreases cs, 0int,
{
    if cs.len() > 0 {
        let d = cs.drop_last();
        assert forall|i: int| 0 <= i < d.len() implies d[i] == all[i] by {
            assert(d[i] == cs[i]);
        }
        lemma_children_read(d, all);
        let k = cs.len() - 1;
        match cs.last() {
            XVal::Node(c) => {
                assert(all[k] == XVal::Node(c));
                assert(grouped_child_ok(c, all));
                if leaves_tag(all, c.tag) {
                    lemma_leaf_read(c);
                } else if kv_tag(all, c.tag) {
                    lemma_tagged_each(all, c.tag, |x: XNode| spec_is_simple_kv(x), k);
                    lemma_kv_read(c);
                } else {
                    lemma_read_full(c);
                }
                assert(member_reads(c, all));
            },
            XVal::Text(_) => {},
        }
        assert forall|i: int| 0 <= i < cs.len() && (#[trigger] cs[i]) is Node implies member_reads(
            cs[i]->Node_0,
            all,
        ) by {
            if i < d.len() {
                assert(cs[i] == d[i]);
            }
        }
    }
}

/// Removing `_tag`, the first of distinct keys, puts the last entry first.
proof fn lemma_swap_first(h: Seq<(YVal, YVal)>, ge: Seq<(YVal, YVal)>)
    requires
        keys_distinct(h + ge),
        h.len() > 0,
        h[0].0 == ykey("_tag"@),
    ensures
        aswap_remove(h + ge, ykey("_tag"@)) == (if ge.len() > 0 {
            seq![ge.last()] + h.subrange(1, h.len() as int) + ge.drop_last()
        } else {
            h.update(0, h.last()).drop_last()
        }),
{
    let mm = h + ge;
    lemma_afind_first(mm, ykey("_tag"@), 0);
    if ge.len() > 0 {
        assert(mm.update(0, mm.last()).drop_last() =~= seq![ge.last()] + h.subrange(1, h.len() as int)
            + ge.drop_last());
    } else {
        assert(mm =~= h);
    }
}

/// The head's lookups of the reserved keys are those of the whole mapping.
proof fn lemma_head_lookup(h: Seq<(YVal, YVal)>, ge: Seq<(YVal, YVal)>, k: Seq<char>)
    requires
        grouped_reserved(k),
        forall|i: int| 0 <= i < ge.len() ==> (#[trigger] ge[i]).0 is Str && !grouped_reserved(ge[i].0->Str_0),
    ensures
        aget(h + ge, ykey(k)) == aget(h, ykey(k)),
{
    crate::assoc::lemma_aget_concat(h, ge, ykey(k));
    assert forall|i: int| 0 <= i < ge.len() implies ge[i].0 != ykey(k) by {}
    lemma_afind_none(ge, ykey(k));
}

/// Reading an element written in full gives it regrouped.
proof fn lemma_read_full(c: XNode)
    requires
        grouped_ok(c),
    ensures
        spec_yaml_child(c.tag, strip_tag(spec_node_to_yaml(c))) == Ok::<XNode, ConvertError>(regrouped(c, true)),
    decreases c, 1int,
{
    let cs = c.children;
    lemma_children_read(cs, cs);
    lemma_children_ok_all(cs, cs);
    lemma_node_groups(cs);
    let g = node_groups(cs);
    lemma_group_facts(cs, g);
    lemma_written(c);
    lemma_children_back_groups(cs, cs);
    let h = head_of(c);
    let ge = gentries(infos(g));
    if cs.len() == 0 || single_text(c) {
        if cs.len() == 1 {
            assert(cs.drop_last() =~= Seq::<XVal>::empty());
            assert(node_groups(cs.drop_last()) == Seq::<(Seq<char>, Seq<XNode>)>::empty());
        }
        assert(g.len() == 0);
        assert(ge =~= Seq::<(YVal, YVal)>::empty());
        assert(h + ge =~= h);
    }
    let mm = h + ge;
    assert(spec_node_to_yaml(c) == YVal::Mapping(mm, Seq::empty()));
    lemma_head(c, ykey("_tag"@));
    assert forall|i: int| 0 <= i < ge.len() implies (#[trigger] ge[i]).0 is Str && !grouped_reserved(ge[i].0->Str_0) by {
        assert(!grouped_reserved(g[i].0));
    }
    lemma_swap_first(h, ge);
    let m = aswap_remove(mm, ykey("_tag"@));
    crate::assoc::lemma_aget_swap_remove(mm, ykey("_tag"@), ykey("_tag"@));
    lemma_afind_range(m, ykey("_tag"@));
    lemma_read_full_cases(c, g, h, ge, m);
}

/// What the groups of `cs` need for `lemma_groups_read`, over `all`.
pub open spec fn groups_fit(gs: Seq<(Seq<char>, Seq<XNode>)>, all: Seq<XVal>) -> bool {
    &&& forall|i: int|
        0 <= i < gs.len() ==> (#[trigger] gs[i]).1 == nodes_tagged(all, gs[i].0) && gs[i].1.len() > 0
            && !grouped_reserved(gs[i].0)
    &&& forall|i: int, j: int|
        0 <= i < gs.len() && 0 <= j < gs[i].1.len() ==> (#[trigger] gs[i].1[j]).tag == gs[i].0 && member_reads(
            gs[i].1[j],
            all,
        )
}

proof fn lemma_groups_fit_sub(gs: Seq<(Seq<char>, Seq<XNode>)>, all: Seq<XVal>)
    requires
        groups_fit(gs, all),
        gs.len() > 0,
    ensures
        groups_fit(gs.drop_last(), all),
        groups_fit(seq![gs.last()], all),
{
    let d = gs.drop_last();
    assert forall|i: int, j: int| 0 <= i < d.len() && 0 <= j < d[i].1.len() implies (#[trigger] d[i].1[j]).tag
        == d[i].0 && member_reads(d[i].1[j], all) by {
        assert(d[i] == gs[i]);
        assert(gs[i].1[j].tag == gs[i].0);
    }
    let l = seq![gs.last()];
    let k = gs.len() - 1;
    assert forall|i: int, j: int| 0 <= i < l.len() && 0 <= j < l[i].1.len() implies (#[trigger] l[i].1[j]).tag
        == l[i].0 && member_reads(l[i].1[j], all) by {
        assert(l[i] == gs[k]);
        assert(gs[k].1[j].tag == gs[k].0);
    }
}

/// The named children of an element written in full, read back.
proof fn lemma_full_named(
    c: XNode,
    g: Seq<(Seq<char>, Seq<XNode>)>,
    h: Seq<(YVal, YVal)>,
    ge: Seq<(YVal, YVal)>,
    m: Seq<(YVal, YVal)>,
)
    requires
        groups_fit(g, c.children),
        ge == gentries(infos(g)),
        h.len() > 0,
        forall|i: int| 0 <= i < h.len() ==> (#[trigger] h[i]).0 is Str && grouped_reserved(h[i].0->Str_0),
        m == (if ge.len() > 0 {
            seq![ge.last()] + h.subrange(1, h.len() as int) + ge.drop_last()
        } else {
            h.update(0, h.last()).drop_last()
        }),
    ensures
        yaml_named_children(seq![(ykey("_tag"@), YVal::Str(c.tag))] + m) == Ok::<Seq<XVal>, ConvertError>(
            flat(last_first(groups_back(g, c.children))),
        ),
{
    lemma_keys();
    reveal_strlit("_tag");
    let cs = c.children;
    let t0 = seq![(ykey("_tag"@), YVal::Str(c.tag))];
    lemma_named_reserved(t0);
    let gb = groups_back(g, cs);
    if ge.len() > 0 {
        lemma_groups_fit_sub(g, cs);
        let gl = seq![g.last()];
        let gd = g.drop_last();
        lemma_groups_read(gl, cs);
        lemma_groups_read(gd, cs);
        assert(seq![ge.last()] =~= gentries(infos(gl)));
        assert(ge.drop_last() =~= gentries(infos(gd)));
        let h1 = h.subrange(1, h.len() as int);
        assert forall|i: int| 0 <= i < h1.len() implies (#[trigger] h1[i]).0 is Str && grouped_reserved(h1[i].0->Str_0) by {
            assert(h1[i] == h[i + 1]);
        }
        lemma_named_reserved(h1);
        let a = t0 + seq![ge.last()];
        lemma_named_concat(t0, seq![ge.last()]);
        lemma_named_concat(a, h1);
        lemma_named_concat(a + h1, ge.drop_last());
        assert(t0 + m =~= a + h1 + ge.drop_last());
        let f1 = flat(groups_back(gl, cs));
        let f2 = flat(groups_back(gd, cs));
        assert(Seq::<XVal>::empty() + f1 + Seq::<XVal>::empty() + f2 =~= f1 + f2);
        assert(last_first(gb) =~= groups_back(gl, cs) + groups_back(gd, cs));
        lemma_flat_concat(groups_back(gl, cs), groups_back(gd, cs));
    } else {
        assert(g.len() == 0);
        let e = t0 + m;
        assert forall|i: int| 0 <= i < e.len() implies (#[trigger] e[i]).0 is Str && grouped_reserved(e[i].0->Str_0) by {
            if i > 0 {
                if i - 1 == 0 {
                    assert(e[i] == h.last());
                } else {
                    assert(e[i] == h[i - 1]);
                }
            }
        }
        lemma_named_reserved(e);
        assert(gb.len() == 0);
        assert(last_first(gb) == gb);
        assert(flat(gb) == Seq::<XVal>::empty());
    }
}

/// Reading an element written in full whose mapping shows no mark of a
/// full element (so the reader takes it for a key-value container).
proof fn lemma_read_unmarked(c: XNode, g: Seq<(Seq<char>, Seq<XNode>)>, m: Seq<(YVal, YVal)>)
    requires
        grouped_ok(c),
        g == node_groups(c.children),
        groups_fit(g, c.children),
        c.ns is None,
        c.attrs.len() == 0,
        texts_of(c.children).len() == 0,
        m == gentries(infos(last_first(g))),
        !crate::yaml_reader::has_nested_values(m),
        node_groups(children_back(c.children, c.children)) == groups_back(g, c.children),
    ensures
        Ok::<XNode, ConvertError>(
            XNode { tag: c.tag, ns: None, attrs: Seq::empty(), children: crate::yaml_reader::yaml_kv_back(m) },
        ) == Ok::<XNode, ConvertError>(regrouped(c, true)),
{
    let cs = c.children;
    let lf = last_first(g);
    let gb = groups_back(g, cs);
    lemma_children_ok_all(cs, cs);
    assert(last_first(gb) =~= groups_back(lf, cs));
    // Every group is a single leaf, which comes back as itself.
    assert forall|i: int| 0 <= i < lf.len() implies (#[trigger] lf[i]).1.len() == 1 && good_leaf(lf[i].1[0])
        && child_back(lf[i].1[0], cs) == lf[i].1[0] && lf[i].1[0].tag == lf[i].0 by {
        let k = if i == 0 { g.len() - 1 } else { i - 1 };
        assert(lf[i] == g[k]);
        let inf = g[k].1.map_values(|x: XNode| child_info(x));
        assert(m[i] == (ykey(lf[i].0), group_value(inf)));
        assert(!(m[i].1 is Mapping || m[i].1 is Sequence));
        lemma_scalar_group(inf);
        let t = g[k].0;
        assert(g[k].1 == nodes_tagged(cs, t));
        assert(leaves_tag(cs, t)) by {
            assert forall|j: int| 0 <= j < nodes_tagged(cs, t).len() implies spec_is_text_leaf(
                #[trigger] nodes_tagged(cs, t)[j],
            ) by {
                assert(j == 0);
                assert(inf[0].leaf);
            }
        }
        lemma_tagged_all(cs, t, |x: XNode| grouped_child_ok(x, cs));
        assert(grouped_child_ok(g[k].1[0], cs));
    }
    let gbl = groups_back(lf, cs);
    assert forall|i: int| 0 <= i < gbl.len() implies (#[trigger] gbl[i]).1.len() == 1 by {}
    lemma_flat_singletons(gbl);
    assert forall|i: int| 0 <= i < m.len() implies (#[trigger] m[i]).0 is Str by {}
    crate::yaml_laws::lemma_kv_back(m);
    let back = Seq::new(
        m.len(),
        |i: int| XVal::Node(crate::xml_node::spec_text_leaf(m[i].0->Str_0, yaml_value_text(m[i].1))),
    );
    assert forall|i: int| 0 <= i < m.len() implies back[i] == flat(gbl)[i] by {
        let x = lf[i].1[0];
        assert(lf[i].1.len() == 1 && good_leaf(x) && x.tag == lf[i].0);
        let inf = lf[i].1.map_values(|y: XNode| child_info(y));
        assert(inf =~= seq![child_info(x)]);
        assert(m[i].1 == spec_smart_yaml(spec_leaf_text(x)));
        crate::yaml_laws::lemma_text_leaf_back(x);
        assert(gbl[i].1[0] == child_back(x, cs));
    }
    assert(back =~= flat(gbl));
    assert(text_vals(texts_of(cs)) =~= Seq::<XVal>::empty());
    assert(Seq::<XVal>::empty() + flat(gbl) =~= flat(gbl));
    assert(c.attrs =~= Seq::<(Seq<char>, Seq<char>)>::empty());
}

/// The reserved keys of the mapping read back from an element written in
/// full are those of its head.
proof fn lemma_full_lookups(c: XNode, h: Seq<(YVal, YVal)>, ge: Seq<(YVal, YVal)>, m: Seq<(YVal, YVal)>, k: Seq<char>)
    requires
        h == head_of(c),
        grouped_reserved(k),
        forall|i: int| 0 <= i < ge.len() ==> (#[trigger] ge[i]).0 is Str && !grouped_reserved(ge[i].0->Str_0),
        keys_distinct(h + ge),
        m == aswap_remove(h + ge, ykey("_tag"@)),
        keys_distinct(m),
        !ahas(m, ykey("_tag"@)),
    ensures
        aget(crate::yaml_reader::with_tag(c.tag, m), ykey(k)) == aget(h, ykey(k)),
        k != "_tag"@ ==> aget(m, ykey(k)) == aget(h, ykey(k)),
{
    lemma_keys();
    crate::yaml_laws::lemma_with_tag_lookup(c.tag, m, ykey(k));
    crate::assoc::lemma_aget_swap_remove(h + ge, ykey("_tag"@), ykey(k));
    lemma_head_lookup(h, ge, k);
    lemma_head(c, ykey(k));
}

/// A mapping of an element written in full without marks: the element has
/// no namespace, attributes or text, and the mapping holds the group
/// entries, the last first.
proof fn lemma_unmarked_facts(
    c: XNode,
    g: Seq<(Seq<char>, Seq<XNode>)>,
    h: Seq<(YVal, YVal)>,
    ge: Seq<(YVal, YVal)>,
    m: Seq<(YVal, YVal)>,
)
    requires
        h == head_of(c),
        ge == gentries(infos(g)),
        g.len() == 0 ==> ge.len() == 0,
        keys_distinct(h + ge),
        h.len() > 0,
        h[0] == (ykey("_tag"@), YVal::Str(c.tag)),
        forall|i: int| 0 <= i < h.len() ==> (#[trigger] h[i]).0 is Str && grouped_reserved(h[i].0->Str_0),
        forall|i: int| 0 <= i < ge.len() ==> (#[trigger] ge[i]).0 is Str && !grouped_reserved(ge[i].0->Str_0),
        m == (if ge.len() > 0 {
            seq![ge.last()] + h.subrange(1, h.len() as int) + ge.drop_last()
        } else {
            h.update(0, h.last()).drop_last()
        }),
        aget(m, ykey("_ns"@)) == aget(h, ykey("_ns"@)),
        aget(m, ykey("_attrs"@)) == aget(h, ykey("_attrs"@)),
        aget(m, ykey("_text"@)) == aget(h, ykey("_text"@)),
        !ahas(m, ykey("_ns"@)),
        !ahas(m, ykey("_attrs"@)),
        !ahas(m, ykey("_text"@)),
    ensures
        c.ns is None,
        c.attrs.len() == 0,
        texts_of(c.children).len() == 0,
        m == gentries(infos(last_first(g))),
{
    lemma_keys();
    reveal_strlit("_tag");
    lemma_head(c, ykey("_ns"@));
    lemma_head(c, ykey("_attrs"@));
    lemma_head(c, ykey("_text"@));
    assert(h.len() == 1) by {
        if h.len() > 1 {
            let kl = if ge.len() > 0 { h[1].0 } else { h.last().0 };
            let p = if ge.len() > 0 { 1int } else { 0int };
            if ge.len() > 0 {
                assert(m[1] == h[1]);
            } else {
                assert(m[0] == h.last());
                assert(h.last() == h[h.len() - 1]);
            }
            assert(m[p].0 == kl);
            assert(kl != ykey("_tag"@));
            assert(kl == ykey("_ns"@) || kl == ykey("_attrs"@) || kl == ykey("_text"@));
            lemma_afind_range(m, kl);
        }
    }
    assert(texts_of(c.children).len() == 0) by {
        if c.children.len() > 0 && single_text(c) {
            assert(text_entry(c) is Some);
        }
    }
    if ge.len() > 0 {
        assert(m =~= gentries(infos(last_first(g))));
    } else {
        assert(m =~= gentries(infos(last_first(g))));
    }
}

proof fn lemma_read_full_cases(
    c: XNode,
    g: Seq<(Seq<char>, Seq<XNode>)>,
    h: Seq<(YVal, YVal)>,
    ge: Seq<(YVal, YVal)>,
    m: Seq<(YVal, YVal)>,
)
    requires
        grouped_ok(c),
        g == node_groups(c.children),
        groups_fit(g, c.children),
        h == head_of(c),
        ge == gentries(infos(g)),
        keys_distinct(h + ge),
        h.len() > 0,
        h[0] == (ykey("_tag"@), YVal::Str(c.tag)),
        forall|i: int| 0 <= i < h.len() ==> (#[trigger] h[i]).0 is Str && grouped_reserved(h[i].0->Str_0),
        forall|i: int| 0 <= i < ge.len() ==> (#[trigger] ge[i]).0 is Str && !grouped_reserved(ge[i].0->Str_0),
        m == aswap_remove(h + ge, ykey("_tag"@)),
        m == (if ge.len() > 0 {
            seq![ge.last()] + h.subrange(1, h.len() as int) + ge.drop_last()
        } else {
            h.update(0, h.last()).drop_last()
        }),
        keys_distinct(m),
        !ahas(m, ykey("_tag"@)),
        spec_node_to_yaml(c) == YVal::Mapping(h + ge, Seq::empty()),
        node_groups(children_back(c.children, c.children)) == groups_back(g, c.children),
    ensures
        spec_yaml_child(c.tag, strip_tag(spec_node_to_yaml(c))) == Ok::<XNode, ConvertError>(regrouped(c, true)),
{
    lemma_keys();
    let cs = c.children;
    let x = flat(last_first(groups_back(g, cs)));
    lemma_with_tag_seq(c.tag, m);
    lemma_full_named(c, g, h, ge, m);
    let e = crate::yaml_reader::with_tag(c.tag, m);
    reveal_strlit("_tag");
    reveal_strlit("_ns");
    reveal_strlit("_attrs");
    reveal_strlit("_text");
    lemma_full_lookups(c, h, ge, m, "_tag"@);
    lemma_full_lookups(c, h, ge, m, "_ns"@);
    lemma_full_lookups(c, h, ge, m, "_attrs"@);
    lemma_full_lookups(c, h, ge, m, "_text"@);
    assert(strip_tag(spec_node_to_yaml(c)) == YVal::Mapping(m, Seq::empty()));
    if ahas(m, ykey("_ns"@)) || ahas(m, ykey("_attrs"@)) || ahas(m, ykey("_text"@))
        || crate::yaml_reader::has_nested_values(m) {
        lemma_read_mapping(c, e, Seq::empty(), x);
    } else {
        assert(g.len() == 0 ==> ge.len() == 0);
        lemma_unmarked_facts(c, g, h, ge, m);
        lemma_read_unmarked(c, g, m);
    }
}

// ─── The laws ──────────────────────────────────────────────────────

proof fn lemma_read_top(n: XNode)
    requires
        grouped_ok(n),
    ensures
        spec_yaml_to_node(spec_node_to_yaml(n)) == Ok::<XNode, ConvertError>(regrouped(n, false)),
        !ahas(spec_node_to_yaml(n)->Mapping_0, ykey("_children"@)) <== (forall|i: int|
            0 <= i < n.children.len() ==> child_tag(#[trigger] n.children[i]) != "_children"@),
{
    lemma_keys();
    let cs = n.children;
    lemma_children_read(cs, cs);
    lemma_children_ok_all(cs, cs);
    lemma_node_groups(cs);
    let g = node_groups(cs);
    lemma_group_facts(cs, g);
    lemma_written(n);
    lemma_children_back_groups(cs, cs);
    let h = head_of(n);
    let ge = gentries(infos(g));
    if cs.len() == 0 || single_text(n) {
        if cs.len() == 1 {
            assert(cs.drop_last() =~= Seq::<XVal>::empty());
            assert(node_groups(cs.drop_last()) == Seq::<(Seq<char>, Seq<XNode>)>::empty());
        }
        assert(g.len() == 0);
        assert(ge =~= Seq::<(YVal, YVal)>::empty());
        assert(h + ge =~= h);
    }
    let mm = h + ge;
    assert(spec_node_to_yaml(n) == YVal::Mapping(mm, Seq::empty()));
    lemma_head(n, ykey("_tag"@));
    assert forall|i: int| 0 <= i < ge.len() implies (#[trigger] ge[i]).0 is Str && !grouped_reserved(ge[i].0->Str_0) by {
        assert(!grouped_reserved(g[i].0));
    }
    lemma_named_reserved(h);
    lemma_groups_read(g, cs);
    lemma_named_concat(h, ge);
    let x = flat(groups_back(g, cs));
    assert(Seq::<XVal>::empty() + x =~= x);
    reveal_strlit("_tag");
    reveal_strlit("_ns");
    reveal_strlit("_attrs");
    reveal_strlit("_text");
    lemma_head_lookup(h, ge, "_tag"@);
    lemma_head_lookup(h, ge, "_ns"@);
    lemma_head_lookup(h, ge, "_attrs"@);
    lemma_head_lookup(h, ge, "_text"@);
    lemma_read_mapping(n, mm, Seq::empty(), x);
    if forall|i: int| 0 <= i < cs.len() ==> child_tag(#[trigger] cs[i]) != "_children"@ {
        lemma_head(n, ykey("_children"@));
        crate::assoc::lemma_aget_concat(h, ge, ykey("_children"@));
        assert forall|i: int| 0 <= i < ge.len() implies ge[i].0 != ykey("_children"@) by {
            let t = g[i].0;
            lemma_tagged_all(cs, t, |y: XNode| true);
            assert(nodes_tagged(cs, t)[0].tag == t);
            lemma_tagged_member(cs, t, 0);
        }
        lemma_afind_none(ge, ykey("_children"@));
    }
}

/// Each element with tag `t` among the children is one of them.
proof fn lemma_tagged_member(cs: Seq<XVal>, t: Seq<char>, j: int)
    requires
        0 <= j < nodes_tagged(cs, t).len(),
        forall|i: int| 0 <= i < cs.len() ==> child_tag(#[trigger] cs[i]) != "_children"@,
    ensures
        t != "_children"@,
    decreases cs.len(),
{
    let d = cs.drop_last();
    assert forall|i: int| 0 <= i < d.len() implies child_tag(#[trigger] d[i]) != "_children"@ by {
        assert(d[i] == cs[i]);
    }
    assert(child_tag(cs[cs.len() - 1]) != "_children"@);
    if j < nodes_tagged(d, t).len() {
        lemma_tagged_member(d, t, j);
    }
}

/// Writing an element in the grouped YAML form and reading it back gives
/// it with its element children grouped by tag, each as it comes back (see
/// `regrouped`), whenever each attribute appears once and each child
/// element is fit for the way its tag is written (see `grouped_child_ok`).
pub proof fn law_yaml_grouped_roundtrip(n: XNode)
    requires
        grouped_ok(n),
    ensures
        spec_yaml_to_node(spec_node_to_yaml(n)) == Ok::<XNode, ConvertError>(regrouped(n, false)),
{
    lemma_read_top(n);
}

/// Reading the grouped form of an element as a document (which picks the
/// reader by the presence of `_children`) gives the same, when no child
/// element is itself named `_children`.
pub proof fn law_yaml_grouped_document_roundtrip(n: XNode)
    requires
        grouped_ok(n),
        forall|i: int| 0 <= i < n.children.len() ==> child_tag(#[trigger] n.children[i]) != "_children"@,
    ensures
        spec_yaml_doc_to_node(spec_node_to_yaml(n)) == Ok::<XNode, ConvertError>(regrouped(n, false)),
{
    lemma_read_top(n);
}

proof fn lemma_tagged_concat(a: Seq<XVal>, b: Seq<XVal>, t: Seq<char>)
    ensures
        nodes_tagged(a + b, t) == nodes_tagged(a, t) + nodes_tagged(b, t),
    decreases b.len(),
{
    if b.len() == 0 {
        assert(a + b =~= a);
        assert(nodes_tagged(a, t) + nodes_tagged(b, t) =~= nodes_tagged(a, t));
    } else {
        assert((a + b).drop_last() =~= a + b.drop_last());
        lemma_tagged_concat(a, b.drop_last(), t);
        let x = nodes_tagged(a, t);
        let y = nodes_tagged(b.drop_last(), t);
        match b.last() {
            XVal::Node(c) => {
                assert(x + y.push(c) =~= (x + y).push(c));
            },
            XVal::Text(_) => {},
        }
    }
}

proof fn lemma_tagged_texts(ts: Seq<Seq<char>>, t: Seq<char>)
    ensures
        nodes_tagged(text_vals(ts), t) == Seq::<XNode>::empty(),
    decreases ts.len(),
{
    if ts.len() > 0 {
        assert(text_vals(ts).drop_last() =~= text_vals(ts.drop_last()));
        lemma_tagged_texts(ts.drop_last(), t);
    }
}

proof fn lemma_tagged_members(ms: Seq<XNode>, t0: Seq<char>, t: Seq<char>)
    requires
        forall|j: int| 0 <= j < ms.len() ==> (#[trigger] ms[j]).tag == t0,
    ensures
        nodes_tagged(ms.map_values(|c: XNode| XVal::Node(c)), t) == (if t0 == t {
            ms
        } else {
            Seq::<XNode>::empty()
        }),
    decreases ms.len(),
{
    if ms.len() > 0 {
        let d = ms.drop_last();
        assert forall|j: int| 0 <= j < d.len() implies (#[trigger] d[j]).tag == t0 by {
            assert(d[j] == ms[j]);
        }
        lemma_tagged_members(d, t0, t);
        let v = ms.map_values(|c: XNode| XVal::Node(c));
        assert(v.drop_last() =~= d.map_values(|c: XNode| XVal::Node(c)));
        assert(ms[ms.len() - 1].tag == t0);
        if t0 == t {
            assert(d.push(ms.last()) =~= ms);
        }
    } else {
        assert(ms.map_values(|c: XNode| XVal::Node(c)) =~= Seq::<XVal>::empty());
    }
}

/// The elements with tag `t` in the members of groups with distinct tags:
/// those of the group with that tag.
proof fn lemma_flat_tagged(gs: Seq<(Seq<char>, Seq<XNode>)>, t: Seq<char>)
    requires
        keys_distinct(gs),
        forall|i: int, j: int| 0 <= i < gs.len() && 0 <= j < gs[i].1.len() ==> (#[trigger] gs[i].1[j]).tag == gs[i].0,
    ensures
        nodes_tagged(flat(gs), t) == (match aget(gs, t) {
            Some(ms) => ms,
            None => Seq::<XNode>::empty(),
        }),
    decreases gs.len(),
{
    if gs.len() > 0 {
        let d = gs.drop_last();
        assert(keys_distinct(d)) by {
            assert forall|i: int, j: int| 0 <= i < j < d.len() implies d[i].0 != d[j].0 by {
                assert(d[i] == gs[i] && d[j] == gs[j]);
            }
        }
        assert forall|i: int, j: int| 0 <= i < d.len() && 0 <= j < d[i].1.len() implies (#[trigger] d[i].1[j]).tag
            == d[i].0 by {
            assert(d[i] == gs[i]);
            assert(gs[i].1[j].tag == gs[i].0);
        }
        lemma_flat_tagged(d, t);
        let k = gs.len() - 1;
        let (t0, ms) = gs[k];
        assert forall|j: int| 0 <= j < ms.len() implies (#[trigger] ms[j]).tag == t0 by {
            assert(gs[k].1[j].tag == gs[k].0);
        }
        lemma_tagged_members(ms, t0, t);
        lemma_tagged_concat(flat(d), ms.map_values(|c: XNode| XVal::Node(c)), t);
        lemma_afind_range(gs, t);
        lemma_afind_range(d, t);
        if t0 == t {
            lemma_afind_first(gs, t, k);
            assert forall|j: int| 0 <= j < d.len() implies d[j].0 != t by {
                assert(d[j] == gs[j]);
            }
            lemma_afind_none(d, t);
            assert(Seq::<XNode>::empty() + ms =~= ms);
        } else {
            assert(gs =~= d.push(gs[k]));
            assert(nodes_tagged(flat(d), t) + Seq::<XNode>::empty() =~= nodes_tagged(flat(d), t));
            match afind(d, t) {
                Some(p) => {
                    lemma_afind_first(gs, t, p);
                },
                None => {
                    assert forall|j: int| 0 <= j < gs.len() implies gs[j].0 != t by {
                        if j < d.len() {
                            assert(d[j] == gs[j]);
                        }
                    }
                    lemma_afind_none(gs, t);
                },
            }
        }
    }
}

proof fn lemma_last_first(gs: Seq<(Seq<char>, Seq<XNode>)>, t: Seq<char>)
    requires
        keys_distinct(gs),
    ensures
        keys_distinct(last_first(gs)),
        aget(last_first(gs), t) == aget(gs, t),
        forall|i: int|
            0 <= i < gs.len() ==> exists|p: int| 0 <= p < gs.len() && #[trigger] last_first(gs)[i] == gs[p],
{
    if gs.len() > 0 {
        let lf = last_first(gs);
        let n = gs.len();
        assert forall|i: int| 0 <= i < n implies #[trigger] lf[i] == gs[if i == 0 { n - 1 } else { i - 1 }] by {}
        assert forall|i: int, j: int| 0 <= i < j < lf.len() implies lf[i].0 != lf[j].0 by {
            let pi = if i == 0 { n - 1 } else { i - 1 };
            let pj = if j == 0 { n - 1 } else { j - 1 };
            assert(lf[i] == gs[pi] && lf[j] == gs[pj]);
            assert(pi != pj);
        }
        lemma_afind_range(gs, t);
        match afind(gs, t) {
            Some(p) => {
                let q = if p == n - 1 { 0 } else { p + 1 };
                assert(lf[q] == gs[p]);
                crate::assoc::lemma_afind_at(lf, t, q);
            },
            None => {
                assert forall|j: int| 0 <= j < lf.len() implies lf[j].0 != t by {
                    let pj = if j == 0 { n - 1 } else { j - 1 };
                    assert(lf[j] == gs[pj]);
                }
                lemma_afind_none(lf, t);
            },
        }
        assert forall|i: int| 0 <= i < gs.len() implies exists|p: int| 0 <= p < gs.len() && #[trigger] last_first(gs)[i]
            == gs[p] by {
            let pi = if i == 0 { n - 1 } else { i - 1 };
            assert(lf[i] == gs[pi]);
        }
    }
}

/// Reading back keeps, for every tag, the child elements with that tag in
/// their order, each as it comes back: only elements with different tags
/// change places.
pub proof fn law_yaml_grouped_keeps_tag_order(n: XNode, nested: bool, t: Seq<char>)
    ensures
        nodes_tagged(regrouped(n, nested).children, t) == nodes_tagged(children_back(n.children, n.children), t),
{
    let xs = children_back(n.children, n.children);
    let gs = node_groups(xs);
    lemma_node_groups(xs);
    assert forall|i: int, j: int| 0 <= i < gs.len() && 0 <= j < gs[i].1.len() implies (#[trigger] gs[i].1[j]).tag
        == gs[i].0 by {
        lemma_tagged_all(xs, gs[i].0, |y: XNode| true);
    }
    let og = if nested { last_first(gs) } else { gs };
    lemma_last_first(gs, t);
    assert forall|i: int, j: int| 0 <= i < og.len() && 0 <= j < og[i].1.len() implies (#[trigger] og[i].1[j]).tag
        == og[i].0 by {
        if nested {
            let p = choose|p: int| 0 <= p < gs.len() && last_first(gs)[i] == gs[p];
            assert(gs[p].1[j].tag == gs[p].0);
        }
    }
    lemma_flat_tagged(og, t);
    lemma_tagged_texts(texts_of(n.children), t);
    lemma_tagged_concat(text_vals(texts_of(n.children)), flat(og), t);
    lemma_afind_range(gs, t);
    assert(Seq::<XNode>::empty() + nodes_tagged(flat(og), t) =~= nodes_tagged(flat(og), t));
}

} // verus!
