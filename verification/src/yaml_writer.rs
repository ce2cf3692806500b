//! XML tree to compact YAML value: the grouped form and the ordered form.
//!
//! The grouped form writes the element children of an element as one key
//! per tag (in the order in which each tag first appears), its value the
//! single child or a sequence of the children with that tag. The ordered
//! form writes them, in document order, into a `_children` sequence.
use vstd::prelude::*;
use crate::strings::{str_eq, to_owned_string};
use crate::assoc::{afind, ainsert, aswap_remove, lemma_afind_first, lemma_afind_none};
use crate::xml_node::{
    XNode, XVal, XmlNode, XmlValue, pairs_view, lemma_children_view, vals_view, spec_is_text_leaf,
    spec_is_simple_kv, spec_leaf_text, is_text_leaf, is_simple_kv_node, leaf_text,
};
use crate::json_writer::texts_of;
use crate::yaml_value::{
    YVal, YamlValue, ykey, yentries_view, yvals_view, lemma_mapping_view, lemma_sequence_view, map_insert,
    map_swap_remove,
};

verus! {

/// `"true"` and `"false"` become YAML booleans; every other text stays a string.
pub open spec fn spec_smart_yaml(t: Seq<char>) -> YVal {
    if t == "true"@ {
        YVal::Bool(true)
    } else if t == "false"@ {
        YVal::Bool(false)
    } else {
        YVal::Str(t)
    }
}

/// The attributes as mapping entries.
pub open spec fn attrs_yaml(attrs: Seq<(Seq<char>, Seq<char>)>) -> Seq<(YVal, YVal)>
    decreases attrs.len(),
{
    if attrs.len() == 0 {
        Seq::empty()
    } else {
        ainsert(attrs_yaml(attrs.drop_last()), ykey(attrs.last().0), YVal::Str(attrs.last().1))
    }
}

/// `_tag`, then `_ns` when there is a namespace, then `_attrs` when there are attributes.
pub open spec fn yaml_head(n: XNode) -> Seq<(YVal, YVal)> {
    let m0 = seq![(ykey("_tag"@), YVal::Str(n.tag))];
    let m1 = match n.ns {
        Some(ns) => ainsert(m0, ykey("_ns"@), YVal::Str(ns)),
        None => m0,
    };
    if n.attrs.len() > 0 {
        ainsert(m1, ykey("_attrs"@), YVal::Mapping(attrs_yaml(n.attrs), Seq::empty()))
    } else {
        m1
    }
}

/// Texts as YAML strings.
pub open spec fn yaml_strs(ts: Seq<Seq<char>>) -> Seq<YVal> {
    Seq::new(ts.len(), |i: int| YVal::Str(ts[i]))
}

/// `_text`: the only child when that is text; else the text children as a
/// string or a sequence of strings.
pub open spec fn yaml_with_text(m: Seq<(YVal, YVal)>, n: XNode) -> Seq<(YVal, YVal)> {
    if n.children.len() == 1 && n.children[0] is Text {
        ainsert(m, ykey("_text"@), YVal::Str(n.children[0]->Text_0))
    } else {
        let texts = texts_of(n.children);
        if texts.len() == 0 {
            m
        } else if texts.len() == 1 {
            ainsert(m, ykey("_text"@), YVal::Str(texts[0]))
        } else {
            ainsert(m, ykey("_text"@), YVal::Sequence(yaml_strs(texts), Seq::empty()))
        }
    }
}

/// The mapping entries of a key-value container: each element child's tag
/// with its text (`true`/`false` as booleans).
pub open spec fn kv_yaml(cs: Seq<XVal>) -> Seq<(YVal, YVal)>
    decreases cs.len(),
{
    if cs.len() == 0 {
        Seq::empty()
    } else {
        let rest = kv_yaml(cs.drop_last());
        match cs.last() {
            XVal::Node(c) => ainsert(rest, ykey(c.tag), spec_smart_yaml(spec_leaf_text(c))),
            XVal::Text(_) => rest,
        }
    }
}

/// A key-value container as a mapping from child tag to child text.
pub open spec fn spec_simple_yaml(n: XNode) -> YVal {
    YVal::Mapping(kv_yaml(n.children), Seq::empty())
}

/// A mapping without its `_tag` entry (removed by swapping the last entry into its place).
pub open spec fn strip_tag(v: YVal) -> YVal {
    match v {
        YVal::Mapping(m, r) => YVal::Mapping(aswap_remove(m, ykey("_tag"@)), r),
        _ => v,
    }
}

/// What the grouped form needs of a child element: its shape and each way
/// it can be written.
pub ghost struct ChildInfo {
    pub leaf: bool,
    pub kv: bool,
    pub leaf_value: YVal,
    pub kv_value: YVal,
    pub full: YVal,
}

pub open spec fn child_info(c: XNode) -> ChildInfo
    decreases c, 1int,
{
    ChildInfo {
        leaf: spec_is_text_leaf(c),
        kv: spec_is_simple_kv(c),
        leaf_value: spec_smart_yaml(spec_leaf_text(c)),
        kv_value: spec_simple_yaml(c),
        full: spec_node_to_yaml(c),
    }
}

/// The element children grouped by tag, the groups in the order in which
/// their tag first appears, each group in document order.
pub open spec fn groups_of(cs: Seq<XVal>) -> Seq<(Seq<char>, Seq<ChildInfo>)>
    decreases cs, 0int,
{
    if cs.len() == 0 {
        Seq::empty()
    } else {
        let g = groups_of(cs.drop_last());
        match cs.last() {
            XVal::Node(c) => match afind(g, c.tag) {
                Some(i) => g.update(i, (c.tag, g[i].1.push(child_info(c)))),
                None => g.push((c.tag, seq![child_info(c)])),
            },
            XVal::Text(_) => g,
        }
    }
}

/// The value written for a group of same-tag children: leaves as their
/// text, key-value containers as mappings, anything else in full without
/// `_tag`; a single child as itself, several as a sequence. A group that
/// mixes shapes is written in full.
pub open spec fn group_value(infos: Seq<ChildInfo>) -> YVal {
    let all_leaves = forall|i: int| 0 <= i < infos.len() ==> (#[trigger] infos[i]).leaf;
    let all_kv = forall|i: int| 0 <= i < infos.len() ==> (#[trigger] infos[i]).kv;
    if all_leaves && infos.len() == 1 {
        infos[0].leaf_value
    } else if all_leaves {
        YVal::Sequence(Seq::new(infos.len(), |i: int| infos[i].leaf_value), Seq::empty())
    } else if infos.len() == 1 && all_kv {
        infos[0].kv_value
    } else if all_kv {
        YVal::Sequence(Seq::new(infos.len(), |i: int| infos[i].kv_value), Seq::empty())
    } else if infos.len() == 1 {
        strip_tag(infos[0].full)
    } else {
        YVal::Sequence(Seq::new(infos.len(), |i: int| strip_tag(infos[i].full)), Seq::empty())
    }
}

/// One entry per group, after the entries of `m`.
pub open spec fn insert_groups(m: Seq<(YVal, YVal)>, gs: Seq<(Seq<char>, Seq<ChildInfo>)>) -> Seq<(YVal, YVal)>
    decreases gs.len(),
{
    if gs.len() == 0 {
        m
    } else {
        ainsert(insert_groups(m, gs.drop_last()), ykey(gs.last().0), group_value(gs.last().1))
    }
}

/// An element in the grouped form: `_tag`, `_ns`, `_attrs`, `_text`, then
/// one entry per tag of its element children.
pub open spec fn spec_node_to_yaml(n: XNode) -> YVal
    decreases n, 0int,
{
    let m = yaml_head(n);
    if n.children.len() == 0 {
        YVal::Mapping(m, Seq::empty())
    } else if n.children.len() == 1 && n.children[0] is Text {
        YVal::Mapping(yaml_with_text(m, n), Seq::empty())
    } else {
        YVal::Mapping(insert_groups(yaml_with_text(m, n), groups_of(n.children)), Seq::empty())
    }
}

/// An element in the ordered form: `_tag`, `_ns`, `_attrs`, `_text`, then
/// `_children`, one single-key mapping per element child in document order.
pub open spec fn spec_node_to_yaml_ordered(n: XNode) -> YVal
    decreases n, 0int,
{
    let m = yaml_head(n);
    if n.children.len() == 0 {
        YVal::Mapping(m, Seq::empty())
    } else if n.children.len() == 1 && n.children[0] is Text {
        YVal::Mapping(yaml_with_text(m, n), Seq::empty())
    } else {
        let m3 = yaml_with_text(m, n);
        let kids = ordered_children(n.children);
        if kids.len() > 0 {
            YVal::Mapping(ainsert(m3, ykey("_children"@), YVal::Sequence(kids, Seq::empty())), Seq::empty())
        } else {
            YVal::Mapping(m3, Seq::empty())
        }
    }
}

/// The `_children` entries of the element children, in order.
pub open spec fn ordered_children(cs: Seq<XVal>) -> Seq<YVal>
    decreases cs, 0int,
{
    if cs.len() == 0 {
        Seq::empty()
    } else {
        ordered_children(cs.drop_last()) + match cs.last() {
            XVal::Node(c) => seq![spec_child_ordered(c)],
            XVal::Text(_) => Seq::empty(),
        }
    }
}

/// A child element in `_children`: `{tag: text}` for a leaf, `{tag: {key:
/// value, ...}}` for a key-value container, else `{tag: element without _tag}`.
pub open spec fn spec_child_ordered(c: XNode) -> YVal
    decreases c, 1int,
{
    let v = if spec_is_text_leaf(c) {
        spec_smart_yaml(spec_leaf_text(c))
    } else if spec_is_simple_kv(c) {
        spec_simple_yaml(c)
    } else {
        strip_tag(spec_node_to_yaml_ordered(c))
    };
    YVal::Mapping(seq![(ykey(c.tag), v)], Seq::empty())
}


// ─── Executable ────────────────────────────────────────────────────

/// `"true"`/`"false"` as booleans, other text as a string.
pub fn smart_yaml_value(text: &str) -> (r: YamlValue)
    ensures
        r.view() == spec_smart_yaml(text@),
{
    if str_eq(text, "true") {
        YamlValue::Bool(true)
    } else if str_eq(text, "false") {
        YamlValue::Bool(false)
    } else {
        YamlValue::Str(to_owned_string(text))
    }
}

fn ystr(s: &str) -> (r: YamlValue)
    ensures
        r.view() == YVal::Str(s@),
{
    YamlValue::Str(to_owned_string(s))
}

fn mapping(m: Vec<(YamlValue, YamlValue)>) -> (r: YamlValue)
    ensures
        r.view() == YVal::Mapping(yentries_view(m@), Seq::empty()),
{
    let r = String::new();
    proof { lemma_mapping_view(m, r); }
    YamlValue::Mapping(m, r)
}

fn sequence(items: Vec<YamlValue>) -> (r: YamlValue)
    ensures
        r.view() == YVal::Sequence(yvals_view(items@), Seq::empty()),
{
    let r = String::new();
    proof { lemma_sequence_view(items, r); }
    YamlValue::Sequence(items, r)
}

fn head_mapping(node: &XmlNode) -> (r: Vec<(YamlValue, YamlValue)>)
    ensures
        yentries_view(r@) == yaml_head(node.view()),
{
    let mut m: Vec<(YamlValue, YamlValue)> = Vec::new();
    m.push((ystr("_tag"), YamlValue::Str(node.tag.clone())));
    assert(yentries_view(m@) =~= seq![(ykey("_tag"@), YVal::Str(node.tag@))]);
    match &node.namespace {
        Some(ns) => map_insert(&mut m, ystr("_ns"), YamlValue::Str(ns.clone())),
        None => {},
    }
    if node.attrs.len() > 0 {
        let mut attrs: Vec<(YamlValue, YamlValue)> = Vec::new();
        let n = node.attrs.len();
        let mut i: usize = 0;
        while i < n
            invariant
                n == node.attrs.len(),
                i <= n,
                yentries_view(attrs@) == attrs_yaml(pairs_view(node.attrs@.take(i as int))),
            decreases n - i,
        {
            proof {
                let pv = pairs_view(node.attrs@.take(i + 1));
                assert(pv.drop_last() =~= pairs_view(node.attrs@.take(i as int)));
            }
            map_insert(&mut attrs, YamlValue::Str(node.attrs[i].0.clone()), YamlValue::Str(node.attrs[i].1.clone()));
            i = i + 1;
        }
        assert(node.attrs@.take(n as int) =~= node.attrs@);
        map_insert(&mut m, ystr("_attrs"), mapping(attrs));
    }
    m
}

/// A key-value container as a mapping from child tag to child text.
pub fn simple_node_to_value(node: &XmlNode) -> (r: YamlValue)
    ensures
        r.view() == spec_simple_yaml(node.view()),
{
    proof { lemma_children_view(node); }
    let ghost cs = node.view().children;
    let mut m: Vec<(YamlValue, YamlValue)> = Vec::new();
    let n = node.children.len();
    let mut i: usize = 0;
    while i < n
        invariant
            n == node.children.len(),
            cs == vals_view(node.children@),
            i <= n,
            yentries_view(m@) == kv_yaml(cs.take(i as int)),
        decreases n - i,
    {
        assert(cs.take(i + 1).drop_last() =~= cs.take(i as int));
        assert(cs.take(i + 1).last() == node.children@[i as int].view());
        if let XmlValue::Node(c) = &node.children[i] {
            map_insert(&mut m, YamlValue::Str(c.tag.clone()), smart_yaml_value(leaf_text(c)));
        }
        i = i + 1;
    }
    assert(cs.take(n as int) =~= cs);
    assert(yentries_view(m@) =~= kv_yaml(cs));
    mapping(m)
}

/// Adds `_text` for an element whose children are more than one text: the
/// texts as a string when there is one, as a sequence when there are more.
fn insert_texts(m: &mut Vec<(YamlValue, YamlValue)>, texts: Vec<YamlValue>, Ghost(ts): Ghost<Seq<Seq<char>>>)
    requires
        yvals_view(texts@) == yaml_strs(ts),
    ensures
        yentries_view(final(m)@) == if ts.len() == 0 {
            yentries_view(old(m)@)
        } else if ts.len() == 1 {
            ainsert(yentries_view(old(m)@), ykey("_text"@), YVal::Str(ts[0]))
        } else {
            ainsert(yentries_view(old(m)@), ykey("_text"@), YVal::Sequence(yaml_strs(ts), Seq::empty()))
        },
{
    let mut texts = texts;
    assert(yvals_view(texts@).len() == texts@.len());
    assert(texts@.len() == ts.len());
    if texts.len() == 1 {
        assert(texts@[0].view() == yvals_view(texts@)[0]);
        let t = texts.pop().unwrap();
        map_insert(m, ystr("_text"), t);
    } else if texts.len() > 1 {
        map_insert(m, ystr("_text"), sequence(texts));
    }
}

/// A value without its `_tag` entry (see `strip_tag`).
fn strip_tag_value(v: YamlValue) -> (r: YamlValue)
    ensures
        r.view() == strip_tag(v.view()),
{
    match v {
        YamlValue::Mapping(mut m, r) => {
            proof { lemma_mapping_view(m, r); }
            let ghost before = yentries_view(m@);
            map_swap_remove(&mut m, "_tag");
            proof { lemma_mapping_view(m, r); }
            YamlValue::Mapping(m, r)
        },
        other => other,
    }
}

/// The position of `tag` among `tags`, if it is there.
fn find_tag(tags: &Vec<String>, tag: &str) -> (r: Option<usize>)
    ensures
        r matches Some(p) ==> p < tags@.len() && tags@[p as int]@ == tag@ && forall|q: int| 0 <= q < p ==> tags@[q]@ != tag@,
        r is None ==> forall|q: int| 0 <= q < tags@.len() ==> tags@[q]@ != tag@,
{
    let n = tags.len();
    let mut p: usize = 0;
    while p < n
        invariant
            n == tags@.len(),
            p <= n,
            forall|q: int| 0 <= q < p ==> tags@[q]@ != tag@,
        decreases n - p,
    {
        if str_eq(tags[p].as_str(), tag) {
            return Some(p);
        }
        p = p + 1;
    }
    None
}

fn child_node<'a>(node: &'a XmlNode, idx: usize) -> (r: &'a XmlNode)
    requires
        idx < node.children@.len(),
        node.children@[idx as int] is Node,
    ensures
        node.children@[idx as int] == XmlValue::Node(*r),
        node.view().children[idx as int] == XVal::Node(r.view()),
{
    proof { lemma_children_view(node); }
    match &node.children[idx] {
        XmlValue::Node(c) => c,
        XmlValue::Text(_) => node,
    }
}

/// The child information of the members of a group (indices of children).
pub open spec fn infos_of(cs: Seq<XVal>, idxs: Seq<usize>) -> Seq<ChildInfo> {
    Seq::new(idxs.len(), |j: int| child_info(cs[idxs[j] as int]->Node_0))
}

/// The groups, by member indices, as `groups_of` gives them.
pub open spec fn groups_view(tags: Seq<String>, members: Seq<Vec<usize>>, cs: Seq<XVal>) -> Seq<(Seq<char>, Seq<ChildInfo>)> {
    Seq::new(tags.len(), |g: int| (tags[g]@, infos_of(cs, members[g]@)))
}

/// The value of a group of same-tag children (see `group_value`).
fn group_to_value(node: &XmlNode, idxs: &Vec<usize>) -> (r: YamlValue)
    requires
        idxs@.len() > 0,
        forall|j: int| 0 <= j < idxs@.len() ==> (#[trigger] idxs@[j]) < node.children@.len() && node.children@[idxs@[j] as int] is Node,
    ensures
        r.view() == group_value(infos_of(node.view().children, idxs@)),
    decreases node, 0int,
{
    proof { lemma_children_view(node); }
    let ghost cs = node.view().children;
    let ghost infos = infos_of(cs, idxs@);
    let n = idxs.len();
    let mut all_leaves = true;
    let mut all_kv = true;
    let mut j: usize = 0;
    while j < n
        invariant
            n == idxs@.len(),
            cs == node.view().children,
            infos == infos_of(cs, idxs@),
            forall|q: int| 0 <= q < idxs@.len() ==> (#[trigger] idxs@[q]) < node.children@.len() && node.children@[idxs@[q] as int] is Node,
            j <= n,
            all_leaves == forall|q: int| 0 <= q < j ==> (#[trigger] infos[q]).leaf,
            all_kv == forall|q: int| 0 <= q < j ==> (#[trigger] infos[q]).kv,
        decreases n - j,
    {
        let c = child_node(node, idxs[j]);
        let ghost q = j as int;
        assert(infos[q] == child_info(c.view()));
        if !is_text_leaf(c) {
            all_leaves = false;
        }
        if !is_simple_kv_node(c) {
            all_kv = false;
        }
        j = j + 1;
    }
    if all_leaves || all_kv {
        let mut vals: Vec<YamlValue> = Vec::new();
        let mut j: usize = 0;
        while j < n
            invariant
                n == idxs@.len(),
                cs == node.view().children,
                infos == infos_of(cs, idxs@),
                forall|q: int| 0 <= q < idxs@.len() ==> (#[trigger] idxs@[q]) < node.children@.len() && node.children@[idxs@[q] as int] is Node,
                j <= n,
                vals@.len() == j,
                forall|q: int| 0 <= q < j ==> (#[trigger] vals@[q]).view() == (if all_leaves { infos[q].leaf_value } else { infos[q].kv_value }),
            decreases n - j,
        {
            let c = child_node(node, idxs[j]);
            assert(infos[j as int] == child_info(c.view()));
            let x = if all_leaves {
                smart_yaml_value(leaf_text(c))
            } else {
                simple_node_to_value(c)
            };
            vals.push(x);
            j = j + 1;
        }
        if n == 1 {
            let v = vals.pop().unwrap();
            return v;
        }
        proof {
            if all_leaves {
                assert(yvals_view(vals@) =~= Seq::new(infos.len(), |i: int| infos[i].leaf_value));
            } else {
                assert(yvals_view(vals@) =~= Seq::new(infos.len(), |i: int| infos[i].kv_value));
            }
        }
        return sequence(vals);
    }
    let mut vals: Vec<YamlValue> = Vec::new();
    let mut j: usize = 0;
    while j < n
        invariant
            n == idxs@.len(),
            cs == node.view().children,
            infos == infos_of(cs, idxs@),
            forall|q: int| 0 <= q < idxs@.len() ==> (#[trigger] idxs@[q]) < node.children@.len() && node.children@[idxs@[q] as int] is Node,
            j <= n,
            vals@.len() == j,
            forall|q: int| 0 <= q < j ==> (#[trigger] vals@[q]).view() == strip_tag(infos[q].full),
        decreases n - j,
    {
        let c = child_node(node, idxs[j]);
        assert(infos[j as int] == child_info(c.view()));
        proof {
            assert(decreases_to!(*node => node.children));
            assert(decreases_to!(node.children => node.children@));
            assert(decreases_to!(node.children@ => node.children@[idxs@[j as int] as int]));
        }
        let full = node_to_yaml_value(c);
        vals.push(strip_tag_value(full));
        j = j + 1;
    }
    if n == 1 {
        let v = vals.pop().unwrap();
        return v;
    }
    assert(yvals_view(vals@) =~= Seq::new(infos.len(), |i: int| strip_tag(infos[i].full)));
    sequence(vals)
}

/// An element in the grouped form (see `spec_node_to_yaml`).
pub fn node_to_yaml_value(node: &XmlNode) -> (r: YamlValue)
    ensures
        r.view() == spec_node_to_yaml(node.view()),
    decreases node, 1int,
{
    proof { lemma_children_view(node); }
    let ghost nv = node.view();
    let mut m = head_mapping(node);
    if node.children.len() == 0 {
        return mapping(m);
    }
    if node.children.len() == 1 {
        assert(nv.children[0] == node.children@[0].view());
        if let XmlValue::Text(t) = &node.children[0] {
            map_insert(&mut m, ystr("_text"), YamlValue::Str(t.clone()));
            return mapping(m);
        }
    }
    let mut texts: Vec<YamlValue> = Vec::new();
    let mut tags: Vec<String> = Vec::new();
    let mut members: Vec<Vec<usize>> = Vec::new();
    let n = node.children.len();
    let mut i: usize = 0;
    while i < n
        invariant
            n == node.children.len(),
            nv == node.view(),
            nv.children == vals_view(node.children@),
            i <= n,
            yvals_view(texts@) == yaml_strs(texts_of(nv.children.take(i as int))),
            tags@.len() == members@.len(),
            groups_view(tags@, members@, nv.children) == groups_of(nv.children.take(i as int)),
            forall|g: int, q: int| 0 <= g < members@.len() && 0 <= q < members@[g]@.len() ==> (#[trigger] members@[g]@[q]) < i && node.children@[members@[g]@[q] as int] is Node,
            forall|g: int| 0 <= g < members@.len() ==> (#[trigger] members@[g]@).len() > 0,
        decreases n - i,
    {
        let ghost pre = nv.children.take(i as int);
        let ghost cv = nv.children.take(i + 1);
        assert(cv.drop_last() =~= pre);
        assert(cv.last() == node.children@[i as int].view());
        let ghost old_texts = texts@;
        match &node.children[i] {
            XmlValue::Text(t) => {
                texts.push(YamlValue::Str(t.clone()));
                assert(texts_of(cv) == texts_of(pre) + seq![t@]);
                assert(yvals_view(texts@) =~= yvals_view(old_texts).push(YVal::Str(t@)));
                assert(yaml_strs(texts_of(cv)) =~= yaml_strs(texts_of(pre)).push(YVal::Str(t@)));
                assert(groups_of(cv) == groups_of(pre));
            },
            XmlValue::Node(c) => {
                assert(texts_of(cv) =~= texts_of(pre));
                let ghost gv = groups_view(tags@, members@, nv.children);
                let found = find_tag(&tags, c.tag.as_str());
                let ghost info = child_info(c.view());
                assert(nv.children[i as int] == XVal::Node(c.view()));
                if let Some(p) = found {
                    assert(gv[p as int].0 == c.tag@);
                    assert forall|q: int| 0 <= q < p implies gv[q].0 != c.tag@ by {
                        assert(gv[q].0 == tags@[q]@);
                    }
                    proof { lemma_afind_first(gv, c.tag@, p as int); }
                    let mut tmp: Vec<usize> = Vec::new();
                    members.set_and_swap(p, &mut tmp);
                    tmp.push(i);
                    members.set_and_swap(p, &mut tmp);
                    assert(infos_of(nv.children, members@[p as int]@) =~= gv[p as int].1.push(info));
                    assert(groups_view(tags@, members@, nv.children) =~= gv.update(p as int, (c.tag@, gv[p as int].1.push(info))));
                } else {
                    let gn = tags.len();
                    assert forall|q: int| 0 <= q < gv.len() implies gv[q].0 != c.tag@ by {
                        assert(gv[q].0 == tags@[q]@);
                    }
                    proof { lemma_afind_none(gv, c.tag@); }
                    tags.push(c.tag.clone());
                    let mut one: Vec<usize> = Vec::new();
                    one.push(i);
                    members.push(one);
                    assert(infos_of(nv.children, members@[gn as int]@) =~= seq![info]);
                    assert(groups_view(tags@, members@, nv.children) =~= gv.push((c.tag@, seq![info])));
                }
            },
        }
        i = i + 1;
    }
    assert(nv.children.take(n as int) =~= nv.children);
    insert_texts(&mut m, texts, Ghost(texts_of(nv.children)));
    let ghost m3 = yentries_view(m@);
    assert(m3 == yaml_with_text(yaml_head(nv), nv));
    let ghost gs = groups_of(nv.children);
    let gn = tags.len();
    let mut g: usize = 0;
    while g < gn
        invariant
            gn == tags@.len(),
            gn == members@.len(),
            nv == node.view(),
            nv.children == vals_view(node.children@),
            gs == groups_view(tags@, members@, nv.children),
            forall|g2: int, q: int| 0 <= g2 < members@.len() && 0 <= q < members@[g2]@.len() ==> (#[trigger] members@[g2]@[q]) < node.children@.len() && node.children@[members@[g2]@[q] as int] is Node,
            forall|g2: int| 0 <= g2 < members@.len() ==> (#[trigger] members@[g2]@).len() > 0,
            g <= gn,
            yentries_view(m@) == insert_groups(m3, gs.take(g as int)),
        decreases gn - g,
    {
        assert(gs.take(g + 1).drop_last() =~= gs.take(g as int));
        assert(gs.take(g + 1).last() == gs[g as int]);
        assert(members@[g as int]@.len() > 0);
        let v = group_to_value(node, &members[g]);
        map_insert(&mut m, YamlValue::Str(tags[g].clone()), v);
        g = g + 1;
    }
    assert(gs.take(gn as int) =~= gs);
    mapping(m)
}

/// An element in the ordered form (see `spec_node_to_yaml_ordered`).
pub fn node_to_yaml_ordered_value(node: &XmlNode) -> (r: YamlValue)
    ensures
        r.view() == spec_node_to_yaml_ordered(node.view()),
    decreases node, 0int,
{
    proof { lemma_children_view(node); }
    let ghost nv = node.view();
    let mut m = head_mapping(node);
    if node.children.len() == 0 {
        return mapping(m);
    }
    if node.children.len() == 1 {
        assert(nv.children[0] == node.children@[0].view());
        if let XmlValue::Text(t) = &node.children[0] {
            map_insert(&mut m, ystr("_text"), YamlValue::Str(t.clone()));
            return mapping(m);
        }
    }
    let mut texts: Vec<YamlValue> = Vec::new();
    let mut kids: Vec<YamlValue> = Vec::new();
    let n = node.children.len();
    let mut i: usize = 0;
    while i < n
        invariant
            n == node.children.len(),
            nv == node.view(),
            nv.children == vals_view(node.children@),
            i <= n,
            yvals_view(texts@) == yaml_strs(texts_of(nv.children.take(i as int))),
            yvals_view(kids@) == ordered_children(nv.children.take(i as int)),
        decreases n - i,
    {
        let ghost pre = nv.children.take(i as int);
        let ghost cv = nv.children.take(i + 1);
        assert(cv.drop_last() =~= pre);
        assert(cv.last() == node.children@[i as int].view());
        let ghost old_texts = texts@;
        let ghost old_kids = kids@;
        match &node.children[i] {
            XmlValue::Text(t) => {
                texts.push(YamlValue::Str(t.clone()));
                assert(texts_of(cv) == texts_of(pre) + seq![t@]);
                assert(yvals_view(texts@) =~= yvals_view(old_texts).push(YVal::Str(t@)));
                assert(yaml_strs(texts_of(cv)) =~= yaml_strs(texts_of(pre)).push(YVal::Str(t@)));
                assert(ordered_children(cv) =~= ordered_children(pre));
            },
            XmlValue::Node(c) => {
                assert(texts_of(cv) =~= texts_of(pre));
                proof {
                    assert(decreases_to!(*node => node.children));
                    assert(decreases_to!(node.children => node.children@));
                    assert(decreases_to!(node.children@ => node.children@[i as int]));
                }
                let k = child_node_to_yaml_ordered(c);
                kids.push(k);
                assert(ordered_children(cv) =~= ordered_children(pre).push(spec_child_ordered(c.view())));
                assert(yvals_view(kids@) =~= yvals_view(old_kids).push(k.view()));
            },
        }
        i = i + 1;
    }
    assert(nv.children.take(n as int) =~= nv.children);
    insert_texts(&mut m, texts, Ghost(texts_of(nv.children)));
    if kids.len() > 0 {
        assert(yvals_view(kids@).len() == kids@.len());
        map_insert(&mut m, ystr("_children"), sequence(kids));
    } else {
        assert(yvals_view(kids@).len() == kids@.len());
    }
    mapping(m)
}

/// A child element as its `_children` entry (see `spec_child_ordered`).
pub fn child_node_to_yaml_ordered(node: &XmlNode) -> (r: YamlValue)
    ensures
        r.view() == spec_child_ordered(node.view()),
    decreases node, 1int,
{
    let v = if is_text_leaf(node) {
        smart_yaml_value(leaf_text(node))
    } else if is_simple_kv_node(node) {
        simple_node_to_value(node)
    } else {
        strip_tag_value(node_to_yaml_ordered_value(node))
    };
    let mut m: Vec<(YamlValue, YamlValue)> = Vec::new();
    m.push((YamlValue::Str(node.tag.clone()), v));
    assert(yentries_view(m@) =~= seq![(ykey(node.view().tag), v.view())]);
    mapping(m)
}

} // verus!
