//! The XML tree that every format converts from and to, and its XML text form.
use vstd::prelude::*;
use crate::strings::{push_char, push_str};
use crate::assoc::{ainsert, lemma_afind_first, lemma_afind_none};

verus! {

/// Mathematical model of a child of an element: a text run or a nested element.
pub ghost enum XVal {
    Text(Seq<char>),
    Node(XNode),
}

/// Mathematical model of an element.
pub ghost struct XNode {
    pub tag: Seq<char>,
    pub ns: Option<Seq<char>>,
    pub attrs: Seq<(Seq<char>, Seq<char>)>,
    pub children: Seq<XVal>,
}

/// A child of an element: text or a nested element.
pub enum XmlValue {
    Text(String),
    Node(XmlNode),
}

/// An XML element with its tag, optional `xmlns`, attributes in document
/// order (each key once) and children in document order.
pub struct XmlNode {
    pub tag: String,
    pub namespace: Option<String>,
    pub attrs: Vec<(String, String)>,
    pub children: Vec<XmlValue>,
}

pub open spec fn opt_str_view(o: Option<String>) -> Option<Seq<char>> {
    match o {
        Some(s) => Some(s@),
        None => None,
    }
}

pub open spec fn pairs_view(ps: Seq<(String, String)>) -> Seq<(Seq<char>, Seq<char>)> {
    Seq::new(ps.len(), |i: int| (ps[i].0@, ps[i].1@))
}

impl XmlNode {
    pub open spec fn view(&self) -> XNode
        decreases self,
    {
        XNode {
            tag: self.tag@,
            ns: opt_str_view(self.namespace),
            attrs: pairs_view(self.attrs@),
            children: Seq::new(
                self.children@.len(),
                |i: int|
                    if 0 <= i < self.children@.len() {
                        self.children@[i].view()
                    } else {
                        XVal::Text(Seq::empty())
                    },
            ),
        }
    }
}

impl XmlValue {
    pub open spec fn view(&self) -> XVal
        decreases self,
    {
        match self {
            XmlValue::Text(s) => XVal::Text(s@),
            XmlValue::Node(n) => XVal::Node(n.view()),
        }
    }
}

/// The models of a sequence of children.
pub open spec fn vals_view(cs: Seq<XmlValue>) -> Seq<XVal> {
    Seq::new(cs.len(), |i: int| cs[i].view())
}

pub proof fn lemma_children_view(n: &XmlNode)
    ensures
        n.view().children == vals_view(n.children@),
        n.view().children.len() == n.children@.len(),
{
    assert(n.view().children =~= vals_view(n.children@));
}

pub proof fn lemma_vals_view_push(cs: Seq<XmlValue>, v: XmlValue)
    ensures
        vals_view(cs.push(v)) == vals_view(cs).push(v.view()),
{
    assert(vals_view(cs.push(v)) =~= vals_view(cs).push(v.view()));
}

pub proof fn lemma_pairs_view_push(ps: Seq<(String, String)>, p: (String, String))
    ensures
        pairs_view(ps.push(p)) == pairs_view(ps).push((p.0@, p.1@)),
{
    assert(pairs_view(ps.push(p)) =~= pairs_view(ps).push((p.0@, p.1@)));
}

pub proof fn lemma_pairs_view_update(ps: Seq<(String, String)>, i: int, p: (String, String))
    requires
        0 <= i < ps.len(),
    ensures
        pairs_view(ps.update(i, p)) == pairs_view(ps).update(i, (p.0@, p.1@)),
{
    assert(pairs_view(ps.update(i, p)) =~= pairs_view(ps).update(i, (p.0@, p.1@)));
}

/// The model of a conversion result.
pub open spec fn node_result_view<E>(r: Result<XmlNode, E>) -> Result<XNode, E> {
    match r {
        Ok(n) => Ok(n.view()),
        Err(e) => Err(e),
    }
}

/// An element with no namespace and no attributes whose only child is the
/// text `text`, or which has no child when `text` is empty.
pub open spec fn spec_text_leaf(tag: Seq<char>, text: Seq<char>) -> XNode {
    XNode {
        tag,
        ns: None,
        attrs: Seq::empty(),
        children: if text.len() == 0 {
            Seq::empty()
        } else {
            seq![XVal::Text(text)]
        },
    }
}

/// An element with no namespace and no attributes whose only child is the text `text`.
pub open spec fn spec_text_element(tag: Seq<char>, text: Seq<char>) -> XNode {
    XNode { tag, ns: None, attrs: Seq::empty(), children: seq![XVal::Text(text)] }
}

/// Builds `spec_text_leaf(tag, text)`.
pub fn text_leaf_node(tag: String, text: String) -> (r: XmlNode)
    ensures
        r.view() == spec_text_leaf(tag@, text@),
{
    let mut children: Vec<XmlValue> = Vec::new();
    if text.unicode_len() > 0 {
        children.push(XmlValue::Text(text));
    }
    let r = XmlNode { tag, namespace: None, attrs: Vec::new(), children };
    proof { lemma_children_view(&r); }
    assert(r.view().children =~= spec_text_leaf(r.tag@, text@).children);
    assert(r.view().attrs =~= Seq::<(Seq<char>, Seq<char>)>::empty());
    r
}

/// Builds `spec_text_element(tag, text)`.
pub fn text_element_node(tag: String, text: String) -> (r: XmlNode)
    ensures
        r.view() == spec_text_element(tag@, text@),
{
    let mut children: Vec<XmlValue> = Vec::new();
    children.push(XmlValue::Text(text));
    let r = XmlNode { tag, namespace: None, attrs: Vec::new(), children };
    proof { lemma_children_view(&r); }
    assert(r.view().children =~= spec_text_element(r.tag@, text@).children);
    assert(r.view().attrs =~= Seq::<(Seq<char>, Seq<char>)>::empty());
    r
}

/// Inserts attribute `k = v` as an insertion-ordered map does.
pub fn attr_insert(attrs: &mut Vec<(String, String)>, k: String, v: String)
    ensures
        pairs_view(final(attrs)@) == ainsert(pairs_view(old(attrs)@), k@, v@),
{
    let ghost pv = pairs_view(attrs@);
    let n = attrs.len();
    let mut i: usize = 0;
    while i < n
        invariant
            n == attrs.len(),
            pv == pairs_view(attrs@),
            attrs@ == old(attrs)@,
            i <= n,
            forall|j: int| 0 <= j < i ==> pv[j].0 != k@,
        decreases n - i,
    {
        if attrs[i].0 == k {
            proof { lemma_afind_first(pv, k@, i as int); }
            let ghost kv = k@;
            let ghost vv = v@;
            attrs.set(i, (k, v));
            proof { lemma_pairs_view_update(old(attrs)@, i as int, (k, v)); }
            assert(pairs_view(attrs@) =~= ainsert(pv, kv, vv));
            return;
        }
        i = i + 1;
    }
    proof { lemma_afind_none(pv, k@); lemma_pairs_view_push(attrs@, (k, v)); }
    attrs.push((k, v));
}

// ─── Shape of elements ─────────────────────────────────────────────

/// Every child is a text run.
pub open spec fn all_text(cs: Seq<XVal>) -> bool {
    forall|i: int| 0 <= i < cs.len() ==> cs[i] is Text
}

/// A leaf: no attributes and at most one child, which is text
/// (`<custom>false</custom>`, `<x/>`).
pub open spec fn spec_is_text_leaf(n: XNode) -> bool {
    n.attrs.len() == 0 && n.children.len() <= 1 && all_text(n.children)
}

/// The text of a leaf (its first child if that is text, else empty).
pub open spec fn spec_leaf_text(n: XNode) -> Seq<char> {
    if n.children.len() > 0 && n.children[0] is Text {
        n.children[0]->Text_0
    } else {
        Seq::empty()
    }
}

/// A child that is an element of leaf shape.
pub open spec fn is_leaf_child(v: XVal) -> bool {
    match v {
        XVal::Node(c) => spec_is_text_leaf(c),
        XVal::Text(_) => false,
    }
}

/// The tag of a child element (empty for text).
pub open spec fn child_tag(v: XVal) -> Seq<char> {
    match v {
        XVal::Node(c) => c.tag,
        XVal::Text(_) => Seq::empty(),
    }
}

/// Every element child has a different tag.
pub open spec fn distinct_child_tags(cs: Seq<XVal>) -> bool {
    forall|i: int, j: int| 0 <= i < j < cs.len() ==> child_tag(cs[i]) != child_tag(cs[j])
}

/// A key-value container: no attributes, at least one child, every child a
/// leaf element, and no two children with the same tag
/// (`<fieldPermissions><field>X</field><readable>true</readable></fieldPermissions>`).
pub open spec fn spec_is_simple_kv(n: XNode) -> bool {
    &&& n.attrs.len() == 0
    &&& n.children.len() > 0
    &&& forall|i: int| 0 <= i < n.children.len() ==> is_leaf_child(#[trigger] n.children[i])
    &&& distinct_child_tags(n.children)
}

/// Whether `node` is a leaf (see `spec_is_text_leaf`).
pub fn is_text_leaf(node: &XmlNode) -> (r: bool)
    ensures
        r == spec_is_text_leaf(node.view()),
{
    proof { lemma_children_view(node); }
    if node.attrs.len() != 0 || node.children.len() > 1 {
        return false;
    }
    if node.children.len() == 1 {
        assert(node.view().children[0] == node.children@[0].view());
        match &node.children[0] {
            XmlValue::Text(_) => true,
            XmlValue::Node(_) => false,
        }
    } else {
        true
    }
}

/// The text of a leaf (see `spec_leaf_text`).
pub fn leaf_text(node: &XmlNode) -> (r: &str)
    ensures
        r@ == spec_leaf_text(node.view()),
{
    proof { lemma_children_view(node); }
    if node.children.len() > 0 {
        assert(node.view().children[0] == node.children@[0].view());
        match &node.children[0] {
            XmlValue::Text(t) => t.as_str(),
            XmlValue::Node(_) => {
                proof { reveal_strlit(""); }
                ""
            },
        }
    } else {
        proof { reveal_strlit(""); }
        ""
    }
}

/// Whether `node` is a key-value container (see `spec_is_simple_kv`).
pub fn is_simple_kv_node(node: &XmlNode) -> (r: bool)
    ensures
        r == spec_is_simple_kv(node.view()),
{
    proof { lemma_children_view(node); }
    let ghost cs = node.view().children;
    if node.attrs.len() != 0 || node.children.len() == 0 {
        return false;
    }
    let n = node.children.len();
    let mut i: usize = 0;
    while i < n
        invariant
            n == node.children.len(),
            cs == node.view().children,
            cs.len() == n,
            i <= n,
            forall|k: int| 0 <= k < i ==> is_leaf_child(#[trigger] cs[k]),
        decreases n - i,
    {
        assert(cs[i as int] == node.children@[i as int].view());
        match &node.children[i] {
            XmlValue::Text(_) => {
                assert(!is_leaf_child(cs[i as int]));
                return false;
            }
            XmlValue::Node(c) => {
                if !is_text_leaf(c) {
                    assert(!is_leaf_child(cs[i as int]));
                    return false;
                }
            }
        }
        i = i + 1;
    }
    let mut a: usize = 0;
    while a < n
        invariant
            n == node.children.len(),
            cs == node.view().children,
            cs.len() == n,
            a <= n,
            forall|k: int| 0 <= k < n ==> is_leaf_child(#[trigger] cs[k]),
            forall|x: int, y: int| 0 <= x < y < n && x < a ==> child_tag(cs[x]) != child_tag(cs[y]),
        decreases n - a,
    {
        let ta = match &node.children[a] {
            XmlValue::Node(c) => &c.tag,
            XmlValue::Text(t) => t,
        };
        assert(cs[a as int] == node.children@[a as int].view());
        assert(is_leaf_child(cs[a as int]));
        assert(ta@ == child_tag(cs[a as int]));
        let mut b: usize = a + 1;
        while b < n
            invariant
                n == node.children.len(),
                cs == node.view().children,
                cs.len() == n,
                a < b <= n,
                forall|k: int| 0 <= k < n ==> is_leaf_child(#[trigger] cs[k]),
                ta@ == child_tag(cs[a as int]),
                forall|y: int| a < y < b ==> child_tag(cs[a as int]) != child_tag(cs[y]),
            decreases n - b,
        {
            let tb = match &node.children[b] {
                XmlValue::Node(c) => &c.tag,
                XmlValue::Text(t) => t,
            };
            assert(cs[b as int] == node.children@[b as int].view());
            assert(is_leaf_child(cs[b as int]));
            assert(tb@ == child_tag(cs[b as int]));
            if *ta == *tb {
                assert(!distinct_child_tags(cs));
                return false;
            }
            b = b + 1;
        }
        a = a + 1;
    }
    true
}

// ─── XML text ───────────────────────────────────────────────────────

/// The escape of one character in element text.
pub open spec fn text_char_escape(c: char) -> Seq<char> {
    if c == '"' {
        seq!['&', 'q', 'u', 'o', 't', ';']
    } else if c == '&' {
        seq!['&', 'a', 'm', 'p', ';']
    } else if c == '<' {
        seq!['&', 'l', 't', ';']
    } else if c == '>' {
        seq!['&', 'g', 't', ';']
    } else {
        seq![c]
    }
}

/// Element text with `&`, `<`, `>` and `"` escaped.
pub open spec fn spec_escape_text(s: Seq<char>) -> Seq<char>
    decreases s.len(),
{
    if s.len() == 0 {
        Seq::empty()
    } else {
        spec_escape_text(s.drop_last()) + text_char_escape(s.last())
    }
}

/// An attribute value, escaped as element text is.
pub open spec fn spec_escape_attr(s: Seq<char>) -> Seq<char> {
    spec_escape_text(s)
}

fn push_escaped(out: &mut String, c: char)
    ensures
        final(out)@ == old(out)@ + text_char_escape(c),
{
    if c == '&' {
        push_char(out, '&'); push_char(out, 'a'); push_char(out, 'm'); push_char(out, 'p'); push_char(out, ';');
    } else if c == '<' {
        push_char(out, '&'); push_char(out, 'l'); push_char(out, 't'); push_char(out, ';');
    } else if c == '>' {
        push_char(out, '&'); push_char(out, 'g'); push_char(out, 't'); push_char(out, ';');
    } else if c == '"' {
        push_char(out, '&'); push_char(out, 'q'); push_char(out, 'u'); push_char(out, 'o'); push_char(out, 't');
        push_char(out, ';');
    } else {
        push_char(out, c);
    }
    assert(final(out)@ =~= old(out)@ + text_char_escape(c));
}

fn push_escaped_str(out: &mut String, s: &str)
    ensures
        final(out)@ == old(out)@ + spec_escape_text(s@),
{
    let ghost start = out@;
    for c in it: s.chars()
        invariant
            it.seq() == s@,
            out@ == start + spec_escape_text(s@.take(it.index() as int)),
    {
        let ghost k = it.index() as int;
        push_escaped(out, c);
        proof {
            assert(s@.take(k + 1).drop_last() =~= s@.take(k));
            assert(s@.take(k + 1).last() == c);
            assert(out@ =~= start + spec_escape_text(s@.take(k + 1)));
        }
    }
    assert(s@.take(s@.len() as int) =~= s@);
}

/// Escapes `&`, `<`, `>` and `"` for element text.
pub fn escape_text(s: &str) -> (r: String)
    ensures
        r@ == spec_escape_text(s@),
{
    let mut out = String::new();
    push_escaped_str(&mut out, s);
    assert(out@ =~= spec_escape_text(s@));
    out
}

/// Escapes `&`, `<`, `>` and `"` for an attribute value.
pub fn escape_attr(s: &str) -> (r: String)
    ensures
        r@ == spec_escape_attr(s@),
{
    let mut out = String::new();
    push_escaped_str(&mut out, s);
    assert(out@ =~= spec_escape_attr(s@));
    out
}


/// The attributes of an element as they stand in its start tag.
pub open spec fn spec_attrs_xml(attrs: Seq<(Seq<char>, Seq<char>)>) -> Seq<char>
    decreases attrs.len(),
{
    if attrs.len() == 0 {
        Seq::empty()
    } else {
        spec_attrs_xml(attrs.drop_last()) + " "@ + attrs.last().0 + "=\""@ + spec_escape_attr(attrs.last().1) + "\""@
    }
}

/// The start of an element's start tag up to (not including) its closing `>` or `/>`.
pub open spec fn spec_open_tag(n: XNode, pad: Seq<char>) -> Seq<char> {
    pad + "<"@ + n.tag + (match n.ns {
        Some(ns) => " xmlns=\""@ + ns + "\""@,
        None => Seq::empty(),
    }) + spec_attrs_xml(n.attrs)
}

/// An element written as XML text, its lines indented by `pad`, nested
/// elements by one more `unit` each: `<a/>` when it has no children,
/// `<a>text</a>` when its only child is text, else one child per line.
pub open spec fn spec_write_node(n: XNode, pad: Seq<char>, unit: Seq<char>) -> Seq<char>
    decreases n,
{
    if n.children.len() == 0 {
        spec_open_tag(n, pad) + "/>"@
    } else if n.children.len() == 1 && n.children[0] is Text {
        spec_open_tag(n, pad) + ">"@ + spec_escape_text(n.children[0]->Text_0) + "</"@ + n.tag + ">"@
    } else {
        spec_open_tag(n, pad) + ">\n"@ + spec_write_children(n.children, pad, unit) + pad + "</"@ + n.tag
            + ">"@
    }
}

/// The lines of an element's children.
pub open spec fn spec_write_children(cs: Seq<XVal>, pad: Seq<char>, unit: Seq<char>) -> Seq<char>
    decreases cs,
{
    if cs.len() == 0 {
        Seq::empty()
    } else {
        spec_write_children(cs.drop_last(), pad, unit) + match cs.last() {
            XVal::Text(t) => pad + unit + spec_escape_text(t) + "\n"@,
            XVal::Node(c) => spec_write_node(c, pad + unit, unit) + "\n"@,
        }
    }
}

/// `unit` repeated `n` times.
pub open spec fn spec_repeat(unit: Seq<char>, n: nat) -> Seq<char>
    decreases n,
{
    if n == 0 {
        Seq::empty()
    } else {
        spec_repeat(unit, (n - 1) as nat) + unit
    }
}

/// A whole document: the XML declaration, the root element with children
/// indented by `indent` spaces per level, and a final newline.
pub open spec fn spec_to_xml(n: XNode, indent: nat) -> Seq<char> {
    "<?xml version=\"1.0\" encoding=\"UTF-8\"?>\n"@ + spec_write_node(n, Seq::empty(), spec_repeat(seq![' '], indent))
        + "\n"@
}

fn write_attrs(out: &mut String, attrs: &Vec<(String, String)>)
    ensures
        final(out)@ == old(out)@ + spec_attrs_xml(pairs_view(attrs@)),
{
    let ghost start = out@;
    let n = attrs.len();
    let mut i: usize = 0;
    while i < n
        invariant
            n == attrs.len(),
            i <= n,
            out@ == start + spec_attrs_xml(pairs_view(attrs@.take(i as int))),
        decreases n - i,
    {
        push_str(out, " ");
        push_str(out, attrs[i].0.as_str());
        push_str(out, "=\"");
        push_escaped_str(out, attrs[i].1.as_str());
        push_str(out, "\"");
        proof {
            let ps = pairs_view(attrs@.take(i + 1));
            assert(ps.drop_last() =~= pairs_view(attrs@.take(i as int)));
            assert(ps.last() == (attrs@[i as int].0@, attrs@[i as int].1@));
            assert(out@ =~= start + spec_attrs_xml(ps));
        }
        i = i + 1;
    }
    assert(attrs@.take(n as int) =~= attrs@);
}

fn write_open_tag(out: &mut String, node: &XmlNode, pad: &str)
    ensures
        final(out)@ == old(out)@ + spec_open_tag(node.view(), pad@),
{
    let ghost start = out@;
    push_str(out, pad);
    push_str(out, "<");
    push_str(out, node.tag.as_str());
    match &node.namespace {
        Some(ns) => {
            push_str(out, " xmlns=\"");
            push_str(out, ns.as_str());
            push_str(out, "\"");
        },
        None => {},
    }
    write_attrs(out, &node.attrs);
    assert(out@ =~= start + spec_open_tag(node.view(), pad@));
}

#[verifier::rlimit(40)]
fn write_node(out: &mut String, node: &XmlNode, pad: &str, unit: &str)
    ensures
        final(out)@ == old(out)@ + spec_write_node(node.view(), pad@, unit@),
    decreases node,
{
    proof { lemma_children_view(node); }
    let ghost start = out@;
    let ghost nv = node.view();
    write_open_tag(out, node, pad);
    if node.children.len() == 0 {
        push_str(out, "/>");
        return;
    }
    if node.children.len() == 1 {
        assert(nv.children[0] == node.children@[0].view());
        if let XmlValue::Text(t) = &node.children[0] {
            push_str(out, ">");
            push_escaped_str(out, t.as_str());
            push_str(out, "</");
            push_str(out, node.tag.as_str());
            push_str(out, ">");
            assert(out@ =~= start + spec_write_node(nv, pad@, unit@));
            return;
        }
    }
    push_str(out, ">\n");
    let ghost before_children = out@;
    let mut child_pad = String::from_str(pad);
    push_str(&mut child_pad, unit);
    let n = node.children.len();
    let mut i: usize = 0;
    while i < n
        invariant
            n == node.children.len(),
            nv == node.view(),
            nv.children == vals_view(node.children@),
            i <= n,
            child_pad@ == pad@ + unit@,
            out@ == before_children + spec_write_children(nv.children.take(i as int), pad@, unit@),
        decreases n - i,
    {
        let ghost cv = nv.children.take(i + 1);
        assert(cv.drop_last() =~= nv.children.take(i as int));
        assert(cv.last() == node.children@[i as int].view());
        match &node.children[i] {
            XmlValue::Text(t) => {
                push_str(out, pad);
                push_str(out, unit);
                push_escaped_str(out, t.as_str());
                push_str(out, "\n");
            },
            XmlValue::Node(c) => {
                write_node(out, c, child_pad.as_str(), unit);
                push_str(out, "\n");
            },
        }
        assert(out@ =~= before_children + spec_write_children(cv, pad@, unit@));
        i = i + 1;
    }
    assert(nv.children.take(n as int) =~= nv.children);
    push_str(out, pad);
    push_str(out, "</");
    push_str(out, node.tag.as_str());
    push_str(out, ">");
    assert(out@ =~= start + spec_write_node(nv, pad@, unit@));
}

/// Writes a document as XML text, indenting each level by `indent` spaces.
pub fn to_xml_with_indent(node: &XmlNode, indent: usize) -> (r: String)
    ensures
        r@ == spec_to_xml(node.view(), indent as nat),
{
    let mut unit = String::new();
    let mut i: usize = 0;
    while i < indent
        invariant
            i <= indent,
            unit@ == spec_repeat(seq![' '], i as nat),
        decreases indent - i,
    {
        push_char(&mut unit, ' ');
        assert(unit@ =~= spec_repeat(seq![' '], (i + 1) as nat));
        i = i + 1;
    }
    let mut out = String::from_str("<?xml version=\"1.0\" encoding=\"UTF-8\"?>\n");
    write_node(&mut out, node, "", unit.as_str());
    push_str(&mut out, "\n");
    proof {
        reveal_strlit("");
        assert(""@ =~= Seq::<char>::empty());
    }
    assert(out@ =~= spec_to_xml(node.view(), indent as nat));
    out
}

/// Writes a document as XML text with four spaces per level.
pub fn to_xml(node: &XmlNode) -> (r: String)
    ensures
        r@ == spec_to_xml(node.view(), 4),
{
    to_xml_with_indent(node, 4)
}

} // verus!

verus! {

// ─── What the written text holds ──────────────────────────────────

/// `needle` stands in `s` at position `i`.
pub open spec fn stands_at(s: Seq<char>, needle: Seq<char>, i: int) -> bool {
    0 <= i && i + needle.len() <= s.len() && s.subrange(i, i + needle.len()) == needle
}

/// An attribute as it is written: ` key="value"`, the value escaped.
pub open spec fn attr_written(a: (Seq<char>, Seq<char>)) -> Seq<char> {
    " "@ + a.0 + "=\""@ + spec_escape_attr(a.1) + "\""@
}

proof fn lemma_stands_left(a: Seq<char>, b: Seq<char>, x: Seq<char>, i: int)
    requires
        stands_at(a, x, i),
    ensures
        stands_at(a + b, x, i),
{
    assert((a + b).subrange(i, i + x.len()) =~= a.subrange(i, i + x.len()));
}

proof fn lemma_stands_right(a: Seq<char>, b: Seq<char>, x: Seq<char>, i: int)
    requires
        stands_at(b, x, i),
    ensures
        stands_at(a + b, x, a.len() + i),
{
    assert((a + b).subrange(a.len() + i, a.len() + i + x.len()) =~= b.subrange(i, i + x.len()));
}

/// What stands in what stands in `s` stands in `s`.
pub proof fn law_stands_trans(s: Seq<char>, t: Seq<char>, x: Seq<char>, i: int, j: int)
    requires
        stands_at(s, t, i),
        stands_at(t, x, j),
    ensures
        stands_at(s, x, i + j),
{
    assert(s.subrange(i + j, i + j + x.len()) =~= t.subrange(j, j + x.len())) by {
        assert forall|k: int| 0 <= k < x.len() implies #[trigger] s.subrange(i + j, i + j + x.len())[k]
            == t.subrange(j, j + x.len())[k] by {
            assert(s.subrange(i, i + t.len())[j + k] == s[i + j + k]);
        }
    }
}

proof fn lemma_attrs_written(attrs: Seq<(Seq<char>, Seq<char>)>, j: int)
    requires
        0 <= j < attrs.len(),
    ensures
        exists|p: int| stands_at(spec_attrs_xml(attrs), attr_written(attrs[j]), p),
    decreases attrs.len(),
{
    let d = attrs.drop_last();
    let x = spec_attrs_xml(d);
    let a = attrs.last();
    let w = attr_written(a);
    assert(spec_attrs_xml(attrs) =~= x + w);
    if j < d.len() {
        lemma_attrs_written(d, j);
        let p = choose|p: int| stands_at(x, attr_written(d[j]), p);
        assert(d[j] == attrs[j]);
        lemma_stands_left(x, w, attr_written(attrs[j]), p);
    } else {
        assert(w.subrange(0, w.len() as int) =~= w);
        lemma_stands_right(x, w, w, 0);
    }
}

/// Every attribute of an element stands in the text written for it, at
/// any indentation: ` key="value"`, the value escaped.
pub proof fn law_element_attrs_written(n: XNode, pad: Seq<char>, unit: Seq<char>, j: int)
    requires
        0 <= j < n.attrs.len(),
    ensures
        exists|p: int| stands_at(spec_write_node(n, pad, unit), attr_written(n.attrs[j]), p),
{
    lemma_attrs_written(n.attrs, j);
    let x = spec_attrs_xml(n.attrs);
    let p = choose|p: int| stands_at(x, attr_written(n.attrs[j]), p);
    let head = pad + "<"@ + n.tag + (match n.ns {
        Some(ns) => " xmlns=\""@ + ns + "\""@,
        None => Seq::empty(),
    });
    assert(spec_open_tag(n, pad) == head + x);
    lemma_stands_right(head, x, attr_written(n.attrs[j]), p);
    let o = spec_open_tag(n, pad);
    let w = spec_write_node(n, pad, unit);
    let rest = w.subrange(o.len() as int, w.len() as int);
    assert(w =~= o + rest);
    lemma_stands_left(o, rest, attr_written(n.attrs[j]), head.len() + p);
}

proof fn lemma_child_written(cs: Seq<XVal>, pad: Seq<char>, unit: Seq<char>, i: int)
    requires
        0 <= i < cs.len(),
        cs[i] is Node,
    ensures
        exists|p: int| stands_at(spec_write_children(cs, pad, unit), spec_write_node(cs[i]->Node_0, pad + unit, unit), p),
    decreases cs.len(),
{
    let d = cs.drop_last();
    let x = spec_write_children(d, pad, unit);
    let last = match cs.last() {
        XVal::Text(t) => pad + unit + spec_escape_text(t) + "\n"@,
        XVal::Node(c) => spec_write_node(c, pad + unit, unit) + "\n"@,
    };
    assert(spec_write_children(cs, pad, unit) == x + last);
    let target = spec_write_node(cs[i]->Node_0, pad + unit, unit);
    if i < d.len() {
        lemma_child_written(d, pad, unit, i);
        assert(d[i] == cs[i]);
        let p = choose|p: int| stands_at(x, target, p);
        lemma_stands_left(x, last, target, p);
    } else {
        assert(stands_at(last, target, 0)) by {
            assert(last.subrange(0, target.len() as int) =~= target);
        }
        lemma_stands_right(x, last, target, 0);
    }
}

/// Every child element stands in the text written for its parent, written
/// one indentation unit deeper.
pub proof fn law_child_written(n: XNode, pad: Seq<char>, unit: Seq<char>, i: int)
    requires
        0 <= i < n.children.len(),
        n.children[i] is Node,
    ensures
        exists|p: int| stands_at(
            spec_write_node(n, pad, unit),
            spec_write_node(n.children[i]->Node_0, pad + unit, unit),
            p,
        ),
{
    lemma_child_written(n.children, pad, unit, i);
    let cw = spec_write_children(n.children, pad, unit);
    let target = spec_write_node(n.children[i]->Node_0, pad + unit, unit);
    let p = choose|p: int| stands_at(cw, target, p);
    assert(!(n.children.len() == 1 && n.children[0] is Text));
    let front = spec_open_tag(n, pad) + ">\n"@;
    let back = pad + "</"@ + n.tag + ">"@;
    assert(spec_write_node(n, pad, unit) =~= front + cw + back);
    lemma_stands_right(front, cw, target, p);
    lemma_stands_left(front + cw, back, target, front.len() + p);
}

/// The root element stands in the document written for it.
pub proof fn law_root_written(n: XNode, indent: nat)
    ensures
        stands_at(
            spec_to_xml(n, indent),
            spec_write_node(n, Seq::empty(), spec_repeat(seq![' '], indent)),
            "<?xml version=\"1.0\" encoding=\"UTF-8\"?>\n"@.len() as int,
        ),
{
    let decl = "<?xml version=\"1.0\" encoding=\"UTF-8\"?>\n"@;
    let w = spec_write_node(n, Seq::empty(), spec_repeat(seq![' '], indent));
    assert(stands_at(w, w, 0)) by {
        assert(w.subrange(0, w.len() as int) =~= w);
    }
    lemma_stands_right(decl, w, w, 0);
    lemma_stands_left(decl + w, "\n"@, w, decl.len() as int);
}

proof fn lemma_text_written(cs: Seq<XVal>, pad: Seq<char>, unit: Seq<char>, i: int)
    requires
        0 <= i < cs.len(),
        cs[i] is Text,
    ensures
        exists|p: int| stands_at(spec_write_children(cs, pad, unit), spec_escape_text(cs[i]->Text_0), p),
    decreases cs.len(),
{
    let d = cs.drop_last();
    let x = spec_write_children(d, pad, unit);
    let last = match cs.last() {
        XVal::Text(t) => pad + unit + spec_escape_text(t) + "\n"@,
        XVal::Node(c) => spec_write_node(c, pad + unit, unit) + "\n"@,
    };
    assert(spec_write_children(cs, pad, unit) == x + last);
    let target = spec_escape_text(cs[i]->Text_0);
    if i < d.len() {
        lemma_text_written(d, pad, unit, i);
        assert(d[i] == cs[i]);
        let p = choose|p: int| stands_at(x, target, p);
        lemma_stands_left(x, last, target, p);
    } else {
        let q = pad + unit;
        assert(stands_at(last, target, q.len() as int)) by {
            assert(last.subrange(q.len() as int, (q.len() + target.len()) as int) =~= target);
        }
        lemma_stands_right(x, last, target, q.len() as int);
    }
}

/// Every text child stands, escaped, in the text written for its element.
pub proof fn law_text_written(n: XNode, pad: Seq<char>, unit: Seq<char>, i: int)
    requires
        0 <= i < n.children.len(),
        n.children[i] is Text,
    ensures
        exists|p: int| stands_at(spec_write_node(n, pad, unit), spec_escape_text(n.children[i]->Text_0), p),
{
    let target = spec_escape_text(n.children[i]->Text_0);
    let o = spec_open_tag(n, pad);
    if n.children.len() == 1 && n.children[0] is Text {
        assert(i == 0);
        let front = o + ">"@;
        let back = "</"@ + n.tag + ">"@;
        assert(spec_write_node(n, pad, unit) =~= front + target + back);
        assert(stands_at(target, target, 0)) by {
            assert(target.subrange(0, target.len() as int) =~= target);
        }
        lemma_stands_right(front, target, target, 0);
        lemma_stands_left(front + target, back, target, front.len() as int);
    } else {
        lemma_text_written(n.children, pad, unit, i);
        let cw = spec_write_children(n.children, pad, unit);
        let p = choose|p: int| stands_at(cw, target, p);
        let front = o + ">\n"@;
        let back = pad + "</"@ + n.tag + ">"@;
        assert(spec_write_node(n, pad, unit) =~= front + cw + back);
        lemma_stands_right(front, cw, target, p);
        lemma_stands_left(front + cw, back, target, front.len() + p);
    }
}

} // verus!
