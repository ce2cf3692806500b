//! XML text to an element tree: `quick_xml` reads the events, and a tree
//! builder turns them into elements (opening, closing, leaf and text
//! events; comments, processing instructions and the declaration are
//! dropped, and text is trimmed and dropped when empty).
use vstd::prelude::*;
use crate::strings::str_eq;
use crate::xml_node::{XNode, XVal, XmlNode, XmlValue, opt_str_view, pairs_view, vals_view, attr_insert, lemma_children_view};
use crate::assoc::ainsert;

verus! {

// ─── Outside types ─────────────────────────────────────────────────

#[verifier::external_type_specification]
#[verifier::external_body]
#[verifier::reject_recursive_types(R)]
pub struct ExReader<R>(quick_xml::reader::Reader<R>);

#[verifier::external_type_specification]
#[verifier::external_body]
pub struct ExBytesStart<'a>(quick_xml::events::BytesStart<'a>);

#[verifier::external_type_specification]
#[verifier::external_body]
pub struct ExBytesText<'a>(quick_xml::events::BytesText<'a>);

#[verifier::external_type_specification]
#[verifier::external_body]
pub struct ExBytesCData<'a>(quick_xml::events::BytesCData<'a>);

#[verifier::external_type_specification]
#[verifier::external_body]
pub struct ExAttributes<'a>(quick_xml::events::attributes::Attributes<'a>);

#[verifier::external_type_specification]
#[verifier::external_body]
pub struct ExAttribute<'a>(quick_xml::events::attributes::Attribute<'a>);

#[verifier::external_type_specification]
#[verifier::external_body]
pub struct ExAttrError(quick_xml::events::attributes::AttrError);

// ─── Why parsing fails ─────────────────────────────────────────────

/// Why XML text could not be read as an element tree.
#[derive(Debug)]
pub enum ParseError {
    /// The reader reported malformed XML (the message holds the position).
    Syntax(String),
    /// An element name is not valid UTF-8.
    InvalidTagName,
    /// An attribute name or value could not be decoded.
    Attribute(String),
    /// Text could not be unescaped.
    Text(String),
    /// A CDATA section is not valid UTF-8.
    CData(String),
    /// A closing tag with no element open.
    UnexpectedClosingTag,
    /// The document has no element.
    EmptyDocument,
    /// The reader went on reporting events past the end of the text.
    Runaway,
}

/// Mathematical model of a `ParseError`.
pub ghost enum PErr {
    Syntax(Seq<char>),
    InvalidTagName,
    Attribute(Seq<char>),
    Text(Seq<char>),
    CData(Seq<char>),
    UnexpectedClosingTag,
    EmptyDocument,
    Runaway,
}

impl ParseError {
    pub open spec fn view(&self) -> PErr {
        match self {
            ParseError::Syntax(m) => PErr::Syntax(m@),
            ParseError::InvalidTagName => PErr::InvalidTagName,
            ParseError::Attribute(m) => PErr::Attribute(m@),
            ParseError::Text(m) => PErr::Text(m@),
            ParseError::CData(m) => PErr::CData(m@),
            ParseError::UnexpectedClosingTag => PErr::UnexpectedClosingTag,
            ParseError::EmptyDocument => PErr::EmptyDocument,
            ParseError::Runaway => PErr::Runaway,
        }
    }
}

/// The model of a parse result.
pub open spec fn parse_result_view(r: Result<XmlNode, ParseError>) -> Result<XNode, PErr> {
    match r {
        Ok(n) => Ok(n.view()),
        Err(e) => Err(e.view()),
    }
}

// ─── Building the tree ─────────────────────────────────────────────

/// Mathematical model of a reader event, as the builder sees it.
pub ghost enum XEvent {
    /// An opening tag, with the element it starts (no children yet).
    Open(XNode),
    /// A self-closing tag, with its element.
    Leaf(XNode),
    /// Text (unescaped and trimmed) or CDATA content.
    Text(Seq<char>),
    /// A closing tag.
    Close,
    /// An event without effect (declaration, comment, ...).
    Skip,
    /// A failure of the reader or of decoding.
    Fail(PErr),
}

/// An event for the builder.
pub enum XmlEvent {
    Open(XmlNode),
    Leaf(XmlNode),
    Text(String),
    Close,
    Skip,
    Fail(ParseError),
}

impl XmlEvent {
    pub open spec fn view(&self) -> XEvent {
        match self {
            XmlEvent::Open(n) => XEvent::Open(n.view()),
            XmlEvent::Leaf(n) => XEvent::Leaf(n.view()),
            XmlEvent::Text(t) => XEvent::Text(t@),
            XmlEvent::Close => XEvent::Close,
            XmlEvent::Skip => XEvent::Skip,
            XmlEvent::Fail(e) => XEvent::Fail(e.view()),
        }
    }
}

/// The builder's state: the open elements, innermost last, and the
/// element closed at the top level, if any.
pub ghost struct BuildState {
    pub stack: Seq<XNode>,
    pub root: Option<XNode>,
}

/// The open elements with `c` added as the last child of the innermost.
pub open spec fn push_child(stack: Seq<XNode>, c: XVal) -> Seq<XNode> {
    let top = stack.last();
    stack.update(stack.len() - 1, XNode { children: top.children.push(c), ..top })
}

/// One event applied to the builder's state.
pub open spec fn spec_step(s: BuildState, ev: XEvent) -> Result<BuildState, PErr> {
    match ev {
        XEvent::Open(n) => Ok(BuildState { stack: s.stack.push(n), root: s.root }),
        XEvent::Leaf(n) => if s.stack.len() > 0 {
            Ok(BuildState { stack: push_child(s.stack, XVal::Node(n)), root: s.root })
        } else {
            Ok(BuildState { stack: s.stack, root: Some(n) })
        },
        XEvent::Text(t) => if t.len() > 0 && s.stack.len() > 0 {
            Ok(BuildState { stack: push_child(s.stack, XVal::Text(t)), root: s.root })
        } else {
            Ok(s)
        },
        XEvent::Close => if s.stack.len() == 0 {
            Err(PErr::UnexpectedClosingTag)
        } else {
            let n = s.stack.last();
            let rest = s.stack.drop_last();
            if rest.len() > 0 {
                Ok(BuildState { stack: push_child(rest, XVal::Node(n)), root: s.root })
            } else {
                Ok(BuildState { stack: rest, root: Some(n) })
            }
        },
        XEvent::Skip => Ok(s),
        XEvent::Fail(e) => Err(e),
    }
}

/// The empty state.
pub open spec fn initial_state() -> BuildState {
    BuildState { stack: Seq::empty(), root: None }
}

/// The events applied in order from the empty state; the first failure stops.
pub open spec fn spec_build(evs: Seq<XEvent>) -> Result<BuildState, PErr>
    decreases evs.len(),
{
    if evs.len() == 0 {
        Ok(initial_state())
    } else {
        match spec_build(evs.drop_last()) {
            Ok(s) => spec_step(s, evs.last()),
            Err(e) => Err(e),
        }
    }
}

/// The document built from the events: the element closed last at the
/// top level; none is an error.
pub open spec fn spec_parse_events(evs: Seq<XEvent>) -> Result<XNode, PErr> {
    match spec_build(evs) {
        Ok(s) => match s.root {
            Some(r) => Ok(r),
            None => Err(PErr::EmptyDocument),
        },
        Err(e) => Err(e),
    }
}

/// Builds an element tree from reader events.
pub struct TreeBuilder {
    stack: Vec<XmlNode>,
    root: Option<XmlNode>,
}

pub open spec fn nodes_view(ns: Seq<XmlNode>) -> Seq<XNode> {
    Seq::new(ns.len(), |i: int| ns[i].view())
}

impl TreeBuilder {
    pub closed spec fn view(&self) -> BuildState {
        BuildState {
            stack: nodes_view(self.stack@),
            root: match self.root {
                Some(r) => Some(r.view()),
                None => None,
            },
        }
    }

    /// An empty builder.
    pub fn new() -> (r: Self)
        ensures
            r@ == initial_state(),
    {
        let r = TreeBuilder { stack: Vec::new(), root: None };
        assert(r@.stack =~= Seq::<XNode>::empty());
        r
    }

    fn push_to_top(&mut self, c: XmlValue)
        requires
            old(self).stack@.len() > 0,
        ensures
            final(self)@ == (BuildState { stack: push_child(old(self)@.stack, c.view()), root: old(self)@.root }),
    {
        let ghost before = self@;
        let mut top = self.stack.pop().unwrap();
        let ghost tv = top.view();
        proof { lemma_children_view(&top); }
        top.children.push(c);
        proof {
            lemma_children_view(&top);
            assert(vals_view(top.children@) =~= tv.children.push(c.view()));
        }
        self.stack.push(top);
        assert(self@.stack =~= push_child(before.stack, c.view()));
    }

    /// Applies one event (see `spec_step`).
    pub fn step(&mut self, ev: XmlEvent) -> (r: Result<(), ParseError>)
        ensures
            match spec_step(old(self)@, ev.view()) {
                Ok(s) => r is Ok && final(self)@ == s,
                Err(e) => r matches Err(x) && x.view() == e,
            },
    {
        let ghost ev_view = ev.view();
        match ev {
            XmlEvent::Open(n) => {
                let ghost before = self@;
                self.stack.push(n);
                assert(self@.stack =~= before.stack.push(ev_view->Open_0));
                Ok(())
            },
            XmlEvent::Leaf(n) => {
                if self.stack.len() > 0 {
                    self.push_to_top(XmlValue::Node(n));
                } else {
                    self.root = Some(n);
                }
                Ok(())
            },
            XmlEvent::Text(t) => {
                if t.unicode_len() > 0 && self.stack.len() > 0 {
                    self.push_to_top(XmlValue::Text(t));
                }
                Ok(())
            },
            XmlEvent::Close => {
                if self.stack.len() == 0 {
                    return Err(ParseError::UnexpectedClosingTag);
                }
                let ghost before = self@;
                let n = self.stack.pop().unwrap();
                assert(self@.stack =~= before.stack.drop_last());
                if self.stack.len() > 0 {
                    self.push_to_top(XmlValue::Node(n));
                } else {
                    self.root = Some(n);
                }
                Ok(())
            },
            XmlEvent::Skip => Ok(()),
            XmlEvent::Fail(e) => Err(e),
        }
    }

    /// The document: the element closed last at the top level.
    pub fn finish(self) -> (r: Result<XmlNode, ParseError>)
        ensures
            match self@.root {
                Some(n) => r matches Ok(m) && m.view() == n,
                None => r matches Err(ParseError::EmptyDocument),
            },
    {
        match self.root {
            Some(n) => Ok(n),
            None => Err(ParseError::EmptyDocument),
        }
    }
}

/// The models of a list of events.
pub open spec fn events_view(evs: Seq<XmlEvent>) -> Seq<XEvent> {
    Seq::new(evs.len(), |i: int| evs[i].view())
}

proof fn lemma_build_err(evs: Seq<XEvent>, m: int)
    requires
        0 <= m <= evs.len(),
        spec_build(evs.take(m)) is Err,
    ensures
        spec_build(evs) == spec_build(evs.take(m)),
    decreases evs.len() - m,
{
    if m < evs.len() {
        assert(evs.take(m + 1).drop_last() =~= evs.take(m));
        lemma_build_err(evs, m + 1);
    } else {
        assert(evs.take(m) =~= evs);
    }
}

/// Builds the document from a list of events (see `spec_parse_events`).
pub fn build_tree(events: Vec<XmlEvent>) -> (r: Result<XmlNode, ParseError>)
    ensures
        parse_result_view(r) == spec_parse_events(events_view(events@)),
{
    let ghost evs = events_view(events@);
    let mut builder = TreeBuilder::new();
    assert(evs.skip(0) =~= evs);
    let mut pending = events;
    let n = pending.len();
    let mut i: usize = 0;
    while i < n
        invariant
            n == evs.len(),
            evs == events_view(events@),
            i <= n,
            events_view(pending@) == evs.skip(i as int),
            pending@.len() == n - i,
            spec_build(evs.take(i as int)) == Ok::<BuildState, PErr>(builder@),
        decreases n - i,
    {
        let ghost before = pending@;
        let ev = pending.remove(0);
        assert(ev == before[0]);
        assert(ev.view() == evs[i as int]) by {
            assert(events_view(before)[0] == before[0].view());
            assert(events_view(before)[0] == evs.skip(i as int)[0]);
        }
        assert forall|k: int| 0 <= k < pending@.len() implies events_view(pending@)[k] == evs.skip(i + 1)[k] by {
            assert(pending@[k] == before[k + 1]);
            assert(events_view(before)[k + 1] == evs.skip(i as int)[k + 1]);
        }
        assert(events_view(pending@) =~= evs.skip(i + 1));
        assert(evs.take(i + 1).drop_last() =~= evs.take(i as int));
        match builder.step(ev) {
            Ok(()) => {},
            Err(e) => {
                proof { lemma_build_err(evs, i + 1); }
                return Err(e);
            },
        }
        i = i + 1;
    }
    assert(evs.take(n as int) =~= evs);
    builder.finish()
}

// ─── Reading with quick_xml ────────────────────────────────────────

/// What `quick_xml` reports as an event, without its payload.
pub ghost enum XmlEventKind {
    Start,
    Empty,
    Text,
    CData,
    End,
    Eof,
    Other,
    Error(Seq<char>),
}

/// What asking a tag for its next attribute gives.
pub ghost enum AttrItem {
    End,
    Malformed,
    Present,
}

/// The kind of the event (counted from zero) that a `quick_xml` reader
/// over `text`, trimming white space around text, reports in turn `k`; an
/// error comes with the message `XML parse error at position {p}: {error}`.
pub uninterp spec fn xml_event_kind(text: Seq<char>, k: nat) -> XmlEventKind;

/// The local name of the tag reported in turn `k`, decoded as UTF-8
/// (`None` when it is not UTF-8).
pub uninterp spec fn xml_tag_name(text: Seq<char>, k: nat) -> Option<Seq<char>>;

/// The value of the `xmlns` attribute of the tag reported in turn `k`,
/// when it is there and is UTF-8.
pub uninterp spec fn xml_tag_xmlns(text: Seq<char>, k: nat) -> Option<Seq<char>>;

/// What the `j`-th call of `Attributes::next` on the tag reported in turn
/// `k` gives.
pub uninterp spec fn xml_attr_item(text: Seq<char>, k: nat, j: nat) -> AttrItem;

/// The name of that attribute, decoded by the reader's decoder (the error
/// message otherwise).
pub uninterp spec fn xml_attr_key(text: Seq<char>, k: nat, j: nat) -> Result<Seq<char>, Seq<char>>;

/// The value of that attribute, unescaped (the error message otherwise).
pub uninterp spec fn xml_attr_value(text: Seq<char>, k: nat, j: nat) -> Result<Seq<char>, Seq<char>>;

/// The text reported in turn `k`, unescaped (the error message otherwise).
pub uninterp spec fn xml_text(text: Seq<char>, k: nat) -> Result<Seq<char>, Seq<char>>;

/// The content of the CDATA section reported in turn `k` as UTF-8 (the
/// error message otherwise).
pub uninterp spec fn xml_cdata(text: Seq<char>, k: nat) -> Result<Seq<char>, Seq<char>>;

pub open spec fn str_result_view(r: Result<String, String>) -> Result<Seq<char>, Seq<char>> {
    match r {
        Ok(s) => Ok(s@),
        Err(m) => Err(m@),
    }
}

/// A reader over `text` that has reported `count` events. The ghost fields
/// are set by `new_reader` and `read_raw_event` alone.
struct XmlReader<'a> {
    inner: quick_xml::reader::Reader<&'a [u8]>,
    text: Ghost<Seq<char>>,
    count: Ghost<nat>,
}

/// A tag, with the text and the turn in which it was reported.
struct Tag<'a> {
    e: quick_xml::events::BytesStart<'a>,
    at: Ghost<(Seq<char>, nat)>,
}

/// A text event, with the text and the turn in which it was reported.
struct TextPart<'a> {
    t: quick_xml::events::BytesText<'a>,
    at: Ghost<(Seq<char>, nat)>,
}

/// A CDATA section, with the text and the turn in which it was reported.
struct CDataPart<'a> {
    c: quick_xml::events::BytesCData<'a>,
    at: Ghost<(Seq<char>, nat)>,
}

/// The attributes of a tag, with the number of attributes asked for so far.
struct AttrCursor<'b> {
    it: quick_xml::events::attributes::Attributes<'b>,
    at: Ghost<(Seq<char>, nat)>,
    pos: Ghost<nat>,
}

/// An attribute, with its tag's text and turn and its own place.
struct Attr<'b> {
    a: quick_xml::events::attributes::Attribute<'b>,
    at: Ghost<(Seq<char>, nat, nat)>,
}

/// What the reader reported, before its payload is decoded.
enum RawEvent<'a> {
    Start(Tag<'a>),
    Empty(Tag<'a>),
    Text(TextPart<'a>),
    CData(CDataPart<'a>),
    End,
    Eof,
    Other,
    Error(String),
}

spec fn raw_kind(r: RawEvent) -> XmlEventKind {
    match r {
        RawEvent::Start(_) => XmlEventKind::Start,
        RawEvent::Empty(_) => XmlEventKind::Empty,
        RawEvent::Text(_) => XmlEventKind::Text,
        RawEvent::CData(_) => XmlEventKind::CData,
        RawEvent::End => XmlEventKind::End,
        RawEvent::Eof => XmlEventKind::Eof,
        RawEvent::Other => XmlEventKind::Other,
        RawEvent::Error(m) => XmlEventKind::Error(m@),
    }
}

/// The payload of `r`, if any, was reported over `text` in turn `k`.
spec fn raw_at(r: RawEvent, text: Seq<char>, k: nat) -> bool {
    match r {
        RawEvent::Start(t) => t.at@ == (text, k),
        RawEvent::Empty(t) => t.at@ == (text, k),
        RawEvent::Text(t) => t.at@ == (text, k),
        RawEvent::CData(c) => c.at@ == (text, k),
        _ => true,
    }
}

/// `quick_xml::reader::Reader::from_str` with `trim_text(true)`: a reader
/// over `xml` that trims white space around text.
#[verifier::external_body]
fn new_reader<'a>(xml: &'a str) -> (r: XmlReader<'a>)
    ensures
        r.text@ == xml@,
        r.count@ == 0,
{
    let mut reader = quick_xml::reader::Reader::from_str(xml);
    reader.config_mut().trim_text(true);
    XmlReader { inner: reader, text: Ghost(xml@), count: Ghost(0) }
}

/// `Reader::read_event`: the next event (see `xml_event_kind`).
#[verifier::external_body]
fn read_raw_event<'a>(reader: &mut XmlReader<'a>) -> (r: RawEvent<'a>)
    ensures
        final(reader).text@ == old(reader).text@,
        final(reader).count@ == old(reader).count@ + 1,
        raw_kind(r) == xml_event_kind(old(reader).text@, old(reader).count@),
        raw_at(r, old(reader).text@, old(reader).count@),
{
    let at = Ghost((reader.text@, reader.count@));
    match reader.inner.read_event() {
        Ok(quick_xml::events::Event::Start(e)) => RawEvent::Start(Tag { e, at }),
        Ok(quick_xml::events::Event::Empty(e)) => RawEvent::Empty(Tag { e, at }),
        Ok(quick_xml::events::Event::Text(t)) => RawEvent::Text(TextPart { t, at }),
        Ok(quick_xml::events::Event::CData(c)) => RawEvent::CData(CDataPart { c, at }),
        Ok(quick_xml::events::Event::End(_)) => RawEvent::End,
        Ok(quick_xml::events::Event::Eof) => RawEvent::Eof,
        Ok(_) => RawEvent::Other,
        Err(e) => RawEvent::Error(format!("XML parse error at position {}: {e}", reader.inner.error_position())),
    }
}

/// `BytesStart::local_name` decoded as UTF-8 (see `xml_tag_name`).
#[verifier::external_body]
fn start_tag_name(t: &Tag) -> (r: Option<String>)
    ensures
        opt_str_view(r) == xml_tag_name(t.at@.0, t.at@.1),
{
    String::from_utf8(t.e.local_name().as_ref().to_vec()).ok()
}

/// `BytesStart::try_get_attribute("xmlns")` decoded as UTF-8 (see `xml_tag_xmlns`).
#[verifier::external_body]
fn start_xmlns(t: &Tag) -> (r: Option<String>)
    ensures
        opt_str_view(r) == xml_tag_xmlns(t.at@.0, t.at@.1),
{
    t.e.try_get_attribute("xmlns").ok().flatten().and_then(|a| String::from_utf8(a.value.to_vec()).ok())
}

/// `BytesStart::attributes`: the attributes of a tag, none asked for yet.
#[verifier::external_body]
fn start_attributes<'b>(t: &'b Tag) -> (r: AttrCursor<'b>)
    ensures
        r.at@ == t.at@,
        r.pos@ == 0,
{
    AttrCursor { it: t.e.attributes(), at: Ghost(t.at@), pos: Ghost(0) }
}

spec fn item_of(r: Option<Option<Attr>>) -> AttrItem {
    match r {
        None => AttrItem::End,
        Some(None) => AttrItem::Malformed,
        Some(Some(_)) => AttrItem::Present,
    }
}

/// `Attributes::next`: `None` at the end, `Some(None)` for a malformed
/// attribute, `Some(Some(a))` for the next attribute (see `xml_attr_item`).
#[verifier::external_body]
fn next_attribute<'b>(c: &mut AttrCursor<'b>) -> (r: Option<Option<Attr<'b>>>)
    ensures
        final(c).at@ == old(c).at@,
        final(c).pos@ == old(c).pos@ + 1,
        item_of(r) == xml_attr_item(old(c).at@.0, old(c).at@.1, old(c).pos@),
        r matches Some(Some(a)) ==> a.at@ == (old(c).at@.0, old(c).at@.1, old(c).pos@),
{
    let at = Ghost((c.at@.0, c.at@.1, c.pos@));
    match c.it.next() {
        Some(Ok(a)) => Some(Some(Attr { a, at })),
        Some(Err(_)) => Some(None),
        None => None,
    }
}

/// The attribute's name decoded by the reader's decoder, read right after
/// the attribute's tag (see `xml_attr_key`).
#[verifier::external_body]
fn attribute_key(reader: &XmlReader, a: &Attr) -> (r: Result<String, String>)
    requires
        reader.text@ == a.at@.0,
        reader.count@ == a.at@.1 + 1,
    ensures
        str_result_view(r) == xml_attr_key(a.at@.0, a.at@.1, a.at@.2),
{
    match reader.inner.decoder().decode(a.a.key.as_ref()) {
        Ok(k) => Ok(k.to_string()),
        Err(e) => Err(e.to_string()),
    }
}

/// `Attribute::unescape_value`: the attribute's value, decoded and
/// unescaped (see `xml_attr_value`).
#[verifier::external_body]
fn attribute_value(a: &Attr) -> (r: Result<String, String>)
    ensures
        str_result_view(r) == xml_attr_value(a.at@.0, a.at@.1, a.at@.2),
{
    match a.a.unescape_value() {
        Ok(v) => Ok(v.to_string()),
        Err(e) => Err(e.to_string()),
    }
}

/// `BytesText::unescape`: the text, decoded and unescaped (see `xml_text`).
#[verifier::external_body]
fn text_content(t: &TextPart) -> (r: Result<String, String>)
    ensures
        str_result_view(r) == xml_text(t.at@.0, t.at@.1),
{
    match t.t.unescape() {
        Ok(v) => Ok(v.to_string()),
        Err(e) => Err(e.to_string()),
    }
}

/// The bytes of a CDATA section as UTF-8 (see `xml_cdata`).
#[verifier::external_body]
fn cdata_content(c: &CDataPart) -> (r: Result<String, String>)
    ensures
        str_result_view(r) == xml_cdata(c.at@.0, c.at@.1),
{
    match String::from_utf8(c.c.to_vec()) {
        Ok(v) => Ok(v),
        Err(e) => Err(e.to_string()),
    }
}

/// No attribute has the name `xmlns`, and no name is there twice.
pub open spec fn attrs_ok(attrs: Seq<(Seq<char>, Seq<char>)>) -> bool {
    &&& crate::assoc::keys_distinct(attrs)
    &&& forall|i: int| 0 <= i < attrs.len() ==> (#[trigger] attrs[i]).0 != "xmlns"@
}

/// The attributes of the tag reported in turn `k`, from the `j`-th on,
/// added to `acc` (a repeated name keeps its first place and takes the last
/// value; `xmlns` and malformed attributes are skipped), asking at most
/// `fuel` times.
pub open spec fn spec_tag_attrs(
    text: Seq<char>,
    k: nat,
    j: nat,
    fuel: nat,
    acc: Seq<(Seq<char>, Seq<char>)>,
) -> Result<Seq<(Seq<char>, Seq<char>)>, PErr>
    decreases fuel,
{
    if fuel == 0 {
        Err(PErr::Runaway)
    } else {
        match xml_attr_item(text, k, j) {
            AttrItem::End => Ok(acc),
            AttrItem::Malformed => spec_tag_attrs(text, k, j + 1, (fuel - 1) as nat, acc),
            AttrItem::Present => match xml_attr_key(text, k, j) {
                Err(m) => Err(PErr::Attribute(m)),
                Ok(key) => if key == "xmlns"@ {
                    spec_tag_attrs(text, k, j + 1, (fuel - 1) as nat, acc)
                } else {
                    match xml_attr_value(text, k, j) {
                        Err(m) => Err(PErr::Attribute(m)),
                        Ok(v) => spec_tag_attrs(text, k, j + 1, (fuel - 1) as nat, ainsert(acc, key, v)),
                    }
                },
            },
        }
    }
}

/// The element that the tag reported in turn `k` starts: its name, its
/// `xmlns` and its other attributes, with no children.
pub open spec fn spec_tag_node(text: Seq<char>, k: nat, fuel: nat) -> Result<XNode, PErr> {
    match xml_tag_name(text, k) {
        None => Err(PErr::InvalidTagName),
        Some(tag) => match spec_tag_attrs(text, k, 0, fuel, Seq::empty()) {
            Ok(attrs) => Ok(XNode { tag, ns: xml_tag_xmlns(text, k), attrs, children: Seq::empty() }),
            Err(e) => Err(e),
        },
    }
}

/// The builder's event for the event reported in turn `k`.
pub open spec fn spec_event(text: Seq<char>, k: nat, fuel: nat) -> XEvent {
    match xml_event_kind(text, k) {
        XmlEventKind::Start => match spec_tag_node(text, k, fuel) {
            Ok(n) => XEvent::Open(n),
            Err(e) => XEvent::Fail(e),
        },
        XmlEventKind::Empty => match spec_tag_node(text, k, fuel) {
            Ok(n) => XEvent::Leaf(n),
            Err(e) => XEvent::Fail(e),
        },
        XmlEventKind::Text => match xml_text(text, k) {
            Ok(s) => XEvent::Text(s),
            Err(m) => XEvent::Fail(PErr::Text(m)),
        },
        XmlEventKind::CData => match xml_cdata(text, k) {
            Ok(s) => XEvent::Text(s),
            Err(m) => XEvent::Fail(PErr::CData(m)),
        },
        XmlEventKind::End => XEvent::Close,
        XmlEventKind::Eof => XEvent::Skip,
        XmlEventKind::Other => XEvent::Skip,
        XmlEventKind::Error(m) => XEvent::Fail(PErr::Syntax(m)),
    }
}

/// The builder's events for the first `n` events reported over `text`.
pub open spec fn reader_events(text: Seq<char>, fuel: nat, n: nat) -> Seq<XEvent> {
    Seq::new(n, |k: int| spec_event(text, k as nat, fuel))
}

/// The outcome of reading `text` from turn `k` on, with the builder fed
/// the events of the turns before: a failure of the builder stops it, the
/// end of the text finishes the document, and after `budget` more turns it
/// gives up.
pub open spec fn spec_read_from(text: Seq<char>, fuel: nat, k: nat, budget: nat) -> Result<XNode, PErr>
    decreases budget,
{
    if budget == 0 {
        Err(PErr::Runaway)
    } else {
        let evs = reader_events(text, fuel, k + 1);
        match spec_build(evs) {
            Err(e) => Err(e),
            Ok(_) => if xml_event_kind(text, k) is Eof {
                spec_parse_events(evs)
            } else {
                spec_read_from(text, fuel, k + 1, (budget - 1) as nat)
            },
        }
    }
}

/// What parsing `text` gives: the builder fed the events that `quick_xml`
/// reports, with a budget of one turn per character and two more.
pub open spec fn spec_parse_xml(text: Seq<char>) -> Result<XNode, PErr> {
    spec_read_from(text, (text.len() + 2) as nat, 0, (text.len() + 2) as nat)
}

/// An element as a tag is read: its name, `xmlns`, and its other
/// attributes in order (see `spec_tag_node`).
fn element_to_node(reader: &XmlReader, t: &Tag, fuel: u128) -> (r: Result<XmlNode, ParseError>)
    requires
        reader.text@ == t.at@.0,
        reader.count@ == t.at@.1 + 1,
    ensures
        parse_result_view(r) == spec_tag_node(t.at@.0, t.at@.1, fuel as nat),
        r matches Ok(n) ==> n.view().children.len() == 0 && attrs_ok(n.view().attrs),
{
    let ghost text = t.at@.0;
    let ghost k = t.at@.1;
    let tag = match start_tag_name(t) {
        Some(x) => x,
        None => return Err(ParseError::InvalidTagName),
    };
    let namespace = start_xmlns(t);
    let mut attrs: Vec<(String, String)> = Vec::new();
    let mut it = start_attributes(t);
    let mut budget: u128 = fuel;
    assert(pairs_view(attrs@) =~= Seq::<(Seq<char>, Seq<char>)>::empty());
    while budget > 0
        invariant
            text == t.at@.0,
            k == t.at@.1,
            reader.text@ == text,
            reader.count@ == k + 1,
            it.at@ == (text, k),
            xml_tag_name(text, k) == Some(tag@),
            xml_tag_xmlns(text, k) == opt_str_view(namespace),
            attrs_ok(pairs_view(attrs@)),
            spec_tag_attrs(text, k, 0, fuel as nat, Seq::empty()) == spec_tag_attrs(
                text,
                k,
                it.pos@,
                budget as nat,
                pairs_view(attrs@),
            ),
        decreases budget,
    {
        let ghost j = it.pos@;
        let ghost acc = pairs_view(attrs@);
        budget = budget - 1;
        match next_attribute(&mut it) {
            None => {
                let n = XmlNode { tag, namespace, attrs, children: Vec::new() };
                proof {
                    lemma_children_view(&n);
                    assert(n.view().children =~= Seq::<XVal>::empty());
                }
                return Ok(n);
            },
            Some(None) => {},
            Some(Some(a)) => {
                let key = match attribute_key(reader, &a) {
                    Ok(x) => x,
                    Err(m) => return Err(ParseError::Attribute(m)),
                };
                if !str_eq(key.as_str(), "xmlns") {
                    let val = match attribute_value(&a) {
                        Ok(v) => v,
                        Err(m) => return Err(ParseError::Attribute(m)),
                    };
                    let ghost kv = key@;
                    attr_insert(&mut attrs, key, val);
                    proof { crate::assoc::lemma_ainsert_distinct(acc, kv, val@); }
                }
            },
        }
    }
    Err(ParseError::Runaway)
}

/// The event for the builder that a reader event stands for (see `spec_event`).
fn convert_event(reader: &XmlReader, raw: &RawEvent, fuel: u128) -> (r: XmlEvent)
    requires
        reader.count@ >= 1,
        raw_kind(*raw) == xml_event_kind(reader.text@, (reader.count@ - 1) as nat),
        raw_at(*raw, reader.text@, (reader.count@ - 1) as nat),
    ensures
        r.view() == spec_event(reader.text@, (reader.count@ - 1) as nat, fuel as nat),
        r matches XmlEvent::Open(n) ==> n.view().children.len() == 0 && attrs_ok(n.view().attrs),
        r matches XmlEvent::Leaf(n) ==> n.view().children.len() == 0 && attrs_ok(n.view().attrs),
{
    match raw {
        RawEvent::Start(e) => match element_to_node(reader, e, fuel) {
            Ok(n) => XmlEvent::Open(n),
            Err(err) => XmlEvent::Fail(err),
        },
        RawEvent::Empty(e) => match element_to_node(reader, e, fuel) {
            Ok(n) => XmlEvent::Leaf(n),
            Err(err) => XmlEvent::Fail(err),
        },
        RawEvent::Text(t) => match text_content(t) {
            Ok(s) => XmlEvent::Text(s),
            Err(m) => XmlEvent::Fail(ParseError::Text(m)),
        },
        RawEvent::CData(c) => match cdata_content(c) {
            Ok(s) => XmlEvent::Text(s),
            Err(m) => XmlEvent::Fail(ParseError::CData(m)),
        },
        RawEvent::End => XmlEvent::Close,
        RawEvent::Eof => XmlEvent::Skip,
        RawEvent::Other => XmlEvent::Skip,
        RawEvent::Error(m) => XmlEvent::Fail(ParseError::Syntax(m.clone())),
    }
}

/// Parses XML text into an element tree: the tree builder fed the events
/// that `quick_xml` reports for the text (see `spec_parse_xml`).
pub fn parse_xml(xml: &str) -> (r: Result<XmlNode, ParseError>)
    ensures
        parse_result_view(r) == spec_parse_xml(xml@),
{
    let ghost text = xml@;
    let mut reader = new_reader(xml);
    let fuel: u128 = (xml.unicode_len() as u128) + 2;
    let mut builder = TreeBuilder::new();
    let mut budget: u128 = fuel;
    proof {
        assert(reader_events(text, fuel as nat, 0) =~= Seq::<XEvent>::empty());
    }
    while budget > 0
        invariant
            text == xml@,
            fuel == text.len() + 2,
            reader.text@ == text,
            reader.count@ + budget == fuel,
            spec_build(reader_events(text, fuel as nat, reader.count@)) == Ok::<BuildState, PErr>(builder@),
            spec_parse_xml(text) == spec_read_from(text, fuel as nat, reader.count@, budget as nat),
        decreases budget,
    {
        let ghost k = reader.count@;
        let ghost evs = reader_events(text, fuel as nat, k);
        let ghost evs1 = reader_events(text, fuel as nat, k + 1);
        budget = budget - 1;
        let raw = read_raw_event(&mut reader);
        let at_end = match raw {
            RawEvent::Eof => true,
            _ => false,
        };
        let ev = convert_event(&reader, &raw, fuel);
        let ghost st = builder@;
        proof {
            assert(evs1.drop_last() =~= evs);
            assert(evs1.last() == ev.view());
            assert(spec_build(evs1) == spec_step(st, ev.view()));
        }
        match builder.step(ev) {
            Ok(()) => {},
            Err(e) => {
                assert(spec_read_from(text, fuel as nat, k, (budget + 1) as nat) == Err::<XNode, PErr>(e.view()));
                return Err(e);
            },
        }
        assert(spec_build(evs1) == Ok::<BuildState, PErr>(builder@));
        if at_end {
            assert(spec_read_from(text, fuel as nat, k, (budget + 1) as nat) == spec_parse_events(evs1));
            let r = builder.finish();
            return r;
        }
    }
    Err(ParseError::Runaway)
}

} // verus!
