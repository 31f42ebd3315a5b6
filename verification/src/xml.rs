//! XML as events going out and as nodes coming in.
//!
//! What a document says is decided here and in the modules above, as a list of events or
//! by reading a list of nodes. Escaping, indentation and parsing are the work of
//! `quick_xml` and `roxmltree`, behind the functions marked as such.

use crate::views::{lemma_views_push, views};
use quick_xml::events::{BytesDecl, BytesEnd, BytesStart, BytesText, Event};
use vstd::prelude::*;

verus! {

#[derive(Clone, Debug)]
pub struct XmlAttr {
    pub key: String,
    pub value: String,
}

/// An attribute: its name and its value.
pub struct AttrView {
    pub key: Seq<char>,
    pub value: Seq<char>,
}

impl View for XmlAttr {
    type V = AttrView;

    open spec fn view(&self) -> AttrView {
        AttrView { key: self.key@, value: self.value@ }
    }
}

/// One step of writing a document.
#[derive(Clone, Debug)]
pub enum XmlEvent {
    Decl { encoding: String },
    DocType(String),
    Start { name: String, attrs: Vec<XmlAttr> },
    Empty { name: String, attrs: Vec<XmlAttr> },
    Text(String),
    End(String),
}

pub enum EventView {
    Decl { encoding: Seq<char> },
    DocType(Seq<char>),
    Start { name: Seq<char>, attrs: Seq<AttrView> },
    Empty { name: Seq<char>, attrs: Seq<AttrView> },
    Text(Seq<char>),
    End(Seq<char>),
}

impl View for XmlEvent {
    type V = EventView;

    open spec fn view(&self) -> EventView {
        match self {
            XmlEvent::Decl { encoding } => EventView::Decl { encoding: encoding@ },
            XmlEvent::DocType(text) => EventView::DocType(text@),
            XmlEvent::Start { name, attrs } => EventView::Start { name: name@, attrs: views(attrs@) },
            XmlEvent::Empty { name, attrs } => EventView::Empty { name: name@, attrs: views(attrs@) },
            XmlEvent::Text(text) => EventView::Text(text@),
            XmlEvent::End(name) => EventView::End(name@),
        }
    }
}

// ---------------------------------------------------------------------------
// Writing
// ---------------------------------------------------------------------------

/// `quick_xml::Writer`, which turns events into text.
#[verifier::external_type_specification]
#[verifier::external_body]
#[verifier::reject_recursive_types(W)]
pub struct ExWriter<W>(quick_xml::Writer<W>);

/// The events a `quick_xml::Writer` has been given, in order.
pub uninterp spec fn written(writer: quick_xml::Writer<Vec<u8>>) -> Seq<EventView>;

/// The text `quick_xml::Writer` makes of some events when it indents by two spaces.
pub uninterp spec fn xml_text(events: Seq<EventView>) -> Seq<char>;

/// `quick_xml::Writer::new_with_indent`, into a buffer, with two spaces per level: a writer
/// that has been given nothing.
#[verifier::external_body]
fn new_writer() -> (r: quick_xml::Writer<Vec<u8>>)
    ensures
        written(r) == Seq::<EventView>::empty(),
{
    quick_xml::Writer::new_with_indent(Vec::new(), b' ', 2)
}

/// `quick_xml::Writer::write_event`: hands the writer one more event. Attribute values and
/// text are escaped on the way. Writing into a buffer cannot fail.
#[verifier::external_body]
fn write_event(writer: &mut quick_xml::Writer<Vec<u8>>, event: &XmlEvent)
    ensures
        written(*final(writer)) == written(*old(writer)).push(event@),
{
    let outside = match event {
        XmlEvent::Decl { encoding } => Event::Decl(BytesDecl::new("1.0", Some(encoding), None)),
        XmlEvent::DocType(text) => Event::DocType(BytesText::from_escaped(text.as_str())),
        XmlEvent::Start { name, attrs } => Event::Start(
            BytesStart::new(name.as_str()).with_attributes(attrs.iter().map(attr_pair)),
        ),
        XmlEvent::Empty { name, attrs } => Event::Empty(
            BytesStart::new(name.as_str()).with_attributes(attrs.iter().map(attr_pair)),
        ),
        XmlEvent::Text(text) => Event::Text(BytesText::new(text)),
        XmlEvent::End(name) => Event::End(BytesEnd::new(name.as_str())),
    };
    writer.write_event(outside).unwrap_or_default()
}

/// An attribute as a pair of its key and its value.
fn attr_pair<'a>(attr: &'a XmlAttr) -> (r: (&'a str, &'a str))
    ensures
        r.0@ == attr.key@,
        r.1@ == attr.value@,
{
    (attr.key.as_str(), attr.value.as_str())
}

/// `quick_xml::Writer::into_inner`: the text of all that was written. Everything handed to
/// the writer is text, so its bytes are too.
#[verifier::external_body]
fn finish(writer: quick_xml::Writer<Vec<u8>>) -> (r: String)
    ensures
        r@ == xml_text(written(writer)),
{
    String::from_utf8(writer.into_inner()).unwrap_or_default()
}

/// The text of a document.
pub fn render(events: &Vec<XmlEvent>) -> (r: String)
    ensures
        r@ == xml_text(views(events@)),
{
    let mut writer = new_writer();
    let mut i: usize = 0;
    assert(views(events@).take(0) =~= seq![]);
    while i < events.len()
        invariant
            i <= events@.len(),
            written(writer) == views(events@).take(i as int),
        decreases events@.len() - i,
    {
        write_event(&mut writer, &events[i]);
        i = i + 1;
        assert(written(writer) =~= views(events@).take(i as int));
    }
    assert(views(events@).take(i as int) =~= views(events@));
    finish(writer)
}

/// An attribute.
pub open spec fn attr(key: Seq<char>, value: Seq<char>) -> AttrView {
    AttrView { key, value }
}

pub open spec fn start(name: Seq<char>, attrs: Seq<AttrView>) -> EventView {
    EventView::Start { name, attrs }
}

pub open spec fn empty(name: Seq<char>, attrs: Seq<AttrView>) -> EventView {
    EventView::Empty { name, attrs }
}

pub open spec fn end(name: Seq<char>) -> EventView {
    EventView::End(name)
}

/// Appends an attribute to a list.
pub fn push_attr(attrs: &mut Vec<XmlAttr>, key: &str, value: &str)
    ensures
        views(final(attrs)@) == views(old(attrs)@).push(attr(key@, value@)),
{
    let item = XmlAttr { key: key.to_owned(), value: value.to_owned() };
    proof {
        lemma_views_push(attrs@, item);
    }
    attrs.push(item);
}

/// Appends an event to a document.
pub fn push_event(events: &mut Vec<XmlEvent>, event: XmlEvent)
    ensures
        views(final(events)@) == views(old(events)@).push(event@),
{
    proof {
        lemma_views_push(events@, event);
    }
    events.push(event);
}

pub fn push_start(events: &mut Vec<XmlEvent>, name: &str, attrs: Vec<XmlAttr>)
    ensures
        views(final(events)@) == views(old(events)@).push(start(name@, views(attrs@))),
{
    push_event(events, XmlEvent::Start { name: name.to_owned(), attrs });
}

pub fn push_empty(events: &mut Vec<XmlEvent>, name: &str, attrs: Vec<XmlAttr>)
    ensures
        views(final(events)@) == views(old(events)@).push(empty(name@, views(attrs@))),
{
    push_event(events, XmlEvent::Empty { name: name.to_owned(), attrs });
}

pub fn push_end(events: &mut Vec<XmlEvent>, name: &str)
    ensures
        views(final(events)@) == views(old(events)@).push(end(name@)),
{
    push_event(events, XmlEvent::End(name.to_owned()));
}

/// An attribute list of one.
pub fn attrs1(k0: &str, v0: &str) -> (r: Vec<XmlAttr>)
    ensures
        views(r@) == seq![attr(k0@, v0@)],
{
    let mut attrs: Vec<XmlAttr> = Vec::new();
    push_attr(&mut attrs, k0, v0);
    assert(views(attrs@) =~= seq![attr(k0@, v0@)]);
    attrs
}

/// An attribute list of two.
pub fn attrs2(k0: &str, v0: &str, k1: &str, v1: &str) -> (r: Vec<XmlAttr>)
    ensures
        views(r@) == seq![attr(k0@, v0@), attr(k1@, v1@)],
{
    let mut attrs: Vec<XmlAttr> = Vec::new();
    push_attr(&mut attrs, k0, v0);
    push_attr(&mut attrs, k1, v1);
    assert(views(attrs@) =~= seq![attr(k0@, v0@), attr(k1@, v1@)]);
    attrs
}

/// An attribute list of three.
pub fn attrs3(k0: &str, v0: &str, k1: &str, v1: &str, k2: &str, v2: &str) -> (r: Vec<XmlAttr>)
    ensures
        views(r@) == seq![attr(k0@, v0@), attr(k1@, v1@), attr(k2@, v2@)],
{
    let mut attrs: Vec<XmlAttr> = Vec::new();
    push_attr(&mut attrs, k0, v0);
    push_attr(&mut attrs, k1, v1);
    push_attr(&mut attrs, k2, v2);
    assert(views(attrs@) =~= seq![attr(k0@, v0@), attr(k1@, v1@), attr(k2@, v2@)]);
    attrs
}

// ---------------------------------------------------------------------------
// Reading
// ---------------------------------------------------------------------------

/// An attribute of a parsed element.
#[derive(Clone, Debug)]
pub struct NodeAttr {
    /// The namespace its prefix stands for, if it has one.
    pub namespace: Option<String>,
    pub key: String,
    pub value: String,
}

pub struct NodeAttrView {
    pub namespace: Option<Seq<char>>,
    pub key: Seq<char>,
    pub value: Seq<char>,
}

impl View for NodeAttr {
    type V = NodeAttrView;

    open spec fn view(&self) -> NodeAttrView {
        NodeAttrView { namespace: text_view(self.namespace), key: self.key@, value: self.value@ }
    }
}

/// A node of a parsed document. Nodes stand in document order, and `parent` is a position
/// in that order.
#[derive(Clone, Debug)]
pub struct XmlNode {
    pub parent: Option<usize>,
    pub element: bool,
    /// The element's name, without its prefix.
    pub name: String,
    pub attrs: Vec<NodeAttr>,
    /// The text of a text node, or the text an element starts with.
    pub text: Option<String>,
}

pub struct NodeView {
    pub parent: Option<usize>,
    pub element: bool,
    pub name: Seq<char>,
    pub attrs: Seq<NodeAttrView>,
    pub text: Option<Seq<char>>,
}

pub open spec fn text_view(text: Option<String>) -> Option<Seq<char>> {
    match text {
        Some(t) => Some(t@),
        None => None,
    }
}

impl View for XmlNode {
    type V = NodeView;

    open spec fn view(&self) -> NodeView {
        NodeView {
            parent: self.parent,
            element: self.element,
            name: self.name@,
            attrs: views(self.attrs@),
            text: text_view(self.text),
        }
    }
}

// ---------------------------------------------------------------------------
// Writing and reading again
// ---------------------------------------------------------------------------

/// The elements among the first `n` nodes that stand directly in another, in order.
pub open spec fn children_before(nodes: Seq<NodeView>, parent: int, n: int) -> Seq<int>
    decreases n,
{
    if n <= 0 {
        seq![]
    } else if nodes[n - 1].parent == Some(parent as usize) && nodes[n - 1].element {
        children_before(nodes, parent, n - 1).push(n - 1)
    } else {
        children_before(nodes, parent, n - 1)
    }
}

/// The elements that stand directly in another, in order.
pub open spec fn children_of(nodes: Seq<NodeView>, parent: int) -> Seq<int> {
    children_before(nodes, parent, nodes.len() as int)
}

/// The first element, or -1.
pub open spec fn root_at(nodes: Seq<NodeView>) -> int
    decreases nodes.len(),
{
    if nodes.len() == 0 {
        -1
    } else {
        let before = root_at(nodes.drop_last());
        if before >= 0 {
            before
        } else if nodes.last().element {
            nodes.len() - 1
        } else {
            -1
        }
    }
}

/// An element as it is written, with what stands in it: a text, or further elements.
pub struct Elem {
    pub name: Seq<char>,
    pub attrs: Seq<AttrView>,
    pub text: Option<Seq<char>>,
    /// Written as one tag.
    pub closed: bool,
    pub kids: Seq<Elem>,
}

pub open spec fn text_events(text: Option<Seq<char>>) -> Seq<EventView> {
    match text {
        Some(text) => seq![EventView::Text(text)],
        None => seq![],
    }
}

/// The events that write an element.
pub open spec fn events_of(e: Elem) -> Seq<EventView>
    decreases e,
{
    if e.closed {
        seq![empty(e.name, e.attrs)]
    } else {
        seq![start(e.name, e.attrs)] + text_events(e.text) + events_in(e.kids) + seq![end(e.name)]
    }
}

/// The events that write some elements.
pub open spec fn events_in(kids: Seq<Elem>) -> Seq<EventView>
    decreases kids,
{
    if kids.len() == 0 {
        seq![]
    } else {
        events_in(kids.drop_last()) + events_of(kids.last())
    }
}

/// The events that write a document with one element at its root.
pub open spec fn document_with(e: Elem) -> Seq<EventView> {
    seq![EventView::Decl { encoding: "utf-8"@ }] + events_of(e)
}

/// The names of elements that an MLT document uses.
pub open spec fn mlt_name(name: Seq<char>) -> bool {
    ||| name == "mlt"@
    ||| name == "profile"@
    ||| name == "producer"@
    ||| name == "property"@
    ||| name == "playlist"@
    ||| name == "blank"@
    ||| name == "entry"@
    ||| name == "filter"@
    ||| name == "transition"@
    ||| name == "tractor"@
    ||| name == "track"@
}

/// The keys of attributes that an MLT document uses.
pub open spec fn mlt_key(key: Seq<char>) -> bool {
    ||| key == "LC_NUMERIC"@
    ||| key == "version"@
    ||| key == "title"@
    ||| key == "root"@
    ||| key == "producer"@
    ||| key == "description"@
    ||| key == "width"@
    ||| key == "height"@
    ||| key == "progressive"@
    ||| key == "sample_aspect_num"@
    ||| key == "sample_aspect_den"@
    ||| key == "display_aspect_num"@
    ||| key == "display_aspect_den"@
    ||| key == "frame_rate_num"@
    ||| key == "frame_rate_den"@
    ||| key == "colorspace"@
    ||| key == "id"@
    ||| key == "in"@
    ||| key == "out"@
    ||| key == "name"@
    ||| key == "length"@
    ||| key == "global_feed"@
    ||| key == "hide"@
}

/// Whether XML has a way to spell a character.
pub open spec fn is_xml_char(c: char) -> bool {
    ||| c == '\t'
    ||| c == '\n'
    ||| c == '\r'
    ||| ' ' <= c && c as u32 != 0xfffe && c as u32 != 0xffff
}

/// Whether a text comes back from between two tags as it is.
pub open spec fn is_kept(text: Seq<char>) -> bool {
    forall|i: int| 0 <= i < text.len() ==> is_xml_char(#[trigger] text[i])
}

/// Whether a text comes back from an attribute as it is: a reader takes tabs and line ends there
/// for spaces.
pub open spec fn is_kept_in_tag(text: Seq<char>) -> bool {
    forall|i: int|
        0 <= i < text.len() ==> is_xml_char(#[trigger] text[i]) && text[i] != '\t' && text[i] != '\n'
}

/// Whether an element and all that is in it are put together as an MLT document is.
pub open spec fn well_shaped(e: Elem) -> bool
    decreases e,
{
    &&& mlt_name(e.name)
    &&& forall|k: int| 0 <= k < e.attrs.len() ==> mlt_key(#[trigger] e.attrs[k].key)
    &&& forall|i: int, j: int|
        0 <= i < j < e.attrs.len() ==> #[trigger] e.attrs[i].key != #[trigger] e.attrs[j].key
    &&& e.text is Some ==> e.kids.len() == 0
    &&& e.closed ==> e.kids.len() == 0 && e.text is None
    &&& forall|k: int| 0 <= k < e.kids.len() ==> well_shaped(#[trigger] e.kids[k])
}

/// Whether every text of an element comes back as it is.
pub open spec fn texts_kept(e: Elem) -> bool
    decreases e,
{
    &&& forall|k: int| 0 <= k < e.attrs.len() ==> is_kept_in_tag(#[trigger] e.attrs[k].value)
    &&& e.text matches Some(text) ==> is_kept(text)
    &&& forall|k: int| 0 <= k < e.kids.len() ==> texts_kept(#[trigger] e.kids[k])
}

/// The attributes of an element as they are read.
pub open spec fn read_attrs(attrs: Seq<AttrView>) -> Seq<NodeAttrView> {
    attrs.map_values(|a: AttrView| NodeAttrView { namespace: None, key: a.key, value: a.value })
}

/// Whether a node is an element as it was written, and the elements in it are those that were
/// written in it, in order. White space between tags is nothing that was written.
pub open spec fn reads(nodes: Seq<NodeView>, at: int, e: Elem) -> bool
    decreases e,
{
    let kids = children_of(nodes, at);
    &&& 0 <= at < nodes.len()
    &&& nodes[at].element
    &&& nodes[at].name == e.name
    &&& nodes[at].attrs == read_attrs(e.attrs)
    &&& e.text matches Some(text) ==> nodes[at].text == (if text.len() > 0 {
        Some(text)
    } else {
        None
    })
    &&& kids.len() == e.kids.len()
    &&& forall|k: int| 0 <= k < e.kids.len() ==> reads(nodes, kids[k], #[trigger] e.kids[k])
}

/// Whether nodes are those of a document that was written with one element at its root: every
/// element but that one stands in another, which is in front of it.
pub open spec fn is_document(nodes: Seq<NodeView>, e: Elem) -> bool {
    &&& reads(nodes, root_at(nodes), e)
    &&& forall|i: int|
        0 <= i < nodes.len() && !(#[trigger] nodes[i]).element ==> nodes[i].attrs.len() == 0
    &&& forall|i: int|
        0 <= i < nodes.len() && (#[trigger] nodes[i]).element && i != root_at(nodes) ==> {
            &&& nodes[i].parent matches Some(p)
            &&& p < i
            &&& nodes[p as int].element
        }
}

/// Whether what is read of a text that was written as an MLT document is what was written.
pub open spec fn gives_back(text: Seq<char>, r: Result<Vec<XmlNode>, String>) -> bool {
    forall|e: Elem|
        #![trigger xml_text(document_with(e))]
        well_shaped(e) && texts_kept(e) && text == xml_text(document_with(e)).push('\n')
            && text.len() < 0x4000_0000 ==> r is Ok && is_document(views(r->Ok_0@), e)
}

/// What `roxmltree::Document::parse` makes of a text: the nodes of the document in
/// document order, or what is wrong with it.
pub uninterp spec fn xml_nodes(text: Seq<char>) -> Result<Seq<NodeView>, Seq<char>>;

/// `roxmltree::Document::parse`, with every node read out in document order through
/// `Document::descendants`. Of a text that `quick_xml::Writer` made of the elements of an MLT
/// document it gives those elements back, with their names, attributes and texts, each in the
/// one that it was written in. Left out are texts that might be longer than a parser that counts
/// in 32 bits takes, and characters that one of the two does not hand on.
#[verifier::external_body]
fn parse_nodes(text: &str) -> (r: Result<Vec<XmlNode>, String>)
    ensures
        (match r {
            Ok(nodes) => xml_nodes(text@) == Ok::<Seq<NodeView>, Seq<char>>(views(nodes@)),
            Err(error) => xml_nodes(text@) == Err::<Seq<NodeView>, Seq<char>>(error@),
        }),
        gives_back(text@, r),
{
    let document = roxmltree::Document::parse(text).map_err(|e| e.to_string())?;
    Ok(document.descendants().map(|n| XmlNode {
        parent: n.parent().map(|p| p.id().get_usize()),
        element: n.is_element(),
        name: n.tag_name().name().to_owned(),
        attrs: n.attributes().map(|a| NodeAttr {
            namespace: a.namespace().map(str::to_owned),
            key: a.name().to_owned(),
            value: a.value().to_owned(),
        }).collect(),
        text: n.text().map(str::to_owned),
    }).collect())
}

/// Parses a document.
pub fn parse(text: &str) -> (r: Result<Vec<XmlNode>, String>)
    ensures
        (match r {
            Ok(nodes) => xml_nodes(text@) == Ok::<Seq<NodeView>, Seq<char>>(views(nodes@)),
            Err(error) => xml_nodes(text@) == Err::<Seq<NodeView>, Seq<char>>(error@),
        }),
        gives_back(text@, r),
{
    parse_nodes(text)
}

/// The value of the first attribute of that name and without a namespace.
pub open spec fn attribute(attrs: Seq<NodeAttrView>, key: Seq<char>) -> Option<Seq<char>>
    decreases attrs.len(),
{
    if attrs.len() == 0 {
        None
    } else if attrs[0].namespace is None && attrs[0].key == key {
        Some(attrs[0].value)
    } else {
        attribute(attrs.skip(1), key)
    }
}

impl XmlNode {
    /// The value of an attribute.
    pub fn attribute(&self, key: &str) -> (r: Option<&String>)
        ensures
            (match r {
                Some(value) => attribute(self@.attrs, key@) == Some(value@),
                None => attribute(self@.attrs, key@) is None,
            }),
    {
        let ghost all = views(self.attrs@);
        let mut i: usize = 0;
        assert(all.skip(0) =~= all);
        while i < self.attrs.len()
            invariant
                i <= self.attrs@.len(),
                all == views(self.attrs@),
                attribute(all.skip(i as int), key@) == attribute(all, key@),
            decreases self.attrs@.len() - i,
        {
            proof {
                assert(all.skip(i as int)[0] == self.attrs@[i as int]@);
                assert(all.skip(i as int).skip(1) =~= all.skip(i + 1));
            }
            if self.attrs[i].namespace.is_none() && crate::text::same(self.attrs[i].key.as_str(), key) {
                return Some(&self.attrs[i].value);
            }
            i = i + 1;
        }
        assert(all.skip(i as int) =~= seq![]);
        None
    }

    /// Whether this is an element of that name.
    pub fn is_named(&self, name: &str) -> (r: bool)
        ensures
            r == self@.is(name@),
    {
        self.element && crate::text::same(self.name.as_str(), name)
    }
}

impl NodeView {
    /// Whether this is an element of that name.
    pub open spec fn is(self, name: Seq<char>) -> bool {
        self.element && self.name == name
    }
}

} // verus!
