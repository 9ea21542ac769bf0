//! Events of an XML document as plain values.
use crate::external::{start_attributes, start_name, start_tag_attributes, start_tag_name};
use quick_xml::events::BytesStart;
use vstd::prelude::*;

verus! {

/// An attribute as it stands in the document: undecoded, its value still escaped.
pub struct RawAttribute {
    pub key: Vec<u8>,
    pub value: Vec<u8>,
}

/// A start tag: its undecoded name and its attributes in the order of the document. `None` stands
/// for an attribute that is not well-formed.
pub struct StartTag {
    pub name: Vec<u8>,
    pub attributes: Vec<Option<RawAttribute>>,
}

/// An event of a document. What stands in a CDATA section, a comment, a declaration, a processing
/// instruction, a document type or a reference is left out, as is what went wrong in an error.
pub enum XmlEvent {
    Start(StartTag),
    Empty(StartTag),
    End,
    Text(Vec<u8>),
    CData,
    Comment,
    Decl,
    Instruction,
    DocType,
    Reference,
    Error,
}

/// A [`RawAttribute`] as a mathematical value.
pub struct SpecAttribute {
    pub key: Seq<u8>,
    pub value: Seq<u8>,
}

/// A [`StartTag`] as a mathematical value.
pub struct SpecStart {
    pub name: Seq<u8>,
    pub attributes: Seq<Option<SpecAttribute>>,
}

/// An [`XmlEvent`] as a mathematical value.
pub enum SpecEvent {
    Start(SpecStart),
    Empty(SpecStart),
    End,
    Text(Seq<u8>),
    CData,
    Comment,
    Decl,
    Instruction,
    DocType,
    Reference,
    Error,
}

impl View for RawAttribute {
    type V = SpecAttribute;

    open spec fn view(&self) -> SpecAttribute {
        SpecAttribute { key: self.key@, value: self.value@ }
    }
}

/// An attribute of a start tag as a mathematical value.
pub open spec fn attribute_view(attribute: Option<RawAttribute>) -> Option<SpecAttribute> {
    match attribute {
        Some(raw) => Some(raw@),
        None => None,
    }
}

/// The attributes of a start tag as mathematical values.
pub open spec fn attribute_views(attributes: Seq<Option<RawAttribute>>) -> Seq<
    Option<SpecAttribute>,
> {
    attributes.map_values(|a: Option<RawAttribute>| attribute_view(a))
}

impl View for StartTag {
    type V = SpecStart;

    open spec fn view(&self) -> SpecStart {
        SpecStart {
            name: self.name@,
            attributes: attribute_views(self.attributes@),
        }
    }
}

impl View for XmlEvent {
    type V = SpecEvent;

    open spec fn view(&self) -> SpecEvent {
        match *self {
            XmlEvent::Start(tag) => SpecEvent::Start(tag@),
            XmlEvent::Empty(tag) => SpecEvent::Empty(tag@),
            XmlEvent::End => SpecEvent::End,
            XmlEvent::Text(bytes) => SpecEvent::Text(bytes@),
            XmlEvent::CData => SpecEvent::CData,
            XmlEvent::Comment => SpecEvent::Comment,
            XmlEvent::Decl => SpecEvent::Decl,
            XmlEvent::Instruction => SpecEvent::Instruction,
            XmlEvent::DocType => SpecEvent::DocType,
            XmlEvent::Reference => SpecEvent::Reference,
            XmlEvent::Error => SpecEvent::Error,
        }
    }
}

/// An event as the reader hands it out, its start tag still unread.
pub enum ReadEvent<'a> {
    Start(BytesStart<'a>),
    Empty(BytesStart<'a>),
    End,
    Text(Vec<u8>),
    CData,
    Comment,
    Decl,
    Instruction,
    DocType,
    Reference,
    Error,
}

/// A start tag as a mathematical value.
pub open spec fn start_view(tag: BytesStart) -> SpecStart {
    SpecStart { name: start_tag_name(tag), attributes: start_tag_attributes(tag) }
}

impl<'a> View for ReadEvent<'a> {
    type V = SpecEvent;

    open spec fn view(&self) -> SpecEvent {
        match *self {
            ReadEvent::Start(tag) => SpecEvent::Start(start_view(tag)),
            ReadEvent::Empty(tag) => SpecEvent::Empty(start_view(tag)),
            ReadEvent::End => SpecEvent::End,
            ReadEvent::Text(bytes) => SpecEvent::Text(bytes@),
            ReadEvent::CData => SpecEvent::CData,
            ReadEvent::Comment => SpecEvent::Comment,
            ReadEvent::Decl => SpecEvent::Decl,
            ReadEvent::Instruction => SpecEvent::Instruction,
            ReadEvent::DocType => SpecEvent::DocType,
            ReadEvent::Reference => SpecEvent::Reference,
            ReadEvent::Error => SpecEvent::Error,
        }
    }
}

/// Reads the name and the attributes of a start tag.
fn read_start(tag: &BytesStart) -> (start: StartTag)
    ensures
        start@ == start_view(*tag),
{
    StartTag { name: start_name(tag), attributes: start_attributes(tag) }
}

impl<'a> ReadEvent<'a> {
    /// The event as a plain value.
    pub fn into_event(self) -> (event: XmlEvent)
        ensures
            event@ == self@,
    {
        match self {
            ReadEvent::Start(tag) => XmlEvent::Start(read_start(&tag)),
            ReadEvent::Empty(tag) => XmlEvent::Empty(read_start(&tag)),
            ReadEvent::End => XmlEvent::End,
            ReadEvent::Text(bytes) => XmlEvent::Text(bytes),
            ReadEvent::CData => XmlEvent::CData,
            ReadEvent::Comment => XmlEvent::Comment,
            ReadEvent::Decl => XmlEvent::Decl,
            ReadEvent::Instruction => XmlEvent::Instruction,
            ReadEvent::DocType => XmlEvent::DocType,
            ReadEvent::Reference => XmlEvent::Reference,
            ReadEvent::Error => XmlEvent::Error,
        }
    }
}

} // verus!
