//! The markup events of a document, as plain values.

use crate::bytes::copy_bytes;
use vstd::prelude::*;

verus! {

/// The kinds of markup that the scanners tell apart.
#[derive(Clone, Copy, Debug, PartialEq, Eq, Structural)]
pub enum EventKind {
    /// An opening tag such as `<trkpt lat="1" lon="2">`.
    Start,
    /// A closing tag such as `</trkpt>`.
    End,
    /// An element written as one tag, such as `<trkpt lat="1" lon="2"/>`.
    Empty,
    /// Character data between tags.
    Text,
    /// Any other markup: comments, declarations, processing instructions,
    /// CDATA sections, document types, references.
    Other,
}

/// One attribute of an opening tag, undecoded.
#[derive(Clone, Debug, PartialEq, Eq)]
pub struct XmlAttribute {
    /// The name of the attribute.
    pub key: Vec<u8>,
    /// The value of the attribute, without its quotes.
    pub value: Vec<u8>,
}

/// The mathematical value of an [`XmlAttribute`].
pub struct AttributeView {
    /// The name of the attribute.
    pub key: Seq<u8>,
    /// The value of the attribute, without its quotes.
    pub value: Seq<u8>,
}

impl View for XmlAttribute {
    type V = AttributeView;

    open spec fn view(&self) -> AttributeView {
        AttributeView { key: self.key@, value: self.value@ }
    }
}

/// One markup event of a document.
///
/// `name` is the element name of a `Start`, `End` or `Empty` event, `text`
/// the content of a `Text` event and `attributes` the attributes of a
/// `Start` or `Empty` event; none of them is looked at for an event of
/// another kind. `markup` is the event as it is written back into a
/// document.
#[derive(Clone, Debug, PartialEq, Eq)]
pub struct XmlEvent {
    /// What kind of markup this is.
    pub kind: EventKind,
    /// The element name of a start, end or empty-element tag.
    pub name: Vec<u8>,
    /// The content of a text event.
    pub text: Vec<u8>,
    /// The attributes of a start or empty-element tag, in order.
    pub attributes: Vec<XmlAttribute>,
    /// The bytes that this event is in a document.
    pub markup: Vec<u8>,
}

/// The mathematical value of an [`XmlEvent`].
pub struct EventView {
    /// What kind of markup this is.
    pub kind: EventKind,
    /// The element name of a start, end or empty-element tag.
    pub name: Seq<u8>,
    /// The content of a text event.
    pub text: Seq<u8>,
    /// The attributes of a start or empty-element tag, in order.
    pub attributes: Seq<AttributeView>,
    /// The bytes that this event is in a document.
    pub markup: Seq<u8>,
}

/// The values of a sequence of attributes.
pub open spec fn attributes_view(attributes: Seq<XmlAttribute>) -> Seq<AttributeView> {
    Seq::new(attributes.len(), |i: int| attributes[i]@)
}

/// The values of a sequence of events.
pub open spec fn events_view(events: Seq<XmlEvent>) -> Seq<EventView> {
    Seq::new(events.len(), |i: int| events[i]@)
}

impl View for XmlEvent {
    type V = EventView;

    open spec fn view(&self) -> EventView {
        EventView {
            kind: self.kind,
            name: self.name@,
            text: self.text@,
            attributes: attributes_view(self.attributes@),
            markup: self.markup@,
        }
    }
}

impl XmlAttribute {
    /// A fresh copy of this attribute.
    pub fn duplicate(&self) -> (copy: XmlAttribute)
        ensures
            copy@ == self@,
    {
        XmlAttribute { key: copy_bytes(&self.key), value: copy_bytes(&self.value) }
    }
}

impl XmlEvent {
    /// A fresh copy of this event.
    pub fn duplicate(&self) -> (copy: XmlEvent)
        ensures
            copy@ == self@,
    {
        let mut attributes: Vec<XmlAttribute> = Vec::new();
        let mut i: usize = 0;
        while i < self.attributes.len()
            invariant
                i <= self.attributes.len(),
                attributes@.len() == i,
                forall|j: int| 0 <= j < i ==> (#[trigger] attributes@[j])@ == self.attributes@[j]@,
            decreases self.attributes.len() - i,
        {
            attributes.push(self.attributes[i].duplicate());
            i += 1;
        }
        assert(attributes_view(attributes@) =~= attributes_view(self.attributes@));
        XmlEvent {
            kind: self.kind,
            name: copy_bytes(&self.name),
            text: copy_bytes(&self.text),
            attributes,
            markup: copy_bytes(&self.markup),
        }
    }
}

/// A document that could not be read as markup.
#[derive(Clone, Debug, PartialEq, Eq)]
pub struct XmlError {
    /// The byte offset that the reader had reached when it gave up.
    pub position: u64,
    /// The reader's description of what it found.
    pub detail: String,
}

/// The mathematical value of an [`XmlError`].
pub struct XmlErrorView {
    /// The byte offset that the reader had reached when it gave up.
    pub position: u64,
    /// The reader's description of what it found.
    pub detail: Seq<char>,
}

impl View for XmlError {
    type V = XmlErrorView;

    open spec fn view(&self) -> XmlErrorView {
        XmlErrorView { position: self.position, detail: self.detail@ }
    }
}

/// The bytes of `trkpt`, the name of a track point element.
pub open spec fn trkpt_name() -> Seq<u8> {
    seq![0x74u8, 0x72u8, 0x6bu8, 0x70u8, 0x74u8]
}

/// The bytes of `trkseg`, the name of a track segment element.
pub open spec fn trkseg_name() -> Seq<u8> {
    seq![0x74u8, 0x72u8, 0x6bu8, 0x73u8, 0x65u8, 0x67u8]
}

/// The bytes of `time`, the name of a timestamp element.
pub open spec fn time_name() -> Seq<u8> {
    seq![0x74u8, 0x69u8, 0x6du8, 0x65u8]
}

/// Whether `name` spells `trkpt`.
pub fn is_trkpt(name: &[u8]) -> (r: bool)
    ensures
        r == (name@ == trkpt_name()),
{
    let r = name.len() == 5 && name[0] == 0x74 && name[1] == 0x72 && name[2] == 0x6b && name[3]
        == 0x70 && name[4] == 0x74;
    proof {
        if r {
            assert(name@ =~= trkpt_name());
        }
    }
    r
}

/// Whether `name` spells `trkseg`.
pub fn is_trkseg(name: &[u8]) -> (r: bool)
    ensures
        r == (name@ == trkseg_name()),
{
    let r = name.len() == 6 && name[0] == 0x74 && name[1] == 0x72 && name[2] == 0x6b && name[3]
        == 0x73 && name[4] == 0x65 && name[5] == 0x67;
    proof {
        if r {
            assert(name@ =~= trkseg_name());
        }
    }
    r
}

/// Whether `name` spells `time`.
pub fn is_time(name: &[u8]) -> (r: bool)
    ensures
        r == (name@ == time_name()),
{
    let r = name.len() == 4 && name[0] == 0x74 && name[1] == 0x69 && name[2] == 0x6d && name[3]
        == 0x65;
    proof {
        if r {
            assert(name@ =~= time_name());
        }
    }
    r
}

} // verus!
