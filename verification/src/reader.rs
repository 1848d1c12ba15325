//! Reading a document into its markup events.
//!
//! The markup is split by `quick_xml`. Everything this module assumes of that
//! crate is stated on the items marked `external_body` below; the loop that
//! drives the reader is verified against those statements.

use crate::event::{
    attributes_view, events_view, EventKind, EventView, XmlAttribute, XmlError, XmlErrorView,
    XmlEvent,
};
use quick_xml::events::Event;
use quick_xml::{Reader, Writer};
use vstd::prelude::*;

verus! {

/// `quick_xml::Reader`, carried as it is: nothing is known of what is
/// inside one but what the items below say.
#[verifier::external_type_specification]
#[verifier::external_body]
#[verifier::reject_recursive_types(R)]
pub struct ExReader<R>(quick_xml::Reader<R>);

/// `quick_xml::events::Event`, carried as it is from the reader to the
/// functions below that take it apart.
#[verifier::external_type_specification]
#[verifier::external_body]
pub struct ExEvent<'a>(quick_xml::events::Event<'a>);

/// The outcome of reading a document to its end: the events in document
/// order, and the failure that cut the reading short, if one did.
pub struct Scan {
    /// The events read, in document order.
    pub events: Seq<EventView>,
    /// The failure that ended the reading; `None` if the end of the
    /// document was reached.
    pub failure: Option<XmlErrorView>,
}

/// What a `quick_xml` reader with default settings makes of the bytes of a
/// document: the events it yields before it reports the end of input or its
/// first error, and that error.
pub uninterp spec fn document_scan(input: Seq<u8>) -> Scan;

/// The events that a reader has yet to yield before it reports the end of
/// its input or its first error.
pub uninterp spec fn remaining_events(reader: Reader<&[u8]>) -> Seq<EventView>;

/// The error that a reader reports once it has yielded its remaining
/// events; `None` if it reaches the end of its input.
pub uninterp spec fn remaining_failure(reader: Reader<&[u8]>) -> Option<XmlErrorView>;

/// The plain values held by an event of `quick_xml`.
pub uninterp spec fn event_contents(event: Event<'static>) -> EventView;

/// `Reader::from_reader` on a byte slice. The new reader has the whole
/// document before it.
#[verifier::external_body]
fn open_reader<'a>(input: &'a [u8]) -> (reader: Reader<&'a [u8]>)
    ensures
        remaining_events(reader) == document_scan(input@).events,
        remaining_failure(reader) == document_scan(input@).failure,
{
    Reader::from_reader(input)
}

/// `Reader::read_event_into` with a fresh buffer. An event that comes back is
/// the first of those the reader had yet to yield, and the rest stay to be
/// read. The end of input and an error come back only when no event is left.
/// An error is handed on as `Reader::buffer_position` at that moment and the
/// error's `Debug` text.
#[verifier::external_body]
fn read_event(reader: &mut Reader<&[u8]>) -> (r: Result<Option<Event<'static>>, XmlError>)
    ensures
        match r {
            Ok(Some(event)) => {
                &&& remaining_events(*old(reader)).len() > 0
                &&& event_contents(event) == remaining_events(*old(reader))[0]
                &&& remaining_events(*final(reader)) == remaining_events(
                    *old(reader),
                ).drop_first()
                &&& remaining_failure(*final(reader)) == remaining_failure(*old(reader))
            },
            Ok(None) => {
                &&& remaining_events(*old(reader)).len() == 0
                &&& remaining_failure(*old(reader)) is None
            },
            Err(e) => {
                &&& remaining_events(*old(reader)).len() == 0
                &&& remaining_failure(*old(reader)) == Some(e@)
            },
        },
{
    let mut buf = Vec::new();
    match reader.read_event_into(&mut buf) {
        Ok(Event::Eof) => Ok(None),
        Ok(event) => Ok(Some(event.into_owned())),
        Err(e) => Err(XmlError { position: reader.buffer_position(), detail: format!("{:?}", e) }),
    }
}

/// Which variant an event is: start, end and empty-element tags and text
/// each as their own kind, every other variant as `Other`.
#[verifier::external_body]
fn event_kind(event: &Event<'static>) -> (kind: EventKind)
    ensures
        kind == event_contents(*event).kind,
{
    match event {
        Event::Start(_) => EventKind::Start,
        Event::End(_) => EventKind::End,
        Event::Empty(_) => EventKind::Empty,
        Event::Text(_) => EventKind::Text,
        Event::CData(_) => EventKind::Other,
        Event::Comment(_) => EventKind::Other,
        Event::Decl(_) => EventKind::Other,
        Event::PI(_) => EventKind::Other,
        Event::DocType(_) => EventKind::Other,
        Event::GeneralRef(_) => EventKind::Other,
        Event::Eof => EventKind::Other,
    }
}

/// `BytesStart::name` and `BytesEnd::name`: the element name of a start,
/// end or empty-element tag. An event of another variant has no name.
#[verifier::external_body]
fn event_name(event: &Event<'static>) -> (name: Vec<u8>)
    ensures
        name@ == event_contents(*event).name,
{
    match event {
        Event::Start(e) => e.name().as_ref().to_vec(),
        Event::End(e) => e.name().as_ref().to_vec(),
        Event::Empty(e) => e.name().as_ref().to_vec(),
        Event::Text(_) => Vec::new(),
        Event::CData(_) => Vec::new(),
        Event::Comment(_) => Vec::new(),
        Event::Decl(_) => Vec::new(),
        Event::PI(_) => Vec::new(),
        Event::DocType(_) => Vec::new(),
        Event::GeneralRef(_) => Vec::new(),
        Event::Eof => Vec::new(),
    }
}

/// The bytes of a text event, as `BytesText` hands them out. An event of
/// another variant has no text.
#[verifier::external_body]
fn event_text(event: &Event<'static>) -> (text: Vec<u8>)
    ensures
        text@ == event_contents(*event).text,
{
    match event {
        Event::Text(e) => e.to_vec(),
        Event::Start(_) => Vec::new(),
        Event::End(_) => Vec::new(),
        Event::Empty(_) => Vec::new(),
        Event::CData(_) => Vec::new(),
        Event::Comment(_) => Vec::new(),
        Event::Decl(_) => Vec::new(),
        Event::PI(_) => Vec::new(),
        Event::DocType(_) => Vec::new(),
        Event::GeneralRef(_) => Vec::new(),
        Event::Eof => Vec::new(),
    }
}

/// `BytesStart::attributes`: the attributes of a start or empty-element tag
/// that the attribute parser accepts, in order, each with its undecoded key
/// and value. An event of another variant has no attributes.
#[verifier::external_body]
fn event_attributes(event: &Event<'static>) -> (attributes: Vec<XmlAttribute>)
    ensures
        attributes_view(attributes@) == event_contents(*event).attributes,
{
    let tag = match event {
        Event::Start(e) => e,
        Event::Empty(e) => e,
        Event::End(_) | Event::Text(_) | Event::CData(_) => return Vec::new(),
        Event::Comment(_) | Event::Decl(_) | Event::PI(_) => return Vec::new(),
        Event::DocType(_) | Event::GeneralRef(_) | Event::Eof => return Vec::new(),
    };
    tag.attributes().flatten().map(
        |a| XmlAttribute { key: a.key.as_ref().to_vec(), value: a.value.to_vec() },
    ).collect()
}

/// `Writer::write_event` on a writer without indentation: the bytes that the
/// event becomes in a document.
#[verifier::external_body]
fn event_markup(event: &Event<'static>) -> (markup: Vec<u8>)
    ensures
        markup@ == event_contents(*event).markup,
{
    let mut writer = Writer::new(Vec::new());
    let _ = writer.write_event(event.borrow());
    writer.into_inner()
}

/// The plain values of one event of the reader.
fn plain_event(event: &Event<'static>) -> (plain: XmlEvent)
    ensures
        plain@ == event_contents(*event),
{
    XmlEvent {
        kind: event_kind(event),
        name: event_name(event),
        text: event_text(event),
        attributes: event_attributes(event),
        markup: event_markup(event),
    }
}

/// Reads a whole document into its events.
///
/// Succeeds exactly when the reader reaches the end of the input without an
/// error, and then returns every event in document order. Otherwise returns
/// the reader's first error.
pub fn read_document(input: &[u8]) -> (r: Result<Vec<XmlEvent>, XmlError>)
    ensures
        match r {
            Ok(events) => {
                &&& document_scan(input@).failure is None
                &&& events_view(events@) == document_scan(input@).events
            },
            Err(e) => document_scan(input@).failure == Some(e@),
        },
{
    let mut reader = open_reader(input);
    let mut events: Vec<XmlEvent> = Vec::new();
    loop
        invariant
            document_scan(input@).events == events_view(events@) + remaining_events(reader),
            document_scan(input@).failure == remaining_failure(reader),
        decreases remaining_events(reader).len(),
    {
        let ghost before = remaining_events(reader);
        let ghost read = events_view(events@);
        match read_event(&mut reader) {
            Err(e) => {
                return Err(e);
            },
            Ok(None) => {
                assert(events_view(events@) + before =~= events_view(events@));
                return Ok(events);
            },
            Ok(Some(event)) => {
                let plain = plain_event(&event);
                events.push(plain);
                assert(events_view(events@) =~= read.push(before[0]));
                assert(read.push(before[0]) + before.drop_first() =~= read + before);
            },
        }
    }
}

} // verus!
