//! The range reader over an XML document, pulling events one at a time
//! from the `xml` crate's streaming reader.

use vstd::prelude::*;

use crate::events::{
    EventView, ScanState, StepOutcome, XmlAttribute, XmlEvent, is_final, parse_spec, run_spec,
};
use crate::model::{ParseError, WhoisResult, outcome_view};
use crate::events::XmlEvent::{
    CData, Characters, Comment, Doctype, EndDocument, EndElement, Malformed, ProcessingInstruction, StartDocument,
    StartElement, Whitespace,
};
use xml::reader::XmlEvent as ReaderEvent;

verus! {

/// Holds the `xml` crate's streaming reader over a document in memory; its
/// type is generic over `std::io::Read`, which Verus cannot name, so it is
/// kept out of Verus's sight.
#[verifier::external_body]
struct XmlReader<'a> {
    reader: xml::reader::EventReader<&'a [u8]>,
}

/// The events that the `xml` crate's reader pulls from the document `doc`,
/// in order, up to and including the first end of document or error.
pub uninterp spec fn xml_events(doc: Seq<u8>) -> Seq<EventView>;

/// Whether an event sequence ends with its first final event.
pub open spec fn ends_with_final(evs: Seq<EventView>) -> bool {
    evs.len() > 0 && is_final(evs.last())
}

/// A document being read, with how many of its events were pulled.
pub struct XmlEventStream<'a> {
    reader: XmlReader<'a>,
    doc: Ghost<Seq<u8>>,
    pulled: Ghost<nat>,
}

/// Relies on `xml::reader::EventReader::new`: a reader positioned before the
/// first event of `doc`. Its events end with an end of document or an error,
/// after which it pulls nothing new.
#[verifier::external_body]
fn open_events<'a>(doc: &'a [u8]) -> (s: XmlEventStream<'a>)
    ensures
        s.doc@ == doc@,
        s.pulled@ == 0,
        ends_with_final(xml_events(s.doc@)),
{
    let reader = XmlReader { reader: xml::reader::EventReader::new(doc) };
    XmlEventStream { reader, doc: Ghost(doc@), pulled: Ghost(0) }
}

/// Relies on `xml::reader::EventReader::next`: the next event of the
/// document, each kind of event kept as its own kind, names reduced to
/// local names.
#[verifier::external_body]
fn next_event(s: &mut XmlEventStream) -> (e: XmlEvent)
    requires
        old(s).pulled@ < xml_events(old(s).doc@).len(),
    ensures
        final(s).doc == old(s).doc,
        final(s).pulled@ == old(s).pulled@ + 1,
        e@ == xml_events(old(s).doc@)[old(s).pulled@ as int],
{
    let ev = match s.reader.reader.next() { Ok(ev) => ev, Err(e) => return Malformed(e.to_string()) };
    match ev {
        ReaderEvent::StartDocument { .. } => StartDocument,
        ReaderEvent::StartElement { name, attributes, .. } => StartElement { name: name.local_name,
            attributes: attributes.into_iter().map(|a| XmlAttribute { name: a.name.local_name, value: a.value }).collect() },
        ReaderEvent::EndElement { name } => EndElement { name: name.local_name },
        ReaderEvent::Characters(t) => Characters(t),
        ReaderEvent::Whitespace(t) => Whitespace(t),
        ReaderEvent::CData(t) => CData(t),
        ReaderEvent::Comment(_) => Comment,
        ReaderEvent::ProcessingInstruction { .. } => ProcessingInstruction,
        ReaderEvent::Doctype { .. } => Doctype,
        ReaderEvent::EndDocument => EndDocument,
    }
}

/// A reader of registry range documents.
pub trait WhoisXmlParser {
    /// Reads the ranges of the XML document `xml`.
    fn parse_content(&self, xml: &[u8]) -> (r: Result<WhoisResult, ParseError>)
        ensures
            outcome_view(r) == parse_spec(xml_events(xml@)),
    ;
}

/// The range reader for WHOIS-REST network listings.
#[derive(Debug)]
pub struct StdWhoisXmlParser {}

impl StdWhoisXmlParser {
    pub fn new() -> (r: StdWhoisXmlParser) {
        StdWhoisXmlParser {}
    }
}

impl WhoisXmlParser for StdWhoisXmlParser {
    /// One pass over the document: each event is taken as it is pulled, and
    /// the first error, truncation marker or malformed address ends the read.
    fn parse_content(&self, xml: &[u8]) -> (r: Result<WhoisResult, ParseError>) {
        let mut stream = open_events(xml);
        let ghost evs = xml_events(xml@);
        let mut state = ScanState::new();
        assert(evs.skip(0) =~= evs);
        loop
            invariant
                stream.doc@ == xml@,
                evs == xml_events(xml@),
                ends_with_final(evs),
                stream.pulled@ < evs.len(),
                parse_spec(evs) == run_spec(state@, evs.skip(stream.pulled@ as int)),
            decreases evs.len() - stream.pulled@,
        {
            let ghost k = stream.pulled@ as int;
            let ghost rest = evs.skip(k);
            let ev = next_event(&mut stream);
            assert(rest[0] == evs[k]);
            assert(rest.drop_first() =~= evs.skip(k + 1));
            match state.step(&ev) {
                StepOutcome::Continue => {
                    assert(k + 1 < evs.len()) by {
                        if k + 1 == evs.len() {
                            assert(is_final(evs[k]));
                        }
                    }
                },
                StepOutcome::Finish => return Ok(state.into_result()),
                StepOutcome::Fail(e) => return Err(e),
            }
        }
    }
}

} // verus!
