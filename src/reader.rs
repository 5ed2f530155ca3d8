//! The streaming XML tokenizer (xml-rs), seen as a source of events.
use vstd::prelude::*;
use crate::token::{events_model, Event, ReaderEvent};
use xml::reader::XmlEvent as E;

verus! {

/// The events that the XML tokenizer gives for the document `s`, with its
/// default configuration, up to and including the document end or its
/// first failure.
pub uninterp spec fn xml_events(s: Seq<char>) -> Seq<Event>;

/// Relies on `xml::reader::EventReader::from_str` and its `Events`
/// iterator: every event of the document, converted, ending with the
/// document end or the first failure. The events depend on the text alone.
#[verifier::external_body]
pub fn document_events_of(s: &str) -> (r: Vec<ReaderEvent>)
    ensures
        events_model(r@) == xml_events(s@),
{
    xml::reader::EventReader::from_str(s).into_iter().map(|e| match e {
        Ok(E::StartDocument { .. }) => ReaderEvent::StartDocument,
        Ok(E::EndDocument) => ReaderEvent::EndDocument,
        Ok(E::StartElement { name, .. }) => ReaderEvent::StartElement(name.local_name),
        Ok(E::EndElement { name }) => ReaderEvent::EndElement(name.local_name),
        Ok(E::Characters(t)) | Ok(E::CData(t)) => ReaderEvent::Characters(t),
        Ok(E::Whitespace(t)) => ReaderEvent::Whitespace(t),
        Ok(_) => ReaderEvent::Ignored,
        Err(e) => ReaderEvent::Failed(e.to_string()),
    }).collect()
}

} // verus!
