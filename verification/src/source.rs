//! The boundary to the external event source: the tokenizer that turns
//! document bytes into the event stream the validator consumes.

use vstd::prelude::*;
use crate::events::{event_views, render_messages, violation_message, Attribute, ParseEvent,
    SpecEvent, SpecViolation, Verdict};
use crate::validate::{stream_violations, validate};
use xml::reader::{EventReader, XmlEvent};

verus! {

/// The event stream that the external tokenizer produces for a byte
/// sequence. The tokenizer is deterministic, so the stream is a function
/// of the bytes alone; nothing more is assumed of it here.
pub uninterp spec fn tokenize(input: Seq<u8>) -> Seq<SpecEvent>;

/// Relies on xml's `EventReader`, driven over a byte slice: it yields the
/// document's element starts with their attributes, element ends and
/// character data in order, with entities in text and attribute values
/// already decoded, and an error event where the bytes break XML syntax,
/// after which it stops. The event sequence depends on the bytes alone.
#[verifier::external_body]
fn tokenize_bytes(input: &[u8]) -> (events: Vec<ParseEvent>)
    ensures
        event_views(events@) == tokenize(input@),
{
    let mut events = Vec::new();
    for event in EventReader::new(input) {
        match event {
            Ok(XmlEvent::StartElement { name, attributes, .. }) => events.push(ParseEvent::ElementStart {
                name: name.local_name,
                attributes: attributes.into_iter().map(|a| Attribute { name: a.name.local_name, value: a.value }).collect(),
            }),
            Ok(XmlEvent::EndElement { name }) => events.push(ParseEvent::ElementEnd { name: name.local_name }),
            Ok(XmlEvent::Characters(text)) => events.push(ParseEvent::CharacterData { text }),
            Err(e) => events.push(ParseEvent::SourceError { detail: e.msg() }),
            _ => {},
        }
    }
    events
}

/// Tokenizes a document's bytes and validates the resulting event stream
/// in one pass: `Ok(true)` when the stream carries no violation, otherwise
/// the complete ordered list of violation report lines.
pub fn is_wellformed(input: &[u8]) -> (r: Result<bool, Vec<String>>)
    ensures
        r is Ok <==> stream_violations(tokenize(input@)).len() == 0,
        r matches Ok(b) ==> b,
        r matches Err(messages) ==> messages@.map(|i: int, m: String| m@) == stream_violations(
            tokenize(input@),
        ).map(|i: int, v: SpecViolation| violation_message(v)),
{
    let events = tokenize_bytes(input);
    let verdict = validate(&events);
    match verdict {
        Verdict::WellFormed => Ok(true),
        Verdict::NotWellFormed(violations) => Err(render_messages(&violations)),
    }
}

} // verus!
