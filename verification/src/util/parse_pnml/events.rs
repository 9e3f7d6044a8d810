use vstd::prelude::*;
use xml::reader::XmlEvent;
use xml::EventReader;
use crate::util::parse_pnml::error::PnmlParsingError;

verus! {

/// What the reader of a net needs of an event of an XML document.
#[derive(Debug, Clone, PartialEq, Eq)]
pub enum PnmlEvent {
    /// a start tag: the local name of the element, and its attributes by
    /// local name, in the order of the document
    StartElement { name: String, attributes: Vec<(String, String)> },
    /// an end tag: the local name of the element
    EndElement { name: String },
    /// text between tags
    Characters(String),
    /// anything else
    Other,
}

/// An event, apart from how it is stored.
pub enum PnmlEventModel {
    Start(Seq<char>, Seq<(Seq<char>, Seq<char>)>),
    End(Seq<char>),
    Text(Seq<char>),
    Other,
}

/// Attributes, apart from how they are stored.
pub open spec fn attributes_model(attributes: Seq<(String, String)>) -> Seq<(Seq<char>, Seq<char>)> {
    Seq::new(attributes.len(), |i: int| (attributes[i].0@, attributes[i].1@))
}

impl View for PnmlEvent {
    type V = PnmlEventModel;

    open spec fn view(&self) -> PnmlEventModel {
        match self {
            PnmlEvent::StartElement { name, attributes } => PnmlEventModel::Start(name@, attributes_model(attributes@)),
            PnmlEvent::EndElement { name } => PnmlEventModel::End(name@),
            PnmlEvent::Characters(text) => PnmlEventModel::Text(text@),
            PnmlEvent::Other => PnmlEventModel::Other,
        }
    }
}

/// Events, apart from how they are stored.
pub open spec fn events_model(events: Seq<PnmlEvent>) -> Seq<PnmlEventModel> {
    Seq::new(events.len(), |i: int| events[i]@)
}

/// The events that the XML reader finds in a text, up to the end of the
/// document; nothing where the text is no well-formed XML.
pub uninterp spec fn xml_events(text: Seq<char>) -> Option<Seq<PnmlEventModel>>;

/// The events of a text, as the iterator of `xml::EventReader` yields them,
/// each reduced to what the reader of a net needs. Not proved; the contract
/// claims that the events depend on the text alone, and that there is an
/// error exactly where there are no events.
#[verifier::external_body]
pub(crate) fn read_events(text: &str) -> (r: Result<Vec<PnmlEvent>, xml::reader::Error>)
    ensures
        match r {
            Ok(events) => xml_events(text@) == Some(events_model(events@)),
            Err(_) => xml_events(text@) is None,
        },
{
    let mut events = Vec::new();
    for event in EventReader::from_str(text) {
        events.push(match event? {
            XmlEvent::StartElement { name, attributes, .. } => PnmlEvent::StartElement {
                name: name.local_name,
                attributes: attributes.into_iter().map(|a| (a.name.local_name, a.value)).collect(),
            },
            XmlEvent::EndElement { name } => PnmlEvent::EndElement { name: name.local_name },
            XmlEvent::Characters(text) => PnmlEvent::Characters(text),
            _ => PnmlEvent::Other,
        });
    }
    Ok(events)
}

/// The events of a document given as text.
pub fn pnml_events(text: &str) -> (r: Result<Vec<PnmlEvent>, PnmlParsingError>)
    ensures
        match r {
            Ok(events) => xml_events(text@) == Some(events_model(events@)),
            Err(e) => xml_events(text@) is None && e is Xml,
        },
{
    match read_events(text) {
        Ok(events) => Ok(events),
        Err(e) => Err(PnmlParsingError::Xml(e)),
    }
}

} // verus!
