use std::collections::{BTreeMap, HashMap};
use std::rc::Rc;

use petricheck::model::label::{PetriStateLabel, PetriTransitionLabel};
use petricheck::model::marking::Marking;
use petricheck::model::net::PetriNet;
use petricheck::model::transition::PetriTransition;
use petricheck::util::parse_pnml::content::{read_pnml, read_pnml_content, read_pnml_text, PnmlFileContent};
use petricheck::util::parse_pnml::error::PnmlParsingError;
use petricheck::util::parse_pnml::events::{pnml_events, PnmlEvent};
use petricheck::util::parse_pnml::extract::{read_pnml_first_pass, PnmlParsingFirstPass};
use petricheck::util::parse_pnml::syntax::{is_word, PNML_ARC, PNML_PLACE, PNML_SOURCE, PNML_TARGET, PNML_TEXT, PNML_TEXT_ID, PNML_TRANSITION};

fn arcs(entries: &[(usize, u32)]) -> HashMap<usize, u32> {
    entries.iter().cloned().collect()
}

fn place(name: &str) -> Option<Rc<PetriStateLabel>> {
    Some(Rc::new(PetriStateLabel::new(name.to_string())))
}

fn label(name: &str) -> Option<Rc<PetriTransitionLabel>> {
    Some(Rc::new(PetriTransitionLabel::new(name.to_string())))
}

fn in_net(body: &str) -> String {
    format!("<?xml version=\"1.0\"?><pnml><net id=\"n\"><page id=\"g\">{}</page></net></pnml>", body)
}

fn start(name: &str, attributes: &[(&str, &str)]) -> PnmlEvent {
    PnmlEvent::StartElement {
        name: name.to_string(),
        attributes: attributes.iter().map(|(k, v)| (k.to_string(), v.to_string())).collect(),
    }
}

fn end(name: &str) -> PnmlEvent {
    PnmlEvent::EndElement { name: name.to_string() }
}

#[test]
pub fn document_is_read_as_a_net() {
    let text = in_net(
        "<place id=\"p1\"><name><text>first</text></name><initialMarking><text>3</text></initialMarking></place>\
         <place id=\"p2\"/>\
         <transition id=\"t1\"><name><text>go</text></name></transition>\
         <transition id=\"t2\"/>\
         <arc id=\"a1\" source=\"p1\" target=\"t1\"/>\
         <arc id=\"a2\" source=\"t1\" target=\"p2\"/>\
         <arc id=\"a3\" source=\"t1\" target=\"p2\"/>\
         <arc id=\"a4\" source=\"p2\" target=\"t2\"/>",
    );
    let expected = PnmlFileContent::new(
        PetriNet::new(
            vec![place("p1"), place("p2")],
            vec![
                PetriTransition::new(label("t1"), arcs(&[(0, 1)]), arcs(&[(1, 2)])),
                PetriTransition::new(label("t2"), arcs(&[(1, 1)]), arcs(&[])),
            ],
        ),
        Marking::new(BTreeMap::from([(0, 3)])),
        vec![("p1".to_string(), 0), ("p2".to_string(), 1)],
    );
    assert_eq!(read_pnml_text(&text), Ok(expected));
}

#[test]
pub fn events_are_those_of_the_document() {
    let events = pnml_events("<a x=\"1\" y=\"2\"><b>hi</b><!-- note --></a>").unwrap();
    let kept: Vec<PnmlEvent> = events.into_iter().filter(|e| *e != PnmlEvent::Other).collect();
    assert_eq!(
        kept,
        vec![
            start("a", &[("x", "1"), ("y", "2")]),
            start("b", &[]),
            PnmlEvent::Characters("hi".to_string()),
            end("b"),
            end("a"),
        ]
    );
    assert!(matches!(pnml_events("<a><b></a>"), Err(PnmlParsingError::Xml(_))));
    assert!(matches!(read_pnml_text("<pnml><net>"), Err(PnmlParsingError::Xml(_))));
}

#[test]
pub fn malformed_nets_are_refused() {
    let read = |body: &str| read_pnml_text(&in_net(body));
    assert_eq!(read("<place/>"), Err(PnmlParsingError::MissingAttribute { att: PNML_TEXT_ID, parent: PNML_PLACE }));
    assert_eq!(
        read("<transition name=\"t\"/>"),
        Err(PnmlParsingError::MissingAttribute { att: PNML_TEXT_ID, parent: PNML_TRANSITION })
    );
    assert_eq!(
        read("<arc id=\"a\" target=\"t\"/>"),
        Err(PnmlParsingError::MissingAttribute { att: PNML_SOURCE, parent: PNML_ARC })
    );
    assert_eq!(
        read("<arc id=\"a\" source=\"t\"/>"),
        Err(PnmlParsingError::MissingAttribute { att: PNML_TARGET, parent: PNML_ARC })
    );
    // place to place, place to nothing, transition to transition
    let net = "<place id=\"p\"/><place id=\"q\"/><transition id=\"t\"/><transition id=\"u\"/>";
    assert_eq!(
        read(&format!("{}<arc id=\"a\" source=\"p\" target=\"q\"/>", net)),
        Err(PnmlParsingError::UnknownTransition)
    );
    assert_eq!(
        read(&format!("{}<arc id=\"a\" source=\"x\" target=\"q\"/>", net)),
        Err(PnmlParsingError::UnknownTransition)
    );
    assert_eq!(
        read(&format!("{}<arc id=\"a\" source=\"t\" target=\"u\"/>", net)),
        Err(PnmlParsingError::NeitherSourceNotTargetOfArcIsAPlace)
    );
    // initial markings
    assert_eq!(
        read("<place id=\"p\"><initialMarking><text>many</text></initialMarking></place>"),
        Err(PnmlParsingError::CouldNotParseInitialMarkingTokenNumberToInteger)
    );
    assert_eq!(
        read("<place id=\"p\"><initialMarking><text>4294967296</text></initialMarking></place>"),
        Err(PnmlParsingError::CouldNotParseInitialMarkingTokenNumberToInteger)
    );
    assert_eq!(
        read("<place id=\"p\"><initialMarking><text>-1</text></initialMarking></place>"),
        Err(PnmlParsingError::CouldNotParseInitialMarkingTokenNumberToInteger)
    );
    assert_eq!(
        read("<place id=\"p\"><initialMarking></initialMarking></place>"),
        Err(PnmlParsingError::MissingNumberOfTokensInInitialMarking)
    );
    assert_eq!(
        read("<place id=\"p\"><initialMarking><text><b/></text></initialMarking></place>"),
        Err(PnmlParsingError::ExpectedTextStart { tag: PNML_TEXT })
    );
    assert_eq!(
        read("<place id=\"p\"><initialMarking><text>1<b/></text></initialMarking></place>"),
        Err(PnmlParsingError::ExpectedTextEnd { tag: PNML_TEXT })
    );
    // no net at all
    assert_eq!(read_pnml_text("<pnml><page/></pnml>"), Err(PnmlParsingError::UnexpectedEndOfDocument));
}

#[test]
pub fn initial_markings_are_numbers() {
    let read = |number: &str| {
        read_pnml_text(&in_net(&format!(
            "<place id=\"p\"><initialMarking><text>{}</text></initialMarking></place><place id=\"q\"/>",
            number
        )))
        .map(|content| content.initial_marking)
    };
    assert_eq!(read("0"), Ok(Marking::new(BTreeMap::new())));
    assert_eq!(read("+7"), Ok(Marking::new(BTreeMap::from([(0, 7)]))));
    assert_eq!(read("007"), Ok(Marking::new(BTreeMap::from([(0, 7)]))));
    assert_eq!(read("4294967295"), Ok(Marking::new(BTreeMap::from([(0, u32::MAX)]))));
    assert_eq!(read("7 "), Err(PnmlParsingError::CouldNotParseInitialMarkingTokenNumberToInteger));
    assert_eq!(read("+"), Err(PnmlParsingError::CouldNotParseInitialMarkingTokenNumberToInteger));
}

#[test]
pub fn lists_of_events_are_read_without_a_document() {
    // a list that stops inside a place
    let cut = vec![start("net", &[]), start("place", &[("id", "p")])];
    assert_eq!(read_pnml(&cut), Err(PnmlParsingError::UnexpectedEndOfDocument));
    assert_eq!(read_pnml_first_pass(&cut, 1), Err(PnmlParsingError::UnexpectedEndOfDocument));
    // the last attribute of a name counts, and a transition declared twice is one transition
    let events = vec![
        PnmlEvent::Other,
        start("net", &[]),
        start("place", &[("id", "early"), ("id", "p")]),
        end("place"),
        start("transition", &[("id", "t")]),
        end("transition"),
        start("transition", &[("id", "t")]),
        end("transition"),
        start("arc", &[("source", "t"), ("target", "p")]),
        PnmlEvent::Characters("ignored".to_string()),
        end("arc"),
        end("net"),
        start("place", &[("id", "after")]),
    ];
    let first_pass = read_pnml_first_pass(&events, 2).unwrap();
    assert_eq!(
        first_pass,
        PnmlParsingFirstPass::new(
            1,
            vec![("p".to_string(), 0)],
            vec![0],
            vec!["t".to_string()],
            vec![("t".to_string(), "p".to_string())],
        )
    );
    let content = read_pnml_content(first_pass).unwrap();
    assert_eq!(
        content.petri_net,
        PetriNet::new(vec![place("p")], vec![PetriTransition::new(label("t"), arcs(&[]), arcs(&[(0, 1)]))])
    );
    assert_eq!(read_pnml(&events).unwrap().petri_net, content.petri_net);
    assert!(is_word(&"place".to_string(), PNML_PLACE));
    assert!(!is_word(&"places".to_string(), PNML_PLACE));
}
