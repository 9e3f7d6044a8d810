use vstd::prelude::*;

verus! {

/// The error of the XML reader; nothing is known of what it holds.
#[verifier::external_type_specification]
#[verifier::external_body]
pub struct ExXmlError(xml::reader::Error);

/// Why a document could not be read as a net.
#[derive(Debug, PartialEq, Eq)]
pub enum PnmlParsingError {
    /// an element lacks an attribute that it must have
    MissingAttribute { att: &'static str, parent: &'static str },
    /// the file could not be opened
    CouldNotOpenFile,
    /// the document is no well-formed XML
    Xml(xml::reader::Error),
    /// an arc joins two transitions, or things that the document does not
    /// declare
    NeitherSourceNotTargetOfArcIsAPlace,
    /// an arc joins a place and something that is no transition
    UnknownTransition,
    /// an initial marking gives no number
    MissingNumberOfTokensInInitialMarking,
    /// after a start tag that announces text, no text follows
    ExpectedTextStart { tag: &'static str },
    /// after some text, the tag that announced it is not closed
    ExpectedTextEnd { tag: &'static str },
    /// the text of an initial marking is no number that a count can hold
    CouldNotParseInitialMarkingTokenNumberToInteger,
    /// the document stops inside an element
    UnexpectedEndOfDocument,
    /// more arcs join a place and a transition than a count can hold
    TooManyArcs,
}

} // verus!
