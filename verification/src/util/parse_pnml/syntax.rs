use vstd::prelude::*;

verus! {

pub const PNML_NET: &'static str = "net";

pub const PNML_PLACE: &'static str = "place";

pub const PNML_TRANSITION: &'static str = "transition";

pub const PNML_ARC: &'static str = "arc";

pub const PNML_TEXT_ID: &'static str = "id";

pub const PNML_SOURCE: &'static str = "source";

pub const PNML_TARGET: &'static str = "target";

pub const PNML_INITIAL_MARKING: &'static str = "initialMarking";

pub const PNML_TEXT: &'static str = "text";

/// Whether a name read from a document is the given word.
pub fn is_word(name: &String, word: &str) -> (r: bool)
    ensures
        r == (name@ == word@),
{
    *name == String::from_str(word)
}

} // verus!
