use vstd::prelude::*;

verus! {

/// Why no formula compiler can be made for a net.
#[derive(Debug, Clone, PartialEq, Eq)]
pub enum PetriCtlParsingError {
    /// two places carry labels with one name
    MultiplePlacesHaveTheSameName,
    /// two different transition labels carry one name; as labels are
    /// compared by their names, compiling a net never reports this
    DuplicatedTransitionLabelInContext,
}

impl PetriCtlParsingError {
    /// The error in words.
    pub fn to_string(&self) -> (r: String)
        ensures
            r@ == match self {
                PetriCtlParsingError::MultiplePlacesHaveTheSameName => "multiple places have the same name"@,
                PetriCtlParsingError::DuplicatedTransitionLabelInContext => "duplicated transition label in context"@,
            },
    {
        match self {
            PetriCtlParsingError::MultiplePlacesHaveTheSameName => String::from_str(
                "multiple places have the same name",
            ),
            PetriCtlParsingError::DuplicatedTransitionLabelInContext => String::from_str(
                "duplicated transition label in context",
            ),
        }
    }
}

} // verus!
