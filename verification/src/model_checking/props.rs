use vstd::prelude::*;
use std::rc::Rc;
use crate::maps::count_at;
use crate::model::label::PetriTransitionLabel;
use crate::model::marking::Marking;
use crate::model_checking::state::{KripkeStateModel, PetriKripkeState};

verus! {

/// One side of a comparison of token counts.
#[derive(Debug, PartialEq, Eq, Clone, PartialOrd, Ord, Hash)]
pub enum TokensCountAtom {
    RawInteger(u32),
    NumberOfTokensInPlace(usize),
}

/// The number that an atom stands for at a marking: the literal, or the
/// tokens at the place, zero where the place is not marked.
pub open spec fn atom_value(atom: TokensCountAtom, marking: Map<usize, u32>) -> u32 {
    match atom {
        TokensCountAtom::RawInteger(raw_int) => raw_int,
        TokensCountAtom::NumberOfTokensInPlace(place_id) => count_at(marking, place_id),
    }
}

impl TokensCountAtom {
    pub fn interpret_as_u32(&self, marking: &Marking) -> (r: u32)
        ensures
            r == atom_value(*self, marking@),
    {
        match self {
            TokensCountAtom::RawInteger(raw_int) => *raw_int,
            TokensCountAtom::NumberOfTokensInPlace(place_id) => marking.toks(*place_id),
        }
    }
}

#[derive(Debug, PartialEq, Eq, Clone, PartialOrd, Ord, Hash)]
pub enum TokensCountRelation {
    StrictlyGreater,
    GreaterOrEqual,
    Equal,
    LowerOrEqual,
    StrictlyLower,
}

/// Whether the relation holds between two numbers.
pub open spec fn relation_holds(rel: TokensCountRelation, left: u32, right: u32) -> bool {
    match rel {
        TokensCountRelation::StrictlyGreater => left > right,
        TokensCountRelation::GreaterOrEqual => left >= right,
        TokensCountRelation::Equal => left == right,
        TokensCountRelation::LowerOrEqual => left <= right,
        TokensCountRelation::StrictlyLower => left < right,
    }
}

impl TokensCountRelation {
    pub fn eval(&self, left: u32, right: u32) -> (r: bool)
        ensures
            r == relation_holds(*self, left, right),
    {
        match self {
            TokensCountRelation::StrictlyGreater => left > right,
            TokensCountRelation::GreaterOrEqual => left >= right,
            TokensCountRelation::Equal => left == right,
            TokensCountRelation::LowerOrEqual => left <= right,
            TokensCountRelation::StrictlyLower => left < right,
        }
    }

    /// A copy of the relation.
    pub fn duplicate(&self) -> (r: TokensCountRelation)
        ensures
            r == *self,
    {
        match self {
            TokensCountRelation::StrictlyGreater => TokensCountRelation::StrictlyGreater,
            TokensCountRelation::GreaterOrEqual => TokensCountRelation::GreaterOrEqual,
            TokensCountRelation::Equal => TokensCountRelation::Equal,
            TokensCountRelation::LowerOrEqual => TokensCountRelation::LowerOrEqual,
            TokensCountRelation::StrictlyLower => TokensCountRelation::StrictlyLower,
        }
    }
}

impl TokensCountAtom {
    /// A copy of the atom.
    pub fn duplicate(&self) -> (r: TokensCountAtom)
        ensures
            r == *self,
    {
        match self {
            TokensCountAtom::RawInteger(raw_int) => TokensCountAtom::RawInteger(*raw_int),
            TokensCountAtom::NumberOfTokensInPlace(place_id) => TokensCountAtom::NumberOfTokensInPlace(*place_id),
        }
    }
}

/// The primitive propositions about a state of the reachability graph.
#[derive(Debug, PartialEq, Eq, Clone, PartialOrd, Ord, Hash)]
pub enum BuiltinPetriAtomicProposition {
    /// the relation holds between the two atoms at the state's marking
    TokensCount(TokensCountRelation, TokensCountAtom, TokensCountAtom),
    /// the state was reached by firing a transition with this tagged label
    PreviousTransitionLabelMustBe(Rc<PetriTransitionLabel>),
}

/// Whether a primitive proposition holds of a state.
pub open spec fn satisfied(prop: BuiltinPetriAtomicProposition, state: KripkeStateModel) -> bool {
    match prop {
        BuiltinPetriAtomicProposition::TokensCount(rel, left, right) => relation_holds(
            rel,
            atom_value(left, state.marking),
            atom_value(right, state.marking),
        ),
        BuiltinPetriAtomicProposition::PreviousTransitionLabelMustBe(lab) => state.tag == Some(lab@),
    }
}

impl BuiltinPetriAtomicProposition {
    pub fn is_satisfied_on_state_domain(&self, state_domain: &PetriKripkeState) -> (r: bool)
        ensures
            r == satisfied(*self, state_domain@),
    {
        match self {
            BuiltinPetriAtomicProposition::TokensCount(rel, left, right) => {
                let left_int = left.interpret_as_u32(&state_domain.marking);
                let right_int = right.interpret_as_u32(&state_domain.marking);
                rel.eval(left_int, right_int)
            },
            BuiltinPetriAtomicProposition::PreviousTransitionLabelMustBe(lab) => {
                match &state_domain.previous_tagged_transition_label {
                    Some(got_lab) => got_lab.same_name(lab),
                    None => false,
                }
            },
        }
    }

    /// A copy of the proposition.
    pub fn duplicate(&self) -> (r: BuiltinPetriAtomicProposition)
        ensures
            r == *self,
    {
        match self {
            BuiltinPetriAtomicProposition::TokensCount(rel, left, right) => BuiltinPetriAtomicProposition::TokensCount(
                rel.duplicate(),
                left.duplicate(),
                right.duplicate(),
            ),
            BuiltinPetriAtomicProposition::PreviousTransitionLabelMustBe(lab) => {
                BuiltinPetriAtomicProposition::PreviousTransitionLabelMustBe(lab.clone())
            },
        }
    }
}

} // verus!
