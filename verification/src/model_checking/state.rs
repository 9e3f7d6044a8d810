use vstd::prelude::*;
use std::rc::Rc;
use crate::model::label::{same_transition_label, share_transition_label, transition_label_name, PetriTransitionLabel};
use crate::model::marking::Marking;

verus! {

/// What a state of the reachability graph is, apart from how it is stored:
/// a marking, and the name of the tagged label that was fired to reach it,
/// if one was.
pub struct KripkeStateModel {
    pub marking: Map<usize, u32>,
    pub tag: Option<Seq<char>>,
}

/// A state of the reachability graph: a marking and, where the transition
/// fired last carries a tagged label, that label.
#[derive(Debug, Clone, PartialEq, Eq, PartialOrd, Ord, Hash)]
pub struct PetriKripkeState {
    pub marking: Marking,
    pub previous_tagged_transition_label: Option<Rc<PetriTransitionLabel>>,
}

impl View for PetriKripkeState {
    type V = KripkeStateModel;

    open spec fn view(&self) -> KripkeStateModel {
        KripkeStateModel {
            marking: self.marking@,
            tag: transition_label_name(self.previous_tagged_transition_label),
        }
    }
}

impl PetriKripkeState {
    pub fn new(marking: Marking, previous_tagged_transition_label: Option<Rc<PetriTransitionLabel>>) -> (r: Self)
        ensures
            r.marking == marking,
            r.previous_tagged_transition_label == previous_tagged_transition_label,
    {
        Self { marking, previous_tagged_transition_label }
    }

    /// Two states are equal when both their markings and their tags are.
    pub fn same(&self, other: &PetriKripkeState) -> (r: bool)
        ensures
            r == (self@ == other@),
    {
        self.marking.same(&other.marking) && same_transition_label(
            &self.previous_tagged_transition_label,
            &other.previous_tagged_transition_label,
        )
    }

    /// A copy with the same marking and the same tag.
    pub fn duplicate(&self) -> (r: PetriKripkeState)
        ensures
            r@ == self@,
    {
        PetriKripkeState {
            marking: self.marking.duplicate(),
            previous_tagged_transition_label: share_transition_label(&self.previous_tagged_transition_label),
        }
    }
}

} // verus!
