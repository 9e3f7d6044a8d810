use vstd::prelude::*;

verus! {

/// The names that go with a net: those of its places, and those of the
/// labels of its transitions.
pub struct PetriNetContext {
    /// names of each place, index is id of the place
    pub places_names: Vec<String>,
    /// ids of the labels for each transition, index is the id of the transition
    pub transitions_label_ids: Vec<usize>,
    /// names of each transition label, index is transition label id
    pub transition_labels: Vec<String>,
}

impl PetriNetContext {
    /// Every transition refers to a label that has a name.
    pub open spec fn wf(&self) -> bool {
        forall|t: int|
            0 <= t < self.transitions_label_ids@.len() ==> (#[trigger] self.transitions_label_ids@[t])
                < self.transition_labels@.len()
    }

    pub fn new(places_names: Vec<String>, transitions_label_ids: Vec<usize>, transition_labels: Vec<String>) -> (r:
        Self)
        ensures
            r.places_names == places_names,
            r.transitions_label_ids == transitions_label_ids,
            r.transition_labels == transition_labels,
    {
        Self { places_names, transitions_label_ids, transition_labels }
    }

    pub fn get_transition_label_from_transition_id(&self, tr_id: usize) -> (r: &str)
        requires
            self.wf(),
            tr_id < self.transitions_label_ids@.len(),
        ensures
            r@ == self.transition_labels@[self.transitions_label_ids@[tr_id as int] as int]@,
    {
        let lab_id = self.transitions_label_ids[tr_id];
        self.transition_labels[lab_id].as_str()
    }

    pub fn get_transition_label_from_label_id(&self, lab_id: usize) -> (r: &str)
        requires
            lab_id < self.transition_labels@.len(),
        ensures
            r@ == self.transition_labels@[lab_id as int]@,
    {
        self.transition_labels[lab_id].as_str()
    }

    pub fn get_place_label(&self, place_id: usize) -> (r: &str)
        requires
            place_id < self.places_names@.len(),
        ensures
            r@ == self.places_names@[place_id as int]@,
    {
        self.places_names[place_id].as_str()
    }
}

} // verus!
