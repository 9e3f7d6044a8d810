use vstd::prelude::*;
use std::rc::Rc;
use crate::model::label::{
    place_label_name, share_place_label, share_transition_label, transition_label_name, PetriStateLabel,
    PetriTransitionLabel,
};
use crate::model::transition::{PetriTransition, TransitionModel};

verus! {

/// What a net is, apart from how it is stored: the label names of its places
/// and its transitions, both in order.
pub struct NetModel {
    pub places: Seq<Option<Seq<char>>>,
    pub transitions: Seq<TransitionModel>,
}

impl NetModel {
    /// Every arc of every transition joins an existing place and carries at
    /// least one token.
    pub open spec fn wf(self) -> bool {
        forall|t: int| 0 <= t < self.transitions.len() ==> (#[trigger] self.transitions[t]).wf(self.places.len())
    }

    /// The net once place `p` has left it: the later places move down by
    /// one, in the place list and in every arc.
    pub open spec fn without_place(self, p: usize) -> NetModel {
        NetModel {
            places: self.places.remove(p as int),
            transitions: Seq::new(self.transitions.len(), |t: int| self.transitions[t].without_place(p)),
        }
    }

    /// The net once transition `t` has left it.
    pub open spec fn without_transition(self, t: usize) -> NetModel {
        NetModel { places: self.places, transitions: self.transitions.remove(t as int) }
    }

    /// Places and transitions together.
    pub open spec fn size(self) -> nat {
        self.places.len() + self.transitions.len()
    }
}

/// The label that a relabelling gives: the replacement listed first for the
/// name, or the label itself where the name is not listed.
pub open spec fn relabelled(
    mapping: Seq<(Seq<char>, Option<Seq<char>>)>,
    label: Option<Seq<char>>,
) -> Option<Seq<char>>
    decreases mapping.len(),
{
    match label {
        None => None,
        Some(name) => if mapping.len() == 0 {
            label
        } else if mapping[0].0 == name {
            mapping[0].1
        } else {
            relabelled(mapping.subrange(1, mapping.len() as int), label)
        },
    }
}

/// A relabelling of places as the names it maps.
pub open spec fn place_mapping_names(
    mapping: Seq<(PetriStateLabel, Option<Rc<PetriStateLabel>>)>,
) -> Seq<(Seq<char>, Option<Seq<char>>)> {
    Seq::new(mapping.len(), |i: int| (mapping[i].0@, place_label_name(mapping[i].1)))
}

/// A relabelling of transitions as the names it maps.
pub open spec fn transition_mapping_names(
    mapping: Seq<(PetriTransitionLabel, Option<Rc<PetriTransitionLabel>>)>,
) -> Seq<(Seq<char>, Option<Seq<char>>)> {
    Seq::new(mapping.len(), |i: int| (mapping[i].0@, transition_label_name(mapping[i].1)))
}

#[derive(Debug, Clone, PartialEq, Eq)]
pub struct PetriNet {
    pub places: Vec<Option<Rc<PetriStateLabel>>>,
    pub transitions: Vec<PetriTransition>,
}

impl View for PetriNet {
    type V = NetModel;

    open spec fn view(&self) -> NetModel {
        NetModel {
            places: Seq::new(self.places@.len(), |i: int| place_label_name(self.places@[i])),
            transitions: Seq::new(self.transitions@.len(), |i: int| self.transitions@[i]@),
        }
    }
}

/// The replacement that `mapping` lists first for the label, if it lists
/// one.
fn lookup_place_label(
    mapping: &Vec<(PetriStateLabel, Option<Rc<PetriStateLabel>>)>,
    label: &Option<Rc<PetriStateLabel>>,
) -> (r: Option<Rc<PetriStateLabel>>)
    ensures
        place_label_name(r) == relabelled(place_mapping_names(mapping@), place_label_name(*label)),
{
    match label {
        None => None,
        Some(l) => {
            let ghost names = place_mapping_names(mapping@);
            assert(names.subrange(0, names.len() as int) =~= names);
            let mut i: usize = 0;
            while i < mapping.len()
                invariant
                    0 <= i <= mapping.len(),
                    *label == Some(*l),
                    names == place_mapping_names(mapping@),
                    relabelled(names, Some(l@)) == relabelled(names.subrange(i as int, names.len() as int), Some(l@)),
                decreases mapping.len() - i,
            {
                let ghost rest = names.subrange(i as int, names.len() as int);
                assert(rest[0] == names[i as int]);
                assert(rest.subrange(1, rest.len() as int) =~= names.subrange(i + 1, names.len() as int));
                if mapping[i].0.same_name(l) {
                    assert(relabelled(rest, Some(l@)) == rest[0].1);
                    return share_place_label(&mapping[i].1);
                }
                assert(relabelled(rest, Some(l@)) == relabelled(rest.subrange(1, rest.len() as int), Some(l@)));
                i = i + 1;
            }
            assert(names.subrange(i as int, names.len() as int).len() == 0);
            Some(l.clone())
        },
    }
}

/// The replacement that `mapping` lists first for the label, if it lists
/// one.
fn lookup_transition_label(
    mapping: &Vec<(PetriTransitionLabel, Option<Rc<PetriTransitionLabel>>)>,
    label: &Option<Rc<PetriTransitionLabel>>,
) -> (r: Option<Rc<PetriTransitionLabel>>)
    ensures
        transition_label_name(r) == relabelled(
            transition_mapping_names(mapping@),
            transition_label_name(*label),
        ),
{
    match label {
        None => None,
        Some(l) => {
            let ghost names = transition_mapping_names(mapping@);
            assert(names.subrange(0, names.len() as int) =~= names);
            let mut i: usize = 0;
            while i < mapping.len()
                invariant
                    0 <= i <= mapping.len(),
                    *label == Some(*l),
                    names == transition_mapping_names(mapping@),
                    relabelled(names, Some(l@)) == relabelled(names.subrange(i as int, names.len() as int), Some(l@)),
                decreases mapping.len() - i,
            {
                let ghost rest = names.subrange(i as int, names.len() as int);
                assert(rest[0] == names[i as int]);
                assert(rest.subrange(1, rest.len() as int) =~= names.subrange(i + 1, names.len() as int));
                if mapping[i].0.same_name(l) {
                    assert(relabelled(rest, Some(l@)) == rest[0].1);
                    return share_transition_label(&mapping[i].1);
                }
                assert(relabelled(rest, Some(l@)) == relabelled(rest.subrange(1, rest.len() as int), Some(l@)));
                i = i + 1;
            }
            assert(names.subrange(i as int, names.len() as int).len() == 0);
            Some(l.clone())
        },
    }
}

impl PetriNet {
    /// Every arc of every transition joins an existing place and carries at
    /// least one token.
    pub open spec fn wf(&self) -> bool {
        self@.wf()
    }

    /// Removes a place: the later places move down by one, and every arc
    /// follows.
    pub fn remove_place(&mut self, place_to_remove_id: usize)
        requires
            place_to_remove_id < old(self).places.len(),
        ensures
            final(self)@ == old(self)@.without_place(place_to_remove_id),
            old(self).wf() ==> final(self).wf(),
    {
        proof {
            if self.wf() {
                lemma_without_place_wf(self@, place_to_remove_id);
            }
        }
        let n = self.transitions.len();
        let mut i: usize = 0;
        while i < n
            invariant
                0 <= i <= n,
                n == self.transitions.len(),
                self.places == old(self).places,
                self.transitions.len() == old(self).transitions.len(),
                forall|t: int| 0 <= t < i ==> (#[trigger] self.transitions@[t])@ == old(self).transitions@[t]@.without_place(
                    place_to_remove_id,
                ),
                forall|t: int| i <= t < n ==> #[trigger] self.transitions@[t] == old(self).transitions@[t],
            decreases n - i,
        {
            self.transitions[i].remove_place(place_to_remove_id);
            i = i + 1;
        }
        self.places.remove(place_to_remove_id);
        assert(self@.places =~= old(self)@.without_place(place_to_remove_id).places);
        assert(self@.transitions =~= old(self)@.without_place(place_to_remove_id).transitions);
    }

    /// Removes a transition: the later transitions move down by one.
    pub fn remove_transition(&mut self, transition_to_remove_id: usize) -> (r: PetriTransition)
        requires
            transition_to_remove_id < old(self).transitions.len(),
        ensures
            final(self)@ == old(self)@.without_transition(transition_to_remove_id),
            r == old(self).transitions@[transition_to_remove_id as int],
            old(self).wf() ==> final(self).wf(),
    {
        proof {
            if self.wf() {
                lemma_without_transition_wf(self@, transition_to_remove_id);
            }
        }
        let r = self.transitions.remove(transition_to_remove_id);
        assert(self@.transitions =~= old(self)@.without_transition(transition_to_remove_id).transitions);
        assert(self@.places =~= old(self)@.places);
        r
    }

    pub fn new(places: Vec<Option<Rc<PetriStateLabel>>>, transitions: Vec<PetriTransition>) -> (r: Self)
        ensures
            r.places == places,
            r.transitions == transitions,
    {
        Self { places, transitions }
    }

    pub fn new_empty() -> (r: Self)
        ensures
            r.places@.len() == 0,
            r.transitions@.len() == 0,
            r.wf(),
    {
        Self { places: Vec::new(), transitions: Vec::new() }
    }

    /// Appends a place and returns its identifier.
    pub fn add_place(&mut self, place_label: Option<Rc<PetriStateLabel>>) -> (r: usize)
        ensures
            r == old(self).places@.len(),
            final(self).places@ == old(self).places@.push(place_label),
            final(self).transitions == old(self).transitions,
            old(self).wf() ==> final(self).wf(),
    {
        let state_id = self.places.len();
        self.places.push(place_label);
        proof {
            if old(self).wf() {
                assert forall|t: int| 0 <= t < self@.transitions.len() implies (#[trigger] self@.transitions[t]).wf(
                    self@.places.len(),
                ) by {
                    assert(old(self)@.transitions[t].wf(old(self)@.places.len()));
                }
            }
        }
        state_id
    }

    /// Appends a transition and returns its identifier.
    pub fn add_transition(&mut self, transition: PetriTransition) -> (r: usize)
        ensures
            r == old(self).transitions@.len(),
            final(self).transitions@ == old(self).transitions@.push(transition),
            final(self).places == old(self).places,
            old(self).wf() && transition@.wf(old(self).places@.len()) ==> final(self).wf(),
    {
        let tr_id = self.transitions.len();
        self.transitions.push(transition);
        proof {
            if old(self).wf() && transition@.wf(old(self).places@.len()) {
                assert forall|t: int| 0 <= t < self@.transitions.len() implies (#[trigger] self@.transitions[t]).wf(
                    self@.places.len(),
                ) by {
                    if t < tr_id {
                        assert(old(self)@.transitions[t].wf(old(self)@.places.len()));
                    }
                }
            }
        }
        tr_id
    }

    /// Replaces the label of every place whose name the relabelling lists,
    /// by the replacement listed first for it; the arcs stay.
    pub fn relabel_places(&mut self, relabbelling: Vec<(PetriStateLabel, Option<Rc<PetriStateLabel>>)>)
        ensures
            final(self)@.transitions == old(self)@.transitions,
            final(self)@.places.len() == old(self)@.places.len(),
            forall|p: int|
                0 <= p < old(self)@.places.len() ==> #[trigger] final(self)@.places[p] == relabelled(
                    place_mapping_names(relabbelling@),
                    old(self)@.places[p],
                ),
            old(self).wf() ==> final(self).wf(),
    {
        let n = self.places.len();
        let mut i: usize = 0;
        while i < n
            invariant
                0 <= i <= n,
                n == self.places.len(),
                n == old(self).places.len(),
                self.transitions == old(self).transitions,
                forall|p: int|
                    0 <= p < i ==> place_label_name(#[trigger] self.places@[p]) == relabelled(
                        place_mapping_names(relabbelling@),
                        place_label_name(old(self).places@[p]),
                    ),
                forall|p: int| i <= p < n ==> #[trigger] self.places@[p] == old(self).places@[p],
            decreases n - i,
        {
            let new_lab = lookup_place_label(&relabbelling, &self.places[i]);
            self.places.set(i, new_lab);
            i = i + 1;
        }
        proof {
            if old(self).wf() {
                assert forall|t: int| 0 <= t < self@.transitions.len() implies (#[trigger] self@.transitions[t]).wf(
                    self@.places.len(),
                ) by {
                    assert(old(self)@.transitions[t].wf(old(self)@.places.len()));
                }
            }
        }
    }

    /// Replaces the label of every transition whose name the relabelling
    /// lists, by the replacement listed first for it; the arcs stay.
    pub fn relabel_transitions(
        &mut self,
        relabbelling: Vec<(PetriTransitionLabel, Option<Rc<PetriTransitionLabel>>)>,
    )
        ensures
            final(self)@.places == old(self)@.places,
            final(self)@.transitions.len() == old(self)@.transitions.len(),
            forall|t: int|
                0 <= t < old(self)@.transitions.len() ==> {
                    &&& (#[trigger] final(self)@.transitions[t]).label == relabelled(
                        transition_mapping_names(relabbelling@),
                        old(self)@.transitions[t].label,
                    )
                    &&& final(self)@.transitions[t].pre == old(self)@.transitions[t].pre
                    &&& final(self)@.transitions[t].post == old(self)@.transitions[t].post
                },
            old(self).wf() ==> final(self).wf(),
    {
        let n = self.transitions.len();
        let mut i: usize = 0;
        while i < n
            invariant
                0 <= i <= n,
                n == self.transitions.len(),
                n == old(self).transitions.len(),
                self.places == old(self).places,
                forall|t: int|
                    0 <= t < i ==> {
                        &&& (#[trigger] self.transitions@[t])@.label == relabelled(
                            transition_mapping_names(relabbelling@),
                            old(self).transitions@[t]@.label,
                        )
                        &&& self.transitions@[t]@.pre == old(self).transitions@[t]@.pre
                        &&& self.transitions@[t]@.post == old(self).transitions@[t]@.post
                    },
                forall|t: int| i <= t < n ==> #[trigger] self.transitions@[t] == old(self).transitions@[t],
            decreases n - i,
        {
            let new_lab = lookup_transition_label(&relabbelling, &self.transitions[i].transition_label);
            self.transitions[i].transition_label = new_lab;
            i = i + 1;
        }
        assert(self@.places =~= old(self)@.places);
        proof {
            if old(self).wf() {
                assert forall|t: int| 0 <= t < self@.transitions.len() implies (#[trigger] self@.transitions[t]).wf(
                    self@.places.len(),
                ) by {
                    assert(old(self)@.transitions[t].wf(old(self)@.places.len()));
                }
            }
        }
    }
}

/// Removing a place keeps a net well formed.
pub proof fn lemma_without_place_wf(net: NetModel, p: usize)
    requires
        net.wf(),
        p < net.places.len(),
    ensures
        net.without_place(p).wf(),
        net.without_place(p).places.len() == net.places.len() - 1,
        net.without_place(p).transitions.len() == net.transitions.len(),
{
    let after = net.without_place(p);
    assert forall|t: int| 0 <= t < after.transitions.len() implies (#[trigger] after.transitions[t]).wf(
        after.places.len(),
    ) by {
        assert(net.transitions[t].wf(net.places.len()));
    }
}

/// Removing a transition keeps a net well formed.
pub proof fn lemma_without_transition_wf(net: NetModel, t: usize)
    requires
        net.wf(),
        t < net.transitions.len(),
    ensures
        net.without_transition(t).wf(),
        net.without_transition(t).places.len() == net.places.len(),
        net.without_transition(t).transitions.len() == net.transitions.len() - 1,
{
    let after = net.without_transition(t);
    assert forall|u: int| 0 <= u < after.transitions.len() implies (#[trigger] after.transitions[u]).wf(
        after.places.len(),
    ) by {
        assert(after.transitions[u] == net.transitions[if u < t { u } else { u + 1 }]);
        assert(net.transitions[if u < t { u } else { u + 1 }].wf(net.places.len()));
    }
}


} // verus!
