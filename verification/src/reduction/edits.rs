use vstd::prelude::*;
use crate::model::transition::PetriTransition;
use crate::reduction::info::{
    incoming_of, lemma_info_without_place, lemma_info_without_transition, outgoing_of, PetriNetInfo,
    PlaceInfoModel,
};
use crate::model::net::{lemma_without_place_wf, lemma_without_transition_wf, NetModel, PetriNet};

verus! {

/// The index agrees with the net on every place but `p`.
pub open spec fn coherent_but(info: Seq<PlaceInfoModel>, net: NetModel, p: usize) -> bool {
    &&& info.len() == net.places.len()
    &&& forall|q: int|
        0 <= q < info.len() && q != p ==> {
            &&& (#[trigger] info[q]).incoming == incoming_of(net, q as usize)
            &&& info[q].outgoing == outgoing_of(net, q as usize)
        }
}

/// Removes transition `t` from the net and from the index.
pub fn drop_transition(petri_net: &mut PetriNet, petri_info: &mut PetriNetInfo, t: usize) -> (r: PetriTransition)
    requires
        old(petri_net).wf(),
        old(petri_info).coherent_with(old(petri_net)),
        t < old(petri_net).transitions.len(),
    ensures
        r == old(petri_net).transitions@[t as int],
        final(petri_net)@ == old(petri_net)@.without_transition(t),
        final(petri_net).wf(),
        final(petri_info).coherent_with(final(petri_net)),
        final(petri_net)@.size() == old(petri_net)@.size() - 1,
{
    let ghost net0 = petri_net@;
    let ghost info0 = petri_info@;
    let removed = petri_net.remove_transition(t);
    petri_info.remove_transition(t);
    proof {
        let net1 = petri_net@;
        let info1 = petri_info@;
        lemma_without_transition_wf(net0, t);
        assert forall|q: int| 0 <= q < info1.len() implies {
            &&& (#[trigger] info1[q]).incoming == incoming_of(net1, q as usize)
            &&& info1[q].outgoing == outgoing_of(net1, q as usize)
        } by {
            lemma_info_without_transition(net0, t, q as usize);
            assert(info0[q].incoming == incoming_of(net0, q as usize));
        }
    }
    removed
}

/// Removes place `p` from the net and from the index.
pub fn drop_place(petri_net: &mut PetriNet, petri_info: &mut PetriNetInfo, p: usize)
    requires
        old(petri_net).wf(),
        coherent_but(old(petri_info)@, old(petri_net)@, p),
        p < old(petri_net).places.len(),
    ensures
        final(petri_net)@ == old(petri_net)@.without_place(p),
        final(petri_net).wf(),
        final(petri_info).coherent_with(final(petri_net)),
        final(petri_net)@.size() == old(petri_net)@.size() - 1,
{
    let ghost net0 = petri_net@;
    let ghost info0 = petri_info@;
    petri_net.remove_place(p);
    assert(petri_info.places_info.len() == info0.len());
    petri_info.places_info.remove(p);
    proof {
        lemma_without_place_wf(net0, p);
        let net1 = petri_net@;
        let info1 = petri_info@;
        assert forall|q: int| 0 <= q < info1.len() implies {
            &&& (#[trigger] info1[q]).incoming == incoming_of(net1, q as usize)
            &&& info1[q].outgoing == outgoing_of(net1, q as usize)
        } by {
            let src: int = if q < p { q } else { q + 1 };
            assert(info1[q] == petri_info.places_info@[q]@);
            assert(info0[src] == old(petri_info).places_info@[src]@);
            assert(info0[src] == info1[q]);
            lemma_info_without_place(net0, p, q as usize);
        }
    }
}

} // verus!
