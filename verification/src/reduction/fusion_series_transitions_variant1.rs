use vstd::prelude::*;
use crate::maps::{agree, hash_absorb, hash_agree, hash_count, hash_entries};
use crate::model::marking::Marking;
use crate::model::net::{NetModel, PetriNet};
use crate::reduction::edits::{coherent_but, drop_place, drop_transition};
use crate::reduction::info::{incoming_of, outgoing_of, register_incoming, PetriNetInfo};
use crate::reduction::state::{
    lemma_least_is, lemma_least_none, lemma_only_key, lemma_only_key_in, least, marking_without_place,
    only_key, state_of, unmarked, ReductionState,
};

verus! {

broadcast use vstd::std_specs::hash::group_hash_axioms;

pub struct SeriesTransitionsPairVariant1 {
    pub preceding_transition_id: usize,
    pub place_id: usize,
    pub succeeding_transition_id: usize,
}

impl SeriesTransitionsPairVariant1 {
    pub fn new(preceding_transition_id: usize, place_id: usize, succeeding_transition_id: usize) -> (r: Self)
        ensures
            r.preceding_transition_id == preceding_transition_id,
            r.place_id == place_id,
            r.succeeding_transition_id == succeeding_transition_id,
    {
        Self { preceding_transition_id, place_id, succeeding_transition_id }
    }
}

/// Place `p` joins two transitions in series, the second of which can be
/// folded into the first: `p` is unlabelled and unmarked, one transition
/// feeds it and another one empties it, the second is silent and takes
/// tokens from `p` alone, as many as the first gives, and where both feed a
/// further place they feed it alike.
pub open spec fn series_transitions_v1_at(s: ReductionState, p: usize) -> bool {
    let kept = only_key(incoming_of(s.net, p));
    let removed = only_key(outgoing_of(s.net, p));
    let kept_tr = s.net.transitions[kept as int];
    let removed_tr = s.net.transitions[removed as int];
    &&& p < s.net.places.len()
    &&& outgoing_of(s.net, p).len() == 1
    &&& incoming_of(s.net, p).len() == 1
    &&& unmarked(s.marking, p)
    &&& kept != removed
    &&& removed_tr.label is None
    &&& removed_tr.pre.len() == 1
    &&& kept_tr.post[p] == removed_tr.pre[p]
    &&& s.net.places[p as int] is None
    &&& agree(removed_tr.post, kept_tr.post)
}

/// The first place that joins such a pair, if there is one.
pub open spec fn series_transitions_v1_first(s: ReductionState) -> Option<usize> {
    least(s.net.places.len(), |p: usize| series_transitions_v1_at(s, p))
}

/// The net in which transition `removed` is folded into transition `kept`
/// across place `p`, and both `removed` and `p` have left.
pub open spec fn folded_v1(net: NetModel, p: usize, kept: usize, removed: usize) -> NetModel {
    let kept_tr = net.transitions[kept as int];
    let removed_tr = net.transitions[removed as int];
    let net1 = net.without_transition(removed);
    let kept_now = if removed < kept { kept - 1 } else { kept as int };
    let merged = kept_tr.with_post(kept_tr.post.remove(p).union_prefer_right(removed_tr.post));
    let net2 = NetModel { places: net1.places, transitions: net1.transitions.update(kept_now, merged) };
    net2.without_place(p)
}

/// The state in which the pair joined by `p` is fused: the first transition
/// produces what the second produced beside what it produced itself, and
/// the second transition and `p` have left.
pub open spec fn fuse_series_transitions_v1(s: ReductionState, p: usize) -> ReductionState {
    ReductionState {
        net: folded_v1(s.net, p, only_key(incoming_of(s.net, p)), only_key(outgoing_of(s.net, p))),
        marking: marking_without_place(s.marking, p),
    }
}

/// Whether place `place_id` joins such a pair, with the two transitions.
fn series_transitions_variant1_from(
    petri_net: &PetriNet,
    petri_info: &PetriNetInfo,
    initial_markings: &Option<Marking>,
    place_id: usize,
) -> (r: Option<SeriesTransitionsPairVariant1>)
    requires
        petri_net.wf(),
        petri_info.coherent_with(petri_net),
        place_id < petri_net.places.len(),
    ensures
        r is Some == series_transitions_v1_at(state_of(*petri_net, *initial_markings), place_id),
        match r {
            Some(x) => {
                &&& x.place_id == place_id
                &&& x.preceding_transition_id == only_key(incoming_of(petri_net@, place_id))
                &&& x.succeeding_transition_id == only_key(outgoing_of(petri_net@, place_id))
                &&& x.preceding_transition_id < petri_net.transitions.len()
                &&& x.succeeding_transition_id < petri_net.transitions.len()
                &&& x.preceding_transition_id != x.succeeding_transition_id
            },
            None => true,
        },
{
    let ghost net = petri_net@;
    let place_info = &petri_info.places_info[place_id];
    assert(petri_info@[place_id as int] == place_info@);
    assert(place_info@.outgoing == outgoing_of(net, place_id));
    assert(place_info@.incoming == incoming_of(net, place_id));
    // find a place with only one incoming transition and one outgoing transition
    if place_info.outgoing_transitions.len() != 1 || place_info.incoming_transitions.len() != 1 {
        return None;
    }
    // as the place will be deleted, it must not contain tokens in the initial marking
    match initial_markings {
        Some(marks) => {
            if marks.toks(place_id) > 0 {
                return None;
            }
        },
        None => {},
    }
    let out = hash_entries(&place_info.outgoing_transitions);
    let outgoing_transition_id: usize = out[0].0;
    let inc = hash_entries(&place_info.incoming_transitions);
    let incoming_transition_id: usize = inc[0].0;
    proof {
        assert(outgoing_of(net, place_id).contains_key(out@[0].0));
        lemma_only_key(outgoing_of(net, place_id), outgoing_transition_id);
        assert(incoming_of(net, place_id).contains_key(inc@[0].0));
        lemma_only_key(incoming_of(net, place_id), incoming_transition_id);
    }
    let outgoing_transition = &petri_net.transitions[outgoing_transition_id];
    let incoming_transition = &petri_net.transitions[incoming_transition_id];
    assert(net.transitions[outgoing_transition_id as int] == outgoing_transition@);
    assert(net.transitions[incoming_transition_id as int] == incoming_transition@);
    if incoming_transition_id == outgoing_transition_id {
        return None;
    }
    // the outgoing transition must have no label and must only accept tokens from the place
    if outgoing_transition.transition_label.is_some() || outgoing_transition.number_of_preset_places() != 1 {
        return None;
    }
    // both transitions must move the same number of tokens through the place
    let num_toks_to_t2: u32 = hash_count(&outgoing_transition.preset_tokens, place_id);
    let num_toks_from_t1: u32 = hash_count(&incoming_transition.postset_tokens, place_id);
    if num_toks_from_t1 != num_toks_to_t2 {
        return None;
    }
    // the place, that will be deleted, must contain the empty label
    if petri_net.places[place_id].is_some() {
        return None;
    }
    // where both transitions target a place, they must put the same number of tokens in it
    if !hash_agree(&outgoing_transition.postset_tokens, &incoming_transition.postset_tokens) {
        return None;
    }
    Some(SeriesTransitionsPairVariant1::new(incoming_transition_id, place_id, outgoing_transition_id))
}

/// series transitions variant 1 are pairs of transitions (t1,t2) such that:
/// - there exists a single place p such that t1->p->t2
/// - t2 has the empty label
/// - t2 only accepts tokens from p
/// - p only accepts tokens from t1
/// - p only feeds tokens to t2
pub fn find_series_transitions_variant1(
    petri_net: &PetriNet,
    petri_info: &PetriNetInfo,
    initial_markings: &Option<Marking>,
) -> (r: Option<SeriesTransitionsPairVariant1>)
    requires
        petri_net.wf(),
        petri_info.coherent_with(petri_net),
    ensures
        match r {
            Some(x) => {
                &&& series_transitions_v1_first(state_of(*petri_net, *initial_markings)) == Some(x.place_id)
                &&& x.preceding_transition_id == only_key(incoming_of(petri_net@, x.place_id))
                &&& x.succeeding_transition_id == only_key(outgoing_of(petri_net@, x.place_id))
                &&& x.preceding_transition_id < petri_net.transitions.len()
                &&& x.succeeding_transition_id < petri_net.transitions.len()
                &&& x.preceding_transition_id != x.succeeding_transition_id
                &&& x.place_id < petri_net.places.len()
            },
            None => series_transitions_v1_first(state_of(*petri_net, *initial_markings)) is None,
        },
{
    let n = petri_net.places.len();
    let ghost s = state_of(*petri_net, *initial_markings);
    let ghost f = |p: usize| series_transitions_v1_at(s, p);
    let mut place_id: usize = 0;
    while place_id < n
        invariant
            0 <= place_id <= n,
            n == petri_net.places.len(),
            s == state_of(*petri_net, *initial_markings),
            f == |p: usize| series_transitions_v1_at(s, p),
            petri_net.wf(),
            petri_info.coherent_with(petri_net),
            forall|q: usize| q < place_id ==> !#[trigger] f(q),
        decreases n - place_id,
    {
        match series_transitions_variant1_from(petri_net, petri_info, initial_markings, place_id) {
            Some(x) => {
                proof {
                    assert(f(place_id));
                    lemma_least_is(s.net.places.len(), f, place_id);
                }
                return Some(x);
            },
            None => {
                assert(!f(place_id));
            },
        }
        place_id = place_id + 1;
    }
    proof {
        lemma_least_none(s.net.places.len(), f);
    }
    None
}

/// Folds the postset of the removed transition into that of transition
/// `kept`, in the net and in the index.
fn fold_into(
    petri_net: &mut PetriNet,
    petri_info: &mut PetriNetInfo,
    kept: usize,
    place_id: usize,
    folded: &std::collections::HashMap<usize, u32>,
)
    requires
        old(petri_net).wf(),
        old(petri_info).coherent_with(old(petri_net)),
        kept < old(petri_net).transitions.len(),
        place_id < old(petri_net).places.len(),
        forall|q: usize| #[trigger] folded@.contains_key(q) ==> q < old(petri_net).places.len() && folded@[q] > 0,
    ensures
        final(petri_net)@.places == old(petri_net)@.places,
        final(petri_net)@.transitions == old(petri_net)@.transitions.update(
            kept as int,
            old(petri_net)@.transitions[kept as int].with_post(
                old(petri_net)@.transitions[kept as int].post.remove(place_id).union_prefer_right(folded@),
            ),
        ),
        final(petri_net).wf(),
        coherent_but(final(petri_info)@, final(petri_net)@, place_id),
{
    let ghost net1 = petri_net@;
    let ghost info1 = petri_info@;
    assert(net1.transitions[kept as int] == petri_net.transitions@[kept as int]@);
    assert(net1.transitions[kept as int].wf(net1.places.len()));
    // remove the place from the postset of the transition that stays
    petri_net.transitions[kept].postset_tokens.remove(&place_id);
    // and add to it all the arcs of the transition that goes
    hash_absorb(&mut petri_net.transitions[kept].postset_tokens, folded);
    register_incoming(&mut petri_info.places_info, folded, kept);
    proof {
        let net2 = petri_net@;
        let info2 = petri_info@;
        let merged = net1.transitions[kept as int].with_post(
            net1.transitions[kept as int].post.remove(place_id).union_prefer_right(folded@),
        );
        assert(petri_net.transitions@[kept as int]@ == merged);
        assert(net2.transitions =~= net1.transitions.update(kept as int, merged));
        assert(net2.places =~= net1.places);
        assert forall|u: int| 0 <= u < net2.transitions.len() implies (#[trigger] net2.transitions[u]).wf(
            net2.places.len(),
        ) by {
            assert(net1.transitions[u].wf(net1.places.len()));
        }
        assert forall|q: int| 0 <= q < info2.len() && q != place_id implies {
            &&& (#[trigger] info2[q]).incoming == incoming_of(net2, q as usize)
            &&& info2[q].outgoing == outgoing_of(net2, q as usize)
        } by {
            assert(info2[q] == petri_info.places_info@[q]@);
            assert(info1[q] == old(petri_info).places_info@[q]@);
            assert(info1[q].incoming == incoming_of(net1, q as usize));
            assert(info1[q].outgoing == outgoing_of(net1, q as usize));
            assert forall|u: usize| u < net1.transitions.len() && u != kept implies #[trigger] net2.transitions[u as int]
                == net1.transitions[u as int] by {}
            assert(info2[q].incoming =~= incoming_of(net2, q as usize));
            assert(info2[q].outgoing =~= outgoing_of(net2, q as usize));
        }
    }
}

/// Folds transition `removed` into transition `kept` across place
/// `place_id`, and removes `removed` and the place.
fn simplify_series_transitions(
    petri_net: &mut PetriNet,
    petri_info: &mut PetriNetInfo,
    place_id: usize,
    kept: usize,
    removed: usize,
)
    requires
        old(petri_net).wf(),
        old(petri_info).coherent_with(old(petri_net)),
        place_id < old(petri_net).places.len(),
        kept < old(petri_net).transitions.len(),
        removed < old(petri_net).transitions.len(),
        kept != removed,
    ensures
        final(petri_net)@ == folded_v1(old(petri_net)@, place_id, kept, removed),
        final(petri_net)@.size() < old(petri_net)@.size(),
        final(petri_net).wf(),
        final(petri_info).coherent_with(final(petri_net)),
{
    let ghost net0 = petri_net@;
    assert(net0.transitions[removed as int] == petri_net.transitions@[removed as int]@);
    assert(net0.transitions[removed as int].wf(net0.places.len()));
    // remove the succeeding transition
    let removed_transition = drop_transition(petri_net, petri_info, removed);
    let kept_now: usize = if removed < kept { kept - 1 } else { kept };
    let ghost net1 = petri_net@;
    assert(net1.transitions[kept_now as int] == net0.transitions[kept as int]);
    assert(removed_transition@ == net0.transitions[removed as int]);
    fold_into(petri_net, petri_info, kept_now, place_id, &removed_transition.postset_tokens);
    let ghost net2 = petri_net@;
    assert(net2 == (NetModel {
        places: net1.places,
        transitions: net1.transitions.update(
            kept_now as int,
            net0.transitions[kept as int].with_post(
                net0.transitions[kept as int].post.remove(place_id).union_prefer_right(
                    net0.transitions[removed as int].post,
                ),
            ),
        ),
    }));
    // finally, remove the place
    drop_place(petri_net, petri_info, place_id);
}

pub fn find_and_simplify_series_transitions_variant1(
    petri_net: &mut PetriNet,
    petri_info: &mut PetriNetInfo,
    initial_markings: &mut Option<Marking>,
) -> (r: bool)
    requires
        old(petri_net).wf(),
        old(petri_info).coherent_with(old(petri_net)),
    ensures
        r == (series_transitions_v1_first(state_of(*old(petri_net), *old(initial_markings))) is Some),
        r ==> state_of(*final(petri_net), *final(initial_markings)) == fuse_series_transitions_v1(
            state_of(*old(petri_net), *old(initial_markings)),
            series_transitions_v1_first(state_of(*old(petri_net), *old(initial_markings))).unwrap(),
        ),
        r ==> final(petri_net)@.size() < old(petri_net)@.size(),
        !r ==> *final(petri_net) == *old(petri_net),
        !r ==> *final(petri_info) == *old(petri_info),
        !r ==> *final(initial_markings) == *old(initial_markings),
        final(petri_net).wf(),
        final(petri_info).coherent_with(final(petri_net)),
{
    match find_series_transitions_variant1(petri_net, petri_info, initial_markings) {
        Some(series_transitions) => {
            // we remove the place from the initial marking, shifting the indices
            match initial_markings {
                Some(mark) => {
                    mark.remove_place(series_transitions.place_id);
                },
                None => {},
            }
            simplify_series_transitions(
                petri_net,
                petri_info,
                series_transitions.place_id,
                series_transitions.preceding_transition_id,
                series_transitions.succeeding_transition_id,
            );
            true
        },
        None => false,
    }
}

/// Fusing a series of transitions removes a place and a transition.
pub proof fn lemma_fuse_series_transitions_v1_shrinks(s: ReductionState, p: usize)
    requires
        series_transitions_v1_at(s, p),
    ensures
        fuse_series_transitions_v1(s, p).net.size() < s.net.size(),
{
    lemma_only_key_in(outgoing_of(s.net, p));
    lemma_only_key_in(incoming_of(s.net, p));
}

} // verus!
