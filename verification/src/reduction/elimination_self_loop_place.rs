use vstd::prelude::*;
use crate::maps::{hash_entries, hash_same, lists};
use crate::model::marking::Marking;
use crate::model::net::PetriNet;
use crate::reduction::edits::drop_place;
use crate::reduction::info::{incoming_of, outgoing_of, PetriNetInfo};
use crate::reduction::state::{
    lemma_least_is, lemma_least_none, least, marking_model, marking_without_place, state_of, ReductionState,
};

verus! {

broadcast use {vstd::std_specs::hash::group_hash_axioms, vstd::std_specs::btree::group_btree_axioms};

pub struct SelfLoopPlace {
    pub place_id: usize,
}

impl SelfLoopPlace {
    pub fn new(place_id: usize) -> (r: Self)
        ensures
            r.place_id == place_id,
    {
        Self { place_id }
    }
}

/// The marking holds at place `p` at least what any single transition
/// listed in `taken` takes.
pub open spec fn covers(m: Option<Map<usize, u32>>, p: usize, taken: Map<usize, u32>) -> bool {
    match m {
        Some(x) => x.contains_key(p) && forall|t: usize| #[trigger] taken.contains_key(t) ==> taken[t] <= x[p],
        None => false,
    }
}

/// Place `p` can never block a transition: it is unlabelled, every
/// transition gives back to it what it takes from it, and either no
/// transition touches it or the initial marking holds enough for any of
/// them.
pub open spec fn self_loop_place_at(s: ReductionState, p: usize) -> bool {
    &&& p < s.net.places.len()
    &&& outgoing_of(s.net, p) == incoming_of(s.net, p)
    &&& s.net.places[p as int] is None
    &&& (outgoing_of(s.net, p) == Map::<usize, u32>::empty() || covers(s.marking, p, outgoing_of(s.net, p)))
}

/// The first self-loop place, if there is one.
pub open spec fn self_loop_place_first(s: ReductionState) -> Option<usize> {
    least(s.net.places.len(), |p: usize| self_loop_place_at(s, p))
}

/// The state without self-loop place `p`.
pub open spec fn eliminate_self_loop_place(s: ReductionState, p: usize) -> ReductionState {
    ReductionState { net: s.net.without_place(p), marking: marking_without_place(s.marking, p) }
}

/// Whether the marking holds at `place_id` at least what any transition of
/// `taken` takes.
fn marking_covers(initial_markings: &Option<Marking>, place_id: usize, taken: &std::collections::HashMap<usize, u32>) -> (r:
    bool)
    ensures
        r == covers(marking_model(*initial_markings), place_id, taken@),
{
    match initial_markings {
        None => false,
        Some(marks) => match marks.get_num_toks_at_place(&place_id) {
            None => false,
            Some(num_toks_in_place) => {
                let available: u32 = *num_toks_in_place;
                let e = hash_entries(taken);
                let mut i: usize = 0;
                while i < e.len()
                    invariant
                        0 <= i <= e.len(),
                        lists(e@, taken@),
                        *initial_markings == Some(*marks),
                        marks@.contains_key(place_id),
                        marks@[place_id] == available,
                        forall|j: int| 0 <= j < i ==> (#[trigger] e@[j]).1 <= available,
                    decreases e.len() - i,
                {
                    if e[i].1 > available {
                        assert(taken@.contains_key(e@[i as int].0));
                        assert(taken@[e@[i as int].0] > marks@[place_id]);
                        return false;
                    }
                    i = i + 1;
                }
                proof {
                    assert forall|t: usize| #[trigger] taken@.contains_key(t) implies taken@[t] <= available by {
                        let j = choose|j: int| 0 <= j < e@.len() && #[trigger] e@[j].0 == t;
                        assert(taken@[e@[j].0] == e@[j].1);
                    }
                }
                true
            },
        },
    }
}

/// a self-loop place is a place p such that:
/// - it has the empty place label
/// - its map of outgoing transitions to the number of tokens they take is the same as
///   its map of incoming transitions to the number of tokens they give
/// - the number of tokens in p in the initial marking is at least the maximum number of tokens taken by any of its outgoing transitions
/// - let's remark that it also eliminate dead places (i.e. no outgoing nor incoming transitions)
pub fn find_self_loop_place(
    petri_net: &PetriNet,
    petri_info: &PetriNetInfo,
    initial_markings: &Option<Marking>,
) -> (r: Option<SelfLoopPlace>)
    requires
        petri_info.coherent_with(petri_net),
    ensures
        match r {
            Some(x) => self_loop_place_first(state_of(*petri_net, *initial_markings)) == Some(x.place_id)
                && x.place_id < petri_net.places.len(),
            None => self_loop_place_first(state_of(*petri_net, *initial_markings)) is None,
        },
{
    let n = petri_net.places.len();
    let ghost s = state_of(*petri_net, *initial_markings);
    let ghost f = |p: usize| self_loop_place_at(s, p);
    let mut place_id: usize = 0;
    while place_id < n
        invariant
            0 <= place_id <= n,
            n == petri_net.places.len(),
            s == state_of(*petri_net, *initial_markings),
            f == |p: usize| self_loop_place_at(s, p),
            petri_info.coherent_with(petri_net),
            forall|q: usize| q < place_id ==> !#[trigger] f(q),
        decreases n - place_id,
    {
        let place_info = &petri_info.places_info[place_id];
        assert(petri_info@[place_id as int] == place_info@);
        assert(place_info@.outgoing == outgoing_of(s.net, place_id));
        assert(place_info@.incoming == incoming_of(s.net, place_id));
        // the place must have the same maps of incoming and outgoing transitions
        // and, as it will be deleted, the empty place label
        if hash_same(&place_info.outgoing_transitions, &place_info.incoming_transitions)
            && petri_net.places[place_id].is_none() {
            // either the place is dead, i.e. has no outgoing nor incoming transitions,
            // or it holds enough tokens for any of its transitions
            assert(place_info@.outgoing.is_empty() == (place_info@.outgoing =~= Map::<usize, u32>::empty()));
            if place_info.outgoing_transitions.is_empty() || marking_covers(
                initial_markings,
                place_id,
                &place_info.outgoing_transitions,
            ) {
                proof {
                    assert(f(place_id));
                    lemma_least_is(s.net.places.len(), f, place_id);
                }
                return Some(SelfLoopPlace::new(place_id));
            }
        }
        assert(!f(place_id));
        place_id = place_id + 1;
    }
    proof {
        lemma_least_none(s.net.places.len(), f);
    }
    None
}

pub fn find_and_simplify_self_loop_place(
    petri_net: &mut PetriNet,
    petri_info: &mut PetriNetInfo,
    initial_markings: &mut Option<Marking>,
) -> (r: bool)
    requires
        old(petri_net).wf(),
        old(petri_info).coherent_with(old(petri_net)),
    ensures
        r == (self_loop_place_first(state_of(*old(petri_net), *old(initial_markings))) is Some),
        r ==> state_of(*final(petri_net), *final(initial_markings)) == eliminate_self_loop_place(
            state_of(*old(petri_net), *old(initial_markings)),
            self_loop_place_first(state_of(*old(petri_net), *old(initial_markings))).unwrap(),
        ),
        r ==> final(petri_net)@.size() < old(petri_net)@.size(),
        !r ==> *final(petri_net) == *old(petri_net),
        !r ==> *final(petri_info) == *old(petri_info),
        !r ==> *final(initial_markings) == *old(initial_markings),
        final(petri_net).wf(),
        final(petri_info).coherent_with(final(petri_net)),
{
    match find_self_loop_place(petri_net, petri_info, initial_markings) {
        Some(self_loop_place) => {
            // we remove the place from the initial marking, shifting the indices
            match initial_markings {
                Some(im) => {
                    im.remove_place(self_loop_place.place_id);
                },
                None => {},
            }
            // we remove the place from the net, and with it its arcs
            drop_place(petri_net, petri_info, self_loop_place.place_id);
            true
        },
        None => false,
    }
}

} // verus!
