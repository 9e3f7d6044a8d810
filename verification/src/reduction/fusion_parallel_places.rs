use vstd::prelude::*;
use crate::maps::{count_at, hash_same};
use crate::model::label::same_place_label;
use crate::model::marking::Marking;
use crate::model::net::PetriNet;
use crate::reduction::edits::drop_place;
use crate::reduction::info::{incoming_of, outgoing_of, PetriNetInfo};
use crate::reduction::pairs::{holds_pair, lemma_earlier_pairs, lists_pairs, next_pair, pairs_below, pairs_left};
use crate::reduction::state::{
    lemma_least_pair_is, lemma_least_pair_none, least_pair, marking_model, marking_without_place, state_of,
    ReductionState,
};

verus! {

pub struct ParallelPlacesPair {
    pub place1_id: usize,
    pub place2_id: usize,
}

impl ParallelPlacesPair {
    pub fn new(place1_id: usize, place2_id: usize) -> (r: Self)
        ensures
            r.place1_id == place1_id,
            r.place2_id == place2_id,
    {
        Self { place1_id, place2_id }
    }
}

/// Where a marking is declared, it puts as many tokens in `p1` as in `p2`.
pub open spec fn equally_marked(m: Option<Map<usize, u32>>, p1: usize, p2: usize) -> bool {
    match m {
        Some(x) => count_at(x, p1) == count_at(x, p2),
        None => true,
    }
}

/// Places `p1` and `p2` carry one label, are fed alike and emptied alike,
/// and start with as many tokens.
pub open spec fn parallel_places(s: ReductionState, p1: usize, p2: usize) -> bool {
    &&& p1 < p2 < s.net.places.len()
    &&& incoming_of(s.net, p1) == incoming_of(s.net, p2)
    &&& outgoing_of(s.net, p1) == outgoing_of(s.net, p2)
    &&& s.net.places[p1 as int] == s.net.places[p2 as int]
    &&& equally_marked(s.marking, p1, p2)
}

/// The first pair of parallel places, if there is one.
pub open spec fn parallel_places_first(s: ReductionState) -> Option<(usize, usize)> {
    least_pair(s.net.places.len(), |a: usize, b: usize| parallel_places(s, a, b))
}

/// The state without the second place of a parallel pair.
pub open spec fn fuse_parallel_places(s: ReductionState, pair: (usize, usize)) -> ReductionState {
    ReductionState { net: s.net.without_place(pair.1), marking: marking_without_place(s.marking, pair.1) }
}

/// Whether the marking, where there is one, puts as many tokens in both
/// places.
fn same_tokens(initial_markings: &Option<Marking>, p1: usize, p2: usize) -> (r: bool)
    ensures
        r == equally_marked(marking_model(*initial_markings), p1, p2),
{
    match initial_markings {
        Some(im) => im.toks(p1) == im.toks(p2),
        None => true,
    }
}

/// parallel places are pairs of places (p1,p2) such that:
/// - both p1 and p2 have the same place label
/// - p1 and p2 have the same number of tokens in the initial marking
/// - p1 and p2 have the same set of incoming transitions from which they take the same number of tokens
/// - p1 and p2 have the same set of outgoing transitions to which they give the same number of tokens
pub fn find_parallel_places(
    petri_net: &PetriNet,
    petri_info: &PetriNetInfo,
    initial_markings: &Option<Marking>,
) -> (r: Option<ParallelPlacesPair>)
    requires
        petri_info.coherent_with(petri_net),
    ensures
        match r {
            Some(x) => parallel_places_first(state_of(*petri_net, *initial_markings)) == Some(
                (x.place1_id, x.place2_id),
            ) && x.place2_id < petri_net.places.len(),
            None => parallel_places_first(state_of(*petri_net, *initial_markings)) is None,
        },
{
    let n = petri_net.places.len();
    let mut walk = pairs_below(n);
    let ghost pairs = pairs_left(walk);
    let ghost s = state_of(*petri_net, *initial_markings);
    let ghost g = |a: usize, b: usize| parallel_places(s, a, b);
    let ghost mut i: int = 0;
    assert(pairs.skip(0) =~= pairs);
    loop
        invariant
            0 <= i <= pairs.len(),
            pairs_left(walk) == pairs.skip(i),
            n == petri_net.places.len(),
            s == state_of(*petri_net, *initial_markings),
            g == |a: usize, b: usize| parallel_places(s, a, b),
            petri_info.coherent_with(petri_net),
            lists_pairs(pairs, n as nat),
            forall|k: int| 0 <= k < i ==> !#[trigger] g(pairs[k].0, pairs[k].1),
        ensures
            i == pairs.len(),
            lists_pairs(pairs, n as nat),
            forall|k: int| 0 <= k < i ==> !#[trigger] g(pairs[k].0, pairs[k].1),
        decreases pairs.len() - i,
    {
        let (place_id1, place_id2) = match next_pair(&mut walk) {
            Some(pair) => pair,
            None => {
                break ;
            },
        };
        assert(pairs.skip(i)[0] == pairs[i]);
        assert(pairs.skip(i).skip(1) =~= pairs.skip(i + 1));
        let place_info1 = &petri_info.places_info[place_id1];
        let place_info2 = &petri_info.places_info[place_id2];
        assert(petri_info@[place_id1 as int] == place_info1@);
        assert(petri_info@[place_id2 as int] == place_info2@);
        assert(place_info1@.incoming == incoming_of(s.net, place_id1));
        assert(place_info2@.incoming == incoming_of(s.net, place_id2));
        assert(place_info1@.outgoing == outgoing_of(s.net, place_id1));
        assert(place_info2@.outgoing == outgoing_of(s.net, place_id2));
        if hash_same(&place_info1.incoming_transitions, &place_info2.incoming_transitions) && hash_same(
            &place_info1.outgoing_transitions,
            &place_info2.outgoing_transitions,
        ) && same_place_label(&petri_net.places[place_id1], &petri_net.places[place_id2]) && same_tokens(
            initial_markings,
            place_id1,
            place_id2,
        ) {
            proof {
                assert(g(place_id1, place_id2));
                assert forall|x: usize, y: usize|
                    x < y < n && (x < place_id1 || (x == place_id1 && y < place_id2)) implies !#[trigger] g(
                    x,
                    y,
                ) by {
                    lemma_earlier_pairs(pairs, n as nat, i, x, y);
                    let k = choose|k: int| 0 <= k < i && #[trigger] pairs[k] == (x, y);
                    assert(!g(pairs[k].0, pairs[k].1));
                }
                lemma_least_pair_is(n as nat, g, place_id1, place_id2);
            }
            return Some(ParallelPlacesPair::new(place_id1, place_id2));
        }
        assert(!g(pairs[i].0, pairs[i].1));
        proof {
            i = i + 1;
        }
    }
    proof {
        assert forall|x: usize, y: usize| x < y < n implies !#[trigger] g(x, y) by {
            assert(holds_pair(pairs, x, y));
            let k = choose|k: int| 0 <= k < pairs.len() && #[trigger] pairs[k] == (x, y);
            assert(!g(pairs[k].0, pairs[k].1));
        }
        lemma_least_pair_none(n as nat, g);
    }
    None
}

pub fn find_and_simplify_parallel_places(
    petri_net: &mut PetriNet,
    petri_info: &mut PetriNetInfo,
    initial_markings: &mut Option<Marking>,
) -> (r: bool)
    requires
        old(petri_net).wf(),
        old(petri_info).coherent_with(old(petri_net)),
    ensures
        r == (parallel_places_first(state_of(*old(petri_net), *old(initial_markings))) is Some),
        r ==> state_of(*final(petri_net), *final(initial_markings)) == fuse_parallel_places(
            state_of(*old(petri_net), *old(initial_markings)),
            parallel_places_first(state_of(*old(petri_net), *old(initial_markings))).unwrap(),
        ),
        r ==> final(petri_net)@.size() < old(petri_net)@.size(),
        !r ==> *final(petri_net) == *old(petri_net),
        !r ==> *final(petri_info) == *old(petri_info),
        !r ==> *final(initial_markings) == *old(initial_markings),
        final(petri_net).wf(),
        final(petri_info).coherent_with(final(petri_net)),
{
    match find_parallel_places(petri_net, petri_info, initial_markings) {
        Some(parallel_places) => {
            // we simply delete any of the two places (let's delete the second)
            match initial_markings {
                Some(mark) => {
                    mark.remove_place(parallel_places.place2_id);
                },
                None => {},
            }
            // and with it its arcs
            drop_place(petri_net, petri_info, parallel_places.place2_id);
            true
        },
        None => false,
    }
}

} // verus!
