use vstd::prelude::*;
use crate::model::marking::Marking;
use crate::model::net::PetriNet;
use crate::reduction::elimination_self_loop_place::{
    eliminate_self_loop_place, find_and_simplify_self_loop_place, self_loop_place_at, self_loop_place_first,
};
use crate::reduction::elimination_self_loop_transition::{
    eliminate_self_loop_transition, find_and_simplify_self_loop_transition, self_loop_transition_at,
    self_loop_transition_first,
};
use crate::reduction::fusion_parallel_places::{
    find_and_simplify_parallel_places, fuse_parallel_places, parallel_places, parallel_places_first,
};
use crate::reduction::fusion_parallel_transitions::{
    find_and_simplify_parallel_transitions, fuse_parallel_transitions, parallel_transitions,
    parallel_transitions_first,
};
use crate::reduction::fusion_series_places::{
    find_and_simplify_series_places, fuse_series_places, lemma_fuse_series_places_shrinks, series_places_at,
    series_places_first,
};
use crate::reduction::fusion_series_transitions_variant1::{
    find_and_simplify_series_transitions_variant1, fuse_series_transitions_v1,
    lemma_fuse_series_transitions_v1_shrinks, series_transitions_v1_at,
    series_transitions_v1_first,
};
use crate::reduction::fusion_series_transitions_variant2::{
    find_and_simplify_series_transitions_variant2, fuse_series_transitions_v2,
    lemma_fuse_series_transitions_v2_shrinks, series_transitions_v2_at,
    series_transitions_v2_first,
};
use crate::reduction::info::PetriNetInfo;
use crate::reduction::state::{lemma_least, lemma_least_pair, state_of, ReductionState};

verus! {

/// One rewrite: the first rule that applies, in the fixed order of the
/// rules, at the first place, transition or pair where it applies. Nothing
/// where no rule applies.
pub open spec fn step(s: ReductionState) -> Option<ReductionState> {
    match series_transitions_v1_first(s) {
        Some(p) => Some(fuse_series_transitions_v1(s, p)),
        None => match series_transitions_v2_first(s) {
            Some(p) => Some(fuse_series_transitions_v2(s, p)),
            None => match series_places_first(s.net) {
                Some(p) => Some(fuse_series_places(s, p)),
                None => match self_loop_place_first(s) {
                    Some(p) => Some(eliminate_self_loop_place(s, p)),
                    None => match self_loop_transition_first(s.net) {
                        Some(t) => Some(eliminate_self_loop_transition(s, t)),
                        None => match parallel_places_first(s) {
                            Some(pair) => Some(fuse_parallel_places(s, pair)),
                            None => match parallel_transitions_first(s.net) {
                                Some(pair) => Some(fuse_parallel_transitions(s, pair)),
                                None => None,
                            },
                        },
                    },
                },
            },
        },
    }
}

/// No rule applies.
pub open spec fn irreducible(s: ReductionState) -> bool {
    step(s) is None
}

/// Every rewrite makes the net smaller: it removes a place, a transition,
/// or one of each.
pub proof fn lemma_step_shrinks(s: ReductionState)
    ensures
        match step(s) {
            Some(next) => next.net.size() < s.net.size(),
            None => true,
        },
{
    let n = s.net.places.len();
    let nt = s.net.transitions.len();
    lemma_least(n, |p: usize| series_transitions_v1_at(s, p));
    lemma_least(n, |p: usize| series_transitions_v2_at(s, p));
    lemma_least(n, |p: usize| series_places_at(s.net, p));
    lemma_least(n, |p: usize| self_loop_place_at(s, p));
    lemma_least(nt, |t: usize| self_loop_transition_at(s.net, t));
    lemma_least_pair(n, |a: usize, b: usize| parallel_places(s, a, b));
    lemma_least_pair(nt, |a: usize, b: usize| parallel_transitions(s.net, a, b));
    match series_transitions_v1_first(s) {
        Some(p) => {
            lemma_fuse_series_transitions_v1_shrinks(s, p);
        },
        None => match series_transitions_v2_first(s) {
            Some(p) => {
                lemma_fuse_series_transitions_v2_shrinks(s, p);
            },
            None => match series_places_first(s.net) {
                Some(p) => {
                    lemma_fuse_series_places_shrinks(s, p);
                },
                None => {},
            },
        },
    }
}

/// The state reached by rewriting until no rule applies.
pub open spec fn reduced(s: ReductionState) -> ReductionState
    decreases s.net.size(),
    via reduced_ends
{
    match step(s) {
        Some(next) => reduced(next),
        None => s,
    }
}

#[via_fn]
proof fn reduced_ends(s: ReductionState) {
    lemma_step_shrinks(s);
}

/// Rewriting to the end leaves a state to which no rule applies.
pub proof fn lemma_reduced_irreducible(s: ReductionState)
    ensures
        irreducible(reduced(s)),
    decreases s.net.size(),
{
    lemma_step_shrinks(s);
    match step(s) {
        Some(next) => {
            lemma_reduced_irreducible(next);
        },
        None => {},
    }
}

/// Reducing a reduced state changes nothing.
pub proof fn lemma_reduce_idempotent(s: ReductionState)
    ensures
        reduced(reduced(s)) == reduced(s),
    decreases s.net.size(),
{
    lemma_step_shrinks(s);
    match step(s) {
        Some(next) => {
            lemma_reduce_idempotent(next);
        },
        None => {},
    }
}

/// Rewrites the net, and with it the initial marking where one is
/// declared, until no rule applies. The rules are tried in a fixed order,
/// and after every rewrite the search starts again from the first rule.
pub fn reduce_petri_net(petri_net: &mut PetriNet, initial_markings: &mut Option<Marking>)
    requires
        old(petri_net).wf(),
    ensures
        state_of(*final(petri_net), *final(initial_markings)) == reduced(
            state_of(*old(petri_net), *old(initial_markings)),
        ),
        irreducible(state_of(*final(petri_net), *final(initial_markings))),
        final(petri_net).wf(),
{
    let mut petri_info = PetriNetInfo::from_petri_net(petri_net);
    loop
        invariant
            petri_net.wf(),
            petri_info.coherent_with(petri_net),
            reduced(state_of(*petri_net, *initial_markings)) == reduced(
                state_of(*old(petri_net), *old(initial_markings)),
            ),
        ensures
            petri_net.wf(),
            irreducible(state_of(*petri_net, *initial_markings)),
            reduced(state_of(*petri_net, *initial_markings)) == reduced(
                state_of(*old(petri_net), *old(initial_markings)),
            ),
        decreases petri_net@.size(),
    {
        if find_and_simplify_series_transitions_variant1(petri_net, &mut petri_info, initial_markings) {
            continue ;
        }
        if find_and_simplify_series_transitions_variant2(petri_net, &mut petri_info, initial_markings) {
            continue ;
        }
        if find_and_simplify_series_places(petri_net, &mut petri_info, initial_markings) {
            continue ;
        }
        if find_and_simplify_self_loop_place(petri_net, &mut petri_info, initial_markings) {
            continue ;
        }
        if find_and_simplify_self_loop_transition(petri_net, &mut petri_info, initial_markings) {
            continue ;
        }
        if find_and_simplify_parallel_places(petri_net, &mut petri_info, initial_markings) {
            continue ;
        }
        if find_and_simplify_parallel_transitions(petri_net, &mut petri_info, initial_markings) {
            continue ;
        }
        break ;
    }
}

} // verus!
