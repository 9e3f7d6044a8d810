use std::collections::{BTreeMap, HashMap};
use std::rc::Rc;

use petricheck::model::label::{PetriStateLabel, PetriTransitionLabel};
use petricheck::model::marking::Marking;
use petricheck::model::net::PetriNet;
use petricheck::model::transition::PetriTransition;
use petricheck::model_checking::to_kripke::{
    petri_to_kripke, PetriKripkeGenerationError, PetriKripkeGenerationSafenessRequirement, PetriKripkeStateProducer,
};
use petricheck::reduction::elimination_self_loop_place::find_and_simplify_self_loop_place;
use petricheck::reduction::elimination_self_loop_transition::find_and_simplify_self_loop_transition;
use petricheck::reduction::fusion_parallel_places::find_and_simplify_parallel_places;
use petricheck::reduction::fusion_parallel_transitions::find_and_simplify_parallel_transitions;
use petricheck::reduction::fusion_series_places::find_and_simplify_series_places;
use petricheck::reduction::fusion_series_transitions_variant1::find_and_simplify_series_transitions_variant1;
use petricheck::reduction::fusion_series_transitions_variant2::find_and_simplify_series_transitions_variant2;
use petricheck::reduction::info::PetriNetInfo;
use petricheck::reduction::reduce::reduce_petri_net;

/// a small generator of numbers, the same at every run
struct Numbers(u64);

impl Numbers {
    fn next(&mut self, below: u64) -> u64 {
        self.0 = self.0.wrapping_mul(6364136223846793005).wrapping_add(1442695040888963407);
        (self.0 >> 33) % below
    }
}

fn random_arcs(numbers: &mut Numbers, places: usize) -> HashMap<usize, u32> {
    let mut arcs = HashMap::new();
    for _ in 0..numbers.next(3) {
        arcs.insert(numbers.next(places as u64) as usize, 1 + numbers.next(2) as u32);
    }
    arcs
}

fn random_net(numbers: &mut Numbers) -> (PetriNet, Option<Marking>) {
    let places = 1 + numbers.next(5) as usize;
    let place_labels = (0..places)
        .map(|_| match numbers.next(4) {
            0 => Some(Rc::new(PetriStateLabel::new("a".to_string()))),
            1 => Some(Rc::new(PetriStateLabel::new("b".to_string()))),
            _ => None,
        })
        .collect();
    let transitions = (0..numbers.next(6))
        .map(|_| {
            let label = match numbers.next(3) {
                0 => Some(Rc::new(PetriTransitionLabel::new("A".to_string()))),
                1 => Some(Rc::new(PetriTransitionLabel::new("B".to_string()))),
                _ => None,
            };
            PetriTransition::new(label, random_arcs(numbers, places), random_arcs(numbers, places))
        })
        .collect();
    let marking = match numbers.next(4) {
        0 => None,
        _ => {
            let mut tokens = BTreeMap::new();
            for _ in 0..numbers.next(3) {
                tokens.insert(numbers.next(places as u64) as usize, 1 + numbers.next(2) as u32);
            }
            Some(Marking::new(tokens))
        }
    };
    (PetriNet::new(place_labels, transitions), marking)
}

#[test]
pub fn random_nets_reduce_to_a_fixed_point() {
    let mut numbers = Numbers(2024);
    for _ in 0..400 {
        let (mut net, mut marking) = random_net(&mut numbers);
        let size = net.places.len() + net.transitions.len();
        reduce_petri_net(&mut net, &mut marking);
        assert!(net.places.len() + net.transitions.len() <= size);
        // every arc still joins a place of the net
        for transition in &net.transitions {
            for (place, tokens) in transition.iter_preset_tokens().chain(transition.iter_postset_tokens()) {
                assert!(*place < net.places.len() && *tokens > 0);
            }
        }
        // no rule applies any more, and reducing again changes nothing
        let mut info = PetriNetInfo::from_petri_net(&net);
        assert!(!find_and_simplify_series_transitions_variant1(&mut net, &mut info, &mut marking));
        assert!(!find_and_simplify_series_transitions_variant2(&mut net, &mut info, &mut marking));
        assert!(!find_and_simplify_series_places(&mut net, &mut info, &mut marking));
        assert!(!find_and_simplify_self_loop_place(&mut net, &mut info, &mut marking));
        assert!(!find_and_simplify_self_loop_transition(&mut net, &mut info, &mut marking));
        assert!(!find_and_simplify_parallel_places(&mut net, &mut info, &mut marking));
        assert!(!find_and_simplify_parallel_transitions(&mut net, &mut info, &mut marking));
        let once = (net.clone(), marking.clone());
        reduce_petri_net(&mut net, &mut marking);
        assert_eq!((net, marking), once);
    }
}

#[test]
pub fn random_rewrites_keep_the_index_coherent() {
    let mut numbers = Numbers(7);
    for _ in 0..400 {
        let (mut net, mut marking) = random_net(&mut numbers);
        let mut info = PetriNetInfo::from_petri_net(&net);
        loop {
            let rewritten = match numbers.next(7) {
                0 => find_and_simplify_series_transitions_variant1(&mut net, &mut info, &mut marking),
                1 => find_and_simplify_series_transitions_variant2(&mut net, &mut info, &mut marking),
                2 => find_and_simplify_series_places(&mut net, &mut info, &mut marking),
                3 => find_and_simplify_self_loop_place(&mut net, &mut info, &mut marking),
                4 => find_and_simplify_self_loop_transition(&mut net, &mut info, &mut marking),
                5 => find_and_simplify_parallel_places(&mut net, &mut info, &mut marking),
                _ => find_and_simplify_parallel_transitions(&mut net, &mut info, &mut marking),
            };
            assert_eq!(info, PetriNetInfo::from_petri_net(&net));
            if !rewritten {
                break;
            }
        }
    }
}

#[test]
pub fn random_nets_expand_to_tidy_graphs() {
    let mut numbers = Numbers(99);
    for _ in 0..300 {
        let (net, marking) = random_net(&mut numbers);
        let marking = marking.unwrap_or(Marking::new(BTreeMap::new()));
        let bound = 1 + numbers.next(3) as u32;
        let expansion = petri_to_kripke(
            &net,
            marking.clone(),
            &PetriKripkeStateProducer::new(vec![PetriTransitionLabel::new("A".to_string())]),
            &PetriKripkeGenerationSafenessRequirement::KSafeness(bound),
        );
        match expansion {
            Ok(graph) => {
                assert_eq!(graph.states[0].value_in_domain.marking, marking);
                for (id, state) in graph.states.iter().enumerate() {
                    // no state twice, no successor twice, every successor a state
                    assert!(graph.states[..id].iter().all(|s| s.value_in_domain != state.value_in_domain));
                    for (k, target) in state.outgoing_transitions_targets.iter().enumerate() {
                        assert!(*target < graph.states.len());
                        assert!(!state.outgoing_transitions_targets[..k].contains(target));
                    }
                    // the successors are exactly the states that the enabled transitions reach
                    let mut reached = Vec::new();
                    for transition in &net.transitions {
                        if let Some(next) = transition.try_fire(net.places.len(), &state.value_in_domain.marking) {
                            assert!(next.iter_tokens().all(|(_, tokens)| *tokens <= bound));
                            let found = graph.states.iter().position(|s| s.value_in_domain.marking == next).unwrap();
                            assert!(state
                                .outgoing_transitions_targets
                                .iter()
                                .any(|t| graph.states[*t].value_in_domain.marking == next));
                            reached.push(found);
                        }
                    }
                    assert!(state.outgoing_transitions_targets.len() <= reached.len());
                    if id > 0 {
                        assert!(graph.states[..id].iter().any(|s| s.outgoing_transitions_targets.contains(&id)));
                    }
                }
            }
            Err(PetriKripkeGenerationError::KSafenessViolation { place_id, transition_id }) => {
                assert!(place_id < net.places.len());
                assert!(transition_id < net.transitions.len());
            }
        }
    }
}
