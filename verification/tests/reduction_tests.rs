use std::collections::{BTreeMap, HashMap};
use std::rc::Rc;

use graphviz_dot_builder::traits::DotTranslatable;
use petricheck::model::label::{PetriStateLabel, PetriTransitionLabel};
use petricheck::model::marking::Marking;
use petricheck::model::net::PetriNet;
use petricheck::model::transition::PetriTransition;
use petricheck::reduction::elimination_self_loop_place::find_and_simplify_self_loop_place;
use petricheck::reduction::elimination_self_loop_transition::find_and_simplify_self_loop_transition;
use petricheck::reduction::fusion_parallel_places::find_and_simplify_parallel_places;
use petricheck::reduction::fusion_parallel_transitions::find_and_simplify_parallel_transitions;
use petricheck::reduction::fusion_series_places::{find_and_simplify_series_places, find_series_places};
use petricheck::reduction::fusion_series_transitions_variant1::find_and_simplify_series_transitions_variant1;
use petricheck::reduction::fusion_series_transitions_variant2::find_and_simplify_series_transitions_variant2;
use petricheck::reduction::info::PetriNetInfo;
use petricheck::reduction::reduce::reduce_petri_net;
use petricheck::util::vizualisation::petri_viz::petri_repr;

fn arcs(entries: &[(usize, u32)]) -> HashMap<usize, u32> {
    entries.iter().cloned().collect()
}

fn tokens(entries: &[(usize, u32)]) -> Marking {
    Marking::new(entries.iter().cloned().collect::<BTreeMap<usize, u32>>())
}

fn label(name: &str) -> Rc<PetriTransitionLabel> {
    Rc::new(PetriTransitionLabel::new(name.to_string()))
}

fn transition(name: Option<&str>, pre: &[(usize, u32)], post: &[(usize, u32)]) -> PetriTransition {
    PetriTransition::new(name.map(label), arcs(pre), arcs(post))
}

fn unlabelled_places(n: usize) -> Vec<Option<Rc<PetriStateLabel>>> {
    vec![None; n]
}

#[test]
pub fn reduction_tests_test_simple_example() {
    let tr_a = Rc::new(PetriTransitionLabel::new("A".to_string()));
    let tr_b = Rc::new(PetriTransitionLabel::new("B".to_string()));
    let tr_c = Rc::new(PetriTransitionLabel::new("C".to_string()));
    let mut petri_net = PetriNet::new(
        vec![None, None, None, None],
        vec![
            PetriTransition::new(Some(tr_a.clone()), arcs(&[(0, 1)]), arcs(&[(1, 1)])),
            PetriTransition::new(Some(tr_b.clone()), arcs(&[(1, 1)]), arcs(&[(2, 1)])),
            PetriTransition::new(Some(tr_c.clone()), arcs(&[(2, 1)]), arcs(&[(3, 1)])),
        ],
    );
    let mut initial_marking = Some(Marking::new(BTreeMap::from([(0, 1)])));
    {
        let gv = petri_repr(&petri_net, &initial_marking);
        assert!(gv.to_dot_string().starts_with("digraph G {"));
    }
    // ***
    petri_net.relabel_transitions(vec![((*tr_b).clone(), None)]);
    {
        let gv = petri_repr(&petri_net, &initial_marking);
        assert!(gv.to_dot_string().starts_with("digraph G {"));
    }
    // ***
    reduce_petri_net(&mut petri_net, &mut initial_marking);
    {
        let gv = petri_repr(&petri_net, &initial_marking);
        assert!(gv.to_dot_string().starts_with("digraph G {"));
    }
    // the silent transition is folded into the one before it
    assert_eq!(
        petri_net,
        PetriNet::new(
            unlabelled_places(3),
            vec![transition(Some("A"), &[(0, 1)], &[(1, 1)]), transition(Some("C"), &[(1, 1)], &[(2, 1)])],
        )
    );
    assert_eq!(initial_marking, Some(tokens(&[(0, 1)])));
}

#[test]
pub fn series_places_are_fused() {
    let mut net = PetriNet::new(
        unlabelled_places(3),
        vec![transition(Some("A"), &[(0, 1)], &[(2, 1)]), transition(Some("B"), &[(1, 1)], &[(2, 1)])],
    );
    net.relabel_transitions(vec![(PetriTransitionLabel::new("A".to_string()), None)]);
    let mut marking = Some(tokens(&[(0, 1)]));
    reduce_petri_net(&mut net, &mut marking);
    assert_eq!(net, PetriNet::new(unlabelled_places(2), vec![transition(Some("B"), &[(0, 1)], &[(1, 1)])]));
    assert_eq!(marking, Some(tokens(&[(1, 1)])));
}

#[test]
pub fn series_transitions_variant_1_are_fused() {
    let mut net = PetriNet::new(
        unlabelled_places(3),
        vec![
            transition(Some("A"), &[(0, 1)], &[(1, 1)]),
            transition(Some("B"), &[(0, 1)], &[(2, 1)]),
            transition(Some("C"), &[(2, 1)], &[(0, 1)]),
        ],
    );
    net.relabel_transitions(vec![(PetriTransitionLabel::new("C".to_string()), None)]);
    let mut marking = None;
    reduce_petri_net(&mut net, &mut marking);
    assert_eq!(
        net,
        PetriNet::new(
            unlabelled_places(2),
            vec![transition(Some("A"), &[(0, 1)], &[(1, 1)]), transition(Some("B"), &[(0, 1)], &[(0, 1)])],
        )
    );
    assert_eq!(marking, None);
}

#[test]
pub fn series_transitions_variant_2_are_fused() {
    // silent t0: p0 -> p1, then B: p1 -> p2
    let mut net = PetriNet::new(
        vec![Some(Rc::new(PetriStateLabel::new("in".to_string()))), None, Some(Rc::new(PetriStateLabel::new("out".to_string())))],
        vec![transition(None, &[(0, 2)], &[(1, 3)]), transition(Some("B"), &[(1, 3)], &[(2, 1)])],
    );
    let mut info = PetriNetInfo::from_petri_net(&net);
    let mut marking = Some(tokens(&[(0, 2)]));
    // the first variant does not apply: the second transition carries a label
    assert!(!find_and_simplify_series_transitions_variant1(&mut net, &mut info, &mut marking));
    assert!(find_and_simplify_series_transitions_variant2(&mut net, &mut info, &mut marking));
    assert_eq!(
        net,
        PetriNet::new(
            vec![Some(Rc::new(PetriStateLabel::new("in".to_string()))), Some(Rc::new(PetriStateLabel::new("out".to_string())))],
            vec![transition(Some("B"), &[(0, 2)], &[(1, 1)])],
        )
    );
    assert_eq!(marking, Some(tokens(&[(0, 2)])));
    assert_eq!(info, PetriNetInfo::from_petri_net(&net));
}

#[test]
pub fn parallel_places_are_fused() {
    let mut net = PetriNet::new(
        unlabelled_places(4),
        vec![transition(Some("A"), &[(0, 1)], &[(1, 1), (2, 1)]), transition(Some("B"), &[(1, 1), (2, 1)], &[(3, 1)])],
    );
    let mut marking = Some(tokens(&[(0, 1)]));
    reduce_petri_net(&mut net, &mut marking);
    assert_eq!(
        net,
        PetriNet::new(
            unlabelled_places(3),
            vec![transition(Some("A"), &[(0, 1)], &[(1, 1)]), transition(Some("B"), &[(1, 1)], &[(2, 1)])],
        )
    );
    assert_eq!(marking, Some(tokens(&[(0, 1)])));
}

#[test]
pub fn self_loop_place_is_eliminated() {
    let mut net = PetriNet::new(unlabelled_places(3), vec![transition(Some("A"), &[(0, 1), (1, 1)], &[(1, 1), (2, 1)])]);
    let mut marking = Some(tokens(&[(0, 1), (1, 1)]));
    reduce_petri_net(&mut net, &mut marking);
    assert_eq!(net, PetriNet::new(unlabelled_places(2), vec![transition(Some("A"), &[(0, 1)], &[(1, 1)])]));
    assert_eq!(marking, Some(tokens(&[(0, 1)])));
}

#[test]
pub fn self_loop_place_needs_enough_tokens() {
    // the loop takes two tokens from p1, which holds one: p1 can block A and stays
    let mut net = PetriNet::new(unlabelled_places(3), vec![transition(Some("A"), &[(0, 1), (1, 2)], &[(1, 2), (2, 1)])]);
    let mut info = PetriNetInfo::from_petri_net(&net);
    let mut marking = Some(tokens(&[(0, 1), (1, 1)]));
    assert!(!find_and_simplify_self_loop_place(&mut net, &mut info, &mut marking));
    let mut enough = Some(tokens(&[(0, 1), (1, 2)]));
    assert!(find_and_simplify_self_loop_place(&mut net, &mut info, &mut enough));
    assert_eq!(enough, Some(tokens(&[(0, 1)])));
    assert_eq!(info, PetriNetInfo::from_petri_net(&net));
}

#[test]
pub fn dead_place_is_eliminated_without_marking() {
    let mut net = PetriNet::new(unlabelled_places(3), vec![transition(Some("A"), &[(0, 1)], &[(2, 1)])]);
    let mut info = PetriNetInfo::from_petri_net(&net);
    let mut marking = None;
    assert!(find_and_simplify_self_loop_place(&mut net, &mut info, &mut marking));
    assert_eq!(net, PetriNet::new(unlabelled_places(2), vec![transition(Some("A"), &[(0, 1)], &[(1, 1)])]));
    assert_eq!(info, PetriNetInfo::from_petri_net(&net));
}

#[test]
pub fn self_loop_transition_is_eliminated() {
    let mut net = PetriNet::new(
        unlabelled_places(2),
        vec![
            transition(Some("A"), &[(0, 1)], &[(0, 1)]),
            transition(None, &[(0, 1), (1, 2)], &[(1, 2), (0, 1)]),
            transition(None, &[], &[]),
        ],
    );
    let mut info = PetriNetInfo::from_petri_net(&net);
    let mut marking = Some(tokens(&[(0, 1)]));
    assert!(find_and_simplify_self_loop_transition(&mut net, &mut info, &mut marking));
    assert_eq!(
        net.transitions,
        vec![transition(Some("A"), &[(0, 1)], &[(0, 1)]), transition(None, &[], &[])]
    );
    assert_eq!(info, PetriNetInfo::from_petri_net(&net));
    assert!(find_and_simplify_self_loop_transition(&mut net, &mut info, &mut marking));
    assert_eq!(net.transitions, vec![transition(Some("A"), &[(0, 1)], &[(0, 1)])]);
    // a labelled self-loop stays
    assert!(!find_and_simplify_self_loop_transition(&mut net, &mut info, &mut marking));
    assert_eq!(marking, Some(tokens(&[(0, 1)])));
}

#[test]
pub fn parallel_transitions_are_fused() {
    let mut net = PetriNet::new(
        unlabelled_places(2),
        vec![
            transition(Some("A"), &[(0, 1)], &[(1, 1)]),
            transition(Some("B"), &[(0, 1)], &[(1, 1)]),
            transition(Some("A"), &[(0, 1)], &[(1, 2)]),
            transition(Some("A"), &[(0, 1)], &[(1, 1)]),
        ],
    );
    let mut info = PetriNetInfo::from_petri_net(&net);
    let mut marking = None;
    assert!(find_and_simplify_parallel_transitions(&mut net, &mut info, &mut marking));
    assert_eq!(
        net.transitions,
        vec![
            transition(Some("A"), &[(0, 1)], &[(1, 1)]),
            transition(Some("B"), &[(0, 1)], &[(1, 1)]),
            transition(Some("A"), &[(0, 1)], &[(1, 2)]),
        ]
    );
    assert_eq!(info, PetriNetInfo::from_petri_net(&net));
    assert!(!find_and_simplify_parallel_transitions(&mut net, &mut info, &mut marking));
}

#[test]
pub fn parallel_places_need_equal_tokens() {
    let mut net = PetriNet::new(
        unlabelled_places(4),
        vec![transition(Some("A"), &[(0, 1)], &[(1, 1), (2, 1)]), transition(Some("B"), &[(1, 1), (2, 1)], &[(3, 1)])],
    );
    let mut info = PetriNetInfo::from_petri_net(&net);
    let mut marking = Some(tokens(&[(0, 1), (2, 1)]));
    assert!(!find_and_simplify_parallel_places(&mut net, &mut info, &mut marking));
    let mut equal = Some(tokens(&[(0, 1), (1, 1), (2, 1)]));
    assert!(find_and_simplify_parallel_places(&mut net, &mut info, &mut equal));
    assert_eq!(equal, Some(tokens(&[(0, 1), (1, 1)])));
    assert_eq!(info, PetriNetInfo::from_petri_net(&net));
}

#[test]
pub fn series_places_keep_the_larger_token_count_and_add_arcs() {
    // silent t0: p0 -> p1; A feeds p0 with 2 and p1 with 3
    let mut net = PetriNet::new(
        unlabelled_places(3),
        vec![transition(None, &[(0, 1)], &[(1, 1)]), transition(Some("A"), &[(2, 1)], &[(0, 2), (1, 3)])],
    );
    let mut info = PetriNetInfo::from_petri_net(&net);
    let found = find_series_places(&net, &info).unwrap();
    assert_eq!((found.origin_place_id, found.transition_id, found.target_place_id), (0, 0, 1));
    let mut marking = Some(tokens(&[(0, 5), (1, 2), (2, 1)]));
    assert!(find_and_simplify_series_places(&mut net, &mut info, &mut marking));
    assert_eq!(net, PetriNet::new(unlabelled_places(2), vec![transition(Some("A"), &[(1, 1)], &[(0, 5)])]));
    assert_eq!(marking, Some(tokens(&[(0, 5), (1, 1)])));
    assert_eq!(info, PetriNetInfo::from_petri_net(&net));
}

#[test]
pub fn series_places_are_not_fused_where_arcs_would_not_add_up() {
    let mut net = PetriNet::new(
        unlabelled_places(3),
        vec![transition(None, &[(0, 1)], &[(1, 1)]), transition(Some("A"), &[(2, 1)], &[(0, u32::MAX), (1, 1)])],
    );
    let mut info = PetriNetInfo::from_petri_net(&net);
    let before = net.clone();
    let mut marking = None;
    assert!(!find_and_simplify_series_places(&mut net, &mut info, &mut marking));
    assert_eq!(net, before);
}

#[test]
pub fn reducing_twice_changes_nothing() {
    let mut net = PetriNet::new(
        unlabelled_places(5),
        vec![
            transition(Some("A"), &[(0, 1)], &[(1, 1), (2, 1)]),
            transition(None, &[(1, 1), (2, 1)], &[(3, 1)]),
            transition(Some("B"), &[(3, 1)], &[(4, 1)]),
            transition(None, &[(4, 1)], &[(4, 1)]),
        ],
    );
    let mut marking = Some(tokens(&[(0, 1)]));
    reduce_petri_net(&mut net, &mut marking);
    let once = (net.clone(), marking.clone());
    reduce_petri_net(&mut net, &mut marking);
    assert_eq!((net, marking), once);
}

#[test]
pub fn index_lists_the_arcs_of_the_net() {
    let net = PetriNet::new(
        unlabelled_places(3),
        vec![transition(Some("A"), &[(0, 2)], &[(1, 1), (2, 4)]), transition(None, &[(1, 1), (0, 3)], &[(0, 1)])],
    );
    let info = PetriNetInfo::from_petri_net(&net);
    assert_eq!(info.places_info.len(), 3);
    assert_eq!(info.places_info[0].outgoing_transitions, arcs(&[(0, 2), (1, 3)]));
    assert_eq!(info.places_info[0].incoming_transitions, arcs(&[(1, 1)]));
    assert_eq!(info.places_info[1].outgoing_transitions, arcs(&[(1, 1)]));
    assert_eq!(info.places_info[1].incoming_transitions, arcs(&[(0, 1)]));
    assert_eq!(info.places_info[2].outgoing_transitions, arcs(&[]));
    assert_eq!(info.places_info[2].incoming_transitions, arcs(&[(0, 4)]));
    let mut shifted = info.clone();
    shifted.remove_transition(0);
    assert_eq!(shifted.places_info[0].outgoing_transitions, arcs(&[(0, 3)]));
    assert_eq!(shifted.places_info[0].incoming_transitions, arcs(&[(0, 1)]));
    assert_eq!(shifted.places_info[2].incoming_transitions, arcs(&[]));
}
