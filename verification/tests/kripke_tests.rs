use std::collections::{BTreeMap, HashMap};
use std::rc::Rc;

use petricheck::model::label::PetriTransitionLabel;
use petricheck::model::marking::Marking;
use petricheck::model::net::PetriNet;
use petricheck::model::transition::PetriTransition;
use petricheck::model_checking::kripke::{KripkeState, KripkeStructure};
use petricheck::model_checking::props::{BuiltinPetriAtomicProposition, TokensCountAtom, TokensCountRelation};
use petricheck::model_checking::state::PetriKripkeState;
use petricheck::model_checking::to_kripke::{
    petri_to_kripke, PetriKripkeGenerationSafenessRequirement, PetriKripkeStateProducer,
};
use petricheck::util::vizualisation::kripke_viz::PetriKripkeVisualizer;
use petricheck::model::label::PetriStateLabel;

fn arcs(entries: &[(usize, u32)]) -> HashMap<usize, u32> {
    entries.iter().cloned().collect()
}

fn tokens(entries: &[(usize, u32)]) -> Marking {
    Marking::new(entries.iter().cloned().collect::<BTreeMap<usize, u32>>())
}

fn label(name: &str) -> Rc<PetriTransitionLabel> {
    Rc::new(PetriTransitionLabel::new(name.to_string()))
}

fn node(marking: &[(usize, u32)], tag: Option<&str>, targets: &[usize]) -> KripkeState {
    KripkeState::new(PetriKripkeState::new(tokens(marking), tag.map(label)), targets.to_vec())
}

fn lock_net() -> PetriNet {
    // places A_U, A_L, CTL, B_U, B_L
    PetriNet::new(
        vec![None, None, None, None, None],
        vec![
            PetriTransition::new(Some(label("lock")), arcs(&[(0, 1), (2, 1)]), arcs(&[(1, 1)])),
            PetriTransition::new(Some(label("lock")), arcs(&[(3, 1), (2, 1)]), arcs(&[(4, 1)])),
            PetriTransition::new(Some(label("unlock")), arcs(&[(1, 1)]), arcs(&[(0, 1), (2, 1)])),
            PetriTransition::new(Some(label("unlock")), arcs(&[(4, 1)]), arcs(&[(3, 1), (2, 1)])),
        ],
    )
}

#[test]
pub fn lock_net_has_three_states_without_tags() {
    let got = petri_to_kripke(
        &lock_net(),
        tokens(&[(0, 1), (2, 1), (3, 1)]),
        &PetriKripkeStateProducer::new(vec![]),
        &PetriKripkeGenerationSafenessRequirement::KSafeness(1),
    );
    let expected = KripkeStructure::new(vec![
        node(&[(0, 1), (2, 1), (3, 1)], None, &[1, 2]),
        node(&[(1, 1), (3, 1)], None, &[0]),
        node(&[(0, 1), (4, 1)], None, &[0]),
    ]);
    assert_eq!(got, Ok(expected));
}

#[test]
pub fn lock_net_states_carry_the_tagged_label() {
    let got = petri_to_kripke(
        &lock_net(),
        tokens(&[(0, 1), (2, 1), (3, 1)]),
        &PetriKripkeStateProducer::new(vec![PetriTransitionLabel::new("unlock".to_string())]),
        &PetriKripkeGenerationSafenessRequirement::NoRequirement,
    )
    .unwrap();
    // the initial state is untagged; it is found again, tagged, after an unlock
    assert_eq!(got.states.len(), 4);
    assert_eq!(got.states[0], node(&[(0, 1), (2, 1), (3, 1)], None, &[1, 2]));
    assert_eq!(got.states[1], node(&[(1, 1), (3, 1)], None, &[3]));
    assert_eq!(got.states[2], node(&[(0, 1), (4, 1)], None, &[3]));
    assert_eq!(got.states[3], node(&[(0, 1), (2, 1), (3, 1)], Some("unlock"), &[1, 2]));
}

#[test]
pub fn edges_are_listed_once_and_self_loops_are_kept() {
    // A and B both lead from {p0:1} to {p0:1}
    let net = PetriNet::new(
        vec![None],
        vec![
            PetriTransition::new(Some(label("A")), arcs(&[(0, 1)]), arcs(&[(0, 1)])),
            PetriTransition::new(Some(label("B")), arcs(&[(0, 1)]), arcs(&[(0, 1)])),
        ],
    );
    let got = petri_to_kripke(
        &net,
        tokens(&[(0, 1)]),
        &PetriKripkeStateProducer::new(vec![]),
        &PetriKripkeGenerationSafenessRequirement::KSafeness(1),
    );
    assert_eq!(got, Ok(KripkeStructure::new(vec![node(&[(0, 1)], None, &[0])])));
}

#[test]
pub fn disabled_transitions_add_nothing() {
    let net = PetriNet::new(vec![None, None], vec![PetriTransition::new(None, arcs(&[(0, 2)]), arcs(&[(1, 1)]))]);
    let got = petri_to_kripke(
        &net,
        tokens(&[(0, 1)]),
        &PetriKripkeStateProducer::new(vec![]),
        &PetriKripkeGenerationSafenessRequirement::KSafeness(1),
    );
    assert_eq!(got, Ok(KripkeStructure::new(vec![node(&[(0, 1)], None, &[])])));
}

#[test]
pub fn producer_fires_and_tags() {
    let producer = PetriKripkeStateProducer::new(vec![PetriTransitionLabel::new("A".to_string())]);
    assert!(producer.is_tagged(&PetriTransitionLabel::new("A".to_string())));
    assert!(!producer.is_tagged(&PetriTransitionLabel::new("B".to_string())));
    let from = PetriKripkeState::new(tokens(&[(0, 2)]), None);
    let a = PetriTransition::new(Some(label("A")), arcs(&[(0, 1)]), arcs(&[(1, 3)]));
    let b = PetriTransition::new(Some(label("B")), arcs(&[(0, 2)]), arcs(&[]));
    let c = PetriTransition::new(None, arcs(&[(0, 3)]), arcs(&[]));
    assert_eq!(
        producer.try_reach_new_state(2, &from, &a),
        Some(PetriKripkeState::new(tokens(&[(0, 1), (1, 3)]), Some(label("A"))))
    );
    assert_eq!(producer.try_reach_new_state(2, &from, &b), Some(PetriKripkeState::new(tokens(&[]), None)));
    assert_eq!(producer.try_reach_new_state(2, &from, &c), None);
}

#[test]
pub fn propositions_are_evaluated_on_states() {
    let state = PetriKripkeState::new(tokens(&[(0, 2), (3, 1)]), Some(label("lock")));
    let count = |rel, left, right| BuiltinPetriAtomicProposition::TokensCount(rel, left, right);
    let place = TokensCountAtom::NumberOfTokensInPlace;
    let raw = TokensCountAtom::RawInteger;
    assert!(count(TokensCountRelation::Equal, place(0), raw(2)).is_satisfied_on_state_domain(&state));
    assert!(count(TokensCountRelation::StrictlyGreater, place(0), place(3)).is_satisfied_on_state_domain(&state));
    assert!(!count(TokensCountRelation::StrictlyGreater, place(3), place(0)).is_satisfied_on_state_domain(&state));
    assert!(count(TokensCountRelation::GreaterOrEqual, place(3), raw(1)).is_satisfied_on_state_domain(&state));
    assert!(count(TokensCountRelation::LowerOrEqual, raw(1), raw(1)).is_satisfied_on_state_domain(&state));
    assert!(!count(TokensCountRelation::StrictlyLower, raw(1), raw(1)).is_satisfied_on_state_domain(&state));
    // an unmarked place holds no token
    assert!(count(TokensCountRelation::Equal, place(7), raw(0)).is_satisfied_on_state_domain(&state));
    assert_eq!(place(7).interpret_as_u32(&state.marking), 0);
    assert_eq!(place(0).interpret_as_u32(&state.marking), 2);
    assert_eq!(raw(9).interpret_as_u32(&state.marking), 9);
    assert!(TokensCountRelation::StrictlyLower.eval(1, 2));
    assert!(!TokensCountRelation::StrictlyLower.eval(2, 2));
    assert!(TokensCountRelation::LowerOrEqual.eval(2, 2));
    assert!(TokensCountRelation::Equal.eval(2, 2));
    assert!(!TokensCountRelation::Equal.eval(2, 3));
    assert!(TokensCountRelation::GreaterOrEqual.eval(3, 3));
    assert!(!TokensCountRelation::GreaterOrEqual.eval(2, 3));
    assert!(TokensCountRelation::StrictlyGreater.eval(4, 3));
    let was_lock = BuiltinPetriAtomicProposition::PreviousTransitionLabelMustBe(label("lock"));
    let was_unlock = BuiltinPetriAtomicProposition::PreviousTransitionLabelMustBe(label("unlock"));
    assert!(was_lock.is_satisfied_on_state_domain(&state));
    assert!(!was_unlock.is_satisfied_on_state_domain(&state));
    let untagged = PetriKripkeState::new(tokens(&[]), None);
    assert!(!was_lock.is_satisfied_on_state_domain(&untagged));
}

#[test]
pub fn states_are_labelled_with_their_marked_places() {
    let net = PetriNet::new(
        vec![Some(Rc::new(PetriStateLabel::new("A_U".to_string()))), None, None],
        vec![],
    );
    let viz = PetriKripkeVisualizer::new(&net);
    let tagged = PetriKripkeState::new(tokens(&[(0, 1), (2, 12)]), Some(label("lock")));
    assert_eq!(viz.get_doap_label(&tagged), "@p0(A_U):1\n@p2:12\nprev:lock");
    let plain = PetriKripkeState::new(tokens(&[(1, 3)]), None);
    assert_eq!(viz.get_doap_label(&plain), "@p1:3");
    let empty = PetriKripkeState::new(tokens(&[]), None);
    assert_eq!(viz.get_doap_label(&empty), "");
}
