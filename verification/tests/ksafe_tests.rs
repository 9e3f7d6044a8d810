use std::collections::{BTreeMap, HashMap};
use std::rc::Rc;

use graphviz_dot_builder::traits::DotTranslatable;
use petricheck::model::label::PetriTransitionLabel;
use petricheck::model::marking::Marking;
use petricheck::model::net::PetriNet;
use petricheck::model::transition::PetriTransition;
use petricheck::model_checking::to_kripke::petri_to_kripke;
use petricheck::model_checking::to_kripke::{
    PetriKripkeGenerationError, PetriKripkeGenerationSafenessRequirement, PetriKripkeStateProducer,
};
use petricheck::util::vizualisation::petri_viz::petri_repr;

fn arcs(entries: &[(usize, u32)]) -> HashMap<usize, u32> {
    entries.iter().cloned().collect()
}

fn tool_test_ksafeness_violation_detection(
    title: &str,
    pn: PetriNet,
    im: Marking,
    k_val: u32,
    // if violation gives place_id, transition_id
    violation: Option<(usize, usize)>,
) {
    {
        let gv = petri_repr(&pn, &Some(im.clone()));
        assert!(!gv.to_dot_string().is_empty(), "{}", title);
    }
    let got_result = petri_to_kripke(
        &pn,
        im,
        &PetriKripkeStateProducer::new(vec![]),
        &PetriKripkeGenerationSafenessRequirement::KSafeness(k_val),
    );
    match violation {
        None => {
            assert!(got_result.is_ok());
        }
        Some((violation_place_id, violation_transition_id)) => {
            if let Err(gen_err) = got_result {
                match gen_err {
                    PetriKripkeGenerationError::KSafenessViolation { place_id, transition_id } => {
                        assert_eq!(place_id, violation_place_id);
                        assert_eq!(transition_id, violation_transition_id);
                    }
                }
            } else {
                panic!("should have detected k-safeness violation");
            }
        }
    }
}

#[test]
pub fn test_not_1safe1() {
    let tr_a = Rc::new(PetriTransitionLabel::new("A".to_string()));
    let pn = PetriNet::new(
        vec![None, None],
        vec![PetriTransition::new(Some(tr_a.clone()), arcs(&[(0, 1)]), arcs(&[(0, 1), (1, 1)]))],
    );
    let im = Marking::new(BTreeMap::from([(0, 1)]));
    tool_test_ksafeness_violation_detection("not_1safe1", pn, im, 1, Some((1, 0)))
}

#[test]
pub fn test_1safe_cycle() {
    let tr_a = Rc::new(PetriTransitionLabel::new("A".to_string()));
    let pn = PetriNet::new(
        vec![None, None],
        vec![
            PetriTransition::new(Some(tr_a.clone()), arcs(&[(0, 1)]), arcs(&[(1, 1)])),
            PetriTransition::new(Some(tr_a.clone()), arcs(&[(1, 1)]), arcs(&[(0, 1)])),
        ],
    );
    let im = Marking::new(BTreeMap::from([(0, 1)]));
    tool_test_ksafeness_violation_detection("1safe_cycle", pn, im, 1, None)
}

#[test]
pub fn test_violation_names_the_first_place_over_the_bound() {
    // firing A from {p0:1} gives {p1:3, p2:5}: with k = 2 both pass the bound, p1 comes first
    let tr_a = Rc::new(PetriTransitionLabel::new("A".to_string()));
    let pn = PetriNet::new(
        vec![None, None, None],
        vec![
            PetriTransition::new(None, arcs(&[(2, 9)]), arcs(&[(0, 1)])),
            PetriTransition::new(Some(tr_a.clone()), arcs(&[(0, 1)]), arcs(&[(1, 3), (2, 5)])),
        ],
    );
    let im = Marking::new(BTreeMap::from([(0, 1)]));
    tool_test_ksafeness_violation_detection("first_place", pn.clone(), im.clone(), 2, Some((1, 1)));
    tool_test_ksafeness_violation_detection("first_place", pn.clone(), im.clone(), 4, Some((2, 1)));
    tool_test_ksafeness_violation_detection("first_place", pn, im, 5, None);
}

#[test]
pub fn test_unbounded_net_stops_at_what_a_count_can_hold() {
    // A doubles the tokens of p0 and more: the counts pass the range of a count after a few firings
    let pn = PetriNet::new(vec![None], vec![PetriTransition::new(None, arcs(&[(0, 1)]), arcs(&[(0, u32::MAX)]))]);
    let im = Marking::new(BTreeMap::from([(0, 2)]));
    let got = petri_to_kripke(
        &pn,
        im,
        &PetriKripkeStateProducer::new(vec![]),
        &PetriKripkeGenerationSafenessRequirement::NoRequirement,
    );
    assert_eq!(got, Err(PetriKripkeGenerationError::KSafenessViolation { place_id: 0, transition_id: 0 }));
}
