use std::collections::{BTreeMap, HashMap, HashSet};
use std::rc::Rc;

use graphviz_dot_builder::traits::DotTranslatable;
use petricheck::model::label::{PetriStateLabel, PetriTransitionLabel};
use petricheck::model::marking::Marking;
use petricheck::model::net::PetriNet;
use petricheck::model::transition::PetriTransition;
use petricheck::model_checking::kripke::KripkeStructure as PetriKripkeStructure;
use petricheck::model_checking::props::BuiltinPetriAtomicProposition;
use petricheck::model_checking::state::PetriKripkeState;
use petricheck::model_checking::to_kripke::{
    petri_to_kripke, PetriKripkeGenerationSafenessRequirement, PetriKripkeStateProducer,
};
use petricheck::util::parse_ctl::formula::PetriCtlFormula;
use petricheck::util::parse_ctl::parser::BuiltinPetriCtlParser;
use petricheck::util::vizualisation::kripke_viz::PetriKripkeVisualizer;
use petricheck::util::vizualisation::petri_viz::petri_repr;

use citreelo::ctl::{BinaryCTLOperator, CTLFormula, CTLFormulaLeaf};
use citreelo::kripke::{AtomicProposition, KripkeState, KripkeStructure};
use citreelo::util::viz_kripke::KripkeStructureGraphvizDrawer;

use citreelo::parser::CtlFormulaParser;
use citreelo::solve::is_ctl_formula_sat;

fn arcs(entries: &[(usize, u32)]) -> HashMap<usize, u32> {
    entries.iter().cloned().collect()
}

/// a proposition of the library, as the solver takes it
#[derive(Debug, Clone, PartialEq, Eq, Hash)]
struct Prop(BuiltinPetriAtomicProposition);

/// a state of the library, as the solver takes it
struct Domain(PetriKripkeState);

impl AtomicProposition<Domain> for Prop {
    fn is_satisfied_on_state_domain(&self, state_domain: &Domain) -> bool {
        self.0.is_satisfied_on_state_domain(&state_domain.0)
    }
}

/// the hook through which the formula parser reads atomic propositions
struct Hook<'a>(&'a BuiltinPetriCtlParser);

fn as_ctl(formula: PetriCtlFormula) -> CTLFormula<Prop> {
    match formula {
        PetriCtlFormula::True => CTLFormula::Leaf(CTLFormulaLeaf::True),
        PetriCtlFormula::False => CTLFormula::Leaf(CTLFormulaLeaf::False),
        PetriCtlFormula::AtomicProp(p) => CTLFormula::Leaf(CTLFormulaLeaf::AtomicProp(Prop(p))),
        PetriCtlFormula::And(a, b) => {
            CTLFormula::Binary(BinaryCTLOperator::And, Box::new(as_ctl(*a)), Box::new(as_ctl(*b)))
        }
        PetriCtlFormula::Or(a, b) => {
            CTLFormula::Binary(BinaryCTLOperator::Or, Box::new(as_ctl(*a)), Box::new(as_ctl(*b)))
        }
    }
}

impl<'p> CtlFormulaParser<Prop> for Hook<'p> {
    fn parse_atomic_proposition<'a, E: nom::error::ParseError<&'a str>>(
        &self,
        input: &'a str,
    ) -> nom::IResult<&'a str, CTLFormula<Prop>, E> {
        match self.0.parse_atomic_proposition(input.as_bytes()) {
            Some((formula, read)) => Ok((&input[read..], as_ctl(formula))),
            None => Err(nom::Err::Error(nom::error::make_error(input, nom::error::ErrorKind::Fail))),
        }
    }
}

fn as_solver_structure(graph: PetriKripkeStructure) -> KripkeStructure<Domain> {
    KripkeStructure::new(
        graph
            .states
            .into_iter()
            .map(|state| KripkeState::new(Domain(state.value_in_domain), state.outgoing_transitions_targets))
            .collect(),
    )
}

struct Drawer<'a>(PetriKripkeVisualizer<'a>);

impl<'a> KripkeStructureGraphvizDrawer<Domain> for Drawer<'a> {
    fn get_doap_label(&self, doap: &Domain) -> String {
        self.0.get_doap_label(&doap.0)
    }
}

#[test]
pub fn mc_tests_test_simple_example() {
    let lock = Rc::new(PetriTransitionLabel::new("lock".to_string()));
    let unlock = Rc::new(PetriTransitionLabel::new("unlock".to_string()));
    let place = |name: &str| Some(Rc::new(PetriStateLabel::new(name.to_string())));
    let petri_net = PetriNet::new(
        vec![place("A_U"), place("A_L"), place("CTL"), place("B_U"), place("B_L")],
        vec![
            PetriTransition::new(Some(lock.clone()), arcs(&[(0, 1), (2, 1)]), arcs(&[(1, 1)])),
            PetriTransition::new(Some(lock.clone()), arcs(&[(2, 1), (3, 1)]), arcs(&[(4, 1)])),
            PetriTransition::new(Some(unlock.clone()), arcs(&[(1, 1)]), arcs(&[(0, 1), (2, 1)])),
            PetriTransition::new(Some(unlock.clone()), arcs(&[(4, 1)]), arcs(&[(2, 1), (3, 1)])),
        ],
    );
    let initial_marking = Marking::new(BTreeMap::from([(0, 1), (2, 1), (3, 1)]));
    {
        let gv = petri_repr(&petri_net, &Some(initial_marking.clone()));
        assert!(gv.to_dot_string().contains("lock"));
    }
    // ***
    let kripke_only_marks = as_solver_structure(
        petri_to_kripke(
            &petri_net,
            initial_marking.clone(),
            &PetriKripkeStateProducer::new(vec![]),
            &PetriKripkeGenerationSafenessRequirement::KSafeness(1),
        )
        .unwrap(),
    );
    {
        let gv = Drawer(PetriKripkeVisualizer::new(&petri_net)).get_kripke_repr(&kripke_only_marks);
        assert!(gv.to_dot_string().contains("@p0(A_U):1"));
    }
    // ***
    let kripke_with_prev_labs = as_solver_structure(
        petri_to_kripke(
            &petri_net,
            initial_marking.clone(),
            &PetriKripkeStateProducer::new(vec![(*lock).clone(), (*unlock).clone()]),
            &PetriKripkeGenerationSafenessRequirement::KSafeness(1),
        )
        .unwrap(),
    );
    {
        let gv = Drawer(PetriKripkeVisualizer::new(&petri_net)).get_kripke_repr(&kripke_with_prev_labs);
        assert!(gv.to_dot_string().contains("prev:unlock"));
    }
    // ***
    let initial_states = HashSet::from([0]);
    let ctl_parser = BuiltinPetriCtlParser::from_net(&petri_net).unwrap();

    let phis = vec![
        // at initial state
        (r#"tokens-count("A_L")=0"#, true),
        (r#"tokens-count("B_L")=0"#, true),
        (r#"tokens-count("A_L")>0"#, false),
        (r#"tokens-count("B_L")>0"#, false),
        (r#"tokens-count("A_U")=1"#, true),
        (r#"tokens-count("B_U")=1"#, true),
        (r#"tokens-count("A_U")=0"#, false),
        (r#"tokens-count("B_U")=0"#, false),
        (r#"tokens-count("CTL")=1"#, true),
        (r#"tokens-count("CTL")=0"#, false),
        // safety properties
        (r#"A(G(!((tokens-count("A_U")>0)&(tokens-count("B_U")>0))))"#, false),
        (r#"A(G(!((tokens-count("A_L")>0)&(tokens-count("B_L")>0))))"#, true),
        (r#"A(G( ((tokens-count("A_L")=0)&(tokens-count("A_U")=1)) | ((tokens-count("A_L")=1)&(tokens-count("A_U")=0)) ))"#, true),
        (r#"A(G( ((tokens-count("B_L")=0)&(tokens-count("B_U")=1)) | ((tokens-count("B_L")=1)&(tokens-count("B_U")=0)) ))"#, true),
        (r#"A(G( (tokens-count("CTL")=0) => (!( is-fireable("lock") )) ))"#, true),
        (r#"A(G( (tokens-count("CTL")=0) => (!( is-fireable("unlock") )) ))"#, false),
        (r#"A(G( (tokens-count("CTL")=1) => (!( is-fireable("unlock") )) ))"#, true),
        (r#"A(G( (tokens-count("CTL")=1) => (!( is-fireable("lock") )) ))"#, false),
        // liveness properties
        (r#"A(G( is-fireable("lock") ))"#, false),
        (r#"A(G( is-fireable("unlock") ))"#, false),
        (r#"A(G( (is-fireable("lock")) | (is-fireable("unlock"))  ))"#, true),
    ];
    for (phi_as_str, is_sat) in phis {
        let (_, phi) = Hook(&ctl_parser).parse_ctl_formula::<nom::error::Error<&str>>(phi_as_str).unwrap();
        let result = is_ctl_formula_sat(&kripke_only_marks, &initial_states, &phi);
        assert_eq!(result, is_sat, "{} : \n{:?}\n", phi_as_str, phi);
    }

    let phis_with_past = vec![
        // safety properties
        (r#"A(G( (is-previous("lock")) => (A(X( !(is-previous("lock")) ))) ))"#, true),
        (r#"A(G( (is-previous("unlock")) => (A(X( !(is-previous("unlock")) ))) ))"#, true),
        (r#"A(G( (is-previous("unlock")) => (A(X( !(is-previous("lock")) ))) ))"#, false),
        (r#"A(G( (is-previous("lock")) => (A(X( !(is-previous("unlock")) ))) ))"#, false),
        // ***
        (r#"A(G( (is-previous("lock")) => (tokens-count("CTL")=0) ))"#, true),
        (r#"A(G( (is-previous("unlock")) => (tokens-count("CTL")=1) ))"#, true),
    ];
    for (phi_as_str, is_sat) in phis_with_past {
        let (_, phi) = Hook(&ctl_parser).parse_ctl_formula::<nom::error::Error<&str>>(phi_as_str).unwrap();
        let result = is_ctl_formula_sat(&kripke_with_prev_labs, &initial_states, &phi);
        assert_eq!(result, is_sat, "{} : \n{:?}\n", phi_as_str, phi);
    }
}

fn holds(net: &PetriNet, marking: &Marking, formula: &str) -> bool {
    let graph = petri_to_kripke(
        net,
        marking.clone(),
        &PetriKripkeStateProducer::new(vec![]),
        &PetriKripkeGenerationSafenessRequirement::KSafeness(1),
    )
    .unwrap();
    let parser = BuiltinPetriCtlParser::from_net(net).unwrap();
    let (_, phi) = Hook(&parser).parse_ctl_formula::<nom::error::Error<&str>>(formula).unwrap();
    is_ctl_formula_sat(&as_solver_structure(graph), &HashSet::from([0]), &phi)
}

#[test]
pub fn reduction_keeps_what_can_be_reached() {
    // a cycle p0 -A-> p1 -(silent)-> p2 -B-> p0, with a place p3 that only B feeds
    let a = Rc::new(PetriTransitionLabel::new("A".to_string()));
    let b = Rc::new(PetriTransitionLabel::new("B".to_string()));
    let out = Some(Rc::new(PetriStateLabel::new("out".to_string())));
    let net = PetriNet::new(
        vec![None, None, None, out.clone()],
        vec![
            PetriTransition::new(Some(a.clone()), arcs(&[(0, 1)]), arcs(&[(1, 1)])),
            PetriTransition::new(None, arcs(&[(1, 1)]), arcs(&[(2, 1)])),
            PetriTransition::new(Some(b.clone()), arcs(&[(2, 1), (3, 1)]), arcs(&[(0, 1), (3, 1)])),
        ],
    );
    let marking = Marking::new(BTreeMap::from([(0, 1), (3, 1)]));
    let mut reduced = net.clone();
    let mut reduced_marking = Some(marking.clone());
    petricheck::reduction::reduce::reduce_petri_net(&mut reduced, &mut reduced_marking);
    assert_eq!(
        reduced,
        PetriNet::new(
            vec![None, None, out],
            vec![
                PetriTransition::new(Some(a), arcs(&[(0, 1)]), arcs(&[(1, 1)])),
                PetriTransition::new(Some(b), arcs(&[(1, 1), (2, 1)]), arcs(&[(0, 1), (2, 1)])),
            ],
        )
    );
    let reduced_marking = reduced_marking.unwrap();
    let formulas = vec![
        (r#"E(F(is-fireable("B")))"#, true),
        (r#"A(G(E(F(is-fireable("A")))))"#, true),
        (r#"A(G(tokens-count("out")=1))"#, true),
        (r#"E(F(tokens-count("out")>1))"#, false),
        (r#"A(G(!((is-fireable("A"))&(is-fireable("B")))))"#, true),
    ];
    for (formula, expected) in formulas {
        assert_eq!(holds(&net, &marking, formula), expected, "{}", formula);
        assert_eq!(holds(&reduced, &reduced_marking, formula), expected, "{} after reduction", formula);
    }
}
