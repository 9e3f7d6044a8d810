use std::collections::HashMap;
use std::rc::Rc;

use petricheck::model::label::{PetriStateLabel, PetriTransitionLabel};
use petricheck::model::net::PetriNet;
use petricheck::model::transition::PetriTransition;
use petricheck::model_checking::props::{BuiltinPetriAtomicProposition, TokensCountAtom, TokensCountRelation};
use petricheck::util::parse_ctl::error::PetriCtlParsingError;
use petricheck::util::parse_ctl::formula::PetriCtlFormula;
use petricheck::util::parse_ctl::grammar::{expect, parse_petri_element_reference, parse_u32};
use petricheck::util::parse_ctl::parser::{lookup_place, transition_firing_condition, BuiltinPetriCtlParser};
use petricheck::util::vizualisation::petri_viz::petri_repr;
use graphviz_dot_builder::traits::DotTranslatable;

use citreelo::ctl::{BinaryCTLOperator, CTLFormula, CTLFormulaLeaf};

use citreelo::parser::CtlFormulaParser;

fn arcs(entries: &[(usize, u32)]) -> HashMap<usize, u32> {
    entries.iter().cloned().collect()
}

/// the hook through which the formula parser reads atomic propositions
struct Hook<'a>(&'a BuiltinPetriCtlParser);

fn as_ctl(formula: PetriCtlFormula) -> CTLFormula<BuiltinPetriAtomicProposition> {
    match formula {
        PetriCtlFormula::True => CTLFormula::Leaf(CTLFormulaLeaf::True),
        PetriCtlFormula::False => CTLFormula::Leaf(CTLFormulaLeaf::False),
        PetriCtlFormula::AtomicProp(p) => CTLFormula::Leaf(CTLFormulaLeaf::AtomicProp(p)),
        PetriCtlFormula::And(a, b) => {
            CTLFormula::Binary(BinaryCTLOperator::And, Box::new(as_ctl(*a)), Box::new(as_ctl(*b)))
        }
        PetriCtlFormula::Or(a, b) => {
            CTLFormula::Binary(BinaryCTLOperator::Or, Box::new(as_ctl(*a)), Box::new(as_ctl(*b)))
        }
    }
}

impl<'p> CtlFormulaParser<BuiltinPetriAtomicProposition> for Hook<'p> {
    fn parse_atomic_proposition<'a, E: nom::error::ParseError<&'a str>>(
        &self,
        input: &'a str,
    ) -> nom::IResult<&'a str, CTLFormula<BuiltinPetriAtomicProposition>, E> {
        match self.0.parse_atomic_proposition(input.as_bytes()) {
            Some((formula, read)) => Ok((&input[read..], as_ctl(formula))),
            None => Err(nom::Err::Error(nom::error::make_error(input, nom::error::ErrorKind::Fail))),
        }
    }
}

fn tool_test_parse_ctl(
    title: &str,
    pn: PetriNet,
    formulaes: HashMap<&str, CTLFormula<BuiltinPetriAtomicProposition>>,
) {
    {
        let gv = petri_repr(&pn, &None);
        assert!(!gv.to_dot_string().is_empty(), "{}", title);
    }
    let ctl_parser = BuiltinPetriCtlParser::from_net(&pn).unwrap();
    for (phi_as_str, expected_formula) in formulaes {
        let (_, phi) = Hook(&ctl_parser).parse_ctl_formula::<nom::error::Error<&str>>(phi_as_str).unwrap();
        assert_eq!(phi, expected_formula, "{} : {}", title, phi_as_str);
    }
}

#[test]
pub fn test_tokens_count() {
    let tr_a = Rc::new(PetriTransitionLabel::new("A".to_string()));
    let tr_b = Rc::new(PetriTransitionLabel::new("B".to_string()));
    let tr_c = Rc::new(PetriTransitionLabel::new("C".to_string()));
    let mut pn = PetriNet::new(
        vec![
            Some(Rc::new(PetriStateLabel::new("P1".to_string()))),
            Some(Rc::new(PetriStateLabel::new("P2".to_string()))),
            Some(Rc::new(PetriStateLabel::new("P3".to_string()))),
            Some(Rc::new(PetriStateLabel::new("P4".to_string()))),
        ],
        vec![
            PetriTransition::new(Some(tr_a.clone()), arcs(&[(0, 1)]), arcs(&[(1, 1)])),
            PetriTransition::new(Some(tr_b.clone()), arcs(&[(0, 1)]), arcs(&[(2, 1), (3, 1)])),
            PetriTransition::new(Some(tr_c.clone()), arcs(&[(2, 1), (3, 1)]), arcs(&[(1, 1)])),
        ],
    );
    let one_in_p1 = CTLFormula::Leaf(CTLFormulaLeaf::AtomicProp(BuiltinPetriAtomicProposition::TokensCount(
        TokensCountRelation::GreaterOrEqual,
        TokensCountAtom::NumberOfTokensInPlace(0),
        TokensCountAtom::RawInteger(1),
    )));
    let one_in_p2 = CTLFormula::Leaf(CTLFormulaLeaf::AtomicProp(BuiltinPetriAtomicProposition::TokensCount(
        TokensCountRelation::GreaterOrEqual,
        TokensCountAtom::NumberOfTokensInPlace(1),
        TokensCountAtom::RawInteger(1),
    )));
    let one_in_p3 = CTLFormula::Leaf(CTLFormulaLeaf::AtomicProp(BuiltinPetriAtomicProposition::TokensCount(
        TokensCountRelation::GreaterOrEqual,
        TokensCountAtom::NumberOfTokensInPlace(2),
        TokensCountAtom::RawInteger(1),
    )));
    let one_in_p4 = CTLFormula::Leaf(CTLFormulaLeaf::AtomicProp(BuiltinPetriAtomicProposition::TokensCount(
        TokensCountRelation::GreaterOrEqual,
        TokensCountAtom::NumberOfTokensInPlace(3),
        TokensCountAtom::RawInteger(1),
    )));
    let fireable_a = one_in_p1.clone();
    let fireable_b = one_in_p1.clone();
    let fireable_c =
        CTLFormula::Binary(BinaryCTLOperator::And, Box::new(one_in_p3.clone()), Box::new(one_in_p4.clone()));
    let formulaes = HashMap::from([
        ("tokens-count(\"P1\")>=1", one_in_p1.clone()),
        ("tokens-count(\"P2\")>=1", one_in_p2.clone()),
        ("tokens-count(\"P3\")>=1", one_in_p3.clone()),
        ("tokens-count(\"P4\")>=1", one_in_p4.clone()),
        ("is-fireable(\"A\")", fireable_a.clone()),
        ("is-fireable(\"B\")", fireable_b.clone()),
        ("is-fireable(\"C\")", fireable_c.clone()),
    ]);
    tool_test_parse_ctl("tokenscount1", pn.clone(), formulaes);
    let relabelling = vec![((*tr_c).clone(), Some(tr_a.clone()))];
    let fireable_a_after_relabelling =
        CTLFormula::Binary(BinaryCTLOperator::Or, Box::new(fireable_a), Box::new(fireable_c));
    let formulaes_after_relabelling = HashMap::from([
        ("is-fireable(\"A\")", fireable_a_after_relabelling),
        ("is-fireable(\"B\")", fireable_b),
        ("is-fireable(\"C\")", CTLFormula::Leaf(CTLFormulaLeaf::False)),
    ]);
    pn.relabel_transitions(relabelling);
    tool_test_parse_ctl("tokenscount2", pn.clone(), formulaes_after_relabelling);
}

fn sample_parser() -> BuiltinPetriCtlParser {
    let lock = Rc::new(PetriTransitionLabel::new("lock".to_string()));
    let pn = PetriNet::new(
        vec![Some(Rc::new(PetriStateLabel::new("A_U".to_string()))), None, Some(Rc::new(PetriStateLabel::new("x1_y".to_string())))],
        vec![
            PetriTransition::new(Some(lock.clone()), arcs(&[(2, 2), (0, 1)]), arcs(&[(1, 1)])),
            PetriTransition::new(None, arcs(&[(1, 1)]), arcs(&[(0, 1)])),
            PetriTransition::new(Some(lock.clone()), arcs(&[]), arcs(&[(1, 1)])),
        ],
    );
    BuiltinPetriCtlParser::from_net(&pn).unwrap()
}

fn at_least(p: usize, k: u32) -> PetriCtlFormula {
    PetriCtlFormula::AtomicProp(BuiltinPetriAtomicProposition::TokensCount(
        TokensCountRelation::GreaterOrEqual,
        TokensCountAtom::NumberOfTokensInPlace(p),
        TokensCountAtom::RawInteger(k),
    ))
}

#[test]
pub fn compiler_lists_places_labels_and_conditions() {
    let parser = sample_parser();
    assert_eq!(parser.place_name_to_index, vec![("A_U".to_string(), 0), ("x1_y".to_string(), 2)]);
    assert_eq!(
        parser.transition_label_to_ref,
        vec![("lock".to_string(), Rc::new(PetriTransitionLabel::new("lock".to_string())))]
    );
    // the conjunction goes by increasing place; the transition without preset is always fireable
    let expected = PetriCtlFormula::Or(
        Box::new(PetriCtlFormula::And(Box::new(at_least(0, 1)), Box::new(at_least(2, 2)))),
        Box::new(PetriCtlFormula::True),
    );
    assert_eq!(parser.transition_label_to_firing_condition, vec![("lock".to_string(), expected)]);
    assert_eq!(lookup_place(&parser.place_name_to_index, &"x1_y".to_string()), Some(2));
    assert_eq!(lookup_place(&parser.place_name_to_index, &"x1".to_string()), None);
    let t = PetriTransition::new(None, arcs(&[(1, 4), (5, 1)]), arcs(&[]));
    assert_eq!(transition_firing_condition(&t, 3), at_least(1, 4));
    assert_eq!(transition_firing_condition(&t, 1), PetriCtlFormula::True);
}

#[test]
pub fn two_places_with_one_name_are_refused() {
    let pn = PetriNet::new(
        vec![Some(Rc::new(PetriStateLabel::new("P".to_string()))), None, Some(Rc::new(PetriStateLabel::new("P".to_string())))],
        vec![],
    );
    assert!(matches!(
        BuiltinPetriCtlParser::from_net(&pn),
        Err(PetriCtlParsingError::MultiplePlacesHaveTheSameName)
    ));
    assert_eq!(
        PetriCtlParsingError::MultiplePlacesHaveTheSameName.to_string(),
        "multiple places have the same name"
    );
    assert_eq!(
        PetriCtlParsingError::DuplicatedTransitionLabelInContext.to_string(),
        "duplicated transition label in context"
    );
}

#[test]
pub fn atomic_propositions_are_read_at_the_start_of_the_input() {
    let parser = sample_parser();
    let count = |rel, left, right| PetriCtlFormula::AtomicProp(BuiltinPetriAtomicProposition::TokensCount(rel, left, right));
    let place = TokensCountAtom::NumberOfTokensInPlace;
    let raw = TokensCountAtom::RawInteger;
    let read = |text: &str| parser.parse_atomic_proposition(text.as_bytes());
    assert_eq!(
        read("tokens-count(\"A_U\")<=12) & rest"),
        Some((count(TokensCountRelation::LowerOrEqual, place(0), raw(12)), 23))
    );
    assert_eq!(read("3<tokens-count(\"x1_y\")"), Some((count(TokensCountRelation::StrictlyLower, raw(3), place(2)), 22)));
    assert_eq!(read("0=0"), Some((count(TokensCountRelation::Equal, raw(0), raw(0)), 3)));
    assert_eq!(read("007>=4294967295"), Some((count(TokensCountRelation::GreaterOrEqual, raw(7), raw(u32::MAX)), 15)));
    assert_eq!(read("1>2>3"), Some((count(TokensCountRelation::StrictlyGreater, raw(1), raw(2)), 3)));
    // a number that no count can hold, an unknown place, a missing side, spaces
    assert_eq!(read("1=4294967296"), None);
    assert_eq!(read("tokens-count(\"B_U\")=1"), None);
    assert_eq!(read("tokens-count(\"A_U\")="), None);
    assert_eq!(read("tokens-count(\"A_U\") = 1"), None);
    assert_eq!(read("tokens-count(A_U)=1"), None);
    assert_eq!(read("tokens-count(\"1A\")=1"), None);
    assert_eq!(read(""), None);
    assert_eq!(read("true"), None);
    // labels
    assert_eq!(
        read("is-previous(\"lock\")"),
        Some((
            PetriCtlFormula::AtomicProp(BuiltinPetriAtomicProposition::PreviousTransitionLabelMustBe(Rc::new(
                PetriTransitionLabel::new("lock".to_string())
            ))),
            19
        ))
    );
    assert_eq!(read("is-previous(\"unlock\"))"), Some((PetriCtlFormula::False, 21)));
    assert_eq!(read("is-fireable(\"unknown\")"), Some((PetriCtlFormula::False, 22)));
    assert_eq!(
        read("is-fireable(\"lock\")x"),
        Some((
            PetriCtlFormula::Or(
                Box::new(PetriCtlFormula::And(Box::new(at_least(0, 1)), Box::new(at_least(2, 2)))),
                Box::new(PetriCtlFormula::True),
            ),
            19
        ))
    );
    assert_eq!(read("is-fireable(\"lock\""), None);
    assert_eq!(read("is-fireable(lock)"), None);
    assert_eq!(read("is-fireable(\"\")"), None);
}

#[test]
pub fn pieces_of_the_grammar() {
    assert_eq!(parse_u32(b"42abc", 0), Some((42, 2)));
    assert_eq!(parse_u32(b"x42", 1), Some((42, 3)));
    assert_eq!(parse_u32(b"x42", 0), None);
    assert_eq!(parse_u32(b"42", 2), None);
    assert_eq!(parse_u32(b"42", 3), None);
    assert_eq!(parse_u32(b"4294967295", 0), Some((u32::MAX, 10)));
    assert_eq!(parse_u32(b"4294967296", 0), None);
    assert_eq!(parse_u32(b"99999999999999999999999999", 0), None);
    assert_eq!(parse_petri_element_reference(b"\"a_1\"z", 0), Some((b"a_1".to_vec(), 5)));
    assert_eq!(parse_petri_element_reference(b"\"a\"", 0), Some((b"a".to_vec(), 3)));
    assert_eq!(parse_petri_element_reference(b"\"_a\"", 0), None);
    assert_eq!(parse_petri_element_reference(b"\"a-b\"", 0), None);
    assert_eq!(parse_petri_element_reference(b"\"a", 0), None);
    assert_eq!(parse_petri_element_reference(b"a\"", 0), None);
    assert!(expect(b"is-fireable(", 0, "is-"));
    assert!(expect(b"is-fireable(", 3, "fire"));
    assert!(!expect(b"is-fireable(", 3, "fier"));
    assert!(!expect(b"is", 0, "is-"));
    assert!(!expect(b"is", 5, ""));
    assert!(expect(b"is", 2, ""));
}
