use std::collections::{BTreeMap, HashMap};
use std::rc::Rc;

use graphviz_dot_builder::traits::DotTranslatable;
use petricheck::model::label::{PetriStateLabel, PetriTransitionLabel};
use petricheck::model::marking::Marking;
use petricheck::model::net::PetriNet;
use petricheck::model::transition::{Firing, PetriTransition};
use petricheck::util::context::PetriNetContext;
use petricheck::util::vizualisation::petri_viz::petri_repr;

fn arcs(entries: &[(usize, u32)]) -> HashMap<usize, u32> {
    entries.iter().cloned().collect()
}

fn tokens(entries: &[(usize, u32)]) -> Marking {
    Marking::new(entries.iter().cloned().collect::<BTreeMap<usize, u32>>())
}

fn label(name: &str) -> Rc<PetriTransitionLabel> {
    Rc::new(PetriTransitionLabel::new(name.to_string()))
}

fn place(name: &str) -> Option<Rc<PetriStateLabel>> {
    Some(Rc::new(PetriStateLabel::new(name.to_string())))
}

#[test]
pub fn firing_moves_tokens_and_prunes_empty_places() {
    let t = PetriTransition::new(None, arcs(&[(0, 2), (1, 1)]), arcs(&[(1, 1), (2, 3)]));
    // m' = m - pre + post, place by place; p0 is left empty and is no key of the result
    assert_eq!(t.try_fire(4, &tokens(&[(0, 2), (1, 1), (3, 7)])), Some(tokens(&[(1, 1), (2, 3), (3, 7)])));
    assert_eq!(t.try_fire(4, &tokens(&[(0, 5), (1, 4), (2, 1)])), Some(tokens(&[(0, 3), (1, 4), (2, 4)])));
    // disabled: p1 holds nothing
    assert_eq!(t.try_fire(4, &tokens(&[(0, 2)])), None);
    // disabled: p0 holds too little
    assert_eq!(t.try_fire(4, &tokens(&[(0, 1), (1, 1)])), None);
}

#[test]
pub fn firing_under_a_bound() {
    let t = PetriTransition::new(None, arcs(&[(0, 1)]), arcs(&[(1, 2), (2, 3)]));
    let m = tokens(&[(0, 1), (1, 1)]);
    assert!(matches!(t.try_fire_within(3, &m, 3), Firing::Fires(r) if r == tokens(&[(1, 3), (2, 3)])));
    assert!(matches!(t.try_fire_within(3, &m, 2), Firing::Exceeds { place_id: 1 }));
    assert!(matches!(t.try_fire_within(3, &tokens(&[(1, 1)]), 2), Firing::Disabled));
    // a disabled transition is reported as such even where a place before would pass the bound
    let u = PetriTransition::new(None, arcs(&[(1, 1)]), arcs(&[(0, 9)]));
    assert!(matches!(u.try_fire_within(2, &tokens(&[]), 2), Firing::Disabled));
}

#[test]
pub fn transition_lists_its_arcs() {
    let t = PetriTransition::new(Some(label("A")), arcs(&[(0, 2), (4, 1)]), arcs(&[(1, 1)]));
    assert_eq!(t.number_of_preset_places(), 2);
    assert_eq!(t.number_of_postset_places(), 1);
    let mut pre: Vec<(usize, u32)> = t.iter_preset_tokens().map(|(p, k)| (*p, *k)).collect();
    pre.sort();
    assert_eq!(pre, vec![(0, 2), (4, 1)]);
    let post: Vec<(usize, u32)> = t.iter_postset_tokens().map(|(p, k)| (*p, *k)).collect();
    assert_eq!(post, vec![(1, 1)]);
    let (mut pre, post) = t.unwrap();
    pre.sort();
    assert_eq!(pre, vec![(0, 2), (4, 1)]);
    assert_eq!(post, vec![(1, 1)]);
}

#[test]
pub fn removing_a_place_renumbers_the_arcs() {
    let mut net = PetriNet::new(
        vec![place("a"), place("b"), None, place("d")],
        vec![
            PetriTransition::new(Some(label("A")), arcs(&[(0, 1), (1, 2)]), arcs(&[(2, 3), (3, 4)])),
            PetriTransition::new(None, arcs(&[(3, 1)]), arcs(&[(1, 5)])),
        ],
    );
    net.remove_place(1);
    assert_eq!(
        net,
        PetriNet::new(
            vec![place("a"), None, place("d")],
            vec![
                PetriTransition::new(Some(label("A")), arcs(&[(0, 1)]), arcs(&[(1, 3), (2, 4)])),
                PetriTransition::new(None, arcs(&[(2, 1)]), arcs(&[])),
            ],
        )
    );
    let removed = net.remove_transition(0);
    assert_eq!(removed, PetriTransition::new(Some(label("A")), arcs(&[(0, 1)]), arcs(&[(1, 3), (2, 4)])));
    assert_eq!(net.transitions, vec![PetriTransition::new(None, arcs(&[(2, 1)]), arcs(&[]))]);
}

#[test]
pub fn places_and_transitions_are_added_at_the_end() {
    let mut net = PetriNet::new_empty();
    assert_eq!(net.add_place(None), 0);
    assert_eq!(net.add_place(place("b")), 1);
    assert_eq!(net.add_transition(PetriTransition::new(None, arcs(&[(0, 1)]), arcs(&[(1, 1)]))), 0);
    assert_eq!(net.add_transition(PetriTransition::new(Some(label("B")), arcs(&[(1, 1)]), arcs(&[(0, 1)]))), 1);
    assert_eq!(
        net,
        PetriNet::new(
            vec![None, place("b")],
            vec![
                PetriTransition::new(None, arcs(&[(0, 1)]), arcs(&[(1, 1)])),
                PetriTransition::new(Some(label("B")), arcs(&[(1, 1)]), arcs(&[(0, 1)])),
            ],
        )
    );
}

#[test]
pub fn relabelling_replaces_listed_names_only() {
    let mut net = PetriNet::new(
        vec![place("a"), None, place("c"), place("a")],
        vec![
            PetriTransition::new(Some(label("A")), arcs(&[(0, 1)]), arcs(&[(1, 1)])),
            PetriTransition::new(None, arcs(&[(1, 1)]), arcs(&[(2, 1)])),
            PetriTransition::new(Some(label("C")), arcs(&[(2, 1)]), arcs(&[(3, 1)])),
        ],
    );
    net.relabel_places(vec![
        (PetriStateLabel::new("a".to_string()), place("z")),
        (PetriStateLabel::new("c".to_string()), None),
        (PetriStateLabel::new("a".to_string()), place("ignored")),
    ]);
    assert_eq!(net.places, vec![place("z"), None, None, place("z")]);
    net.relabel_transitions(vec![
        (PetriTransitionLabel::new("C".to_string()), Some(label("A"))),
        (PetriTransitionLabel::new("B".to_string()), None),
    ]);
    assert_eq!(
        net.transitions,
        vec![
            PetriTransition::new(Some(label("A")), arcs(&[(0, 1)]), arcs(&[(1, 1)])),
            PetriTransition::new(None, arcs(&[(1, 1)]), arcs(&[(2, 1)])),
            PetriTransition::new(Some(label("A")), arcs(&[(2, 1)]), arcs(&[(3, 1)])),
        ]
    );
}

#[test]
pub fn marking_answers_for_its_places() {
    let m = tokens(&[(1, 4), (3, 1)]);
    assert_eq!(m.get_num_toks_at_place(&1), Some(&4));
    assert_eq!(m.get_num_toks_at_place(&0), None);
    assert_eq!(m.toks(3), 1);
    assert_eq!(m.toks(2), 0);
    assert_eq!(m.iter_tokens().map(|(p, k)| (*p, *k)).collect::<Vec<_>>(), vec![(1, 4), (3, 1)]);
    assert!(m.same(&tokens(&[(3, 1), (1, 4)])));
    assert!(!m.same(&tokens(&[(1, 4)])));
    assert!(!m.same(&tokens(&[(1, 4), (3, 2)])));
    assert_eq!(m.duplicate(), m);
    let mut shifted = m.clone();
    shifted.remove_place(1);
    assert_eq!(shifted, tokens(&[(2, 1)]));
    let mut merged = tokens(&[(0, 2), (1, 5)]);
    merged.merge_place(0, 1);
    assert_eq!(merged, tokens(&[(1, 5)]));
    let mut moved = tokens(&[(0, 2)]);
    moved.merge_place(0, 1);
    assert_eq!(moved, tokens(&[(1, 2)]));
}

#[test]
pub fn labels_are_compared_by_name() {
    let a = PetriTransitionLabel::new("A".to_string());
    assert!(a.same_name(&PetriTransitionLabel::new("A".to_string())));
    assert!(!a.same_name(&PetriTransitionLabel::new("B".to_string())));
    assert_eq!(a.to_string(), "A");
    let p = PetriStateLabel::new("P1".to_string());
    assert!(p.same_name(&PetriStateLabel::new("P1".to_string())));
    assert!(!p.same_name(&PetriStateLabel::new("P2".to_string())));
    assert_eq!(p.to_string(), "P1");
}

#[test]
pub fn context_gives_names() {
    let context = PetriNetContext::new(
        vec!["A_U".to_string(), "A_L".to_string()],
        vec![0, 0, 1],
        vec!["lock".to_string(), "unlock".to_string()],
    );
    assert_eq!(context.get_place_label(1), "A_L");
    assert_eq!(context.get_transition_label_from_label_id(1), "unlock");
    assert_eq!(context.get_transition_label_from_transition_id(1), "lock");
    assert_eq!(context.get_transition_label_from_transition_id(2), "unlock");
}

#[test]
pub fn net_is_drawn_with_places_transitions_and_arcs() {
    let net = PetriNet::new(
        vec![place("A_U"), None],
        vec![
            PetriTransition::new(Some(label("lock")), arcs(&[(0, 1)]), arcs(&[(1, 2)])),
            PetriTransition::new(None, arcs(&[(1, 12)]), arcs(&[(0, 1), (1, 1)])),
        ],
    );
    let expected = [
        "digraph G {",
        "compound=true;",
        "\tplace0 [shape=circle,label=\"p0:(A_U)\ntks:3\"];",
        "\tplace1 [shape=circle,label=\"p1\n\"];",
        "\ttr0 [shape=rectangle,label=\"lock\"];",
        "\ttr1 [shape=rectangle,label=\"\"];",
        "\tplace0->tr0;",
        "\ttr0->place1 [label=\"2\"];",
        "\tplace1->tr1 [label=\"12\"];",
        "\ttr1->place0;",
        "\ttr1->place1;",
        "}",
    ]
    .join("\n");
    assert_eq!(petri_repr(&net, &Some(tokens(&[(0, 3)]))).to_dot_string(), expected);
    let unmarked = petri_repr(&net, &None).to_dot_string();
    assert!(unmarked.contains("\tplace0 [shape=circle,label=\"p0:(A_U)\n\"];"));
}
