use vstd::prelude::*;
use std::rc::Rc;
use crate::maps::hash_count;
use crate::model::label::PetriTransitionLabel;
use crate::model::net::{NetModel, PetriNet};
use crate::model::transition::PetriTransition;
use crate::model_checking::props::{BuiltinPetriAtomicProposition, TokensCountAtom, TokensCountRelation};
use crate::util::parse_ctl::error::PetriCtlParsingError;
use crate::util::parse_ctl::formula::{
    demands_upto, fireable, fireable_upto, firing_condition, PetriCtlFormula,
};

verus! {

/// Compiles the atomic propositions of the surface syntax for one net.
pub struct BuiltinPetriCtlParser {
    /// for each place name its index in the net
    pub place_name_to_index: Vec<(String, usize)>,
    /// for each name of a transition label the label that decorates the
    /// states reached by firing a transition that carries it
    pub transition_label_to_ref: Vec<(String, Rc<PetriTransitionLabel>)>,
    /// for each name of a transition label the firing condition of the
    /// transitions with that label:
    /// ∨_{transitions with that label}
    ///     (
    ///         ∧_{places that require tokens in the preset of the transition}
    ///             (
    ///                 tokens-count(place) >= requirement
    ///             )
    ///     )
    pub transition_label_to_firing_condition: Vec<(String, PetriCtlFormula)>,
}

/// Two places of the net carry labels with one name.
pub open spec fn duplicate_place_name(net: NetModel) -> bool {
    exists|p: int, q: int|
        0 <= p < q < net.places.len() && (#[trigger] net.places[p]) is Some && net.places[p] == #[trigger] net.places[q]
}

/// The labelled places among the first `upto`, each with its name, in the
/// order of the net.
pub open spec fn place_names(net: NetModel, upto: int) -> Seq<(Seq<char>, usize)>
    decreases upto,
{
    if upto <= 0 {
        Seq::empty()
    } else {
        let before = place_names(net, upto - 1);
        match net.places[upto - 1] {
            Some(name) => before.push((name, (upto - 1) as usize)),
            None => before,
        }
    }
}

/// The names of the labels that the first `upto` transitions carry, each
/// once, in the order in which the net first shows them.
pub open spec fn label_names(net: NetModel, upto: int) -> Seq<Seq<char>>
    decreases upto,
{
    if upto <= 0 {
        Seq::empty()
    } else {
        let before = label_names(net, upto - 1);
        match net.transitions[upto - 1].label {
            Some(name) => if before.contains(name) {
                before
            } else {
                before.push(name)
            },
            None => before,
        }
    }
}

/// The names under which a table lists its entries.
pub open spec fn listed_names<V>(table: Seq<(String, V)>) -> Seq<Seq<char>> {
    Seq::new(table.len(), |i: int| table[i].0@)
}

/// Some transition of the net carries the label `name`.
pub open spec fn labels_transition(net: NetModel, name: Seq<char>) -> bool {
    exists|t: int| 0 <= t < net.transitions.len() && (#[trigger] net.transitions[t]).label == Some(name)
}

impl BuiltinPetriCtlParser {
    /// The compiler maps the place name to the place.
    pub open spec fn maps_place(&self, name: Seq<char>, place_id: usize) -> bool {
        exists|i: int|
            0 <= i < self.place_name_to_index@.len() && (#[trigger] self.place_name_to_index@[i]).0@ == name
                && self.place_name_to_index@[i].1 == place_id
    }

    /// The compiler knows a label of this name.
    pub open spec fn knows_label(&self, name: Seq<char>) -> bool {
        exists|i: int|
            0 <= i < self.transition_label_to_ref@.len() && (#[trigger] self.transition_label_to_ref@[i]).0@
                == name
    }

    /// The compiler maps the label name to the firing condition.
    pub open spec fn maps_condition(&self, name: Seq<char>, f: PetriCtlFormula) -> bool {
        exists|i: int|
            0 <= i < self.transition_label_to_firing_condition@.len() && (
            #[trigger] self.transition_label_to_firing_condition@[i]).0@ == name
                && self.transition_label_to_firing_condition@[i].1 == f
    }

    /// No name stands twice in a table, and every label stands under its
    /// own name.
    pub open spec fn wf(&self) -> bool {
        &&& forall|i: int, j: int|
            0 <= i < j < self.place_name_to_index@.len() ==> (#[trigger] self.place_name_to_index@[i]).0@ != (
            #[trigger] self.place_name_to_index@[j]).0@
        &&& forall|i: int, j: int|
            0 <= i < j < self.transition_label_to_ref@.len() ==> (#[trigger] self.transition_label_to_ref@[i]).0@
                != (#[trigger] self.transition_label_to_ref@[j]).0@
        &&& forall|i: int, j: int|
            0 <= i < j < self.transition_label_to_firing_condition@.len() ==> (
            #[trigger] self.transition_label_to_firing_condition@[i]).0@ != (
            #[trigger] self.transition_label_to_firing_condition@[j]).0@
        &&& forall|i: int|
            0 <= i < self.transition_label_to_ref@.len() ==> (#[trigger] self.transition_label_to_ref@[i]).1@
                == self.transition_label_to_ref@[i].0@
    }

    /// The tables list the labelled places in the order of the net, and the
    /// labels in the order in which the net first shows them.
    pub open spec fn laid_out_as(&self, net: NetModel) -> bool {
        &&& Seq::new(
            self.place_name_to_index@.len(),
            |i: int| (self.place_name_to_index@[i].0@, self.place_name_to_index@[i].1),
        ) == place_names(net, net.places.len() as int)
        &&& listed_names(self.transition_label_to_ref@) == label_names(net, net.transitions.len() as int)
        &&& listed_names(self.transition_label_to_firing_condition@) == label_names(
            net,
            net.transitions.len() as int,
        )
    }

    /// The compiler says of places and labels what the net says: a name
    /// maps to a place exactly where the place carries it, a label is known
    /// exactly where a transition carries it, and its firing condition is
    /// the one that the net gives.
    pub open spec fn compiled_from(&self, net: NetModel) -> bool {
        &&& self.wf()
        &&& forall|name: Seq<char>, p: usize| #[trigger]
            self.maps_place(name, p) <==> p < net.places.len() && net.places[p as int] == Some(name)
        &&& forall|name: Seq<char>| #[trigger] self.knows_label(name) <==> labels_transition(net, name)
        &&& forall|name: Seq<char>, f: PetriCtlFormula| #[trigger]
            self.maps_condition(name, f) <==> fireable(net, name) == Some(f)
    }
}

/// The place that the table lists under the name, if it lists the name.
pub fn lookup_place(table: &Vec<(String, usize)>, name: &String) -> (r: Option<usize>)
    ensures
        match r {
            Some(p) => exists|i: int| 0 <= i < table@.len() && (#[trigger] table@[i]).0@ == name@ && table@[i].1 == p,
            None => forall|i: int| 0 <= i < table@.len() ==> (#[trigger] table@[i]).0@ != name@,
        },
{
    let mut i: usize = 0;
    while i < table.len()
        invariant
            0 <= i <= table.len(),
            forall|j: int| 0 <= j < i ==> (#[trigger] table@[j]).0@ != name@,
        decreases table.len() - i,
    {
        if table[i].0 == *name {
            return Some(table[i].1);
        }
        i = i + 1;
    }
    None
}

/// The position at which the table lists the name, if it lists it.
fn position_of_label(table: &Vec<(String, Rc<PetriTransitionLabel>)>, name: &String) -> (r: Option<usize>)
    ensures
        match r {
            Some(i) => i < table@.len() && table@[i as int].0@ == name@,
            None => forall|i: int| 0 <= i < table@.len() ==> (#[trigger] table@[i]).0@ != name@,
        },
{
    let mut i: usize = 0;
    while i < table.len()
        invariant
            0 <= i <= table.len(),
            forall|j: int| 0 <= j < i ==> (#[trigger] table@[j]).0@ != name@,
        decreases table.len() - i,
    {
        if table[i].0 == *name {
            return Some(i);
        }
        i = i + 1;
    }
    None
}

/// The position at which the table lists the name, if it lists it.
fn position_of_condition(table: &Vec<(String, PetriCtlFormula)>, name: &String) -> (r: Option<usize>)
    ensures
        match r {
            Some(i) => i < table@.len() && table@[i as int].0@ == name@,
            None => forall|i: int| 0 <= i < table@.len() ==> (#[trigger] table@[i]).0@ != name@,
        },
{
    let mut i: usize = 0;
    while i < table.len()
        invariant
            0 <= i <= table.len(),
            forall|j: int| 0 <= j < i ==> (#[trigger] table@[j]).0@ != name@,
        decreases table.len() - i,
    {
        if table[i].0 == *name {
            return Some(i);
        }
        i = i + 1;
    }
    None
}

/// The firing condition of a transition: the conjunction, by increasing
/// place, of what its preset asks of the places of the net.
pub fn transition_firing_condition(transition: &PetriTransition, net_place_num: usize) -> (r: PetriCtlFormula)
    ensures
        r == firing_condition(transition@.pre, net_place_num as nat),
{
    let mut ctl: Option<PetriCtlFormula> = None;
    let mut place_id: usize = 0;
    while place_id < net_place_num
        invariant
            0 <= place_id <= net_place_num,
            ctl == demands_upto(transition@.pre, place_id as nat),
        decreases net_place_num - place_id,
    {
        let req_num_toks: u32 = hash_count(&transition.preset_tokens, place_id);
        if req_num_toks > 0 {
            let atom = PetriCtlFormula::AtomicProp(
                BuiltinPetriAtomicProposition::TokensCount(
                    TokensCountRelation::GreaterOrEqual,
                    TokensCountAtom::NumberOfTokensInPlace(place_id),
                    TokensCountAtom::RawInteger(req_num_toks),
                ),
            );
            ctl = match ctl {
                Some(x) => Some(PetriCtlFormula::And(Box::new(x), Box::new(atom))),
                None => Some(atom),
            };
        }
        place_id = place_id + 1;
    }
    match ctl {
        Some(f) => f,
        None => PetriCtlFormula::True,
    }
}

/// Some transition among the first `upto` carries the label `name`.
pub open spec fn labels_transition_upto(net: NetModel, name: Seq<char>, upto: int) -> bool {
    exists|t: int| 0 <= t < upto && t < net.transitions.len() && (#[trigger] net.transitions[t]).label == Some(name)
}

/// A transition carries the label `name` exactly where the net gives a
/// firing condition for that name.
pub proof fn lemma_fireable_iff_labelled(net: NetModel, name: Seq<char>, upto: nat)
    requires
        upto <= net.transitions.len(),
    ensures
        fireable_upto(net, name, upto) is Some <==> labels_transition_upto(net, name, upto as int),
    decreases upto,
{
    if upto > 0 {
        lemma_fireable_iff_labelled(net, name, (upto - 1) as nat);
        if labels_transition_upto(net, name, upto as int) {
            let t = choose|t: int|
                0 <= t < upto && t < net.transitions.len() && (#[trigger] net.transitions[t]).label == Some(name);
            if t < upto - 1 {
                assert(labels_transition_upto(net, name, upto - 1));
            }
        }
        if labels_transition_upto(net, name, upto - 1) {
            let t = choose|t: int|
                0 <= t < upto - 1 && t < net.transitions.len() && (#[trigger] net.transitions[t]).label == Some(
                    name,
                );
            assert(0 <= t < upto);
        }
        if net.transitions[upto - 1].label == Some(name) {
            assert(labels_transition_upto(net, name, upto as int));
        }
    }
}

/// The table lists the labelled places of the net, each under its name,
/// and no name twice.
pub open spec fn lists_places(table: Seq<(String, usize)>, net: NetModel) -> bool {
    &&& forall|i: int, j: int| 0 <= i < j < table.len() ==> (#[trigger] table[i]).0@ != (#[trigger] table[j]).0@
    &&& forall|i: int|
        0 <= i < table.len() ==> (#[trigger] table[i]).1 < net.places.len() && net.places[table[i].1 as int] == Some(
            table[i].0@,
        )
    &&& forall|q: int|
        0 <= q < net.places.len() && (#[trigger] net.places[q]) is Some ==> exists|i: int|
            0 <= i < table.len() && (#[trigger] table[i]).1 == q
}

/// The table of place names of a net, or nothing where two places carry
/// one name.
fn place_table(petri_net: &PetriNet) -> (r: Option<Vec<(String, usize)>>)
    ensures
        r is None <==> duplicate_place_name(petri_net@),
        r is Some ==> lists_places(r.unwrap()@, petri_net@),
        r is Some ==> Seq::new(r.unwrap()@.len(), |i: int| (r.unwrap()@[i].0@, r.unwrap()@[i].1)) == place_names(
            petri_net@,
            petri_net@.places.len() as int,
        ),
{
    let ghost net = petri_net@;
    let n = petri_net.places.len();
    let mut table: Vec<(String, usize)> = Vec::new();
    let mut place_id: usize = 0;
    while place_id < n
        invariant
            0 <= place_id <= n,
            n == petri_net.places.len(),
            net == petri_net@,
            Seq::new(table@.len(), |i: int| (table@[i].0@, table@[i].1)) == place_names(net, place_id as int),
            forall|i: int, j: int| 0 <= i < j < table@.len() ==> (#[trigger] table@[i]).0@ != (#[trigger] table@[j]).0@,
            forall|i: int|
                0 <= i < table@.len() ==> (#[trigger] table@[i]).1 < place_id && net.places[table@[i].1 as int]
                    == Some(table@[i].0@),
            forall|q: int|
                0 <= q < place_id && (#[trigger] net.places[q]) is Some ==> exists|i: int|
                    0 <= i < table@.len() && (#[trigger] table@[i]).1 == q,
        decreases n - place_id,
    {
        match &petri_net.places[place_id] {
            Some(place_lab_ref) => {
                let name = place_lab_ref.to_string();
                assert(net.places[place_id as int] == Some(name@));
                if lookup_place(&table, &name).is_some() {
                    proof {
                        let i = choose|i: int| 0 <= i < table@.len() && (#[trigger] table@[i]).0@ == name@;
                        let p = table@[i].1 as int;
                        assert(0 <= p < place_id && net.places[p] is Some && net.places[p] == net.places[place_id as int]);
                    }
                    return None;
                }
                let ghost before = table@;
                table.push((name, place_id));
                assert(Seq::new(table@.len(), |i: int| (table@[i].0@, table@[i].1)) =~= Seq::new(
                    before.len(),
                    |i: int| (before[i].0@, before[i].1),
                ).push((name@, place_id)));
                proof {
                    assert forall|q: int| 0 <= q < place_id + 1 && (#[trigger] net.places[q]) is Some implies exists|
                        i: int,
                    |
                        0 <= i < table@.len() && (#[trigger] table@[i]).1 == q by {
                        if q < place_id {
                            let i = choose|i: int| 0 <= i < before.len() && (#[trigger] before[i]).1 == q;
                            assert(table@[i].1 == q);
                        } else {
                            assert(table@[before.len() as int].1 == q);
                        }
                    }
                }
            },
            None => {
                assert(net.places[place_id as int] is None);
            },
        }
        place_id = place_id + 1;
    }
    proof {
        if duplicate_place_name(net) {
            let (p, q) = choose|p: int, q: int|
                0 <= p < q < net.places.len() && (#[trigger] net.places[p]) is Some && net.places[p]
                    == #[trigger] net.places[q];
            assert(net.places[q] is Some);
            let i = choose|i: int| 0 <= i < table@.len() && (#[trigger] table@[i]).1 == p;
            let j = choose|j: int| 0 <= j < table@.len() && (#[trigger] table@[j]).1 == q;
            assert(net.places[table@[i].1 as int] == Some(table@[i].0@));
            assert(net.places[table@[j].1 as int] == Some(table@[j].0@));
            assert(table@[i].0@ == table@[j].0@);
            if i < j {
                assert(table@[i].0@ != table@[j].0@);
            } else if j < i {
                assert(table@[j].0@ != table@[i].0@);
            }
        }
    }
    Some(table)
}

/// The table of the transition labels of a net, each name once.
fn label_table(petri_net: &PetriNet) -> (table: Vec<(String, Rc<PetriTransitionLabel>)>)
    ensures
        listed_names(table@) == label_names(petri_net@, petri_net@.transitions.len() as int),
        forall|i: int, j: int| 0 <= i < j < table@.len() ==> (#[trigger] table@[i]).0@ != (#[trigger] table@[j]).0@,
        forall|i: int|
            0 <= i < table@.len() ==> (#[trigger] table@[i]).1@ == table@[i].0@ && labels_transition(
                petri_net@,
                table@[i].0@,
            ),
        forall|t: int|
            0 <= t < petri_net@.transitions.len() && (#[trigger] petri_net@.transitions[t]).label is Some
                ==> exists|i: int|
                0 <= i < table@.len() && Some((#[trigger] table@[i]).0@) == petri_net@.transitions[t].label,
{
    let ghost net = petri_net@;
    let nt = petri_net.transitions.len();
    let mut table: Vec<(String, Rc<PetriTransitionLabel>)> = Vec::new();
    let mut tr: usize = 0;
    while tr < nt
        invariant
            0 <= tr <= nt,
            nt == petri_net.transitions.len(),
            net == petri_net@,
            listed_names(table@) == label_names(net, tr as int),
            forall|i: int, j: int| 0 <= i < j < table@.len() ==> (#[trigger] table@[i]).0@ != (#[trigger] table@[j]).0@,
            forall|i: int|
                0 <= i < table@.len() ==> (#[trigger] table@[i]).1@ == table@[i].0@ && labels_transition(
                    net,
                    table@[i].0@,
                ),
            forall|t: int|
                0 <= t < tr && (#[trigger] net.transitions[t]).label is Some ==> exists|i: int|
                    0 <= i < table@.len() && Some((#[trigger] table@[i]).0@) == net.transitions[t].label,
        decreases nt - tr,
    {
        let transition = &petri_net.transitions[tr];
        assert(net.transitions[tr as int] == transition@);
        let ghost before = table@;
        match &transition.transition_label {
            Some(transition_label_ref) => {
                let name = transition_label_ref.to_string();
                assert(net.transitions[tr as int].label == Some(name@));
                match position_of_label(&table, &name) {
                    Some(i) => {
                        assert(Some(table@[i as int].0@) == net.transitions[tr as int].label);
                        assert(listed_names(before)[i as int] == name@);
                    },
                    None => {
                        assert(!listed_names(before).contains(name@)) by {
                            if listed_names(before).contains(name@) {
                                let i = choose|i: int|
                                    0 <= i < listed_names(before).len() && listed_names(before)[i] == name@;
                                assert(before[i].0@ != name@);
                            }
                        }
                        table.push((name, transition_label_ref.clone()));
                        assert(listed_names(table@) =~= listed_names(before).push(name@));
                        assert(Some(table@[before.len() as int].0@) == net.transitions[tr as int].label);
                        assert(labels_transition(net, table@[before.len() as int].0@));
                    },
                }
            },
            None => {},
        }
        proof {
            assert forall|t: int| 0 <= t < tr + 1 && (#[trigger] net.transitions[t]).label is Some implies exists|
                i: int,
            |
                0 <= i < table@.len() && Some((#[trigger] table@[i]).0@) == net.transitions[t].label by {
                if t < tr {
                    let i = choose|i: int|
                        0 <= i < before.len() && Some((#[trigger] before[i]).0@) == net.transitions[t].label;
                    assert(table@[i] == before[i]);
                }
            }
        }
        tr = tr + 1;
    }
    table
}

/// The table of the firing conditions of a net, by label name.
fn condition_table(petri_net: &PetriNet) -> (table: Vec<(String, PetriCtlFormula)>)
    ensures
        listed_names(table@) == label_names(petri_net@, petri_net@.transitions.len() as int),
        forall|i: int, j: int| 0 <= i < j < table@.len() ==> (#[trigger] table@[i]).0@ != (#[trigger] table@[j]).0@,
        forall|i: int| 0 <= i < table@.len() ==> fireable(petri_net@, (#[trigger] table@[i]).0@) == Some(table@[i].1),
        forall|name: Seq<char>| #[trigger]
            fireable(petri_net@, name) is Some ==> exists|i: int|
                0 <= i < table@.len() && (#[trigger] table@[i]).0@ == name,
{
    let ghost net = petri_net@;
    let nt = petri_net.transitions.len();
    let n = petri_net.places.len();
    let mut table: Vec<(String, PetriCtlFormula)> = Vec::new();
    let mut tr: usize = 0;
    assert(listed_names(table@) =~= label_names(net, 0));
    while tr < nt
        invariant
            0 <= tr <= nt,
            nt == petri_net.transitions.len(),
            n == petri_net.places.len(),
            net == petri_net@,
            listed_names(table@) == label_names(net, tr as int),
            forall|i: int, j: int| 0 <= i < j < table@.len() ==> (#[trigger] table@[i]).0@ != (#[trigger] table@[j]).0@,
            forall|i: int|
                0 <= i < table@.len() ==> fireable_upto(net, (#[trigger] table@[i]).0@, tr as nat) == Some(
                    table@[i].1,
                ),
            forall|name: Seq<char>| #[trigger]
                fireable_upto(net, name, tr as nat) is Some ==> exists|i: int|
                    0 <= i < table@.len() && (#[trigger] table@[i]).0@ == name,
        decreases nt - tr,
    {
        let transition = &petri_net.transitions[tr];
        assert(net.transitions[tr as int] == transition@);
        let ghost before = table@;
        match &transition.transition_label {
            Some(transition_label_ref) => {
                let name = transition_label_ref.to_string();
                assert(net.transitions[tr as int].label == Some(name@));
                let tr_firing_condition = transition_firing_condition(transition, n);
                match position_of_condition(&table, &name) {
                    Some(i) => {
                        let mut sofar = PetriCtlFormula::True;
                        std::mem::swap(&mut table[i].1, &mut sofar);
                        table[i].1 = PetriCtlFormula::Or(Box::new(sofar), Box::new(tr_firing_condition));
                        proof {
                            assert(sofar == before[i as int].1);
                            assert(fireable_upto(net, name@, tr as nat) == Some(before[i as int].1));
                            assert(listed_names(before)[i as int] == name@);
                            assert(listed_names(table@) =~= listed_names(before));
                            assert forall|a: int| 0 <= a < table@.len() implies (#[trigger] table@[a]).0@
                                == before[a].0@ by {}
                            assert forall|a: int| 0 <= a < table@.len() implies fireable_upto(
                                net,
                                (#[trigger] table@[a]).0@,
                                (tr + 1) as nat,
                            ) == Some(table@[a].1) by {
                                if a != i {
                                    assert(table@[a] == before[a]);
                                    if a < i {
                                        assert(before[a].0@ != before[i as int].0@);
                                    } else {
                                        assert(before[i as int].0@ != before[a].0@);
                                    }
                                    assert(fireable_upto(net, before[a].0@, tr as nat) == Some(before[a].1));
                                }
                            }
                            assert forall|nm: Seq<char>| #[trigger]
                                fireable_upto(net, nm, (tr + 1) as nat) is Some implies exists|a: int|
                                0 <= a < table@.len() && (#[trigger] table@[a]).0@ == nm by {
                                if nm == name@ {
                                    assert(table@[i as int].0@ == nm);
                                } else {
                                    assert(fireable_upto(net, nm, tr as nat) is Some);
                                    let b = choose|b: int| 0 <= b < before.len() && (#[trigger] before[b]).0@ == nm;
                                    assert(table@[b].0@ == nm);
                                }
                            }
                        }
                    },
                    None => {
                        assert(!listed_names(before).contains(name@)) by {
                            if listed_names(before).contains(name@) {
                                let i = choose|i: int|
                                    0 <= i < listed_names(before).len() && listed_names(before)[i] == name@;
                                assert(before[i].0@ != name@);
                            }
                        }
                        table.push((name, tr_firing_condition));
                        proof {
                            let last = before.len() as int;
                            assert(table@[last].0@ == name@);
                            assert(listed_names(table@) =~= listed_names(before).push(name@));
                            assert(fireable_upto(net, name@, tr as nat) is None) by {
                                if fireable_upto(net, name@, tr as nat) is Some {
                                    let b = choose|b: int| 0 <= b < before.len() && (#[trigger] before[b]).0@ == name@;
                                    assert(before[b].0@ != name@);
                                }
                            }
                            assert forall|a: int| 0 <= a < table@.len() implies fireable_upto(
                                net,
                                (#[trigger] table@[a]).0@,
                                (tr + 1) as nat,
                            ) == Some(table@[a].1) by {
                                if a < last {
                                    assert(table@[a] == before[a]);
                                    assert(before[a].0@ != name@);
                                    assert(fireable_upto(net, before[a].0@, tr as nat) == Some(before[a].1));
                                }
                            }
                            assert forall|nm: Seq<char>| #[trigger]
                                fireable_upto(net, nm, (tr + 1) as nat) is Some implies exists|a: int|
                                0 <= a < table@.len() && (#[trigger] table@[a]).0@ == nm by {
                                if nm == name@ {
                                    assert(table@[last].0@ == nm);
                                } else {
                                    assert(fireable_upto(net, nm, tr as nat) is Some);
                                    let b = choose|b: int| 0 <= b < before.len() && (#[trigger] before[b]).0@ == nm;
                                    assert(table@[b] == before[b]);
                                    assert(table@[b].0@ == nm);
                                }
                            }
                        }
                    },
                }
            },
            None => {
                proof {
                    assert forall|a: int| 0 <= a < table@.len() implies fireable_upto(
                        net,
                        (#[trigger] table@[a]).0@,
                        (tr + 1) as nat,
                    ) == Some(table@[a].1) by {
                        assert(fireable_upto(net, table@[a].0@, tr as nat) == Some(table@[a].1));
                    }
                    assert forall|nm: Seq<char>| #[trigger]
                        fireable_upto(net, nm, (tr + 1) as nat) is Some implies exists|a: int|
                        0 <= a < table@.len() && (#[trigger] table@[a]).0@ == nm by {
                        assert(fireable_upto(net, nm, tr as nat) is Some);
                    }
                }
            },
        }
        tr = tr + 1;
    }
    table
}

impl BuiltinPetriCtlParser {
    /// Makes the compiler of a net, unless two of its places carry labels
    /// with one name.
    pub fn from_net(petri_net: &PetriNet) -> (r: Result<Self, PetriCtlParsingError>)
        ensures
            match r {
                Ok(parser) => !duplicate_place_name(petri_net@) && parser.compiled_from(petri_net@)
                    && parser.laid_out_as(petri_net@),
                Err(e) => e == PetriCtlParsingError::MultiplePlacesHaveTheSameName && duplicate_place_name(
                    petri_net@,
                ),
            },
    {
        let place_name_to_index = match place_table(petri_net) {
            Some(table) => table,
            None => {
                return Err(PetriCtlParsingError::MultiplePlacesHaveTheSameName);
            },
        };
        let transition_label_to_ref = label_table(petri_net);
        let transition_label_to_firing_condition = condition_table(petri_net);
        let parser = Self { place_name_to_index, transition_label_to_ref, transition_label_to_firing_condition };
        proof {
            let net = petri_net@;
            assert forall|name: Seq<char>, p: usize| #[trigger]
                parser.maps_place(name, p) <==> p < net.places.len() && net.places[p as int] == Some(name) by {
                if p < net.places.len() && net.places[p as int] == Some(name) {
                    assert(net.places[p as int] is Some);
                    let i = choose|i: int|
                        0 <= i < parser.place_name_to_index@.len() && (#[trigger] parser.place_name_to_index@[i]).1
                            == p as int;
                    assert(parser.place_name_to_index@[i].0@ == name);
                }
            }
            assert forall|name: Seq<char>| #[trigger] parser.knows_label(name) <==> labels_transition(net, name) by {
                if labels_transition(net, name) {
                    let t = choose|t: int|
                        0 <= t < net.transitions.len() && (#[trigger] net.transitions[t]).label == Some(name);
                    assert(net.transitions[t].label is Some);
                    let i = choose|i: int|
                        0 <= i < parser.transition_label_to_ref@.len() && Some(
                            (#[trigger] parser.transition_label_to_ref@[i]).0@,
                        ) == net.transitions[t].label;
                    assert(parser.transition_label_to_ref@[i].0@ == name);
                }
            }
            assert forall|name: Seq<char>, f: PetriCtlFormula| #[trigger]
                parser.maps_condition(name, f) <==> fireable(net, name) == Some(f) by {
                if fireable(net, name) == Some(f) {
                    assert(fireable(net, name) is Some);
                    let i = choose|i: int|
                        0 <= i < parser.transition_label_to_firing_condition@.len() && (
                        #[trigger] parser.transition_label_to_firing_condition@[i]).0@ == name;
                    assert(parser.transition_label_to_firing_condition@[i].1 == f);
                }
            }
        }
        Ok(parser)
    }
}

} // verus!
