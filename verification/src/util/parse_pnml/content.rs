use vstd::prelude::*;
use std::collections::BTreeMap;
use std::collections::HashMap;
use std::rc::Rc;
use crate::maps::{count_at, hash_count};
use crate::model::label::{PetriStateLabel, PetriTransitionLabel};
use crate::model::marking::Marking;
use crate::model::net::{NetModel, PetriNet};
use crate::model::transition::{PetriTransition, TransitionModel};
use crate::util::parse_pnml::error::PnmlParsingError;
use crate::util::parse_pnml::events::{events_model, pnml_events, xml_events, PnmlEvent, PnmlEventModel};
use crate::util::parse_pnml::extract::{net_content, read_pnml_first_pass, FirstPassModel, PnmlParsingFirstPass};
use crate::util::parse_pnml::syntax::{is_word, PNML_NET};

verus! {

broadcast use {vstd::std_specs::hash::group_hash_axioms, vstd::std_specs::btree::group_btree_axioms};

/// What a document declares, apart from how it is stored.
pub struct ContentModel {
    pub net: NetModel,
    pub marking: Map<usize, u32>,
    pub places: Seq<Seq<char>>,
}

/// What a document declares: a net, whose places and transitions are
/// labelled with their identifiers in the document, its initial marking,
/// and for each place its identifier in the document and in the net.
#[derive(Debug, Clone, PartialEq, Eq)]
pub struct PnmlFileContent {
    pub petri_net: PetriNet,
    pub initial_marking: Marking,
    pub place_text_id_to_int_id: Vec<(String, usize)>,
}

impl View for PnmlFileContent {
    type V = ContentModel;

    open spec fn view(&self) -> ContentModel {
        ContentModel {
            net: self.petri_net@,
            marking: self.initial_marking@,
            places: Seq::new(self.place_text_id_to_int_id@.len(), |i: int| self.place_text_id_to_int_id@[i].0@),
        }
    }
}

impl PnmlFileContent {
    pub fn new(petri_net: PetriNet, initial_marking: Marking, place_text_id_to_int_id: Vec<(String, usize)>) -> (r:
        Self)
        ensures
            r.petri_net == petri_net,
            r.initial_marking == initial_marking,
            r.place_text_id_to_int_id == place_text_id_to_int_id,
    {
        Self { petri_net, initial_marking, place_text_id_to_int_id }
    }
}

/// The place that carries an identifier: the last one declared with it.
pub open spec fn place_id_of(places: Seq<Seq<char>>, name: Seq<char>) -> Option<int>
    decreases places.len(),
{
    if places.len() == 0 {
        None
    } else if places.last() == name {
        Some(places.len() - 1)
    } else {
        place_id_of(places.drop_last(), name)
    }
}

/// The first position from `i` on at which the list holds the identifier.
pub open spec fn position_from(list: Seq<Seq<char>>, name: Seq<char>, i: int) -> Option<int>
    decreases list.len() - i,
{
    if i < 0 || i >= list.len() {
        None
    } else if list[i] == name {
        Some(i)
    } else {
        position_from(list, name, i + 1)
    }
}

/// The arcs around the transitions: for each transition its preset and its
/// postset.
pub type Wiring = Seq<(Map<usize, u32>, Map<usize, u32>)>;

/// The wiring with one more token on the arc from place `p` to transition
/// `t`.
pub open spec fn one_more_in(w: Wiring, t: int, p: usize) -> Result<Wiring, PnmlParsingError> {
    if count_at(w[t].0, p) == u32::MAX {
        Err(PnmlParsingError::TooManyArcs)
    } else {
        Ok(w.update(t, (w[t].0.insert(p, (count_at(w[t].0, p) + 1) as u32), w[t].1)))
    }
}

/// The wiring with one more token on the arc from transition `t` to place
/// `p`.
pub open spec fn one_more_out(w: Wiring, t: int, p: usize) -> Result<Wiring, PnmlParsingError> {
    if count_at(w[t].1, p) == u32::MAX {
        Err(PnmlParsingError::TooManyArcs)
    } else {
        Ok(w.update(t, (w[t].0, w[t].1.insert(p, (count_at(w[t].1, p) + 1) as u32))))
    }
}

/// The wiring with one more arc. Where its source is a place, its target
/// must be a transition; else its target must be a place and its source a
/// transition.
pub open spec fn add_arc(fp: FirstPassModel, w: Wiring, arc: (Seq<char>, Seq<char>)) -> Result<
    Wiring,
    PnmlParsingError,
> {
    match place_id_of(fp.places, arc.0) {
        Some(p) => match position_from(fp.transitions, arc.1, 0) {
            Some(t) => one_more_in(w, t, p as usize),
            None => Err(PnmlParsingError::UnknownTransition),
        },
        None => match place_id_of(fp.places, arc.1) {
            Some(p) => match position_from(fp.transitions, arc.0, 0) {
                Some(t) => one_more_out(w, t, p as usize),
                None => Err(PnmlParsingError::UnknownTransition),
            },
            None => Err(PnmlParsingError::NeitherSourceNotTargetOfArcIsAPlace),
        },
    }
}

/// The wiring of the first `upto` arcs; each arc of the document counts for
/// one token.
pub open spec fn wire(fp: FirstPassModel, upto: int) -> Result<Wiring, PnmlParsingError>
    decreases upto,
{
    if upto <= 0 {
        Ok(Seq::new(fp.transitions.len(), |t: int| (Map::<usize, u32>::empty(), Map::<usize, u32>::empty())))
    } else {
        match wire(fp, upto - 1) {
            Ok(w) => add_arc(fp, w, fp.arcs[upto - 1]),
            Err(e) => Err(e),
        }
    }
}

/// Once an arc cannot be wired, no later arc mends it.
pub proof fn lemma_wire_stays_failed(fp: FirstPassModel, from: int, to: int)
    requires
        0 <= from <= to,
        wire(fp, from) is Err,
    ensures
        wire(fp, to) == wire(fp, from),
    decreases to - from,
{
    if from < to {
        lemma_wire_stays_failed(fp, from, to - 1);
    }
}

/// The marking that gives each place its tokens, and lists no empty place.
pub open spec fn marking_of(counts: Seq<u32>) -> Map<usize, u32> {
    Map::new(|p: usize| p < counts.len() && counts[p as int] > 0, |p: usize| counts[p as int])
}

/// The net that a first pass and a wiring make.
pub open spec fn net_of(fp: FirstPassModel, w: Wiring) -> NetModel {
    NetModel {
        places: Seq::new(fp.places.len(), |p: int| Some(fp.places[p])),
        transitions: Seq::new(
            fp.transitions.len(),
            |t: int| TransitionModel { label: Some(fp.transitions[t]), pre: w[t].0, post: w[t].1 },
        ),
    }
}

/// What a first pass declares, once its arcs are wired.
pub open spec fn content_of(fp: FirstPassModel) -> Result<ContentModel, PnmlParsingError> {
    match wire(fp, fp.arcs.len() as int) {
        Ok(w) => Ok(ContentModel { net: net_of(fp, w), marking: marking_of(fp.initial_marking), places: fp.places }),
        Err(e) => Err(e),
    }
}

/// The position after the first start tag of a net at `at` or later.
pub open spec fn net_start(ev: Seq<PnmlEventModel>, at: int) -> Option<int>
    decreases ev.len() - at,
{
    if at < 0 || at >= ev.len() {
        None
    } else if ev[at] is Start && ev[at]->Start_0 == PNML_NET@ {
        Some(at + 1)
    } else {
        net_start(ev, at + 1)
    }
}

/// What the first net of a document declares.
pub open spec fn document_content(ev: Seq<PnmlEventModel>) -> Result<ContentModel, PnmlParsingError> {
    match net_start(ev, 0) {
        Some(at) => match net_content(ev, at, FirstPassModel::empty()) {
            Ok(fp) => content_of(fp),
            Err(e) => Err(e),
        },
        None => Err(PnmlParsingError::UnexpectedEndOfDocument),
    }
}

/// The place that carries the identifier.
fn find_place(table: &Vec<(String, usize)>, name: &String) -> (r: Option<usize>)
    ensures
        match r {
            Some(p) => place_id_of(Seq::new(table@.len(), |i: int| table@[i].0@), name@) == Some(p as int) && p
                < table.len(),
            None => place_id_of(Seq::new(table@.len(), |i: int| table@[i].0@), name@) is None,
        },
{
    let ghost names = Seq::new(table@.len(), |i: int| table@[i].0@);
    let mut i: usize = table.len();
    assert(names.subrange(0, i as int) =~= names);
    while i > 0
        invariant
            0 <= i <= table.len(),
            names == Seq::new(table@.len(), |i: int| table@[i].0@),
            place_id_of(names, name@) == place_id_of(names.subrange(0, i as int), name@),
        decreases i,
    {
        let ghost part = names.subrange(0, i as int);
        assert(part.last() == names[i - 1]);
        assert(part.drop_last() =~= names.subrange(0, i - 1));
        if table[i - 1].0 == *name {
            return Some(i - 1);
        }
        i = i - 1;
    }
    None
}

/// The transition that carries the identifier.
fn find_transition(list: &Vec<String>, name: &String) -> (r: Option<usize>)
    ensures
        match r {
            Some(t) => position_from(Seq::new(list@.len(), |i: int| list@[i]@), name@, 0) == Some(t as int) && t
                < list.len(),
            None => position_from(Seq::new(list@.len(), |i: int| list@[i]@), name@, 0) is None,
        },
{
    let ghost names = Seq::new(list@.len(), |i: int| list@[i]@);
    let mut i: usize = 0;
    while i < list.len()
        invariant
            0 <= i <= list.len(),
            names == Seq::new(list@.len(), |i: int| list@[i]@),
            position_from(names, name@, 0) == position_from(names, name@, i as int),
        decreases list.len() - i,
    {
        assert(names[i as int] == list@[i as int]@);
        if list[i] == *name {
            return Some(i);
        }
        i = i + 1;
    }
    None
}

/// The transitions hold the wiring, under the labels of the first pass.
pub open spec fn holds_wiring(transitions: Seq<PetriTransition>, fp: FirstPassModel, w: Wiring) -> bool {
    &&& transitions.len() == fp.transitions.len()
    &&& w.len() == fp.transitions.len()
    &&& forall|t: int|
        0 <= t < transitions.len() ==> (#[trigger] transitions[t])@ == (TransitionModel {
            label: Some(fp.transitions[t]),
            pre: w[t].0,
            post: w[t].1,
        })
}

/// Every arc of the wiring joins one of the first `n` places and carries at
/// least one token.
pub open spec fn wiring_wf(w: Wiring, n: nat) -> bool {
    forall|t: int|
        0 <= t < w.len() ==> (TransitionModel { label: None, pre: (#[trigger] w[t]).0, post: w[t].1 }).wf(n)
}

/// One more token on an arc.
fn one_more(arcs: &mut HashMap<usize, u32>, place_id: usize) -> (r: bool)
    ensures
        r == (count_at(old(arcs)@, place_id) < u32::MAX),
        r ==> final(arcs)@ == old(arcs)@.insert(place_id, (count_at(old(arcs)@, place_id) + 1) as u32),
        !r ==> final(arcs)@ == old(arcs)@,
{
    let there = hash_count(arcs, place_id);
    if there == u32::MAX {
        false
    } else {
        arcs.insert(place_id, there + 1);
        true
    }
}

/// Builds the transitions of a net from what a first pass gathered.
fn wire_transitions(first_pass: &PnmlParsingFirstPass) -> (r: Result<Vec<PetriTransition>, PnmlParsingError>)
    requires
        first_pass.wf(),
    ensures
        match r {
            Ok(transitions) => wire(first_pass@, first_pass@.arcs.len() as int) is Ok && holds_wiring(
                transitions@,
                first_pass@,
                wire(first_pass@, first_pass@.arcs.len() as int)->Ok_0,
            ) && wiring_wf(wire(first_pass@, first_pass@.arcs.len() as int)->Ok_0, first_pass@.places.len()),
            Err(e) => wire(first_pass@, first_pass@.arcs.len() as int) == Err::<Wiring, PnmlParsingError>(e),
        },
{
    let ghost fp = first_pass@;
    let mut transitions: Vec<PetriTransition> = Vec::new();
    let nt = first_pass.transitions_text_ids.len();
    let mut t: usize = 0;
    while t < nt
        invariant
            0 <= t <= nt,
            nt == first_pass.transitions_text_ids.len(),
            fp == first_pass@,
            transitions.len() == t,
            forall|u: int|
                0 <= u < t ==> (#[trigger] transitions@[u])@ == (TransitionModel {
                    label: Some(fp.transitions[u]),
                    pre: Map::<usize, u32>::empty(),
                    post: Map::<usize, u32>::empty(),
                }),
        decreases nt - t,
    {
        let label = Rc::new(PetriTransitionLabel::new(first_pass.transitions_text_ids[t].clone()));
        transitions.push(PetriTransition::new(Some(label), HashMap::new(), HashMap::new()));
        t = t + 1;
    }
    let na = first_pass.raw_arcs.len();
    let mut a: usize = 0;
    assert(holds_wiring(transitions@, fp, wire(fp, 0)->Ok_0));
    while a < na
        invariant
            0 <= a <= na,
            na == first_pass.raw_arcs.len(),
            fp == first_pass@,
            first_pass.wf(),
            wire(fp, a as int) is Ok,
            holds_wiring(transitions@, fp, wire(fp, a as int)->Ok_0),
            wiring_wf(wire(fp, a as int)->Ok_0, fp.places.len()),
        decreases na - a,
    {
        let ghost w = wire(fp, a as int)->Ok_0;
        let ghost before = transitions@;
        let source_id = &first_pass.raw_arcs[a].0;
        let target_id = &first_pass.raw_arcs[a].1;
        assert(fp.arcs[a as int] == (source_id@, target_id@));
        assert(fp.places =~= Seq::new(
            first_pass.place_text_id_to_int_id@.len(),
            |i: int| first_pass.place_text_id_to_int_id@[i].0@,
        ));
        assert(fp.transitions =~= Seq::new(
            first_pass.transitions_text_ids@.len(),
            |i: int| first_pass.transitions_text_ids@[i]@,
        ));
        let (tr, place_id, into) = match find_place(&first_pass.place_text_id_to_int_id, source_id) {
            Some(source_place_id) => match find_transition(&first_pass.transitions_text_ids, target_id) {
                Some(tr) => (tr, source_place_id, true),
                None => {
                    proof {
                        lemma_wire_stays_failed(fp, a + 1, na as int);
                    }
                    return Err(PnmlParsingError::UnknownTransition);
                },
            },
            None => match find_place(&first_pass.place_text_id_to_int_id, target_id) {
                Some(target_place_id) => match find_transition(&first_pass.transitions_text_ids, source_id) {
                    Some(tr) => (tr, target_place_id, false),
                    None => {
                        proof {
                            lemma_wire_stays_failed(fp, a + 1, na as int);
                        }
                        return Err(PnmlParsingError::UnknownTransition);
                    },
                },
                None => {
                    proof {
                        lemma_wire_stays_failed(fp, a + 1, na as int);
                    }
                    return Err(PnmlParsingError::NeitherSourceNotTargetOfArcIsAPlace);
                },
            },
        };
        let fits = if into {
            one_more(&mut transitions[tr].preset_tokens, place_id)
        } else {
            one_more(&mut transitions[tr].postset_tokens, place_id)
        };
        if !fits {
            proof {
                assert(before[tr as int]@ == (TransitionModel {
                    label: Some(fp.transitions[tr as int]),
                    pre: w[tr as int].0,
                    post: w[tr as int].1,
                }));
                lemma_wire_stays_failed(fp, a + 1, na as int);
            }
            return Err(PnmlParsingError::TooManyArcs);
        }
        proof {
            let next = wire(fp, a + 1)->Ok_0;
            assert(wire(fp, a + 1) is Ok);
            assert(before[tr as int]@ == (TransitionModel {
                label: Some(fp.transitions[tr as int]),
                pre: w[tr as int].0,
                post: w[tr as int].1,
            }));
            assert forall|u: int| 0 <= u < transitions@.len() implies (#[trigger] transitions@[u])@
                == (TransitionModel { label: Some(fp.transitions[u]), pre: next[u].0, post: next[u].1 }) by {
                if u != tr {
                    assert(transitions@[u] == before[u]);
                }
            }
            assert forall|u: int| 0 <= u < next.len() implies (TransitionModel {
                label: None,
                pre: (#[trigger] next[u]).0,
                post: next[u].1,
            }).wf(fp.places.len()) by {
                assert((TransitionModel { label: None, pre: w[u].0, post: w[u].1 }).wf(fp.places.len()));
            }
        }
        a = a + 1;
    }
    Ok(transitions)
}

/// The marking that gives each place its tokens.
fn marking_from(counts: &Vec<u32>) -> (r: Marking)
    ensures
        r@ == marking_of(counts@),
        r.wf(),
{
    let mut tokens: BTreeMap<usize, u32> = BTreeMap::new();
    let mut p: usize = 0;
    while p < counts.len()
        invariant
            0 <= p <= counts.len(),
            tokens@ == marking_of(counts@.subrange(0, p as int)),
        decreases counts.len() - p,
    {
        if counts[p] > 0 {
            tokens.insert(p, counts[p]);
        }
        assert(tokens@ =~= marking_of(counts@.subrange(0, p + 1)));
        p = p + 1;
    }
    assert(counts@.subrange(0, p as int) =~= counts@);
    Marking::new(tokens)
}

/// Builds the net that a first pass declares: wires the arcs, each for one
/// token, and labels places and transitions with their identifiers.
pub fn read_pnml_content(first_pass: PnmlParsingFirstPass) -> (r: Result<PnmlFileContent, PnmlParsingError>)
    requires
        first_pass.wf(),
    ensures
        match r {
            Ok(content) => content_of(first_pass@) == Ok::<ContentModel, PnmlParsingError>(content@)
                && content.petri_net.wf() && content.initial_marking.wf(),
            Err(e) => content_of(first_pass@) == Err::<ContentModel, PnmlParsingError>(e),
        },
{
    let ghost fp = first_pass@;
    let transitions = match wire_transitions(&first_pass) {
        Ok(transitions) => transitions,
        Err(e) => {
            return Err(e);
        },
    };
    let ghost w = wire(fp, fp.arcs.len() as int)->Ok_0;
    let mut places: Vec<Option<Rc<PetriStateLabel>>> = Vec::new();
    let n = first_pass.place_text_id_to_int_id.len();
    let mut p: usize = 0;
    while p < n
        invariant
            0 <= p <= n,
            n == first_pass.place_text_id_to_int_id.len(),
            fp == first_pass@,
            places.len() == p,
            forall|q: int|
                0 <= q < p ==> crate::model::label::place_label_name(#[trigger] places@[q]) == Some(fp.places[q]),
        decreases n - p,
    {
        places.push(Some(Rc::new(PetriStateLabel::new(first_pass.place_text_id_to_int_id[p].0.clone()))));
        p = p + 1;
    }
    let marking = marking_from(&first_pass.initial_marking);
    let net = PetriNet::new(places, transitions);
    proof {
        let want = net_of(fp, w);
        assert(net@.places =~= want.places);
        assert(net@.transitions =~= want.transitions);
        assert forall|t: int| 0 <= t < net@.transitions.len() implies (#[trigger] net@.transitions[t]).wf(
            net@.places.len(),
        ) by {
            assert((TransitionModel { label: None, pre: w[t].0, post: w[t].1 }).wf(fp.places.len()));
        }
    }
    let content = PnmlFileContent::new(net, marking, first_pass.place_text_id_to_int_id);
    assert(content@.places =~= fp.places);
    Ok(content)
}

/// Reads the first net that a list of events declares.
pub fn read_pnml(events: &Vec<PnmlEvent>) -> (r: Result<PnmlFileContent, PnmlParsingError>)
    ensures
        match r {
            Ok(content) => document_content(events_model(events@)) == Ok::<ContentModel, PnmlParsingError>(
                content@,
            ) && content.petri_net.wf() && content.initial_marking.wf(),
            Err(e) => document_content(events_model(events@)) == Err::<ContentModel, PnmlParsingError>(e),
        },
{
    let ghost ev = events_model(events@);
    let mut i: usize = 0;
    while i < events.len()
        invariant
            0 <= i <= events.len(),
            ev == events_model(events@),
            net_start(ev, 0) == net_start(ev, i as int),
        decreases events.len() - i,
    {
        assert(ev[i as int] == events@[i as int]@);
        match &events[i] {
            PnmlEvent::StartElement { name, .. } => {
                if is_word(name, PNML_NET) {
                    return match read_pnml_first_pass(events, i + 1) {
                        Ok(first_pass) => read_pnml_content(first_pass),
                        Err(e) => Err(e),
                    };
                }
            },
            _ => {},
        }
        i = i + 1;
    }
    Err(PnmlParsingError::UnexpectedEndOfDocument)
}

/// Reads the first net that a document declares. Where the text is no
/// well-formed XML, the error of the XML reader comes back.
pub fn read_pnml_text(text: &str) -> (r: Result<PnmlFileContent, PnmlParsingError>)
    ensures
        match xml_events(text@) {
            Some(ev) => match r {
                Ok(content) => document_content(ev) == Ok::<ContentModel, PnmlParsingError>(content@)
                    && content.petri_net.wf() && content.initial_marking.wf(),
                Err(e) => document_content(ev) == Err::<ContentModel, PnmlParsingError>(e),
            },
            None => r is Err && r->Err_0 is Xml,
        },
{
    match pnml_events(text) {
        Ok(events) => read_pnml(&events),
        Err(e) => Err(e),
    }
}

} // verus!
