use vstd::prelude::*;
use crate::maps::{all_positive, count_at, hash_same, keys_below};
use crate::model::marking::Marking;
use crate::model::net::{NetModel, PetriNet};
use crate::model::transition::fired_count;
use crate::model_checking::kripke::successor;
use crate::model_checking::state::KripkeStateModel;
use crate::reduction::edits::drop_transition;
use crate::reduction::info::PetriNetInfo;
use crate::reduction::state::{lemma_least_is, lemma_least_none, least, state_of, ReductionState};

verus! {

pub struct SelfLoopTransition {
    pub transition_id: usize,
}

impl SelfLoopTransition {
    pub fn new(transition_id: usize) -> (r: Self)
        ensures
            r.transition_id == transition_id,
    {
        Self { transition_id }
    }
}

/// Transition `t` is silent and gives back exactly what it takes; a silent
/// transition without arcs is such a one.
pub open spec fn self_loop_transition_at(net: NetModel, t: usize) -> bool {
    &&& t < net.transitions.len()
    &&& net.transitions[t as int].label is None
    &&& net.transitions[t as int].post == net.transitions[t as int].pre
}

/// The first self-loop transition, if there is one.
pub open spec fn self_loop_transition_first(net: NetModel) -> Option<usize> {
    least(net.transitions.len(), |t: usize| self_loop_transition_at(net, t))
}

/// The state without self-loop transition `t`.
pub open spec fn eliminate_self_loop_transition(s: ReductionState, t: usize) -> ReductionState {
    ReductionState { net: s.net.without_transition(t), marking: s.marking }
}

/// a self-loop transition is a transition t such that:
/// - it has the empty label
/// - its preset and its postset is the same (same places, same numbers of tokens)
///   let's remark that it also eliminate dead transitions (i.e. both preset and postset empty)
pub fn find_self_loop_transition(petri_net: &PetriNet) -> (r: Option<SelfLoopTransition>)
    ensures
        match r {
            Some(x) => self_loop_transition_first(petri_net@) == Some(x.transition_id) && x.transition_id
                < petri_net.transitions.len(),
            None => self_loop_transition_first(petri_net@) is None,
        },
{
    let n = petri_net.transitions.len();
    let ghost net = petri_net@;
    let ghost f = |t: usize| self_loop_transition_at(net, t);
    let mut transition_id: usize = 0;
    while transition_id < n
        invariant
            0 <= transition_id <= n,
            n == petri_net.transitions.len(),
            net == petri_net@,
            f == |t: usize| self_loop_transition_at(net, t),
            forall|q: usize| q < transition_id ==> !#[trigger] f(q),
        decreases n - transition_id,
    {
        let transition = &petri_net.transitions[transition_id];
        assert(net.transitions[transition_id as int] == transition@);
        if transition.transition_label.is_none() && hash_same(
            &transition.postset_tokens,
            &transition.preset_tokens,
        ) {
            proof {
                assert(f(transition_id));
                lemma_least_is(net.transitions.len(), f, transition_id);
            }
            return Some(SelfLoopTransition::new(transition_id));
        }
        assert(!f(transition_id));
        transition_id = transition_id + 1;
    }
    proof {
        lemma_least_none(net.transitions.len(), f);
    }
    None
}

pub fn find_and_simplify_self_loop_transition(
    petri_net: &mut PetriNet,
    petri_info: &mut PetriNetInfo,
    initial_markings: &mut Option<Marking>,
) -> (r: bool)
    requires
        old(petri_net).wf(),
        old(petri_info).coherent_with(old(petri_net)),
    ensures
        r == (self_loop_transition_first(old(petri_net)@) is Some),
        r ==> state_of(*final(petri_net), *final(initial_markings)) == eliminate_self_loop_transition(
            state_of(*old(petri_net), *old(initial_markings)),
            self_loop_transition_first(old(petri_net)@).unwrap(),
        ),
        r ==> final(petri_net)@.size() < old(petri_net)@.size(),
        !r ==> *final(petri_net) == *old(petri_net),
        !r ==> *final(petri_info) == *old(petri_info),
        *final(initial_markings) == *old(initial_markings),
        final(petri_net).wf(),
        final(petri_info).coherent_with(final(petri_net)),
{
    match find_self_loop_transition(petri_net) {
        Some(self_loop_transition) => {
            // we remove the self_loop_transition
            drop_transition(petri_net, petri_info, self_loop_transition.transition_id);
            true
        },
        None => false,
    }
}

/// Firing a self-loop transition changes nothing but the tag: it leads to
/// the same marking, untagged. So the markings reached are the same once
/// the transition has left the net.
pub proof fn lemma_self_loop_transition_keeps_marking(
    net: NetModel,
    tagged: Set<Seq<char>>,
    s: KripkeStateModel,
    t: usize,
)
    requires
        self_loop_transition_at(net, t),
        all_positive(s.marking),
        keys_below(s.marking, net.places.len()),
    ensures
        successor(net, tagged, s, t as int).marking == s.marking,
        successor(net, tagged, s, t as int).tag is None,
{
    let tr = net.transitions[t as int];
    let after = successor(net, tagged, s, t as int).marking;
    assert forall|p: usize| after.contains_key(p) == s.marking.contains_key(p) by {
        assert(fired_count(tr.pre, tr.post, s.marking, p) == count_at(s.marking, p));
    }
    assert forall|p: usize| after.contains_key(p) implies after[p] == s.marking[p] by {
        assert(fired_count(tr.pre, tr.post, s.marking, p) == count_at(s.marking, p));
    }
    assert(after =~= s.marking);
}

} // verus!
