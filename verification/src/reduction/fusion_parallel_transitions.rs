use vstd::prelude::*;
use crate::maps::hash_same;
use crate::model::label::same_transition_label;
use crate::model::marking::Marking;
use crate::model::net::{NetModel, PetriNet};
use crate::model_checking::kripke::{can_fire, successor};
use crate::model_checking::state::KripkeStateModel;
use crate::reduction::edits::drop_transition;
use crate::reduction::info::PetriNetInfo;
use crate::reduction::pairs::{holds_pair, lemma_earlier_pairs, lists_pairs, next_pair, pairs_below, pairs_left};
use crate::reduction::state::{
    lemma_least_pair_is, lemma_least_pair_none, least_pair, state_of, ReductionState,
};

verus! {

pub struct ParallelTransitionsPair {
    pub tx1_id: usize,
    pub tx2_id: usize,
}

impl ParallelTransitionsPair {
    pub fn new(tx1_id: usize, tx2_id: usize) -> (r: Self)
        ensures
            r.tx1_id == tx1_id,
            r.tx2_id == tx2_id,
    {
        Self { tx1_id, tx2_id }
    }
}

/// Transitions `t1` and `t2` carry one label, consume the same and produce
/// the same.
pub open spec fn parallel_transitions(net: NetModel, t1: usize, t2: usize) -> bool {
    &&& t1 < t2 < net.transitions.len()
    &&& net.transitions[t1 as int].label == net.transitions[t2 as int].label
    &&& net.transitions[t1 as int].pre == net.transitions[t2 as int].pre
    &&& net.transitions[t1 as int].post == net.transitions[t2 as int].post
}

/// The first pair of parallel transitions, if there is one.
pub open spec fn parallel_transitions_first(net: NetModel) -> Option<(usize, usize)> {
    least_pair(net.transitions.len(), |a: usize, b: usize| parallel_transitions(net, a, b))
}

/// The state without the second transition of a parallel pair.
pub open spec fn fuse_parallel_transitions(s: ReductionState, pair: (usize, usize)) -> ReductionState {
    ReductionState { net: s.net.without_transition(pair.1), marking: s.marking }
}

/// parallel transitions are pairs of transitions (t1,t2) such that:
/// - both t1 and t2 have the same label
/// - both t1 and t2 have the same preset map
/// - both t1 and t2 have the same postset map
pub fn find_parallel_transitions(petri_net: &PetriNet) -> (r: Option<ParallelTransitionsPair>)
    ensures
        match r {
            Some(x) => parallel_transitions_first(petri_net@) == Some((x.tx1_id, x.tx2_id)) && x.tx2_id
                < petri_net.transitions.len(),
            None => parallel_transitions_first(petri_net@) is None,
        },
{
    let n = petri_net.transitions.len();
    let mut walk = pairs_below(n);
    let ghost pairs = pairs_left(walk);
    let ghost net = petri_net@;
    let ghost g = |a: usize, b: usize| parallel_transitions(net, a, b);
    let ghost mut i: int = 0;
    assert(pairs.skip(0) =~= pairs);
    loop
        invariant
            0 <= i <= pairs.len(),
            pairs_left(walk) == pairs.skip(i),
            n == petri_net.transitions.len(),
            net == petri_net@,
            g == |a: usize, b: usize| parallel_transitions(net, a, b),
            lists_pairs(pairs, n as nat),
            forall|k: int| 0 <= k < i ==> !#[trigger] g(pairs[k].0, pairs[k].1),
        ensures
            i == pairs.len(),
            lists_pairs(pairs, n as nat),
            forall|k: int| 0 <= k < i ==> !#[trigger] g(pairs[k].0, pairs[k].1),
        decreases pairs.len() - i,
    {
        let (tx_id1, tx_id2) = match next_pair(&mut walk) {
            Some(pair) => pair,
            None => {
                break ;
            },
        };
        assert(pairs.skip(i)[0] == pairs[i]);
        assert(pairs.skip(i).skip(1) =~= pairs.skip(i + 1));
        let tx1 = &petri_net.transitions[tx_id1];
        let tx2 = &petri_net.transitions[tx_id2];
        assert(net.transitions[tx_id1 as int] == tx1@);
        assert(net.transitions[tx_id2 as int] == tx2@);
        if same_transition_label(&tx1.transition_label, &tx2.transition_label) && hash_same(
            &tx1.preset_tokens,
            &tx2.preset_tokens,
        ) && hash_same(&tx1.postset_tokens, &tx2.postset_tokens) {
            proof {
                assert(g(tx_id1, tx_id2));
                assert forall|x: usize, y: usize|
                    x < y < n && (x < tx_id1 || (x == tx_id1 && y < tx_id2)) implies !#[trigger] g(x, y) by {
                    lemma_earlier_pairs(pairs, n as nat, i, x, y);
                    let k = choose|k: int| 0 <= k < i && #[trigger] pairs[k] == (x, y);
                    assert(!g(pairs[k].0, pairs[k].1));
                }
                lemma_least_pair_is(n as nat, g, tx_id1, tx_id2);
            }
            return Some(ParallelTransitionsPair::new(tx_id1, tx_id2));
        }
        assert(!g(pairs[i].0, pairs[i].1));
        proof {
            i = i + 1;
        }
    }
    proof {
        assert forall|x: usize, y: usize| x < y < n implies !#[trigger] g(x, y) by {
            assert(holds_pair(pairs, x, y));
            let k = choose|k: int| 0 <= k < pairs.len() && #[trigger] pairs[k] == (x, y);
            assert(!g(pairs[k].0, pairs[k].1));
        }
        lemma_least_pair_none(n as nat, g);
    }
    None
}

pub fn find_and_simplify_parallel_transitions(
    petri_net: &mut PetriNet,
    petri_info: &mut PetriNetInfo,
    initial_markings: &mut Option<Marking>,
) -> (r: bool)
    requires
        old(petri_net).wf(),
        old(petri_info).coherent_with(old(petri_net)),
    ensures
        r == (parallel_transitions_first(old(petri_net)@) is Some),
        r ==> state_of(*final(petri_net), *final(initial_markings)) == fuse_parallel_transitions(
            state_of(*old(petri_net), *old(initial_markings)),
            parallel_transitions_first(old(petri_net)@).unwrap(),
        ),
        r ==> final(petri_net)@.size() < old(petri_net)@.size(),
        !r ==> *final(petri_net) == *old(petri_net),
        !r ==> *final(petri_info) == *old(petri_info),
        *final(initial_markings) == *old(initial_markings),
        final(petri_net).wf(),
        final(petri_info).coherent_with(final(petri_net)),
{
    match find_parallel_transitions(petri_net) {
        Some(parallel_transitions) => {
            // we simply delete any of the two transitions (let's delete the second)
            drop_transition(petri_net, petri_info, parallel_transitions.tx2_id);
            true
        },
        None => false,
    }
}

/// Parallel transitions fire alike: at every state either both are enabled
/// or neither is, and both lead to the same state. So the states reached
/// from a state are the same once the second of the two has left the net.
pub proof fn lemma_parallel_transitions_fire_alike(
    net: NetModel,
    tagged: Set<Seq<char>>,
    s: KripkeStateModel,
    t1: usize,
    t2: usize,
)
    requires
        parallel_transitions(net, t1, t2),
    ensures
        can_fire(net, s.marking, t1 as int) == can_fire(net, s.marking, t2 as int),
        successor(net, tagged, s, t1 as int) == successor(net, tagged, s, t2 as int),
{
}

} // verus!
