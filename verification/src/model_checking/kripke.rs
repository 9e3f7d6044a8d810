use vstd::prelude::*;
use crate::model::net::NetModel;
use crate::model::transition::{enabled, fired, fired_count, stays_within};
use crate::model_checking::state::{KripkeStateModel, PetriKripkeState};

verus! {

/// What a record of the graph is, apart from how it is stored: a state and
/// the identifiers of its successors.
pub struct KripkeNodeModel {
    pub state: KripkeStateModel,
    pub targets: Seq<usize>,
}

/// A record of the graph: a state and the identifiers of its successors.
#[derive(Debug, Clone, PartialEq, Eq)]
pub struct KripkeState {
    pub value_in_domain: PetriKripkeState,
    pub outgoing_transitions_targets: Vec<usize>,
}

impl View for KripkeState {
    type V = KripkeNodeModel;

    open spec fn view(&self) -> KripkeNodeModel {
        KripkeNodeModel { state: self.value_in_domain@, targets: self.outgoing_transitions_targets@ }
    }
}

impl KripkeState {
    pub fn new(value_in_domain: PetriKripkeState, outgoing_transitions_targets: Vec<usize>) -> (r: Self)
        ensures
            r.value_in_domain == value_in_domain,
            r.outgoing_transitions_targets == outgoing_transitions_targets,
    {
        Self { value_in_domain, outgoing_transitions_targets }
    }
}

/// A state graph as an adjacency list; the identifier of a state is its
/// position, and the first state is the initial one.
#[derive(Debug, Clone, PartialEq, Eq)]
pub struct KripkeStructure {
    pub states: Vec<KripkeState>,
}

impl View for KripkeStructure {
    type V = Seq<KripkeNodeModel>;

    open spec fn view(&self) -> Seq<KripkeNodeModel> {
        nodes_of(self.states@)
    }
}

/// The records of a list of stored records.
pub open spec fn nodes_of(states: Seq<KripkeState>) -> Seq<KripkeNodeModel> {
    Seq::new(states.len(), |i: int| states[i]@)
}

impl KripkeStructure {
    pub fn new(states: Vec<KripkeState>) -> (r: Self)
        ensures
            r.states == states,
    {
        Self { states }
    }
}

/// The tag that a state gets when a transition with this label has fired:
/// the label, where it is one of the tagged ones.
pub open spec fn tag_after(label: Option<Seq<char>>, tagged: Set<Seq<char>>) -> Option<Seq<char>> {
    match label {
        Some(l) => if tagged.contains(l) {
            Some(l)
        } else {
            None
        },
        None => None,
    }
}

/// Transition `t` of the net is enabled at marking `m`.
pub open spec fn can_fire(net: NetModel, m: Map<usize, u32>, t: int) -> bool {
    0 <= t < net.transitions.len() && enabled(net.transitions[t].pre, m, net.places.len())
}

/// Firing `t` at `m` leaves no place with more than `bound` tokens.
pub open spec fn firing_fits(net: NetModel, m: Map<usize, u32>, t: int, bound: u32) -> bool {
    stays_within(net.transitions[t].pre, net.transitions[t].post, m, net.places.len(), bound)
}

/// The state reached from `s` by firing transition `t`.
pub open spec fn successor(net: NetModel, tagged: Set<Seq<char>>, s: KripkeStateModel, t: int) -> KripkeStateModel {
    KripkeStateModel {
        marking: fired(net.transitions[t].pre, net.transitions[t].post, s.marking, net.places.len()),
        tag: tag_after(net.transitions[t].label, tagged),
    }
}

/// The state reached from `s0` by firing the transitions of `path` in turn.
pub open spec fn run(net: NetModel, tagged: Set<Seq<char>>, s0: KripkeStateModel, path: Seq<int>) -> KripkeStateModel
    decreases path.len(),
{
    if path.len() == 0 {
        s0
    } else {
        successor(net, tagged, run(net, tagged, s0, path.drop_last()), path.last())
    }
}

/// `path` is a firing sequence from `s0` within the bound: each of its
/// transitions is enabled where it fires and leaves no place with more than
/// `bound` tokens.
pub open spec fn valid_run(
    net: NetModel,
    tagged: Set<Seq<char>>,
    s0: KripkeStateModel,
    path: Seq<int>,
    bound: u32,
) -> bool
    decreases path.len(),
{
    path.len() == 0 || {
        let before = run(net, tagged, s0, path.drop_last());
        &&& valid_run(net, tagged, s0, path.drop_last(), bound)
        &&& can_fire(net, before.marking, path.last())
        &&& firing_fits(net, before.marking, path.last(), bound)
    }
}

/// After the firing sequence `path`, transition `t` is enabled and would
/// put more than `bound` tokens in `place`, the first place where it would.
pub open spec fn violation_after(
    net: NetModel,
    tagged: Set<Seq<char>>,
    s0: KripkeStateModel,
    bound: u32,
    path: Seq<int>,
    t: int,
    place: usize,
) -> bool {
    let m = run(net, tagged, s0, path).marking;
    &&& valid_run(net, tagged, s0, path, bound)
    &&& can_fire(net, m, t)
    &&& place < net.places.len()
    &&& fired_count(net.transitions[t].pre, net.transitions[t].post, m, place) > bound
    &&& stays_within(net.transitions[t].pre, net.transitions[t].post, m, place as nat, bound)
}

/// Some firing sequence from `s0` within the bound leads to a state where
/// transition `t` is enabled and would put more than `bound` tokens in
/// `place`, the first place where it would.
pub open spec fn reachable_violation(
    net: NetModel,
    tagged: Set<Seq<char>>,
    s0: KripkeStateModel,
    bound: u32,
    t: int,
    place: usize,
) -> bool {
    exists|path: Seq<int>| #[trigger] violation_after(net, tagged, s0, bound, path, t, place)
}

/// Firing `t` at `from` is possible and leads to `to`.
pub open spec fn fires_to(
    net: NetModel,
    tagged: Set<Seq<char>>,
    from: KripkeStateModel,
    t: int,
    to: KripkeStateModel,
) -> bool {
    can_fire(net, from.marking, t) && successor(net, tagged, from, t) == to
}

/// The `k`-th edge out of state `i` leads to a state of the graph, and some
/// firing at state `i` leads there.
pub open spec fn edge_is_firing(
    ks: Seq<KripkeNodeModel>,
    net: NetModel,
    tagged: Set<Seq<char>>,
    i: int,
    k: int,
) -> bool {
    &&& ks[i].targets[k] < ks.len()
    &&& exists|t: int| #[trigger] fires_to(net, tagged, ks[i].state, t, ks[ks[i].targets[k] as int].state)
}

/// Every edge stands for a firing.
pub open spec fn sound_edges(ks: Seq<KripkeNodeModel>, net: NetModel, tagged: Set<Seq<char>>) -> bool {
    forall|i: int, k: int|
        0 <= i < ks.len() && 0 <= k < ks[i].targets.len() ==> #[trigger] edge_is_firing(ks, net, tagged, i, k)
}

/// State `i` has an edge to state `j`.
pub open spec fn has_edge(ks: Seq<KripkeNodeModel>, i: int, j: int) -> bool {
    exists|k: int| 0 <= k < ks[i].targets.len() && #[trigger] ks[i].targets[k] == j
}

/// The firing of `t` at state `i` stays within the bound, and an edge out
/// of state `i` leads to the state it reaches.
pub open spec fn covered(
    ks: Seq<KripkeNodeModel>,
    net: NetModel,
    tagged: Set<Seq<char>>,
    bound: u32,
    i: int,
    t: int,
) -> bool {
    &&& firing_fits(net, ks[i].state.marking, t, bound)
    &&& exists|j: int|
        0 <= j < ks.len() && #[trigger] has_edge(ks, i, j) && ks[j].state == successor(net, tagged, ks[i].state, t)
}

/// Every firing at state `i` of a transition before `upto` is covered.
pub open spec fn complete_at(
    ks: Seq<KripkeNodeModel>,
    net: NetModel,
    tagged: Set<Seq<char>>,
    bound: u32,
    i: int,
    upto: int,
) -> bool {
    forall|t: int|
        0 <= t < upto && can_fire(net, ks[i].state.marking, t) ==> #[trigger] covered(ks, net, tagged, bound, i, t)
}

/// No state stands twice in the graph.
pub open spec fn distinct_states(ks: Seq<KripkeNodeModel>) -> bool {
    forall|i: int, j: int| 0 <= i < j < ks.len() ==> (#[trigger] ks[i]).state != (#[trigger] ks[j]).state
}

/// Every edge leads to a state of the graph, and no state lists a successor
/// twice.
pub open spec fn tidy_edges(ks: Seq<KripkeNodeModel>) -> bool {
    forall|i: int|
        0 <= i < ks.len() ==> {
            &&& forall|k: int| 0 <= k < (#[trigger] ks[i]).targets.len() ==> #[trigger] ks[i].targets[k] < ks.len()
            &&& ks[i].targets.no_duplicates()
        }
}

/// Transition `t` is the first whose firing at state `i` leads to state
/// `j`.
pub open spec fn first_firing_to(
    ks: Seq<KripkeNodeModel>,
    net: NetModel,
    tagged: Set<Seq<char>>,
    i: int,
    j: int,
    t: int,
) -> bool {
    &&& fires_to(net, tagged, ks[i].state, t, ks[j].state)
    &&& forall|u: int| 0 <= u < t ==> !#[trigger] fires_to(net, tagged, ks[i].state, u, ks[j].state)
}

/// The `k1`-th successor of state `i` is first reached by an earlier
/// transition than the `k2`-th.
pub open spec fn edge_before(
    ks: Seq<KripkeNodeModel>,
    net: NetModel,
    tagged: Set<Seq<char>>,
    i: int,
    k1: int,
    k2: int,
) -> bool {
    forall|t1: int, t2: int|
        #[trigger] first_firing_to(ks, net, tagged, i, ks[i].targets[k1] as int, t1) && #[trigger] first_firing_to(
            ks,
            net,
            tagged,
            i,
            ks[i].targets[k2] as int,
            t2,
        ) ==> t1 < t2
}

/// Every state lists its successors in the order in which the transitions
/// of the net first reach them.
pub open spec fn edges_in_order(ks: Seq<KripkeNodeModel>, net: NetModel, tagged: Set<Seq<char>>) -> bool {
    forall|i: int, k1: int, k2: int|
        0 <= i < ks.len() && 0 <= k1 < k2 < ks[i].targets.len() ==> #[trigger] edge_before(ks, net, tagged, i, k1, k2)
}

/// Every successor that state `i` lists is reached by a transition before
/// `upto`.
pub open spec fn produced_before(
    ks: Seq<KripkeNodeModel>,
    net: NetModel,
    tagged: Set<Seq<char>>,
    i: int,
    upto: int,
) -> bool {
    forall|k: int|
        0 <= k < ks[i].targets.len() ==> exists|t: int|
            0 <= t < upto && #[trigger] fires_to(net, tagged, ks[i].state, t, ks[(#[trigger] ks[i].targets[k]) as int].state)
}

/// Every state but the first has an edge from a state before it.
pub open spec fn all_have_parents(ks: Seq<KripkeNodeModel>) -> bool {
    forall|j: int| 0 < j < ks.len() ==> #[trigger] has_parent(ks, j)
}

/// Some state before `j` has an edge to `j`.
pub open spec fn has_parent(ks: Seq<KripkeNodeModel>, j: int) -> bool {
    exists|i: int| 0 <= i < j && #[trigger] has_edge(ks, i, j)
}

/// What holds of the graph at every moment of its construction: it starts
/// with the initial state, holds no state twice, its edges are tidy, stand
/// for firings and are listed in the order of the transitions, and every
/// state but the first was found from an earlier one.
pub open spec fn is_partial_graph(
    ks: Seq<KripkeNodeModel>,
    net: NetModel,
    tagged: Set<Seq<char>>,
    s0: KripkeStateModel,
) -> bool {
    &&& ks.len() > 0
    &&& ks[0].state == s0
    &&& distinct_states(ks)
    &&& tidy_edges(ks)
    &&& sound_edges(ks, net, tagged)
    &&& edges_in_order(ks, net, tagged)
    &&& all_have_parents(ks)
}

/// `ks` is the reachability graph of the net from `s0` under the bound: a
/// partial graph in which every firing at every state is covered.
pub open spec fn is_reachability_graph(
    ks: Seq<KripkeNodeModel>,
    net: NetModel,
    tagged: Set<Seq<char>>,
    s0: KripkeStateModel,
    bound: u32,
) -> bool {
    &&& is_partial_graph(ks, net, tagged, s0)
    &&& forall|i: int|
        0 <= i < ks.len() ==> #[trigger] complete_at(ks, net, tagged, bound, i, net.transitions.len() as int)
}

/// `walk` is a path of the graph from its first state: a list of state
/// identifiers that starts with the first state and follows edges.
pub open spec fn is_walk(ks: Seq<KripkeNodeModel>, walk: Seq<int>) -> bool {
    &&& walk.len() > 0
    &&& walk[0] == 0
    &&& forall|k: int| 0 <= k < walk.len() ==> 0 <= #[trigger] walk[k] < ks.len()
    &&& forall|k: int| 0 <= k < walk.len() - 1 ==> has_edge(ks, #[trigger] walk[k], walk[k + 1])
}

/// The path `walk` and the firing sequence `path` go together, edge for
/// firing: both end in the same state, and so do they when the last edge
/// and the last firing are taken away, down to the initial state.
pub open spec fn corresponds(
    ks: Seq<KripkeNodeModel>,
    net: NetModel,
    tagged: Set<Seq<char>>,
    s0: KripkeStateModel,
    walk: Seq<int>,
    path: Seq<int>,
) -> bool
    decreases path.len(),
{
    &&& walk.len() == path.len() + 1
    &&& ks[walk.last()].state == run(net, tagged, s0, path)
    &&& (path.len() > 0 ==> corresponds(ks, net, tagged, s0, walk.drop_last(), path.drop_last()))
}

/// Every path of the reachability graph from its first state goes with a
/// firing sequence of the net from the initial state, edge for firing, and
/// that sequence stays within the bound.
pub proof fn lemma_walks_are_runs(
    ks: Seq<KripkeNodeModel>,
    net: NetModel,
    tagged: Set<Seq<char>>,
    s0: KripkeStateModel,
    bound: u32,
    walk: Seq<int>,
)
    requires
        is_reachability_graph(ks, net, tagged, s0, bound),
        is_walk(ks, walk),
    ensures
        exists|path: Seq<int>|
            valid_run(net, tagged, s0, path, bound) && #[trigger] corresponds(ks, net, tagged, s0, walk, path),
    decreases walk.len(),
{
    if walk.len() == 1 {
        let path = Seq::<int>::empty();
        assert(walk.last() == 0);
        assert(corresponds(ks, net, tagged, s0, walk, path));
    } else {
        let shorter = walk.drop_last();
        assert(is_walk(ks, shorter)) by {
            assert forall|k: int| 0 <= k < shorter.len() - 1 implies has_edge(ks, #[trigger] shorter[k], shorter[k + 1]) by {
                assert(has_edge(ks, walk[k], walk[k + 1]));
            }
        }
        lemma_walks_are_runs(ks, net, tagged, s0, bound, shorter);
        let before = choose|path: Seq<int>|
            valid_run(net, tagged, s0, path, bound) && #[trigger] corresponds(ks, net, tagged, s0, shorter, path);
        let a = walk[walk.len() - 2];
        let b = walk.last();
        assert(shorter.last() == a);
        assert(has_edge(ks, walk[walk.len() - 2], walk[walk.len() - 2 + 1]));
        let k = choose|k: int| 0 <= k < ks[a].targets.len() && #[trigger] ks[a].targets[k] == b;
        assert(edge_is_firing(ks, net, tagged, a, k));
        let t = choose|t: int| #[trigger] fires_to(net, tagged, ks[a].state, t, ks[ks[a].targets[k] as int].state);
        assert(complete_at(ks, net, tagged, bound, a, net.transitions.len() as int));
        assert(covered(ks, net, tagged, bound, a, t));
        let path = before.push(t);
        assert(path.drop_last() =~= before);
        assert(path.last() == t);
        assert(valid_run(net, tagged, s0, path, bound));
        assert(corresponds(ks, net, tagged, s0, walk, path));
    }
}

/// Every firing sequence of the net from the initial state within the
/// bound goes with a path of the reachability graph from its first state,
/// firing for edge.
pub proof fn lemma_runs_are_walks(
    ks: Seq<KripkeNodeModel>,
    net: NetModel,
    tagged: Set<Seq<char>>,
    s0: KripkeStateModel,
    bound: u32,
    path: Seq<int>,
)
    requires
        is_reachability_graph(ks, net, tagged, s0, bound),
        valid_run(net, tagged, s0, path, bound),
    ensures
        exists|walk: Seq<int>| is_walk(ks, walk) && #[trigger] corresponds(ks, net, tagged, s0, walk, path),
    decreases path.len(),
{
    if path.len() == 0 {
        let walk = seq![0int];
        assert(walk.last() == 0);
        assert(is_walk(ks, walk));
        assert(corresponds(ks, net, tagged, s0, walk, path));
    } else {
        let shorter = path.drop_last();
        let t = path.last();
        lemma_runs_are_walks(ks, net, tagged, s0, bound, shorter);
        let before = choose|walk: Seq<int>|
            is_walk(ks, walk) && #[trigger] corresponds(ks, net, tagged, s0, walk, shorter);
        let a = before.last();
        assert(0 <= before[before.len() - 1] < ks.len());
        assert(complete_at(ks, net, tagged, bound, a, net.transitions.len() as int));
        assert(covered(ks, net, tagged, bound, a, t));
        let b = choose|j: int|
            0 <= j < ks.len() && #[trigger] has_edge(ks, a, j) && ks[j].state == successor(
                net,
                tagged,
                ks[a].state,
                t,
            );
        let walk = before.push(b);
        assert(walk.drop_last() =~= before);
        assert(walk.last() == b);
        assert(is_walk(ks, walk)) by {
            assert forall|k: int| 0 <= k < walk.len() - 1 implies has_edge(ks, #[trigger] walk[k], walk[k + 1]) by {
                if k < before.len() - 1 {
                    assert(has_edge(ks, before[k], before[k + 1]));
                }
            }
        }
        assert(corresponds(ks, net, tagged, s0, walk, path));
    }
}

/// Where the expansion yields a graph, no firing sequence within the bound
/// leads to a firing that passes the bound.
pub proof fn lemma_graph_has_no_violation(
    ks: Seq<KripkeNodeModel>,
    net: NetModel,
    tagged: Set<Seq<char>>,
    s0: KripkeStateModel,
    bound: u32,
    t: int,
    place: usize,
)
    requires
        is_reachability_graph(ks, net, tagged, s0, bound),
    ensures
        !reachable_violation(net, tagged, s0, bound, t, place),
{
    if reachable_violation(net, tagged, s0, bound, t, place) {
        let path = choose|path: Seq<int>| #[trigger] violation_after(net, tagged, s0, bound, path, t, place);
        lemma_runs_are_walks(ks, net, tagged, s0, bound, path);
        let walk = choose|walk: Seq<int>| is_walk(ks, walk) && #[trigger] corresponds(ks, net, tagged, s0, walk, path);
        let a = walk.last();
        assert(0 <= walk[walk.len() - 1] < ks.len());
        assert(complete_at(ks, net, tagged, bound, a, net.transitions.len() as int));
        assert(covered(ks, net, tagged, bound, a, t));
        assert(fired_count(net.transitions[t].pre, net.transitions[t].post, ks[a].state.marking, place) <= bound);
    }
}

/// A net from which transition `t` is removed fires as before: its
/// transition `u` is the transition of the net that `u` was, with the same
/// firings.
pub proof fn lemma_without_transition_fires(
    net: NetModel,
    tagged: Set<Seq<char>>,
    s: KripkeStateModel,
    t: usize,
    u: int,
)
    requires
        t < net.transitions.len(),
        0 <= u < net.transitions.len() - 1,
    ensures
        can_fire(net.without_transition(t), s.marking, u) == can_fire(
            net,
            s.marking,
            if u < t {
                u
            } else {
                u + 1
            },
        ),
        successor(net.without_transition(t), tagged, s, u) == successor(
            net,
            tagged,
            s,
            if u < t {
                u
            } else {
                u + 1
            },
        ),
{
    let after = net.without_transition(t);
    assert(after.transitions[u] == net.transitions[if u < t { u } else { u + 1 }]);
}

} // verus!
