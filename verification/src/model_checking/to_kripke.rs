use vstd::prelude::*;
use std::collections::HashMap;
use std::rc::Rc;
use crate::maps::count_at;
use crate::model::label::{transition_label_name, PetriTransitionLabel};
use crate::model::marking::Marking;
use crate::model::net::{NetModel, PetriNet};
use crate::model::transition::{enabled, fired, stays_within, Firing, PetriTransition};
use crate::model_checking::kripke::{
    can_fire, complete_at, covered, edge_is_firing, fires_to, firing_fits, edge_before, first_firing_to,
    has_edge, has_parent, is_partial_graph, is_reachability_graph, nodes_of, produced_before,
    reachable_violation, run, successor, tag_after, valid_run, violation_after, KripkeNodeModel, KripkeState,
    KripkeStructure,
};
use crate::model_checking::state::{KripkeStateModel, PetriKripkeState};

verus! {

broadcast use vstd::std_specs::hash::group_hash_axioms;

/// What is asked of the markings that the expansion reaches.
#[derive(Debug, Clone, PartialEq, Eq)]
pub enum PetriKripkeGenerationSafenessRequirement {
    /// no more than what a count can hold
    NoRequirement,
    /// no place ever holds more than this many tokens
    KSafeness(u32),
}

/// Why an expansion stopped.
#[derive(Debug, Clone, PartialEq, Eq)]
pub enum PetriKripkeGenerationError {
    /// firing the transition at a reachable marking puts more tokens in the
    /// place than the bound allows
    KSafenessViolation { place_id: usize, transition_id: usize },
}

impl PetriKripkeGenerationSafenessRequirement {
    /// The most tokens that a place may hold.
    pub open spec fn spec_bound(&self) -> u32 {
        match self {
            PetriKripkeGenerationSafenessRequirement::NoRequirement => u32::MAX,
            PetriKripkeGenerationSafenessRequirement::KSafeness(k) => *k,
        }
    }

    /// The most tokens that a place may hold.
    pub fn bound(&self) -> (r: u32)
        ensures
            r == self.spec_bound(),
    {
        match self {
            PetriKripkeGenerationSafenessRequirement::NoRequirement => u32::MAX,
            PetriKripkeGenerationSafenessRequirement::KSafeness(k) => *k,
        }
    }
}

/// Derives the states of the graph from firings; it knows which labels are
/// tagged, that is, recorded on the states reached by firing them.
pub struct PetriKripkeStateProducer {
    pub tagged_transition_labels: Vec<PetriTransitionLabel>,
}

impl PetriKripkeStateProducer {
    /// The names of the tagged labels.
    pub open spec fn tagged(&self) -> Set<Seq<char>> {
        Set::new(
            |name: Seq<char>|
                exists|i: int|
                    0 <= i < self.tagged_transition_labels@.len() && (
                    #[trigger] self.tagged_transition_labels@[i])@ == name,
        )
    }

    pub fn new(tagged_transition_labels: Vec<PetriTransitionLabel>) -> (r: Self)
        ensures
            r.tagged_transition_labels == tagged_transition_labels,
    {
        Self { tagged_transition_labels }
    }

    /// Whether the label is one of the tagged ones.
    pub fn is_tagged(&self, label: &PetriTransitionLabel) -> (r: bool)
        ensures
            r == self.tagged().contains(label@),
    {
        let mut i: usize = 0;
        while i < self.tagged_transition_labels.len()
            invariant
                0 <= i <= self.tagged_transition_labels.len(),
                forall|j: int| 0 <= j < i ==> (#[trigger] self.tagged_transition_labels@[j])@ != label@,
            decreases self.tagged_transition_labels.len() - i,
        {
            if self.tagged_transition_labels[i].same_name(label) {
                return true;
            }
            i = i + 1;
        }
        false
    }

    /// The tag of a state reached by firing the transition.
    pub fn tag_for(&self, transition: &PetriTransition) -> (r: Option<Rc<PetriTransitionLabel>>)
        ensures
            transition_label_name(r) == tag_after(transition@.label, self.tagged()),
    {
        match &transition.transition_label {
            None => None,
            Some(lab_ref) => {
                if self.is_tagged(lab_ref) {
                    Some(lab_ref.clone())
                } else {
                    None
                }
            },
        }
    }

    /// Fires the transition at a state, if it is enabled there, and tags the
    /// state reached.
    pub fn try_reach_new_state(
        &self,
        net_place_num: usize,
        initial: &PetriKripkeState,
        transition: &PetriTransition,
    ) -> (r: Option<PetriKripkeState>)
        requires
            enabled(transition@.pre, initial@.marking, net_place_num as nat) ==> stays_within(
                transition@.pre,
                transition@.post,
                initial@.marking,
                net_place_num as nat,
                u32::MAX,
            ),
        ensures
            match r {
                Some(s) => {
                    &&& enabled(transition@.pre, initial@.marking, net_place_num as nat)
                    &&& s@.marking == fired(transition@.pre, transition@.post, initial@.marking, net_place_num as nat)
                    &&& s@.tag == tag_after(transition@.label, self.tagged())
                },
                None => !enabled(transition@.pre, initial@.marking, net_place_num as nat),
            },
    {
        match transition.try_fire(net_place_num, &initial.marking) {
            Some(new_marking) => {
                let previous_transition_tag = self.tag_for(transition);
                Some(PetriKripkeState::new(new_marking, previous_transition_tag))
            },
            None => None,
        }
    }
}

/// A number that tells most markings apart: the tokens of the first `upto`
/// places, read as the digits of a number in base 31, within the range of
/// 64 bits.
pub open spec fn fingerprint_upto(m: Map<usize, u32>, upto: nat) -> u64
    decreases upto,
{
    if upto == 0 {
        0
    } else {
        fingerprint_upto(m, (upto - 1) as nat).wrapping_mul(31).wrapping_add(
            count_at(m, (upto - 1) as usize) as u64,
        )
    }
}

/// The fingerprint of a marking over the first `net_place_num` places.
pub fn fingerprint(marking: &Marking, net_place_num: usize) -> (r: u64)
    ensures
        r == fingerprint_upto(marking@, net_place_num as nat),
{
    let mut h: u64 = 0;
    let mut p: usize = 0;
    while p < net_place_num
        invariant
            0 <= p <= net_place_num,
            h == fingerprint_upto(marking@, p as nat),
        decreases net_place_num - p,
    {
        h = h.wrapping_mul(31).wrapping_add(marking.toks(p) as u64);
        p = p + 1;
    }
    h
}

/// The table lists every state, and no other, under the fingerprint of its
/// marking.
pub open spec fn interned(table: Map<u64, Vec<usize>>, ks: Seq<KripkeNodeModel>, n: nat) -> bool {
    &&& forall|k: u64, j: int|
        table.contains_key(k) && 0 <= j < table[k]@.len() ==> (#[trigger] table[k]@[j]) < ks.len()
            && fingerprint_upto(ks[table[k]@[j] as int].state.marking, n) == k
    &&& forall|i: int|
        0 <= i < ks.len() ==> table.contains_key(fingerprint_upto((#[trigger] ks[i]).state.marking, n))
            && table[fingerprint_upto(ks[i].state.marking, n)]@.contains(i as usize)
}

/// The identifier under which a state stands in the list, if it does. It is
/// looked up among the states with the fingerprint of its marking.
fn find_state(
    states: &Vec<KripkeState>,
    table: &HashMap<u64, Vec<usize>>,
    target: &PetriKripkeState,
    print: u64,
    net_place_num: usize,
) -> (r: Option<usize>)
    requires
        interned(table@, nodes_of(states@), net_place_num as nat),
        print == fingerprint_upto(target@.marking, net_place_num as nat),
    ensures
        match r {
            Some(j) => j < states.len() && states@[j as int]@.state == target@,
            None => forall|j: int| 0 <= j < states.len() ==> (#[trigger] states@[j])@.state != target@,
        },
{
    let ghost ks = nodes_of(states@);
    match table.get(&print) {
        None => {
            assert forall|j: int| 0 <= j < states.len() implies (#[trigger] states@[j])@.state != target@ by {
                assert(ks[j] == states@[j]@);
                assert(table@.contains_key(fingerprint_upto(ks[j].state.marking, net_place_num as nat)));
            }
            None
        },
        Some(bucket) => {
            let mut b: usize = 0;
            while b < bucket.len()
                invariant
                    0 <= b <= bucket.len(),
                    ks == nodes_of(states@),
                    interned(table@, ks, net_place_num as nat),
                    print == fingerprint_upto(target@.marking, net_place_num as nat),
                    table@.contains_key(print),
                    table@[print] == *bucket,
                    forall|i: int| 0 <= i < b ==> ks[bucket@[i] as int].state != target@,
                decreases bucket.len() - b,
            {
                let j: usize = bucket[b];
                assert(table@[print]@[b as int] < ks.len());
                assert(ks[j as int] == states@[j as int]@);
                if states[j].value_in_domain.same(target) {
                    return Some(j);
                }
                b = b + 1;
            }
            assert forall|j: int| 0 <= j < states.len() implies (#[trigger] states@[j])@.state != target@ by {
                assert(ks[j] == states@[j]@);
                if ks[j].state == target@ {
                    assert(table@[fingerprint_upto(ks[j].state.marking, net_place_num as nat)]@.contains(j as usize));
                    let i = choose|i: int| 0 <= i < bucket@.len() && bucket@[i] == j as usize;
                    assert(ks[bucket@[i] as int].state != target@);
                }
            }
            None
        },
    }
}

/// Whether the list of successors holds the identifier.
fn lists_target(targets: &Vec<usize>, id: usize) -> (r: bool)
    ensures
        r == targets@.contains(id),
{
    let mut k: usize = 0;
    while k < targets.len()
        invariant
            0 <= k <= targets.len(),
            forall|i: int| 0 <= i < k ==> targets@[i] != id,
        decreases targets.len() - k,
    {
        if targets[k] == id {
            return true;
        }
        k = k + 1;
    }
    false
}

/// The list with `id` at its end, unless it holds it already.
pub open spec fn add_once(targets: Seq<usize>, id: usize) -> Seq<usize> {
    if targets.contains(id) {
        targets
    } else {
        targets.push(id)
    }
}

/// The record with one more successor, unless it lists it already.
pub open spec fn with_target(node: KripkeNodeModel, id: usize) -> KripkeNodeModel {
    KripkeNodeModel { state: node.state, targets: add_once(node.targets, id) }
}

/// `after` is `before` once state `target`, reached from state `cur`, is
/// recorded under identifier `id`: as a new state at the end, where the
/// graph did not hold it, and in any case as a successor of `cur`.
pub open spec fn records(
    before: Seq<KripkeNodeModel>,
    after: Seq<KripkeNodeModel>,
    cur: int,
    id: usize,
    target: KripkeStateModel,
) -> bool {
    if id < before.len() {
        &&& before[id as int].state == target
        &&& after == before.update(cur, with_target(before[cur], id))
    } else {
        &&& id == before.len()
        &&& forall|j: int| 0 <= j < before.len() ==> (#[trigger] before[j]).state != target
        &&& after == before.push(KripkeNodeModel { state: target, targets: Seq::empty() }).update(
            cur,
            with_target(before[cur], id),
        )
    }
}

/// Records state `target`, reached from state `cur`: interns it, queues it
/// where it is new, and lists it among the successors of `cur`.
fn record_successor(
    states: &mut Vec<KripkeState>,
    queue: &mut Vec<usize>,
    table: &mut HashMap<u64, Vec<usize>>,
    cur: usize,
    target: PetriKripkeState,
    net_place_num: usize,
) -> (id: usize)
    requires
        cur < old(states).len(),
        interned(old(table)@, nodes_of(old(states)@), net_place_num as nat),
    ensures
        records(nodes_of(old(states)@), nodes_of(final(states)@), cur as int, id, target@),
        final(queue)@ == if id < old(states).len() {
            old(queue)@
        } else {
            old(queue)@.push(id)
        },
        interned(final(table)@, nodes_of(final(states)@), net_place_num as nat),
{
    let ghost before = nodes_of(states@);
    let ghost n = net_place_num as nat;
    let print = fingerprint(&target.marking, net_place_num);
    let target_state_id: usize = match find_state(states, table, &target, print, net_place_num) {
        None => {
            let id = states.len();
            states.push(KripkeState::new(target, Vec::new()));
            queue.push(id);
            let ghost table0 = table@;
            let mut bucket: Vec<usize> = match table.remove(&print) {
                Some(bucket) => bucket,
                None => Vec::new(),
            };
            let ghost bucket0 = bucket@;
            bucket.push(id);
            table.insert(print, bucket);
            proof {
                let mid = nodes_of(states@);
                assert(mid =~= before.push(KripkeNodeModel { state: target@, targets: Seq::empty() }));
                assert(table0.contains_key(print) ==> bucket0 == table0[print]@);
                assert forall|k: u64, j: int| table@.contains_key(k) && 0 <= j < table@[k]@.len() implies (
                #[trigger] table@[k]@[j]) < mid.len() && fingerprint_upto(
                    mid[table@[k]@[j] as int].state.marking,
                    n,
                ) == k by {
                    if k == print {
                        if j < bucket0.len() {
                            assert(table0[k]@[j] < before.len());
                        }
                    } else {
                        assert(table0.contains_key(k));
                        assert(table0[k]@[j] < before.len());
                    }
                }
                assert forall|i: int| 0 <= i < mid.len() implies table@.contains_key(
                    fingerprint_upto((#[trigger] mid[i]).state.marking, n),
                ) && table@[fingerprint_upto(mid[i].state.marking, n)]@.contains(i as usize) by {
                    let k = fingerprint_upto(mid[i].state.marking, n);
                    if i < before.len() {
                        assert(mid[i] == before[i]);
                        assert(table0[k]@.contains(i as usize));
                        if k == print {
                            let j = choose|j: int| 0 <= j < bucket0.len() && bucket0[j] == i as usize;
                            assert(table@[k]@[j] == i as usize);
                        }
                    } else {
                        assert(table@[k]@[bucket0.len() as int] == i as usize);
                    }
                }
            }
            id
        },
        Some(id) => id,
    };
    let ghost mid = nodes_of(states@);
    if !lists_target(&states[cur].outgoing_transitions_targets, target_state_id) {
        states[cur].outgoing_transitions_targets.push(target_state_id);
    }
    proof {
        assert(mid[cur as int] == before[cur as int]);
        let after = nodes_of(states@);
        assert(after =~= mid.update(cur as int, with_target(before[cur as int], target_state_id)));
        if target_state_id < before.len() {
            assert(mid =~= before);
        } else {
            assert(mid =~= before.push(KripkeNodeModel { state: target@, targets: Seq::empty() }));
            assert forall|j: int| 0 <= j < before.len() implies (#[trigger] before[j]).state != target@ by {
                assert(before[j] == old(states)@[j]@);
            }
        }
        assert forall|i: int| 0 <= i < after.len() implies (#[trigger] after[i]).state == mid[i].state by {}
        assert forall|k: u64, j: int| table@.contains_key(k) && 0 <= j < table@[k]@.len() implies (
        #[trigger] table@[k]@[j]) < after.len() && fingerprint_upto(after[table@[k]@[j] as int].state.marking, n)
            == k by {
            assert(table@[k]@[j] < mid.len());
            assert(after[table@[k]@[j] as int].state == mid[table@[k]@[j] as int].state);
        }
        assert forall|i: int| 0 <= i < after.len() implies table@.contains_key(
            fingerprint_upto((#[trigger] after[i]).state.marking, n),
        ) && table@[fingerprint_upto(after[i].state.marking, n)]@.contains(i as usize) by {
            assert(after[i].state == mid[i].state);
        }
    }
    target_state_id
}

/// Recording a successor keeps every edge that was there.
proof fn lemma_records_keeps_edges(
    before: Seq<KripkeNodeModel>,
    after: Seq<KripkeNodeModel>,
    cur: int,
    id: usize,
    target: KripkeStateModel,
    i: int,
    j: int,
)
    requires
        0 <= cur < before.len(),
        records(before, after, cur, id, target),
        0 <= i < before.len(),
        has_edge(before, i, j),
    ensures
        has_edge(after, i, j),
{
    let k = choose|k: int| 0 <= k < before[i].targets.len() && #[trigger] before[i].targets[k] == j;
    assert(after[i].targets[k] == j);
}

/// Recording the state reached by a firing at state `cur` keeps the graph a
/// partial graph, covers that firing, and leaves covered what was.
proof fn lemma_records_keeps(
    before: Seq<KripkeNodeModel>,
    after: Seq<KripkeNodeModel>,
    net: NetModel,
    tagged: Set<Seq<char>>,
    s0: KripkeStateModel,
    bound: u32,
    cur: int,
    id: usize,
    target: KripkeStateModel,
    t: int,
)
    requires
        is_partial_graph(before, net, tagged, s0),
        0 <= cur < before.len(),
        fires_to(net, tagged, before[cur].state, t, target),
        firing_fits(net, before[cur].state.marking, t, bound),
        records(before, after, cur, id, target),
        produced_before(before, net, tagged, cur, t),
        complete_at(before, net, tagged, bound, cur, t),
    ensures
        is_partial_graph(after, net, tagged, s0),
        covered(after, net, tagged, bound, cur, t),
        produced_before(after, net, tagged, cur, t + 1),
        forall|i: int, upto: int|
            0 <= i < before.len() && #[trigger] complete_at(before, net, tagged, bound, i, upto) ==> complete_at(
                after,
                net,
                tagged,
                bound,
                i,
                upto,
            ),
{
    assert(after.len() >= before.len());
    assert(id < after.len());
    assert forall|i: int| 0 <= i < before.len() implies (#[trigger] after[i]).state == before[i].state by {}
    assert(after[id as int].state == target);
    assert(after[cur].targets == add_once(before[cur].targets, id));
    assert forall|i: int| 0 <= i < before.len() && i != cur implies (#[trigger] after[i]).targets
        == before[i].targets by {}
    // no state twice
    assert forall|i: int, j: int| 0 <= i < j < after.len() implies (#[trigger] after[i]).state != (
    #[trigger] after[j]).state by {
        if j < before.len() {
            assert(before[i].state != before[j].state);
        } else {
            assert(before[i].state != target);
        }
    }
    // tidy edges
    assert forall|i: int| 0 <= i < after.len() implies {
        &&& forall|k: int| 0 <= k < (#[trigger] after[i]).targets.len() ==> #[trigger] after[i].targets[k] < after.len()
        &&& after[i].targets.no_duplicates()
    } by {
        if i < before.len() {
            assert(forall|k: int|
                0 <= k < (#[trigger] before[i]).targets.len() ==> #[trigger] before[i].targets[k] < before.len());
            assert(before[i].targets.no_duplicates());
        }
    }
    // every edge is a firing
    assert forall|i: int, k: int| 0 <= i < after.len() && 0 <= k < after[i].targets.len() implies #[trigger] edge_is_firing(
        after,
        net,
        tagged,
        i,
        k,
    ) by {
        if i == cur && k >= before[cur].targets.len() {
            assert(after[i].targets[k] == id);
            assert(fires_to(net, tagged, after[i].state, t, after[after[i].targets[k] as int].state));
        } else {
            assert(edge_is_firing(before, net, tagged, i, k));
            let w = choose|w: int| #[trigger]
                fires_to(net, tagged, before[i].state, w, before[before[i].targets[k] as int].state);
            assert(after[i].targets[k] == before[i].targets[k]);
            assert(fires_to(net, tagged, after[i].state, w, after[after[i].targets[k] as int].state));
        }
    }
    // the successors of `cur` are reached by the transitions tried so far
    assert forall|k: int| 0 <= k < after[cur].targets.len() implies exists|w: int|
        0 <= w < t + 1 && #[trigger] fires_to(
            net,
            tagged,
            after[cur].state,
            w,
            after[(#[trigger] after[cur].targets[k]) as int].state,
        ) by {
        if k < before[cur].targets.len() {
            assert(after[cur].targets[k] == before[cur].targets[k]);
            let w = choose|w: int|
                0 <= w < t && #[trigger] fires_to(
                    net,
                    tagged,
                    before[cur].state,
                    w,
                    before[before[cur].targets[k] as int].state,
                );
            assert(fires_to(net, tagged, after[cur].state, w, after[after[cur].targets[k] as int].state));
        } else {
            assert(after[cur].targets[k] == id);
            assert(fires_to(net, tagged, after[cur].state, t, after[after[cur].targets[k] as int].state));
        }
    }
    // the successors stay in the order of the transitions
    assert forall|i: int, k1: int, k2: int|
        0 <= i < after.len() && 0 <= k1 < k2 < after[i].targets.len() implies #[trigger] edge_before(
        after,
        net,
        tagged,
        i,
        k1,
        k2,
    ) by {
        if i == cur && k2 >= before[cur].targets.len() {
            assert(after[cur].targets[k2] == id);
            assert(after[cur].targets[k1] == before[cur].targets[k1]);
            let j1 = before[cur].targets[k1] as int;
            assert forall|t1: int, t2: int|
                #[trigger] first_firing_to(after, net, tagged, cur, after[cur].targets[k1] as int, t1)
                    && #[trigger] first_firing_to(
                    after,
                    net,
                    tagged,
                    cur,
                    after[cur].targets[k2] as int,
                    t2,
                ) implies t1 < t2 by {
                // an earlier transition reaches the earlier successor
                let w = choose|w: int|
                    0 <= w < t && #[trigger] fires_to(net, tagged, before[cur].state, w, before[j1].state);
                assert(fires_to(net, tagged, after[cur].state, w, after[j1].state));
                if t1 > w {
                    assert(!fires_to(net, tagged, after[cur].state, w, after[j1].state));
                }
                // and no earlier transition reaches the new one
                if t2 < t {
                    assert(fires_to(net, tagged, before[cur].state, t2, target));
                    assert(covered(before, net, tagged, bound, cur, t2));
                    let j = choose|j: int|
                        0 <= j < before.len() && #[trigger] has_edge(before, cur, j) && before[j].state
                            == successor(net, tagged, before[cur].state, t2);
                    if id < before.len() {
                        if j < id {
                            assert(before[j].state != before[id as int].state);
                        }
                        if id < j {
                            assert(before[id as int].state != before[j].state);
                        }
                        let k = choose|k: int| 0 <= k < before[cur].targets.len() && #[trigger] before[cur].targets[k] == j;
                        assert(before[cur].targets.contains(id));
                    } else {
                        assert(before[j].state != target);
                    }
                }
            }
        } else if i < before.len() {
            assert(edge_before(before, net, tagged, i, k1, k2));
            assert(after[i].targets[k1] == before[i].targets[k1]);
            assert(after[i].targets[k2] == before[i].targets[k2]);
            assert forall|t1: int, t2: int|
                #[trigger] first_firing_to(after, net, tagged, i, after[i].targets[k1] as int, t1)
                    && #[trigger] first_firing_to(
                    after,
                    net,
                    tagged,
                    i,
                    after[i].targets[k2] as int,
                    t2,
                ) implies t1 < t2 by {
                assert(first_firing_to(before, net, tagged, i, before[i].targets[k1] as int, t1));
                assert(first_firing_to(before, net, tagged, i, before[i].targets[k2] as int, t2));
            }
        }
    }
    // the new edge
    assert(has_edge(after, cur, id as int)) by {
        if before[cur].targets.contains(id) {
            let k = choose|k: int| 0 <= k < before[cur].targets.len() && before[cur].targets[k] == id;
            assert(after[cur].targets[k] == id);
        } else {
            assert(after[cur].targets[before[cur].targets.len() as int] == id);
        }
    }
    // every state but the first has a parent
    assert forall|j: int| 0 < j < after.len() implies #[trigger] has_parent(after, j) by {
        if j < before.len() {
            assert(has_parent(before, j));
            let i = choose|i: int| 0 <= i < j && #[trigger] has_edge(before, i, j);
            lemma_records_keeps_edges(before, after, cur, id, target, i, j);
        } else {
            assert(has_edge(after, cur, j));
        }
    }
    assert(covered(after, net, tagged, bound, cur, t));
    assert forall|i: int, upto: int|
        0 <= i < before.len() && #[trigger] complete_at(before, net, tagged, bound, i, upto) implies complete_at(
        after,
        net,
        tagged,
        bound,
        i,
        upto,
    ) by {
        assert forall|u: int| 0 <= u < upto && can_fire(net, after[i].state.marking, u) implies #[trigger] covered(
            after,
            net,
            tagged,
            bound,
            i,
            u,
        ) by {
            assert(covered(before, net, tagged, bound, i, u));
            let j = choose|j: int|
                0 <= j < before.len() && #[trigger] has_edge(before, i, j) && before[j].state == successor(
                    net,
                    tagged,
                    before[i].state,
                    u,
                );
            lemma_records_keeps_edges(before, after, cur, id, target, i, j);
        }
    }
}

/// The state in which an expansion starts: the initial marking, untagged.
pub open spec fn initial_state(m: Map<usize, u32>) -> KripkeStateModel {
    KripkeStateModel { marking: m, tag: None }
}

/// Every state of the graph is reached by the firing sequence listed for
/// it.
pub open spec fn reached_by(
    ks: Seq<KripkeNodeModel>,
    paths: Seq<Seq<int>>,
    net: NetModel,
    tagged: Set<Seq<char>>,
    s0: KripkeStateModel,
    bound: u32,
) -> bool {
    &&& paths.len() == ks.len()
    &&& forall|i: int|
        0 <= i < ks.len() ==> {
            &&& valid_run(net, tagged, s0, #[trigger] paths[i], bound)
            &&& run(net, tagged, s0, paths[i]) == ks[i].state
        }
}

/// Every state that is not queued has all its firings covered; the state
/// being expanded has those of the transitions before `upto` covered.
pub open spec fn expanded(
    ks: Seq<KripkeNodeModel>,
    queue: Seq<usize>,
    net: NetModel,
    tagged: Set<Seq<char>>,
    bound: u32,
    cur: int,
    upto: int,
) -> bool {
    forall|i: int|
        0 <= i < ks.len() && !queue.contains(i as usize) ==> #[trigger] complete_at(
            ks,
            net,
            tagged,
            bound,
            i,
            expansion_limit(i, cur, upto, net.transitions.len() as int),
        )
}

/// How far the transitions have been tried at state `i`: up to `upto` at
/// the state being expanded, all of them elsewhere.
pub open spec fn expansion_limit(i: int, cur: int, upto: int, all: int) -> int {
    if i == cur {
        upto
    } else {
        all
    }
}

/// The queue holds identifiers of states, each once.
pub open spec fn queue_ok(queue: Seq<usize>, n: nat) -> bool {
    &&& queue.no_duplicates()
    &&& forall|q: int| 0 <= q < queue.len() ==> #[trigger] queue[q] < n
}

/// The queued states list no successor yet.
pub open spec fn queued_are_bare(ks: Seq<KripkeNodeModel>, queue: Seq<usize>) -> bool {
    forall|q: int| 0 <= q < queue.len() ==> ks[(#[trigger] queue[q]) as int].targets.len() == 0
}

/// Builds the reachability graph of the net from the initial marking:
/// states are numbered as they are found, and every state is expanded by
/// trying each transition in the order of the net. Stops at the first
/// firing that would put more tokens in a place than the requirement
/// allows.
pub fn petri_to_kripke(
    petri: &PetriNet,
    initial_marking: Marking,
    state_producer: &PetriKripkeStateProducer,
    requirement: &PetriKripkeGenerationSafenessRequirement,
) -> (r: Result<KripkeStructure, PetriKripkeGenerationError>)
    ensures
        match r {
            Ok(ks) => is_reachability_graph(
                ks@,
                petri@,
                state_producer.tagged(),
                initial_state(initial_marking@),
                requirement.spec_bound(),
            ),
            Err(PetriKripkeGenerationError::KSafenessViolation { place_id, transition_id }) => reachable_violation(
                petri@,
                state_producer.tagged(),
                initial_state(initial_marking@),
                requirement.spec_bound(),
                transition_id as int,
                place_id,
            ),
        },
{
    let bound = requirement.bound();
    let net_num_places = petri.places.len();
    let nt = petri.transitions.len();
    let ghost net = petri@;
    let ghost tagged = state_producer.tagged();
    let ghost s0 = initial_state(initial_marking@);
    let initial = PetriKripkeState::new(initial_marking, None);
    let mut states: Vec<KripkeState> = Vec::new();
    states.push(KripkeState::new(initial, Vec::new()));
    let mut queue: Vec<usize> = Vec::new();
    queue.push(0);
    let mut table: HashMap<u64, Vec<usize>> = HashMap::new();
    let mut first: Vec<usize> = Vec::new();
    first.push(0);
    let print0 = fingerprint(&states[0].value_in_domain.marking, net_num_places);
    table.insert(print0, first);
    let ghost mut paths: Seq<Seq<int>> = seq![Seq::<int>::empty()];
    proof {
        let ks = nodes_of(states@);
        assert(table@[print0]@[0] == 0);
        assert(interned(table@, ks, net_num_places as nat));
        assert(ks[0].state == s0);
        assert(ks[0].targets.len() == 0);
        assert(queue@.contains(0usize)) by {
            assert(queue@[0] == 0);
        }
    }
    while queue.len() > 0
        invariant
            net == petri@,
            tagged == state_producer.tagged(),
            s0 == initial_state(initial_marking@),
            bound == requirement.spec_bound(),
            net_num_places == petri.places.len(),
            nt == petri.transitions.len(),
            is_partial_graph(nodes_of(states@), net, tagged, s0),
            queue_ok(queue@, states@.len()),
            queued_are_bare(nodes_of(states@), queue@),
            interned(table@, nodes_of(states@), net_num_places as nat),
            expanded(nodes_of(states@), queue@, net, tagged, bound, -1, 0),
            reached_by(nodes_of(states@), paths, net, tagged, s0, bound),
        decreases usize::MAX - states.len(), queue.len(),
    {
        let ghost len0 = states.len();
        let ghost queue_before = queue@;
        let cur: usize = queue.pop().unwrap();
        let ghost queue0 = queue@;
        proof {
            assert(queue_before[queue_before.len() - 1] == cur);
            assert(!queue@.contains(cur)) by {
                if queue@.contains(cur) {
                    let q = choose|q: int| 0 <= q < queue@.len() && queue@[q] == cur;
                    assert(queue_before[q] == cur);
                }
            }
            assert forall|x: usize| !queue@.contains(x) && x != cur implies !#[trigger] queue_before.contains(x) by {
                if queue_before.contains(x) {
                    let q = choose|q: int| 0 <= q < queue_before.len() && queue_before[q] == x;
                    assert(q < queue_before.len() - 1);
                    assert(queue@[q] == x);
                }
            }
            assert(queue_ok(queue@, states@.len())) by {
                assert forall|q: int| 0 <= q < queue@.len() implies #[trigger] queue@[q] < states@.len() by {
                    assert(queue_before[q] < states@.len());
                }
            }
        }
        proof {
            let ks = nodes_of(states@);
            assert forall|i: int| 0 <= i < ks.len() && !queue@.contains(i as usize) implies #[trigger] complete_at(
                ks,
                net,
                tagged,
                bound,
                i,
                expansion_limit(i, cur as int, 0, nt as int),
            ) by {
                if i != cur {
                    assert(!queue_before.contains(i as usize));
                    assert(complete_at(ks, net, tagged, bound, i, expansion_limit(i, -1, 0, nt as int)));
                }
            }
        }
        let mut tr: usize = 0;
        while tr < nt
            invariant
                0 <= tr <= nt,
                net == petri@,
                tagged == state_producer.tagged(),
                s0 == initial_state(initial_marking@),
                bound == requirement.spec_bound(),
                net_num_places == petri.places.len(),
                nt == petri.transitions.len(),
                cur < states.len(),
                !queue@.contains(cur),
                states.len() >= len0,
                states.len() == len0 ==> queue@ == queue0,
                is_partial_graph(nodes_of(states@), net, tagged, s0),
                queue_ok(queue@, states@.len()),
                queued_are_bare(nodes_of(states@), queue@),
                interned(table@, nodes_of(states@), net_num_places as nat),
                produced_before(nodes_of(states@), net, tagged, cur as int, tr as int),
                expanded(nodes_of(states@), queue@, net, tagged, bound, cur as int, tr as int),
                reached_by(nodes_of(states@), paths, net, tagged, s0, bound),
            decreases nt - tr,
        {
            let transition = &petri.transitions[tr];
            let ghost before = nodes_of(states@);
            let ghost before_queue = queue@;
            assert(complete_at(
                before,
                net,
                tagged,
                bound,
                cur as int,
                expansion_limit(cur as int, cur as int, tr as int, nt as int),
            ));
            assert(net.transitions[tr as int] == transition@);
            assert(before[cur as int].state.marking == states@[cur as int].value_in_domain.marking@);
            let firing = transition.try_fire_within(net_num_places, &states[cur].value_in_domain.marking, bound);
            match firing {
                Firing::Disabled => {
                    assert(!can_fire(net, before[cur as int].state.marking, tr as int));
                },
                Firing::Exceeds { place_id } => {
                    proof {
                        let witness = paths[cur as int];
                        assert(violation_after(net, tagged, s0, bound, witness, tr as int, place_id));
                        assert(reachable_violation(net, tagged, s0, bound, tr as int, place_id));
                    }
                    return Err(PetriKripkeGenerationError::KSafenessViolation { place_id, transition_id: tr });
                },
                Firing::Fires(new_marking) => {
                    let tag = state_producer.tag_for(transition);
                    let target = PetriKripkeState::new(new_marking, tag);
                    let ghost target_model = target@;
                    let id = record_successor(&mut states, &mut queue, &mut table, cur, target, net_num_places);
                    proof {
                        let after = nodes_of(states@);
                        assert(can_fire(net, before[cur as int].state.marking, tr as int));
                        assert(successor(net, tagged, before[cur as int].state, tr as int) == target_model);
                        assert(fires_to(net, tagged, before[cur as int].state, tr as int, target_model));
                        assert(firing_fits(net, before[cur as int].state.marking, tr as int, bound));
                        lemma_records_keeps(
                            before,
                            after,
                            net,
                            tagged,
                            s0,
                            bound,
                            cur as int,
                            id,
                            target_model,
                            tr as int,
                        );
                        assert forall|i: int| 0 <= i < before.len() implies (#[trigger] after[i]).state
                            == before[i].state by {}
                        if id >= before.len() {
                            let path = paths[cur as int].push(tr as int);
                            assert(path.drop_last() =~= paths[cur as int]);
                            assert(path.last() == tr as int);
                            assert(valid_run(net, tagged, s0, path, bound));
                            assert(run(net, tagged, s0, path) == target_model);
                            paths = paths.push(path);
                            assert(after[id as int].state == target_model);
                            assert(queue@.no_duplicates()) by {
                                assert forall|a: int, b: int|
                                    0 <= a < queue@.len() && 0 <= b < queue@.len() && a != b implies queue@[a]
                                    != queue@[b] by {
                                    if a < before_queue.len() {
                                        assert(before_queue[a] < before.len());
                                    }
                                    if b < before_queue.len() {
                                        assert(before_queue[b] < before.len());
                                    }
                                }
                            }
                            assert forall|q: int| 0 <= q < queue@.len() implies #[trigger] queue@[q] < states@.len() by {
                                if q < before_queue.len() {
                                    assert(before_queue[q] < before.len());
                                }
                            }
                        }
                        assert(reached_by(after, paths, net, tagged, s0, bound));
                    }
                },
            }
            proof {
                let after = nodes_of(states@);
                assert forall|i: int| 0 <= i < after.len() && !queue@.contains(i as usize) implies #[trigger] complete_at(
                    after,
                    net,
                    tagged,
                    bound,
                    i,
                    expansion_limit(i, cur as int, tr + 1, nt as int),
                ) by {
                    if queue@ == before_queue {
                    } else {
                        assert(queue@ == before_queue.push(before.len() as usize));
                        assert(queue@[before_queue.len() as int] == before.len() as usize);
                        if before_queue.contains(i as usize) {
                            let q = choose|q: int| 0 <= q < before_queue.len() && before_queue[q] == i as usize;
                            assert(queue@[q] == i as usize);
                        }
                    }
                    assert(i < before.len());
                    assert(!before_queue.contains(i as usize));
                    assert(complete_at(before, net, tagged, bound, i, expansion_limit(i, cur as int, tr as int, nt as int)));
                    if i == cur {
                        assert forall|u: int|
                            0 <= u < tr + 1 && can_fire(net, after[i].state.marking, u) implies #[trigger] covered(
                            after,
                            net,
                            tagged,
                            bound,
                            i,
                            u,
                        ) by {
                            if u < tr {
                                assert(complete_at(after, net, tagged, bound, i, tr as int));
                            }
                        }
                    }
                }
            }
            tr = tr + 1;
        }
        proof {
            let ks = nodes_of(states@);
            assert forall|i: int| 0 <= i < ks.len() && !queue@.contains(i as usize) implies #[trigger] complete_at(
                ks,
                net,
                tagged,
                bound,
                i,
                expansion_limit(i, -1, 0, nt as int),
            ) by {
                assert(complete_at(ks, net, tagged, bound, i, expansion_limit(i, cur as int, nt as int, nt as int)));
            }
        }
    }
    let r = KripkeStructure::new(states);
    proof {
        let ks = r@;
        assert forall|i: int| 0 <= i < ks.len() implies #[trigger] complete_at(
            ks,
            net,
            tagged,
            bound,
            i,
            net.transitions.len() as int,
        ) by {
            assert(queue@.len() == 0);
            assert(complete_at(ks, net, tagged, bound, i, expansion_limit(i, -1, 0, nt as int)));
        }
    }
    Ok(r)
}

} // verus!
