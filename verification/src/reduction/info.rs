use vstd::prelude::*;
use std::collections::HashMap;
use crate::maps::{hash_entries, hash_shift_down, listed_before, lists, shift_down};
use crate::model::net::{NetModel, PetriNet};

verus! {

broadcast use vstd::std_specs::hash::group_hash_axioms;

/// The neighbours of a place, apart from how they are stored.
pub struct PlaceInfoModel {
    /// transition id to the tokens it produces in the place
    pub incoming: Map<usize, u32>,
    /// transition id to the tokens it consumes from the place
    pub outgoing: Map<usize, u32>,
}

/// The transitions that produce tokens in place `p`, each with how many.
pub open spec fn incoming_of(net: NetModel, p: usize) -> Map<usize, u32> {
    Map::new(
        |t: usize| t < net.transitions.len() && net.transitions[t as int].post.contains_key(p),
        |t: usize| net.transitions[t as int].post[p],
    )
}

/// The transitions that consume tokens from place `p`, each with how many.
pub open spec fn outgoing_of(net: NetModel, p: usize) -> Map<usize, u32> {
    Map::new(
        |t: usize| t < net.transitions.len() && net.transitions[t as int].pre.contains_key(p),
        |t: usize| net.transitions[t as int].pre[p],
    )
}

/// `incoming_of`, counting only the first `i` transitions.
pub open spec fn incoming_upto(net: NetModel, p: usize, i: nat) -> Map<usize, u32> {
    Map::new(
        |t: usize| t < i && t < net.transitions.len() && net.transitions[t as int].post.contains_key(p),
        |t: usize| net.transitions[t as int].post[p],
    )
}

/// `outgoing_of`, counting only the first `i` transitions.
pub open spec fn outgoing_upto(net: NetModel, p: usize, i: nat) -> Map<usize, u32> {
    Map::new(
        |t: usize| t < i && t < net.transitions.len() && net.transitions[t as int].pre.contains_key(p),
        |t: usize| net.transitions[t as int].pre[p],
    )
}

#[derive(Debug, Clone, PartialEq, Eq)]
pub struct PetriPlaceInfo {
    pub incoming_transitions: HashMap<usize, u32>,
    pub outgoing_transitions: HashMap<usize, u32>,
}

impl View for PetriPlaceInfo {
    type V = PlaceInfoModel;

    open spec fn view(&self) -> PlaceInfoModel {
        PlaceInfoModel { incoming: self.incoming_transitions@, outgoing: self.outgoing_transitions@ }
    }
}

impl PetriPlaceInfo {
    pub fn new(incoming_transitions: HashMap<usize, u32>, outgoing_transitions: HashMap<usize, u32>) -> (r: Self)
        ensures
            r.incoming_transitions == incoming_transitions,
            r.outgoing_transitions == outgoing_transitions,
    {
        Self { incoming_transitions, outgoing_transitions }
    }
}

/// For each place of a net, the transitions around it.
#[derive(Debug, Clone, PartialEq, Eq)]
pub struct PetriNetInfo {
    pub places_info: Vec<PetriPlaceInfo>,
}

impl View for PetriNetInfo {
    type V = Seq<PlaceInfoModel>;

    open spec fn view(&self) -> Seq<PlaceInfoModel> {
        Seq::new(self.places_info@.len(), |p: int| self.places_info@[p]@)
    }
}

/// The index says of every place exactly what the net's arcs say: a
/// transition is listed as outgoing with `k` where its preset holds the place
/// with `k`, and as incoming where its postset does.
pub open spec fn coherent(info: Seq<PlaceInfoModel>, net: NetModel) -> bool {
    &&& info.len() == net.places.len()
    &&& forall|p: int|
        0 <= p < info.len() ==> {
            &&& (#[trigger] info[p]).incoming == incoming_of(net, p as usize)
            &&& info[p].outgoing == outgoing_of(net, p as usize)
        }
}

/// Lists transition `tr_id` as outgoing for every place of `preset`.
pub fn register_outgoing(infos: &mut Vec<PetriPlaceInfo>, preset: &HashMap<usize, u32>, tr_id: usize)
    requires
        forall|p: usize| #[trigger] preset@.contains_key(p) ==> p < old(infos).len(),
    ensures
        final(infos).len() == old(infos).len(),
        forall|p: int|
            0 <= p < old(infos).len() ==> {
                &&& (#[trigger] final(infos)@[p])@.incoming == old(infos)@[p]@.incoming
                &&& final(infos)@[p]@.outgoing == if preset@.contains_key(p as usize) {
                    old(infos)@[p]@.outgoing.insert(tr_id, preset@[p as usize])
                } else {
                    old(infos)@[p]@.outgoing
                }
            },
{
    let e = hash_entries(preset);
    let mut j: usize = 0;
    while j < e.len()
        invariant
            0 <= j <= e.len(),
            lists(e@, preset@),
            infos.len() == old(infos).len(),
            forall|p: usize| #[trigger] preset@.contains_key(p) ==> p < old(infos).len(),
            forall|p: int|
                0 <= p < old(infos).len() ==> {
                    &&& (#[trigger] infos@[p])@.incoming == old(infos)@[p]@.incoming
                    &&& infos@[p]@.outgoing == if listed_before(e@, j as int, p as usize) {
                        old(infos)@[p]@.outgoing.insert(tr_id, preset@[p as usize])
                    } else {
                        old(infos)@[p]@.outgoing
                    }
                },
        decreases e.len() - j,
    {
        let place_id: usize = e[j].0;
        let num_toks: u32 = e[j].1;
        assert(preset@.contains_key(e@[j as int].0));
        let ghost before = infos@;
        infos[place_id].outgoing_transitions.insert(tr_id, num_toks);
        assert forall|p: int| 0 <= p < old(infos).len() implies {
            &&& (#[trigger] infos@[p])@.incoming == old(infos)@[p]@.incoming
            &&& infos@[p]@.outgoing == if listed_before(e@, j + 1, p as usize) {
                old(infos)@[p]@.outgoing.insert(tr_id, preset@[p as usize])
            } else {
                old(infos)@[p]@.outgoing
            }
        } by {
            assert(before[p]@.incoming == old(infos)@[p]@.incoming);
            if p == place_id {
                assert(e@[j as int].0 == p);
                assert(infos@[p]@.outgoing =~= old(infos)@[p]@.outgoing.insert(tr_id, preset@[p as usize]));
            } else {
                assert(infos@[p] == before[p]);
                if listed_before(e@, j + 1, p as usize) {
                    let i = choose|i: int| 0 <= i < j + 1 && (#[trigger] e@[i]).0 == p;
                    assert(i < j);
                }
            }
        }
        j = j + 1;
    }
    proof {
        assert forall|p: int| 0 <= p < old(infos).len() implies #[trigger] listed_before(e@, e@.len() as int, p as usize)
            == preset@.contains_key(p as usize) by {
            if preset@.contains_key(p as usize) {
                let i = choose|i: int| 0 <= i < e@.len() && #[trigger] e@[i].0 == p as usize;
                assert(e@[i].0 == p);
            }
            if listed_before(e@, e@.len() as int, p as usize) {
                let i = choose|i: int| 0 <= i < e@.len() && (#[trigger] e@[i]).0 == p;
                assert(preset@.contains_key(e@[i].0));
            }
        }
    }
}

/// Lists transition `tr_id` as incoming for every place of `postset`.
pub fn register_incoming(infos: &mut Vec<PetriPlaceInfo>, postset: &HashMap<usize, u32>, tr_id: usize)
    requires
        forall|p: usize| #[trigger] postset@.contains_key(p) ==> p < old(infos).len(),
    ensures
        final(infos).len() == old(infos).len(),
        forall|p: int|
            0 <= p < old(infos).len() ==> {
                &&& (#[trigger] final(infos)@[p])@.outgoing == old(infos)@[p]@.outgoing
                &&& final(infos)@[p]@.incoming == if postset@.contains_key(p as usize) {
                    old(infos)@[p]@.incoming.insert(tr_id, postset@[p as usize])
                } else {
                    old(infos)@[p]@.incoming
                }
            },
{
    let e = hash_entries(postset);
    let mut j: usize = 0;
    while j < e.len()
        invariant
            0 <= j <= e.len(),
            lists(e@, postset@),
            infos.len() == old(infos).len(),
            forall|p: usize| #[trigger] postset@.contains_key(p) ==> p < old(infos).len(),
            forall|p: int|
                0 <= p < old(infos).len() ==> {
                    &&& (#[trigger] infos@[p])@.outgoing == old(infos)@[p]@.outgoing
                    &&& infos@[p]@.incoming == if listed_before(e@, j as int, p as usize) {
                        old(infos)@[p]@.incoming.insert(tr_id, postset@[p as usize])
                    } else {
                        old(infos)@[p]@.incoming
                    }
                },
        decreases e.len() - j,
    {
        let place_id: usize = e[j].0;
        let num_toks: u32 = e[j].1;
        assert(postset@.contains_key(e@[j as int].0));
        let ghost before = infos@;
        infos[place_id].incoming_transitions.insert(tr_id, num_toks);
        assert forall|p: int| 0 <= p < old(infos).len() implies {
            &&& (#[trigger] infos@[p])@.outgoing == old(infos)@[p]@.outgoing
            &&& infos@[p]@.incoming == if listed_before(e@, j + 1, p as usize) {
                old(infos)@[p]@.incoming.insert(tr_id, postset@[p as usize])
            } else {
                old(infos)@[p]@.incoming
            }
        } by {
            assert(before[p]@.outgoing == old(infos)@[p]@.outgoing);
            if p == place_id {
                assert(e@[j as int].0 == p);
                assert(infos@[p]@.incoming =~= old(infos)@[p]@.incoming.insert(tr_id, postset@[p as usize]));
            } else {
                assert(infos@[p] == before[p]);
                if listed_before(e@, j + 1, p as usize) {
                    let i = choose|i: int| 0 <= i < j + 1 && (#[trigger] e@[i]).0 == p;
                    assert(i < j);
                }
            }
        }
        j = j + 1;
    }
    proof {
        assert forall|p: int| 0 <= p < old(infos).len() implies #[trigger] listed_before(e@, e@.len() as int, p as usize)
            == postset@.contains_key(p as usize) by {
            if postset@.contains_key(p as usize) {
                let i = choose|i: int| 0 <= i < e@.len() && #[trigger] e@[i].0 == p as usize;
                assert(e@[i].0 == p);
            }
            if listed_before(e@, e@.len() as int, p as usize) {
                let i = choose|i: int| 0 <= i < e@.len() && (#[trigger] e@[i]).0 == p;
                assert(postset@.contains_key(e@[i].0));
            }
        }
    }
}

impl PetriNetInfo {
    /// The index agrees with the net.
    pub open spec fn coherent_with(&self, net: &PetriNet) -> bool {
        coherent(self@, net@)
    }

    /// Builds the index of a net in one pass over its transitions.
    pub fn from_petri_net(net: &PetriNet) -> (r: Self)
        requires
            net.wf(),
        ensures
            r.coherent_with(net),
    {
        let mut places_info: Vec<PetriPlaceInfo> = Vec::new();
        let n = net.places.len();
        let mut p: usize = 0;
        while p < n
            invariant
                0 <= p <= n,
                places_info.len() == p,
                forall|q: int|
                    0 <= q < p ==> (#[trigger] places_info@[q])@.incoming == Map::<usize, u32>::empty()
                        && places_info@[q]@.outgoing == Map::<usize, u32>::empty(),
            decreases n - p,
        {
            places_info.push(PetriPlaceInfo::new(HashMap::new(), HashMap::new()));
            p = p + 1;
        }
        let nt = net.transitions.len();
        let mut tr_id: usize = 0;
        while tr_id < nt
            invariant
                0 <= tr_id <= nt,
                nt == net.transitions.len(),
                n == net.places.len(),
                net.wf(),
                places_info.len() == n,
                forall|q: int|
                    0 <= q < n ==> {
                        &&& (#[trigger] places_info@[q])@.incoming == incoming_upto(net@, q as usize, tr_id as nat)
                        &&& places_info@[q]@.outgoing == outgoing_upto(net@, q as usize, tr_id as nat)
                    },
            decreases nt - tr_id,
        {
            let transition = &net.transitions[tr_id];
            assert(net@.transitions[tr_id as int] == transition@);
            assert(net@.transitions[tr_id as int].wf(n as nat));
            register_outgoing(&mut places_info, &transition.preset_tokens, tr_id);
            register_incoming(&mut places_info, &transition.postset_tokens, tr_id);
            assert forall|q: int| 0 <= q < n implies {
                &&& (#[trigger] places_info@[q])@.incoming == incoming_upto(net@, q as usize, (tr_id + 1) as nat)
                &&& places_info@[q]@.outgoing == outgoing_upto(net@, q as usize, (tr_id + 1) as nat)
            } by {
                assert(places_info@[q]@.incoming =~= incoming_upto(net@, q as usize, (tr_id + 1) as nat));
                assert(places_info@[q]@.outgoing =~= outgoing_upto(net@, q as usize, (tr_id + 1) as nat));
            }
            tr_id = tr_id + 1;
        }
        let r = Self { places_info };
        proof {
            assert forall|q: int| 0 <= q < r@.len() implies {
                &&& (#[trigger] r@[q]).incoming == incoming_of(net@, q as usize)
                &&& r@[q].outgoing == outgoing_of(net@, q as usize)
            } by {
                assert(r@[q] == r.places_info@[q]@);
                assert(incoming_upto(net@, q as usize, nt as nat) =~= incoming_of(net@, q as usize));
                assert(outgoing_upto(net@, q as usize, nt as nat) =~= outgoing_of(net@, q as usize));
            }
        }
        r
    }

    /// Drops a transition from the neighbours of every place, and moves the
    /// later transitions down by one.
    pub fn remove_transition(&mut self, tr_to_remove_id: usize)
        ensures
            final(self)@.len() == old(self)@.len(),
            forall|p: int|
                0 <= p < old(self)@.len() ==> {
                    &&& (#[trigger] final(self)@[p]).incoming == shift_down(old(self)@[p].incoming, tr_to_remove_id)
                    &&& final(self)@[p].outgoing == shift_down(old(self)@[p].outgoing, tr_to_remove_id)
                },
    {
        let n = self.places_info.len();
        let mut p: usize = 0;
        while p < n
            invariant
                0 <= p <= n,
                n == self.places_info.len(),
                n == old(self).places_info.len(),
                forall|q: int|
                    0 <= q < p ==> {
                        &&& (#[trigger] self.places_info@[q])@.incoming == shift_down(
                            old(self).places_info@[q]@.incoming,
                            tr_to_remove_id,
                        )
                        &&& self.places_info@[q]@.outgoing == shift_down(
                            old(self).places_info@[q]@.outgoing,
                            tr_to_remove_id,
                        )
                    },
                forall|q: int| p <= q < n ==> #[trigger] self.places_info@[q] == old(self).places_info@[q],
            decreases n - p,
        {
            let new_incoming = hash_shift_down(&self.places_info[p].incoming_transitions, tr_to_remove_id);
            let new_outgoing = hash_shift_down(&self.places_info[p].outgoing_transitions, tr_to_remove_id);
            self.places_info.set(p, PetriPlaceInfo::new(new_incoming, new_outgoing));
            p = p + 1;
        }
        proof {
            assert forall|q: int| 0 <= q < old(self)@.len() implies {
                &&& (#[trigger] self@[q]).incoming == shift_down(old(self)@[q].incoming, tr_to_remove_id)
                &&& self@[q].outgoing == shift_down(old(self)@[q].outgoing, tr_to_remove_id)
            } by {
                assert(self@[q] == self.places_info@[q]@);
            }
        }
    }
}

/// Removing a transition from a net renumbers, for every place, the
/// transitions around it.
pub proof fn lemma_info_without_transition(net: NetModel, t: usize, p: usize)
    requires
        t < net.transitions.len(),
        net.transitions.len() <= usize::MAX,
    ensures
        incoming_of(net.without_transition(t), p) == shift_down(incoming_of(net, p), t),
        outgoing_of(net.without_transition(t), p) == shift_down(outgoing_of(net, p), t),
{
    let after = net.without_transition(t);
    assert forall|k: usize| k < after.transitions.len() implies #[trigger] after.transitions[k as int]
        == net.transitions[if k < t { k as int } else { k + 1 }] by {}
    let a = incoming_of(after, p);
    let b = shift_down(incoming_of(net, p), t);
    assert forall|k: usize| a.contains_key(k) == b.contains_key(k) by {
        if k < after.transitions.len() {
            assert(after.transitions[k as int] == net.transitions[if k < t { k as int } else { k + 1 }]);
        }
    }
    assert forall|k: usize| a.contains_key(k) implies a[k] == b[k] by {
        assert(after.transitions[k as int] == net.transitions[if k < t { k as int } else { k + 1 }]);
    }
    assert(a =~= b);
    let c = outgoing_of(after, p);
    let d = shift_down(outgoing_of(net, p), t);
    assert forall|k: usize| c.contains_key(k) == d.contains_key(k) by {
        if k < after.transitions.len() {
            assert(after.transitions[k as int] == net.transitions[if k < t { k as int } else { k + 1 }]);
        }
    }
    assert forall|k: usize| c.contains_key(k) implies c[k] == d[k] by {
        assert(after.transitions[k as int] == net.transitions[if k < t { k as int } else { k + 1 }]);
    }
    assert(c =~= d);
}

/// Removing place `p` from a net leaves every other place with the
/// transitions it had around it.
pub proof fn lemma_info_without_place(net: NetModel, p: usize, q: usize)
    requires
        p < net.places.len(),
        q < net.places.len() - 1,
        net.places.len() <= usize::MAX,
    ensures
        incoming_of(net.without_place(p), q) == incoming_of(net, if q < p { q } else { (q + 1) as usize }),
        outgoing_of(net.without_place(p), q) == outgoing_of(net, if q < p { q } else { (q + 1) as usize }),
{
    let src: usize = if q < p { q } else { (q + 1) as usize };
    let after = net.without_place(p);
    let a = incoming_of(after, q);
    let b = incoming_of(net, src);
    assert forall|k: usize| a.contains_key(k) == b.contains_key(k) by {
        if k < net.transitions.len() {
            assert(after.transitions[k as int] == net.transitions[k as int].without_place(p));
        }
    }
    assert forall|k: usize| a.contains_key(k) implies a[k] == b[k] by {
        assert(after.transitions[k as int] == net.transitions[k as int].without_place(p));
    }
    assert(a =~= b);
    let c = outgoing_of(after, q);
    let d = outgoing_of(net, src);
    assert forall|k: usize| c.contains_key(k) == d.contains_key(k) by {
        if k < net.transitions.len() {
            assert(after.transitions[k as int] == net.transitions[k as int].without_place(p));
        }
    }
    assert forall|k: usize| c.contains_key(k) implies c[k] == d[k] by {
        assert(after.transitions[k as int] == net.transitions[k as int].without_place(p));
    }
    assert(c =~= d);
}

} // verus!
