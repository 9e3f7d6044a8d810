use vstd::prelude::*;
use crate::maps::{
    added, count_at, hash_add_all, hash_count, hash_entries, hash_redirect, lists, merge_tokens, redirect,
    shift_down,
};
use crate::model::label::same_place_label;
use crate::model::marking::Marking;
use crate::model::net::{NetModel, PetriNet};
use crate::model::transition::TransitionModel;
use crate::reduction::info::{coherent, incoming_of, outgoing_of, PetriNetInfo, PlaceInfoModel};
use crate::reduction::edits::{coherent_but, drop_place, drop_transition};
use crate::reduction::state::{
    lemma_least, lemma_least_is, lemma_least_none, lemma_only_key, lemma_only_key_in, least, only_key, state_of, ReductionState,
};

verus! {

broadcast use vstd::std_specs::hash::group_hash_axioms;

pub struct SeriesPlacesPair {
    pub origin_place_id: usize,
    pub transition_id: usize,
    pub target_place_id: usize,
}

impl SeriesPlacesPair {
    pub fn new(origin_place_id: usize, transition_id: usize, target_place_id: usize) -> (r: Self)
        ensures
            r.origin_place_id == origin_place_id,
            r.transition_id == transition_id,
            r.target_place_id == target_place_id,
    {
        Self { origin_place_id, transition_id, target_place_id }
    }
}

/// Where a transition feeds both places, the two multiplicities add up
/// within the range of a count.
pub open spec fn sums_fit(net: NetModel, p1: usize, p2: usize) -> bool {
    p1 != p2 ==> forall|u: int|
        0 <= u < net.transitions.len() && (#[trigger] net.transitions[u]).post.contains_key(p1)
            && net.transitions[u].post.contains_key(p2) ==> net.transitions[u].post[p1]
            + net.transitions[u].post[p2] <= u32::MAX
}

/// Place `p1` starts a series: a single transition leaves it, which is
/// silent, takes one token from `p1` alone and gives one token to one place
/// with the label of `p1`.
pub open spec fn series_places_at(net: NetModel, p1: usize) -> bool {
    let out = outgoing_of(net, p1);
    let t = only_key(out);
    let tr = net.transitions[t as int];
    let p2 = only_key(tr.post);
    &&& p1 < net.places.len()
    &&& out.len() == 1
    &&& tr.label is None
    &&& tr.pre.len() == 1
    &&& tr.post.len() == 1
    &&& tr.pre[p1] == 1
    &&& tr.post[p2] == 1
    &&& net.places[p1 as int] == net.places[p2 as int]
    &&& sums_fit(net, p1, p2)
}

/// The first place that starts a series, if there is one.
pub open spec fn series_places_first(net: NetModel) -> Option<usize> {
    least(net.places.len(), |p: usize| series_places_at(net, p))
}

/// The transition with the arc into `from` moved onto `to`.
pub open spec fn redirected(tr: TransitionModel, from: usize, to: usize) -> TransitionModel {
    TransitionModel { label: tr.label, pre: tr.pre, post: redirect(tr.post, from, to) }
}

/// The net in which every arc into `from` has moved onto `to`.
pub open spec fn all_redirected(net: NetModel, from: usize, to: usize) -> NetModel {
    NetModel {
        places: net.places,
        transitions: Seq::new(net.transitions.len(), |u: int| redirected(net.transitions[u], from, to)),
    }
}

/// The net in which the series that starts at `p1` is fused, before `p1`
/// itself leaves: the transition of the series is gone, and what fed `p1`
/// feeds the end of the series.
pub open spec fn series_places_rewired(net: NetModel, p1: usize) -> NetModel {
    let t = only_key(outgoing_of(net, p1));
    let p2 = only_key(net.transitions[t as int].post);
    all_redirected(net.without_transition(t), p1, p2)
}

/// The index in which the transitions into `p1` have become transitions
/// into `p2`.
pub open spec fn incoming_merged(info: Seq<PlaceInfoModel>, p1: usize, p2: usize) -> Seq<PlaceInfoModel> {
    Seq::new(
        info.len(),
        |q: int|
            if q == p2 {
                PlaceInfoModel {
                    incoming: added(
                        if p1 == p2 {
                            Map::<usize, u32>::empty()
                        } else {
                            info[q].incoming
                        },
                        info[p1 as int].incoming,
                    ),
                    outgoing: info[q].outgoing,
                }
            } else if q == p1 {
                PlaceInfoModel { incoming: Map::<usize, u32>::empty(), outgoing: info[q].outgoing }
            } else {
                info[q]
            },
    )
}

/// The state in which the series that starts at `p1` is fused: the tokens
/// of `p1` have moved to the end of the series, and `p1` has left.
pub open spec fn fuse_series_places(s: ReductionState, p1: usize) -> ReductionState {
    let t = only_key(outgoing_of(s.net, p1));
    let p2 = only_key(s.net.transitions[t as int].post);
    ReductionState {
        net: series_places_rewired(s.net, p1).without_place(p1),
        marking: match s.marking {
            Some(m) => Some(shift_down(merge_tokens(m, p1, p2), p1)),
            None => None,
        },
    }
}

/// Whether the arcs into `p1` and `p2` can be added up wherever one
/// transition feeds both.
fn arcs_add_up(petri_net: &PetriNet, petri_info: &PetriNetInfo, p1: usize, p2: usize) -> (r: bool)
    requires
        petri_net.wf(),
        petri_info.coherent_with(petri_net),
        p1 < petri_net.places.len(),
    ensures
        r == sums_fit(petri_net@, p1, p2),
{
    if p1 == p2 {
        return true;
    }
    let ghost net = petri_net@;
    assert(petri_info@[p1 as int] == petri_info.places_info@[p1 as int]@);
    let inc = hash_entries(&petri_info.places_info[p1].incoming_transitions);
    let nt = petri_net.transitions.len();
    let mut i: usize = 0;
    while i < inc.len()
        invariant
            0 <= i <= inc.len(),
            net == petri_net@,
            nt == net.transitions.len(),
            p1 != p2,
            lists(inc@, incoming_of(net, p1)),
            forall|j: int|
                0 <= j < i ==> count_at(net.transitions[(#[trigger] inc@[j]).0 as int].post, p2) + inc@[j].1
                    <= u32::MAX,
        decreases inc.len() - i,
    {
        let u: usize = inc[i].0;
        let k: u32 = inc[i].1;
        assert(incoming_of(net, p1).contains_key(inc@[i as int].0));
        assert(net.transitions[u as int] == petri_net.transitions@[u as int]@);
        let there: u32 = hash_count(&petri_net.transitions[u].postset_tokens, p2);
        if there as u64 + k as u64 > u32::MAX as u64 {
            proof {
                assert(net.transitions[u as int].post.contains_key(p1));
                assert(net.transitions[u as int].post.contains_key(p2));
            }
            return false;
        }
        i = i + 1;
    }
    proof {
        assert forall|u: int|
            0 <= u < net.transitions.len() && (#[trigger] net.transitions[u]).post.contains_key(p1)
                && net.transitions[u].post.contains_key(p2) implies net.transitions[u].post[p1]
            + net.transitions[u].post[p2] <= u32::MAX by {
            assert(incoming_of(net, p1).contains_key(u as usize));
            let j = choose|j: int| 0 <= j < inc@.len() && #[trigger] inc@[j].0 == u as usize;
            assert(incoming_of(net, p1)[inc@[j].0] == inc@[j].1);
            assert(count_at(net.transitions[inc@[j].0 as int].post, p2) + inc@[j].1 <= u32::MAX);
        }
    }
    true
}

/// Whether place `p1` starts a series, with the transition and the end of
/// the series.
fn series_places_from(petri_net: &PetriNet, petri_info: &PetriNetInfo, p1: usize) -> (r: Option<
    SeriesPlacesPair,
>)
    requires
        petri_net.wf(),
        petri_info.coherent_with(petri_net),
        p1 < petri_net.places.len(),
    ensures
        r is Some == series_places_at(petri_net@, p1),
        match r {
            Some(x) => {
                &&& x.origin_place_id == p1
                &&& x.transition_id == only_key(outgoing_of(petri_net@, p1))
                &&& x.transition_id < petri_net.transitions.len()
                &&& x.target_place_id == only_key(petri_net@.transitions[x.transition_id as int].post)
                &&& x.target_place_id < petri_net.places.len()
            },
            None => true,
        },
{
    let ghost net = petri_net@;
    let origin_place_info = &petri_info.places_info[p1];
    assert(petri_info@[p1 as int] == origin_place_info@);
    assert(origin_place_info@.outgoing == outgoing_of(net, p1));
    assert(origin_place_info@.incoming == incoming_of(net, p1));
    if origin_place_info.outgoing_transitions.len() != 1 {
        return None;
    }
    let out = hash_entries(&origin_place_info.outgoing_transitions);
    let transition_id: usize = out[0].0;
    proof {
        assert(outgoing_of(net, p1).contains_key(out@[0].0));
        lemma_only_key(outgoing_of(net, p1), transition_id);
    }
    let transition = &petri_net.transitions[transition_id];
    assert(net.transitions[transition_id as int] == transition@);
    assert(net.transitions[transition_id as int].wf(net.places.len()));
    if transition.transition_label.is_some() {
        return None;
    }
    if transition.number_of_preset_places() != 1 || transition.number_of_postset_places() != 1 {
        return None;
    }
    let num_input_toks: u32 = hash_count(&transition.preset_tokens, p1);
    let post = hash_entries(&transition.postset_tokens);
    let target_place_id: usize = post[0].0;
    let num_output_toks: u32 = post[0].1;
    proof {
        assert(transition@.post.contains_key(post@[0].0));
        lemma_only_key(transition@.post, target_place_id);
    }
    if num_input_toks != 1 || num_output_toks != 1 {
        return None;
    }
    if !same_place_label(&petri_net.places[p1], &petri_net.places[target_place_id]) {
        return None;
    }
    if !arcs_add_up(petri_net, petri_info, p1, target_place_id) {
        return None;
    }
    Some(SeriesPlacesPair::new(p1, transition_id, target_place_id))
}

/// series places are pairs of place (p1,p2) such that:
/// - there exists a single transition t such that p1->t->p2
/// - and t is the only transition which accepts tokens from p1
pub fn find_series_places(petri_net: &PetriNet, petri_info: &PetriNetInfo) -> (r: Option<SeriesPlacesPair>)
    requires
        petri_net.wf(),
        petri_info.coherent_with(petri_net),
    ensures
        match r {
            Some(x) => {
                &&& series_places_first(petri_net@) == Some(x.origin_place_id)
                &&& x.transition_id == only_key(outgoing_of(petri_net@, x.origin_place_id))
                &&& x.transition_id < petri_net.transitions.len()
                &&& x.target_place_id == only_key(petri_net@.transitions[x.transition_id as int].post)
                &&& x.target_place_id < petri_net.places.len()
            },
            None => series_places_first(petri_net@) is None,
        },
{
    let n = petri_net.places.len();
    let ghost net = petri_net@;
    let ghost f = |p: usize| series_places_at(net, p);
    let mut p1: usize = 0;
    while p1 < n
        invariant
            0 <= p1 <= n,
            n == petri_net.places.len(),
            net == petri_net@,
            f == |p: usize| series_places_at(net, p),
            petri_net.wf(),
            petri_info.coherent_with(petri_net),
            forall|q: usize| q < p1 ==> !#[trigger] f(q),
        decreases n - p1,
    {
        match series_places_from(petri_net, petri_info, p1) {
            Some(x) => {
                proof {
                    assert(f(p1));
                    lemma_least_is(net.places.len(), f, p1);
                }
                return Some(x);
            },
            None => {
                assert(!f(p1));
            },
        }
        p1 = p1 + 1;
    }
    proof {
        lemma_least_none(net.places.len(), f);
    }
    None
}


/// Moves every arc into `from` onto `to`.
fn redirect_all(petri_net: &mut PetriNet, from: usize, to: usize)
    requires
        sums_fit(old(petri_net)@, from, to),
    ensures
        final(petri_net)@ == all_redirected(old(petri_net)@, from, to),
{
    let n = petri_net.transitions.len();
    let mut u: usize = 0;
    while u < n
        invariant
            0 <= u <= n,
            n == petri_net.transitions.len(),
            n == old(petri_net).transitions.len(),
            petri_net.places == old(petri_net).places,
            sums_fit(old(petri_net)@, from, to),
            forall|i: int|
                0 <= i < u ==> (#[trigger] petri_net.transitions@[i])@ == redirected(
                    old(petri_net).transitions@[i]@,
                    from,
                    to,
                ),
            forall|i: int| u <= i < n ==> #[trigger] petri_net.transitions@[i] == old(petri_net).transitions@[i],
        decreases n - u,
    {
        assert(old(petri_net)@.transitions[u as int] == old(petri_net).transitions@[u as int]@);
        hash_redirect(&mut petri_net.transitions[u].postset_tokens, from, to);
        u = u + 1;
    }
    assert(petri_net@.transitions =~= all_redirected(old(petri_net)@, from, to).transitions);
    assert(petri_net@.places =~= old(petri_net)@.places);
}

/// Makes the transitions into `p1` transitions into `p2`.
fn merge_incoming(petri_info: &mut PetriNetInfo, p1: usize, p2: usize)
    requires
        p1 < old(petri_info).places_info.len(),
        p2 < old(petri_info).places_info.len(),
        p1 != p2 ==> forall|k: usize| #[trigger]
            count_at(old(petri_info)@[p2 as int].incoming, k) + count_at(old(petri_info)@[p1 as int].incoming, k)
                <= u32::MAX,
    ensures
        final(petri_info)@ == incoming_merged(old(petri_info)@, p1, p2),
{
    assert(petri_info@[p1 as int] == petri_info.places_info@[p1 as int]@);
    assert(petri_info@[p2 as int] == petri_info.places_info@[p2 as int]@);
    let origin_incoming = petri_info.places_info[p1].incoming_transitions.clone();
    petri_info.places_info[p1].incoming_transitions.clear();
    let ghost dst0 = petri_info.places_info@[p2 as int]@.incoming;
    assert forall|k: usize| #[trigger] count_at(dst0, k) + count_at(origin_incoming@, k) <= u32::MAX by {
        assert(origin_incoming@ == old(petri_info)@[p1 as int].incoming);
        if p1 != p2 {
            assert(petri_info.places_info@[p2 as int] == old(petri_info).places_info@[p2 as int]);
            assert(dst0 == old(petri_info)@[p2 as int].incoming);
            assert(count_at(old(petri_info)@[p2 as int].incoming, k) + count_at(
                old(petri_info)@[p1 as int].incoming,
                k,
            ) <= u32::MAX);
        } else {
            assert(dst0 =~= Map::<usize, u32>::empty());
        }
    }
    hash_add_all(&mut petri_info.places_info[p2].incoming_transitions, &origin_incoming);
    proof {
        let a = petri_info@;
        let b = incoming_merged(old(petri_info)@, p1, p2);
        assert(a.len() == b.len());
        assert forall|q: int| 0 <= q < a.len() implies a[q] == b[q] by {
            assert(a[q] == petri_info.places_info@[q]@);
            assert(old(petri_info)@[q] == old(petri_info).places_info@[q]@);
            assert(a[q].incoming =~= b[q].incoming);
            assert(a[q].outgoing =~= b[q].outgoing);
        }
        assert(a =~= b);
    }
}

/// Once the arcs into `p1` have moved onto `p2`, in the net and in the
/// index alike, the index agrees with the net on every place but `p1`.
proof fn lemma_merged_coherent(info: Seq<PlaceInfoModel>, net: NetModel, p1: usize, p2: usize, q: usize)
    requires
        coherent(info, net),
        p1 < net.places.len(),
        p2 < net.places.len(),
        q < net.places.len(),
        q != p1 || p1 == p2,
        sums_fit(net, p1, p2),
    ensures
        incoming_merged(info, p1, p2)[q as int].incoming == incoming_of(all_redirected(net, p1, p2), q),
        incoming_merged(info, p1, p2)[q as int].outgoing == outgoing_of(all_redirected(net, p1, p2), q),
{
    let after = all_redirected(net, p1, p2);
    let m = incoming_merged(info, p1, p2)[q as int];
    assert(info[q as int].incoming == incoming_of(net, q));
    assert(info[p1 as int].incoming == incoming_of(net, p1));
    assert(info[p2 as int].incoming == incoming_of(net, p2));
    assert(info[q as int].outgoing == outgoing_of(net, q));
    assert forall|u: usize| u < net.transitions.len() implies #[trigger] after.transitions[u as int]
        == redirected(net.transitions[u as int], p1, p2) by {}
    let a = m.incoming;
    let b = incoming_of(after, q);
    assert forall|u: usize| a.contains_key(u) == b.contains_key(u) by {
        if u < net.transitions.len() {
            assert(after.transitions[u as int] == redirected(net.transitions[u as int], p1, p2));
        }
    }
    assert forall|u: usize| a.contains_key(u) implies a[u] == b[u] by {
        assert(after.transitions[u as int] == redirected(net.transitions[u as int], p1, p2));
        if q == p2 && p1 != p2 {
            assert(net.transitions[u as int].post.contains_key(p1) && net.transitions[u as int].post.contains_key(
                p2,
            ) ==> net.transitions[u as int].post[p1] + net.transitions[u as int].post[p2] <= u32::MAX);
        }
    }
    assert(a =~= b);
    assert(m.outgoing =~= outgoing_of(after, q));
}

/// Moving arcs from one existing place onto another keeps a net well
/// formed.
proof fn lemma_redirected_wf(net: NetModel, p1: usize, p2: usize)
    requires
        net.wf(),
        p2 < net.places.len(),
        sums_fit(net, p1, p2),
    ensures
        all_redirected(net, p1, p2).wf(),
{
    let after = all_redirected(net, p1, p2);
    assert forall|u: int| 0 <= u < after.transitions.len() implies (#[trigger] after.transitions[u]).wf(
        after.places.len(),
    ) by {
        assert(net.transitions[u].wf(net.places.len()));
        let post = net.transitions[u].post;
        if p1 != p2 && post.contains_key(p1) && post.contains_key(p2) {
            assert(post[p1] + post[p2] <= u32::MAX);
        }
    }
}

/// Moves the arcs into `p1` onto `p2`, in the net and in the index.
fn rewire_into(petri_net: &mut PetriNet, petri_info: &mut PetriNetInfo, p1: usize, p2: usize)
    requires
        old(petri_net).wf(),
        old(petri_info).coherent_with(old(petri_net)),
        p1 < old(petri_net).places.len(),
        p2 < old(petri_net).places.len(),
        sums_fit(old(petri_net)@, p1, p2),
    ensures
        final(petri_net)@ == all_redirected(old(petri_net)@, p1, p2),
        final(petri_net).wf(),
        coherent_but(final(petri_info)@, final(petri_net)@, p1),
{
    let ghost net1 = petri_net@;
    let ghost info1 = petri_info@;
    redirect_all(petri_net, p1, p2);
    proof {
        if p1 != p2 {
            assert forall|k: usize| #[trigger]
                count_at(info1[p2 as int].incoming, k) + count_at(info1[p1 as int].incoming, k) <= u32::MAX by {
                assert(info1[p2 as int].incoming == incoming_of(net1, p2));
                assert(info1[p1 as int].incoming == incoming_of(net1, p1));
                if k < net1.transitions.len() {
                    let post = net1.transitions[k as int].post;
                    assert(post.contains_key(p1) && post.contains_key(p2) ==> post[p1] + post[p2] <= u32::MAX);
                }
            }
        }
    }
    merge_incoming(petri_info, p1, p2);
    proof {
        lemma_redirected_wf(net1, p1, p2);
        let net2 = petri_net@;
        let info2 = petri_info@;
        assert forall|q: int| 0 <= q < info2.len() && q != p1 implies {
            &&& (#[trigger] info2[q]).incoming == incoming_of(net2, q as usize)
            &&& info2[q].outgoing == outgoing_of(net2, q as usize)
        } by {
            lemma_merged_coherent(info1, net1, p1, p2, q as usize);
        }
    }
}

/// Removing a transition leaves the arcs of the others as they add up.
proof fn lemma_sums_fit_without_transition(net: NetModel, t: usize, p1: usize, p2: usize)
    requires
        t < net.transitions.len(),
        sums_fit(net, p1, p2),
    ensures
        sums_fit(net.without_transition(t), p1, p2),
{
    let net1 = net.without_transition(t);
    if p1 != p2 {
        assert forall|u: int|
            0 <= u < net1.transitions.len() && (#[trigger] net1.transitions[u]).post.contains_key(p1)
                && net1.transitions[u].post.contains_key(p2) implies net1.transitions[u].post[p1]
            + net1.transitions[u].post[p2] <= u32::MAX by {
            let v = if u < t { u } else { u + 1 };
            assert(net1.transitions[u] == net.transitions[v]);
            assert(net.transitions[v].post.contains_key(p1));
        }
    }
}

pub fn find_and_simplify_series_places(
    petri_net: &mut PetriNet,
    petri_info: &mut PetriNetInfo,
    initial_markings: &mut Option<Marking>,
) -> (r: bool)
    requires
        old(petri_net).wf(),
        old(petri_info).coherent_with(old(petri_net)),
    ensures
        r == (series_places_first(old(petri_net)@) is Some),
        r ==> state_of(*final(petri_net), *final(initial_markings)) == fuse_series_places(
            state_of(*old(petri_net), *old(initial_markings)),
            series_places_first(old(petri_net)@).unwrap(),
        ),
        r ==> final(petri_net)@.size() < old(petri_net)@.size(),
        !r ==> *final(petri_net) == *old(petri_net),
        !r ==> *final(petri_info) == *old(petri_info),
        !r ==> *final(initial_markings) == *old(initial_markings),
        final(petri_net).wf(),
        final(petri_info).coherent_with(final(petri_net)),
{
    match find_series_places(petri_net, petri_info) {
        Some(series_place) => {
            let p1: usize = series_place.origin_place_id;
            let t: usize = series_place.transition_id;
            let p2: usize = series_place.target_place_id;
            proof {
                lemma_least_series(petri_net@);
                lemma_sums_fit_without_transition(petri_net@, t, p1, p2);
            }
            // the tokens of the origin place move to the target place
            match initial_markings {
                Some(mark) => {
                    mark.merge_place(p1, p2);
                    mark.remove_place(p1);
                },
                None => {},
            }
            // remove the transition
            drop_transition(petri_net, petri_info, t);
            // make all the transitions that target the origin place instead target the target place
            rewire_into(petri_net, petri_info, p1, p2);
            // finally, we remove the origin place
            drop_place(petri_net, petri_info, p1);
            true
        },
        None => false,
    }
}

/// The first place that starts a series does start one.
proof fn lemma_least_series(net: NetModel)
    ensures
        match series_places_first(net) {
            Some(p) => series_places_at(net, p),
            None => true,
        },
{
    lemma_least(net.places.len(), |p: usize| series_places_at(net, p));
}

/// Fusing a series of places removes a place and a transition.
pub proof fn lemma_fuse_series_places_shrinks(s: ReductionState, p: usize)
    requires
        series_places_at(s.net, p),
    ensures
        fuse_series_places(s, p).net.size() < s.net.size(),
{
    lemma_only_key_in(outgoing_of(s.net, p));
}

} // verus!
