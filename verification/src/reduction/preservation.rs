use vstd::prelude::*;
use crate::maps::{count_at, shift_down};
use crate::model::net::NetModel;
use crate::model::transition::{enabled, fired, fired_count, stays_within};
use crate::model_checking::kripke::{can_fire, firing_fits, run, successor, valid_run};
use crate::model_checking::state::KripkeStateModel;
use crate::model_checking::to_kripke::initial_state;
use crate::reduction::elimination_self_loop_place::self_loop_place_at;
use crate::reduction::fusion_parallel_places::parallel_places;
use crate::reduction::info::{incoming_of, outgoing_of};
use crate::reduction::state::ReductionState;

verus! {

/// A state as it looks once place `p` has left the net.
pub open spec fn state_without_place(s: KripkeStateModel, p: usize) -> KripkeStateModel {
    KripkeStateModel { marking: shift_down(s.marking, p), tag: s.tag }
}

/// The place that place `q` of the smaller net was before place `p` left.
pub open spec fn place_before_removal(q: usize, p: usize) -> usize {
    if q < p {
        q
    } else {
        (q + 1) as usize
    }
}

/// What a renumbered map holds at a place is what the map held at the
/// place that it was.
pub proof fn lemma_count_after_removal(m: Map<usize, u32>, p: usize, q: usize)
    requires
        q < usize::MAX,
    ensures
        count_at(shift_down(m, p), q) == count_at(m, place_before_removal(q, p)),
{
}

/// Firing and removing a place commute: the state reached in the smaller
/// net is the state reached in the net, without the place.
pub proof fn lemma_successor_without_place(
    net: NetModel,
    tagged: Set<Seq<char>>,
    s: KripkeStateModel,
    p: usize,
    t: int,
)
    requires
        p < net.places.len() <= usize::MAX,
        0 <= t < net.transitions.len(),
    ensures
        successor(net.without_place(p), tagged, state_without_place(s, p), t) == state_without_place(
            successor(net, tagged, s, t),
            p,
        ),
{
    let after = net.without_place(p);
    let tr = net.transitions[t];
    assert(after.transitions[t] == tr.without_place(p));
    let n = net.places.len();
    let a = fired(shift_down(tr.pre, p), shift_down(tr.post, p), shift_down(s.marking, p), (n - 1) as nat);
    let b = shift_down(fired(tr.pre, tr.post, s.marking, n), p);
    assert forall|q: usize| q < n - 1 implies fired_count(
        shift_down(tr.pre, p),
        shift_down(tr.post, p),
        shift_down(s.marking, p),
        q,
    ) == fired_count(tr.pre, tr.post, s.marking, place_before_removal(q, p)) by {
        lemma_count_after_removal(tr.pre, p, q);
        lemma_count_after_removal(tr.post, p, q);
        lemma_count_after_removal(s.marking, p, q);
    }
    assert forall|q: usize| a.contains_key(q) == b.contains_key(q) by {
        if q < n - 1 {
            assert(fired_count(shift_down(tr.pre, p), shift_down(tr.post, p), shift_down(s.marking, p), q)
                == fired_count(tr.pre, tr.post, s.marking, place_before_removal(q, p)));
        }
    }
    assert forall|q: usize| a.contains_key(q) implies a[q] == b[q] by {
        assert(fired_count(shift_down(tr.pre, p), shift_down(tr.post, p), shift_down(s.marking, p), q)
            == fired_count(tr.pre, tr.post, s.marking, place_before_removal(q, p)));
    }
    assert(a =~= b);
}

/// A transition can fire in the net exactly where it can fire in the
/// smaller net and place `p` holds what the transition takes from it; and
/// its firing fits the range of a count in the net exactly where it does in
/// the smaller net and at place `p`.
pub proof fn lemma_can_fire_without_place(net: NetModel, m: Map<usize, u32>, p: usize, t: int)
    requires
        p < net.places.len() <= usize::MAX,
        0 <= t < net.transitions.len(),
    ensures
        can_fire(net, m, t) == (can_fire(net.without_place(p), shift_down(m, p), t) && count_at(
            net.transitions[t].pre,
            p,
        ) <= count_at(m, p)),
        firing_fits(net, m, t, u32::MAX) == (firing_fits(net.without_place(p), shift_down(m, p), t, u32::MAX)
            && fired_count(net.transitions[t].pre, net.transitions[t].post, m, p) <= u32::MAX),
{
    let after = net.without_place(p);
    let tr = net.transitions[t];
    assert(after.transitions[t] == tr.without_place(p));
    let n = net.places.len();
    let pre2 = shift_down(tr.pre, p);
    let post2 = shift_down(tr.post, p);
    let m2 = shift_down(m, p);
    assert forall|q: usize| q < n - 1 implies count_at(pre2, q) == count_at(tr.pre, place_before_removal(q, p))
        && count_at(post2, q) == count_at(tr.post, place_before_removal(q, p)) && count_at(m2, q) == count_at(
        m,
        place_before_removal(q, p),
    ) by {
        lemma_count_after_removal(tr.pre, p, q);
        lemma_count_after_removal(tr.post, p, q);
        lemma_count_after_removal(m, p, q);
    }
    if enabled(tr.pre, m, n) {
        assert forall|q: usize| q < n - 1 implies #[trigger] count_at(pre2, q) <= count_at(m2, q) by {
            assert(count_at(tr.pre, place_before_removal(q, p)) <= count_at(m, place_before_removal(q, p)));
        }
        assert(count_at(tr.pre, p) <= count_at(m, p));
    }
    if enabled(pre2, m2, (n - 1) as nat) && count_at(tr.pre, p) <= count_at(m, p) {
        assert forall|q: usize| q < n implies #[trigger] count_at(tr.pre, q) <= count_at(m, q) by {
            if q != p {
                let q2: usize = if q < p { q } else { (q - 1) as usize };
                assert(place_before_removal(q2, p) == q);
                assert(count_at(pre2, q2) <= count_at(m2, q2));
            }
        }
    }
    if stays_within(tr.pre, tr.post, m, n, u32::MAX) {
        assert forall|q: usize| q < n - 1 implies #[trigger] fired_count(pre2, post2, m2, q) <= u32::MAX by {
            assert(fired_count(tr.pre, tr.post, m, place_before_removal(q, p)) <= u32::MAX);
        }
        assert(fired_count(tr.pre, tr.post, m, p) <= u32::MAX);
    }
    if stays_within(pre2, post2, m2, (n - 1) as nat, u32::MAX) && fired_count(tr.pre, tr.post, m, p) <= u32::MAX {
        assert forall|q: usize| q < n implies #[trigger] fired_count(tr.pre, tr.post, m, q) <= u32::MAX by {
            if q != p {
                let q2: usize = if q < p { q } else { (q - 1) as usize };
                assert(place_before_removal(q2, p) == q);
                assert(fired_count(pre2, post2, m2, q2) <= u32::MAX);
            }
        }
    }
}

/// What the marking reached by a firing holds at a place of the net, where
/// the transition can fire and the firing fits the range of a count.
pub proof fn lemma_count_after_firing(net: NetModel, tagged: Set<Seq<char>>, s: KripkeStateModel, t: int, q: usize)
    requires
        q < net.places.len(),
        can_fire(net, s.marking, t),
        firing_fits(net, s.marking, t, u32::MAX),
    ensures
        count_at(successor(net, tagged, s, t).marking, q) == fired_count(
            net.transitions[t].pre,
            net.transitions[t].post,
            s.marking,
            q,
        ),
{
    let tr = net.transitions[t];
    assert(count_at(tr.pre, q) <= count_at(s.marking, q));
    assert(fired_count(tr.pre, tr.post, s.marking, q) <= u32::MAX);
}

/// The net without a self-loop place has the firing sequences of the net,
/// and they lead to the same states, but for the place: a sequence of
/// transitions can fire from the initial marking in the net exactly where
/// it can in the smaller net, and the state it reaches in the smaller net
/// is the state it reaches in the net, without the place. The place itself
/// keeps its initial tokens.
pub proof fn lemma_self_loop_place_keeps_runs(
    net: NetModel,
    tagged: Set<Seq<char>>,
    m0: Map<usize, u32>,
    p: usize,
    path: Seq<int>,
)
    requires
        self_loop_place_at(ReductionState { net, marking: Some(m0) }, p),
        net.places.len() <= usize::MAX,
        net.transitions.len() <= usize::MAX,
    ensures
        valid_run(net, tagged, initial_state(m0), path, u32::MAX) == valid_run(
            net.without_place(p),
            tagged,
            initial_state(shift_down(m0, p)),
            path,
            u32::MAX,
        ),
        valid_run(net, tagged, initial_state(m0), path, u32::MAX) ==> {
            &&& run(net.without_place(p), tagged, initial_state(shift_down(m0, p)), path) == state_without_place(
                run(net, tagged, initial_state(m0), path),
                p,
            )
            &&& count_at(run(net, tagged, initial_state(m0), path).marking, p) == count_at(m0, p)
        },
    decreases path.len(),
{
    let after = net.without_place(p);
    let s0 = initial_state(m0);
    let s1 = initial_state(shift_down(m0, p));
    if path.len() == 0 {
        assert(s1 == state_without_place(s0, p));
    } else {
        let shorter = path.drop_last();
        let t = path.last();
        lemma_self_loop_place_keeps_runs(net, tagged, m0, p, shorter);
        if valid_run(net, tagged, s0, shorter, u32::MAX) && 0 <= t < net.transitions.len() {
            let s = run(net, tagged, s0, shorter);
            let tr = net.transitions[t];
            lemma_can_fire_without_place(net, s.marking, p, t);
            lemma_successor_without_place(net, tagged, s, p, t);
            // the transition gives back to the place what it takes from it
            assert(outgoing_of(net, p).contains_key(t as usize) == tr.pre.contains_key(p));
            assert(incoming_of(net, p).contains_key(t as usize) == tr.post.contains_key(p));
            assert(count_at(tr.pre, p) == count_at(tr.post, p)) by {
                if tr.pre.contains_key(p) {
                    assert(outgoing_of(net, p)[t as usize] == tr.pre[p]);
                    assert(incoming_of(net, p)[t as usize] == tr.post[p]);
                }
            }
            // and the place holds enough for it
            assert(count_at(tr.pre, p) <= count_at(s.marking, p)) by {
                if tr.pre.contains_key(p) {
                    assert(outgoing_of(net, p).contains_key(t as usize));
                    assert(outgoing_of(net, p)[t as usize] == tr.pre[p]);
                }
            }
            assert(fired_count(tr.pre, tr.post, s.marking, p) == count_at(s.marking, p));
            if can_fire(net, s.marking, t) && firing_fits(net, s.marking, t, u32::MAX) {
                lemma_count_after_firing(net, tagged, s, t, p);
            }
        }
    }
}

/// The net without the second of two parallel places has the firing
/// sequences of the net, and they lead to the same states, but for the
/// place: a sequence of transitions can fire from the initial marking in
/// the net exactly where it can in the smaller net, and the state it
/// reaches in the smaller net is the state it reaches in the net, without
/// the place. The two places hold the same tokens all along.
pub proof fn lemma_parallel_places_keep_runs(
    net: NetModel,
    tagged: Set<Seq<char>>,
    m0: Map<usize, u32>,
    p1: usize,
    p2: usize,
    path: Seq<int>,
)
    requires
        parallel_places(ReductionState { net, marking: Some(m0) }, p1, p2),
        net.places.len() <= usize::MAX,
        net.transitions.len() <= usize::MAX,
    ensures
        valid_run(net, tagged, initial_state(m0), path, u32::MAX) == valid_run(
            net.without_place(p2),
            tagged,
            initial_state(shift_down(m0, p2)),
            path,
            u32::MAX,
        ),
        valid_run(net, tagged, initial_state(m0), path, u32::MAX) ==> {
            &&& run(net.without_place(p2), tagged, initial_state(shift_down(m0, p2)), path) == state_without_place(
                run(net, tagged, initial_state(m0), path),
                p2,
            )
            &&& count_at(run(net, tagged, initial_state(m0), path).marking, p1) == count_at(
                run(net, tagged, initial_state(m0), path).marking,
                p2,
            )
        },
    decreases path.len(),
{
    let after = net.without_place(p2);
    let s0 = initial_state(m0);
    let s1 = initial_state(shift_down(m0, p2));
    if path.len() == 0 {
        assert(s1 == state_without_place(s0, p2));
    } else {
        let shorter = path.drop_last();
        let t = path.last();
        lemma_parallel_places_keep_runs(net, tagged, m0, p1, p2, shorter);
        if valid_run(net, tagged, s0, shorter, u32::MAX) && 0 <= t < net.transitions.len() {
            let s = run(net, tagged, s0, shorter);
            let s2 = state_without_place(s, p2);
            let tr = net.transitions[t];
            lemma_can_fire_without_place(net, s.marking, p2, t);
            lemma_successor_without_place(net, tagged, s, p2, t);
            // the transition treats the two places alike
            assert(outgoing_of(net, p1).contains_key(t as usize) == tr.pre.contains_key(p1));
            assert(outgoing_of(net, p2).contains_key(t as usize) == tr.pre.contains_key(p2));
            assert(incoming_of(net, p1).contains_key(t as usize) == tr.post.contains_key(p1));
            assert(incoming_of(net, p2).contains_key(t as usize) == tr.post.contains_key(p2));
            assert(count_at(tr.pre, p1) == count_at(tr.pre, p2)) by {
                if tr.pre.contains_key(p1) {
                    assert(outgoing_of(net, p1)[t as usize] == tr.pre[p1]);
                    assert(outgoing_of(net, p2)[t as usize] == tr.pre[p2]);
                }
            }
            assert(count_at(tr.post, p1) == count_at(tr.post, p2)) by {
                if tr.post.contains_key(p1) {
                    assert(incoming_of(net, p1)[t as usize] == tr.post[p1]);
                    assert(incoming_of(net, p2)[t as usize] == tr.post[p2]);
                }
            }
            assert(fired_count(tr.pre, tr.post, s.marking, p1) == fired_count(tr.pre, tr.post, s.marking, p2));
            // what holds of the first place in the smaller net holds of it in the net
            assert(after.transitions[t] == tr.without_place(p2));
            lemma_count_after_removal(tr.pre, p2, p1);
            lemma_count_after_removal(tr.post, p2, p1);
            lemma_count_after_removal(s.marking, p2, p1);
            if can_fire(after, s2.marking, t) {
                assert(count_at(shift_down(tr.pre, p2), p1) <= count_at(shift_down(s.marking, p2), p1));
            }
            if firing_fits(after, s2.marking, t, u32::MAX) {
                assert(fired_count(shift_down(tr.pre, p2), shift_down(tr.post, p2), shift_down(s.marking, p2), p1)
                    <= u32::MAX);
            }
            if can_fire(net, s.marking, t) && firing_fits(net, s.marking, t, u32::MAX) {
                lemma_count_after_firing(net, tagged, s, t, p1);
                lemma_count_after_firing(net, tagged, s, t, p2);
            }
        }
    }
}

} // verus!
