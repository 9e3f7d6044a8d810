use vstd::prelude::*;
use crate::maps::{count_at, shift_down};
use crate::model::marking::Marking;
use crate::model::net::{NetModel, PetriNet};

verus! {

/// What the rewrites work on: a net and, where one is declared, its initial
/// marking.
pub struct ReductionState {
    pub net: NetModel,
    pub marking: Option<Map<usize, u32>>,
}

/// An optional marking as the map it stands for.
pub open spec fn marking_model(m: Option<Marking>) -> Option<Map<usize, u32>> {
    match m {
        Some(x) => Some(x@),
        None => None,
    }
}

/// The state that a net and an optional marking stand for.
pub open spec fn state_of(net: PetriNet, m: Option<Marking>) -> ReductionState {
    ReductionState { net: net@, marking: marking_model(m) }
}

/// The marking once place `p` has left the net.
pub open spec fn marking_without_place(m: Option<Map<usize, u32>>, p: usize) -> Option<Map<usize, u32>> {
    match m {
        Some(x) => Some(shift_down(x, p)),
        None => None,
    }
}

/// No marking is declared, or it puts no token in place `p`.
pub open spec fn unmarked(m: Option<Map<usize, u32>>, p: usize) -> bool {
    match m {
        Some(x) => count_at(x, p) == 0,
        None => true,
    }
}

/// The key of a map that holds one entry.
pub open spec fn only_key(m: Map<usize, u32>) -> usize {
    choose|k: usize| m.contains_key(k)
}

/// In a map of one entry, every key is the only key.
pub proof fn lemma_only_key(m: Map<usize, u32>, k: usize)
    requires
        m.dom().finite(),
        m.len() == 1,
        m.contains_key(k),
    ensures
        only_key(m) == k,
        m.dom() == set![k],
{
    Set::lemma_is_singleton(m.dom());
    let c = only_key(m);
    assert(m.dom().contains(c) && m.dom().contains(k));
    assert forall|x: usize| m.dom().contains(x) implies x == k by {
        assert(m.dom().contains(x) && m.dom().contains(k));
    }
    assert(m.dom() =~= set![k]);
}

/// A map of one entry holds its only key.
pub proof fn lemma_only_key_in(m: Map<usize, u32>)
    requires
        m.len() == 1,
    ensures
        m.contains_key(only_key(m)),
{
    if m.dom().finite() {
        if m.dom() =~= Set::<usize>::empty() {
            assert(m.dom().len() == 0);
        } else {
            let k = choose|k: usize| m.dom().contains(k);
            assert(m.contains_key(k));
        }
    } else {
        if forall|k: usize| !m.dom().contains(k) {
            assert(m.dom() =~= Set::<usize>::empty());
        }
        let k = choose|k: usize| m.dom().contains(k);
        assert(m.contains_key(k));
    }
}

/// The least identifier below `n` of which `f` holds, if there is one.
pub open spec fn least(n: nat, f: spec_fn(usize) -> bool) -> Option<usize> {
    if exists|p: usize| p < n && #[trigger] f(p) {
        Some(choose|p: usize| p < n && #[trigger] f(p) && forall|q: usize| q < p ==> !#[trigger] f(q))
    } else {
        None
    }
}

proof fn lemma_has_least(f: spec_fn(usize) -> bool, p: usize)
    requires
        f(p),
    ensures
        exists|m: usize| m <= p && #[trigger] f(m) && forall|q: usize| q < m ==> !#[trigger] f(q),
    decreases p,
{
    if exists|q: usize| q < p && #[trigger] f(q) {
        let q = choose|q: usize| q < p && #[trigger] f(q);
        lemma_has_least(f, q);
        let m = choose|m: usize| m <= q && #[trigger] f(m) && forall|x: usize| x < m ==> !#[trigger] f(x);
        assert(m <= p && f(m) && forall|x: usize| x < m ==> !#[trigger] f(x));
    } else {
        assert(p <= p && f(p) && forall|x: usize| x < p ==> !#[trigger] f(x));
    }
}

/// What `least` returns: an identifier below `n` of which `f` holds and
/// below which it holds of none; nothing where it holds of none below `n`.
pub proof fn lemma_least(n: nat, f: spec_fn(usize) -> bool)
    ensures
        match least(n, f) {
            Some(p) => p < n && f(p) && forall|q: usize| q < p ==> !#[trigger] f(q),
            None => forall|q: usize| q < n ==> !#[trigger] f(q),
        },
{
    if exists|p: usize| p < n && #[trigger] f(p) {
        let p = choose|p: usize| p < n && #[trigger] f(p);
        lemma_has_least(f, p);
        let m = choose|m: usize| m <= p && #[trigger] f(m) && forall|q: usize| q < m ==> !#[trigger] f(q);
        assert(m < n && f(m) && forall|q: usize| q < m ==> !#[trigger] f(q));
    }
}

/// An identifier of which `f` holds, and below which it holds of none, is
/// the least.
pub proof fn lemma_least_is(n: nat, f: spec_fn(usize) -> bool, p: usize)
    requires
        p < n,
        f(p),
        forall|q: usize| q < p ==> !#[trigger] f(q),
    ensures
        least(n, f) == Some(p),
{
    lemma_least(n, f);
    let m = least(n, f).unwrap();
    if m < p {
        assert(!f(m));
    }
    if p < m {
        assert(!f(p));
    }
}

/// Where `f` holds of no identifier below `n`, there is no least.
pub proof fn lemma_least_none(n: nat, f: spec_fn(usize) -> bool)
    requires
        forall|q: usize| q < n ==> !#[trigger] f(q),
    ensures
        least(n, f) is None,
{
}

/// The first pair `a < b < n`, by `a` and then by `b`, of which `g` holds.
pub open spec fn least_pair(n: nat, g: spec_fn(usize, usize) -> bool) -> Option<(usize, usize)> {
    match least(n, |a: usize| exists|b: usize| a < b < n && #[trigger] g(a, b)) {
        Some(a) => match least(n, |b: usize| a < b && g(a, b)) {
            Some(b) => Some((a, b)),
            None => None,
        },
        None => None,
    }
}

/// What `least_pair` returns: a pair of which `g` holds and before which it
/// holds of none; nothing where it holds of no pair below `n`.
pub proof fn lemma_least_pair(n: nat, g: spec_fn(usize, usize) -> bool)
    ensures
        match least_pair(n, g) {
            Some((a, b)) => a < b < n && g(a, b),
            None => forall|a: usize, b: usize| a < b < n ==> !#[trigger] g(a, b),
        },
{
    let fa = |a: usize| exists|b: usize| a < b < n && #[trigger] g(a, b);
    lemma_least(n, fa);
    match least(n, fa) {
        Some(a) => {
            let fb = |b: usize| a < b && g(a, b);
            lemma_least(n, fb);
            assert(fa(a));
            let b0 = choose|b: usize| a < b < n && #[trigger] g(a, b);
            assert(fb(b0));
        },
        None => {
            assert forall|a: usize, b: usize| a < b < n implies !#[trigger] g(a, b) by {
                assert(!fa(a));
            }
        },
    }
}

/// A pair of which `g` holds, with none before it, is the first pair.
pub proof fn lemma_least_pair_is(n: nat, g: spec_fn(usize, usize) -> bool, a: usize, b: usize)
    requires
        a < b < n,
        g(a, b),
        forall|x: usize, y: usize| x < y < n && (x < a || (x == a && y < b)) ==> !#[trigger] g(x, y),
    ensures
        least_pair(n, g) == Some((a, b)),
{
    let fa = |x: usize| exists|y: usize| x < y < n && #[trigger] g(x, y);
    assert(fa(a));
    assert forall|x: usize| x < a implies !#[trigger] fa(x) by {
        if fa(x) {
            let y = choose|y: usize| x < y < n && #[trigger] g(x, y);
            assert(!g(x, y));
        }
    }
    lemma_least_is(n, fa, a);
    let fb = |y: usize| a < y && g(a, y);
    assert(fb(b));
    assert forall|y: usize| y < b implies !#[trigger] fb(y) by {
        if a < y {
            assert(!g(a, y));
        }
    }
    lemma_least_is(n, fb, b);
}

/// Where `g` holds of no pair below `n`, there is no first pair.
pub proof fn lemma_least_pair_none(n: nat, g: spec_fn(usize, usize) -> bool)
    requires
        forall|x: usize, y: usize| x < y < n ==> !#[trigger] g(x, y),
    ensures
        least_pair(n, g) is None,
{
    let fa = |x: usize| exists|y: usize| x < y < n && #[trigger] g(x, y);
    assert forall|x: usize| x < n implies !#[trigger] fa(x) by {
        if fa(x) {
            let y = choose|y: usize| x < y < n && #[trigger] g(x, y);
            assert(!g(x, y));
        }
    }
}

} // verus!
