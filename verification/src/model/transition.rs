use vstd::prelude::*;
use std::collections::BTreeMap;
use std::collections::HashMap;
use std::collections::hash_map::Iter;
use std::rc::Rc;
use crate::maps::{all_positive, count_at, hash_count, hash_entries, hash_shift_down, keys_below, lists, shift_down};
use crate::model::label::{transition_label_name, PetriTransitionLabel};
use crate::model::marking::Marking;

verus! {

broadcast use {vstd::std_specs::hash::group_hash_axioms, vstd::std_specs::btree::group_btree_axioms};

/// What a transition is, apart from how it is stored: the name of its label,
/// what it consumes and what it produces.
pub struct TransitionModel {
    pub label: Option<Seq<char>>,
    pub pre: Map<usize, u32>,
    pub post: Map<usize, u32>,
}

/// The transition may fire at `m`: every one of the first `n` places holds
/// what the preset asks of it.
pub open spec fn enabled(pre: Map<usize, u32>, m: Map<usize, u32>, n: nat) -> bool {
    forall|p: usize| p < n ==> #[trigger] count_at(pre, p) <= count_at(m, p)
}

/// The tokens at place `p` once the transition has fired at `m`.
pub open spec fn fired_count(pre: Map<usize, u32>, post: Map<usize, u32>, m: Map<usize, u32>, p: usize) -> int {
    count_at(m, p) - count_at(pre, p) + count_at(post, p)
}

/// The marking reached by firing at `m`, over the first `n` places: `m`
/// minus the preset plus the postset, without the places left empty.
pub open spec fn fired(pre: Map<usize, u32>, post: Map<usize, u32>, m: Map<usize, u32>, n: nat) -> Map<usize, u32> {
    Map::new(
        |p: usize| p < n && fired_count(pre, post, m, p) > 0,
        |p: usize| fired_count(pre, post, m, p) as u32,
    )
}

/// No place among the first `n` would hold more than `bound` tokens after
/// the firing.
pub open spec fn stays_within(
    pre: Map<usize, u32>,
    post: Map<usize, u32>,
    m: Map<usize, u32>,
    n: nat,
    bound: u32,
) -> bool {
    forall|p: usize| p < n ==> #[trigger] fired_count(pre, post, m, p) <= bound
}

/// What comes of trying to fire a transition under a bound on the tokens of
/// a place.
pub enum Firing {
    /// Some place holds less than the preset asks.
    Disabled,
    /// The transition is enabled, and `place_id` is the first place that
    /// would hold more than the bound.
    Exceeds { place_id: usize },
    /// The marking reached.
    Fires(Marking),
}

#[derive(Debug, Clone, PartialEq, Eq)]
pub struct PetriTransition {
    pub transition_label: Option<Rc<PetriTransitionLabel>>,
    pub preset_tokens: HashMap<usize, u32>,
    pub postset_tokens: HashMap<usize, u32>,
}

impl View for PetriTransition {
    type V = TransitionModel;

    open spec fn view(&self) -> TransitionModel {
        TransitionModel {
            label: transition_label_name(self.transition_label),
            pre: self.preset_tokens@,
            post: self.postset_tokens@,
        }
    }
}

impl TransitionModel {
    /// Every arc joins one of the first `n` places and carries at least one
    /// token.
    pub open spec fn wf(self, n: nat) -> bool {
        &&& keys_below(self.pre, n)
        &&& keys_below(self.post, n)
        &&& all_positive(self.pre)
        &&& all_positive(self.post)
    }

    /// The transition with another preset.
    pub open spec fn with_pre(self, pre: Map<usize, u32>) -> TransitionModel {
        TransitionModel { label: self.label, pre, post: self.post }
    }

    /// The transition with another postset.
    pub open spec fn with_post(self, post: Map<usize, u32>) -> TransitionModel {
        TransitionModel { label: self.label, pre: self.pre, post }
    }

    /// The transition once place `p` has left the net.
    pub open spec fn without_place(self, p: usize) -> TransitionModel {
        TransitionModel { label: self.label, pre: shift_down(self.pre, p), post: shift_down(self.post, p) }
    }
}

impl PetriTransition {
    pub fn new(
        transition_label: Option<Rc<PetriTransitionLabel>>,
        preset_tokens: HashMap<usize, u32>,
        postset_tokens: HashMap<usize, u32>,
    ) -> (r: Self)
        ensures
            r.transition_label == transition_label,
            r.preset_tokens == preset_tokens,
            r.postset_tokens == postset_tokens,
    {
        Self { transition_label, preset_tokens, postset_tokens }
    }

    pub fn number_of_preset_places(&self) -> (r: usize)
        ensures
            r == self@.pre.len(),
    {
        self.preset_tokens.len()
    }

    pub fn number_of_postset_places(&self) -> (r: usize)
        ensures
            r == self@.post.len(),
    {
        self.postset_tokens.len()
    }

    /// The arcs into the transition, in no stated order.
    pub fn iter_preset_tokens(&self) -> (r: Iter<'_, usize, u32>)
        ensures
            r == self.preset_tokens.iter(),
    {
        self.preset_tokens.iter()
    }

    /// The arcs out of the transition, in no stated order.
    pub fn iter_postset_tokens(&self) -> (r: Iter<'_, usize, u32>)
        ensures
            r == self.postset_tokens.iter(),
    {
        self.postset_tokens.iter()
    }

    /// The preset and the postset, each as a list of its arcs.
    pub fn unwrap(self) -> (r: (Vec<(usize, u32)>, Vec<(usize, u32)>))
        ensures
            lists(r.0@, self@.pre),
            lists(r.1@, self@.post),
    {
        (hash_entries(&self.preset_tokens), hash_entries(&self.postset_tokens))
    }

    /// Renumbers the arcs for the removal of place `place_id`: its arcs go,
    /// and the arcs of higher places move down by one.
    pub fn remove_place(&mut self, place_id: usize)
        ensures
            final(self)@ == old(self)@.without_place(place_id),
    {
        self.preset_tokens = hash_shift_down(&self.preset_tokens, place_id);
        self.postset_tokens = hash_shift_down(&self.postset_tokens, place_id);
    }

    /// Tries to fire under a bound: the transition is disabled, or enabled
    /// with a first place that would pass the bound, or it fires.
    pub fn try_fire_within(&self, net_place_num: usize, from_marking: &Marking, bound: u32) -> (r: Firing)
        ensures
            match r {
                Firing::Disabled => !enabled(self@.pre, from_marking@, net_place_num as nat),
                Firing::Exceeds { place_id } => {
                    &&& enabled(self@.pre, from_marking@, net_place_num as nat)
                    &&& place_id < net_place_num
                    &&& fired_count(self@.pre, self@.post, from_marking@, place_id) > bound
                    &&& stays_within(self@.pre, self@.post, from_marking@, place_id as nat, bound)
                },
                Firing::Fires(m) => {
                    &&& enabled(self@.pre, from_marking@, net_place_num as nat)
                    &&& stays_within(self@.pre, self@.post, from_marking@, net_place_num as nat, bound)
                    &&& m@ == fired(self@.pre, self@.post, from_marking@, net_place_num as nat)
                    &&& m.wf()
                    &&& m.fits(net_place_num as nat)
                },
            },
    {
        let mut new_tokens: BTreeMap<usize, u32> = BTreeMap::new();
        let mut excess: Option<usize> = None;
        let ghost pre = self@.pre;
        let ghost post = self@.post;
        let ghost m = from_marking@;
        for place_id in 0..net_place_num
            invariant
                pre == self@.pre,
                post == self@.post,
                m == from_marking@,
                enabled(pre, m, place_id as nat),
                match excess {
                    Some(x) => x < place_id && fired_count(pre, post, m, x) > bound && stays_within(
                        pre,
                        post,
                        m,
                        x as nat,
                        bound,
                    ),
                    None => stays_within(pre, post, m, place_id as nat, bound) && new_tokens@ == fired(
                        pre,
                        post,
                        m,
                        place_id as nat,
                    ),
                },
        {
            let before: u32 = from_marking.toks(place_id);
            let required: u32 = hash_count(&self.preset_tokens, place_id);
            if required > before {
                assert(count_at(pre, place_id) > count_at(m, place_id));
                return Firing::Disabled;
            }
            let added: u32 = hash_count(&self.postset_tokens, place_id);
            let remaining: u64 = (before - required) as u64 + added as u64;
            assert(remaining == fired_count(pre, post, m, place_id));
            if excess.is_none() {
                if remaining > bound as u64 {
                    excess = Some(place_id);
                } else {
                    if remaining > 0 {
                        new_tokens.insert(place_id, remaining as u32);
                    }
                    assert(new_tokens@ =~= fired(pre, post, m, (place_id + 1) as nat));
                }
            }
        }
        match excess {
            Some(place_id) => Firing::Exceeds { place_id },
            None => Firing::Fires(Marking::new(new_tokens)),
        }
    }

    /// Fires the transition at `from_marking`, if it is enabled there.
    pub fn try_fire(&self, net_place_num: usize, from_marking: &Marking) -> (r: Option<Marking>)
        requires
            enabled(self@.pre, from_marking@, net_place_num as nat) ==> stays_within(
                self@.pre,
                self@.post,
                from_marking@,
                net_place_num as nat,
                u32::MAX,
            ),
        ensures
            match r {
                Some(m) => {
                    &&& enabled(self@.pre, from_marking@, net_place_num as nat)
                    &&& m@ == fired(self@.pre, self@.post, from_marking@, net_place_num as nat)
                    &&& m.wf()
                    &&& m.fits(net_place_num as nat)
                },
                None => !enabled(self@.pre, from_marking@, net_place_num as nat),
            },
    {
        match self.try_fire_within(net_place_num, from_marking, u32::MAX) {
            Firing::Fires(m) => Some(m),
            Firing::Disabled => None,
            Firing::Exceeds { .. } => None,
        }
    }
}

/// Firing an enabled transition changes each place by what the transition
/// consumes and produces there, and leaves no place with a stored zero.
pub proof fn lemma_fired_counts(pre: Map<usize, u32>, post: Map<usize, u32>, m: Map<usize, u32>, n: nat)
    requires
        keys_below(pre, n),
        keys_below(post, n),
        keys_below(m, n),
        enabled(pre, m, n),
        stays_within(pre, post, m, n, u32::MAX),
    ensures
        forall|p: usize| #[trigger]
            count_at(fired(pre, post, m, n), p) == count_at(m, p) - count_at(pre, p) + count_at(post, p),
        all_positive(fired(pre, post, m, n)),
{
    let f = fired(pre, post, m, n);
    assert forall|p: usize| #[trigger]
        count_at(f, p) == count_at(m, p) - count_at(pre, p) + count_at(post, p) by {
        if p < n {
            assert(count_at(pre, p) <= count_at(m, p));
            assert(fired_count(pre, post, m, p) <= u32::MAX);
        } else {
            assert(!pre.contains_key(p));
            assert(!post.contains_key(p));
            assert(!m.contains_key(p));
        }
    }
}

} // verus!
