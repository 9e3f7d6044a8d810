use vstd::prelude::*;
use std::collections::BTreeMap;
use std::collections::btree_map::Iter;
use crate::maps::{
    all_positive, btree_count, btree_merge, btree_same, btree_shift_down, count_at, keys_below, merge_tokens,
    shift_down,
};

verus! {

broadcast use vstd::std_specs::btree::group_btree_axioms;

/// A marking: for each marked place the number of tokens it holds. A place
/// that is no key holds none.
#[derive(Debug, Clone, PartialEq, Eq, PartialOrd, Ord, Hash)]
pub struct Marking {
    /// place id to number of tokens; ordered, so that equal markings list
    /// their entries alike
    pub tokens: BTreeMap<usize, u32>,
}

impl View for Marking {
    type V = Map<usize, u32>;

    open spec fn view(&self) -> Map<usize, u32> {
        self.tokens@
    }
}

impl Marking {
    /// No stored count is zero.
    pub open spec fn wf(&self) -> bool {
        all_positive(self@)
    }

    /// Every marked place is one of the first `n`.
    pub open spec fn fits(&self, n: nat) -> bool {
        keys_below(self@, n)
    }

    /// The number of tokens at place `p`.
    pub open spec fn spec_toks(&self, p: usize) -> u32 {
        count_at(self@, p)
    }

    pub fn new(tokens: BTreeMap<usize, u32>) -> (r: Self)
        ensures
            r@ == tokens@,
            r.wf() == all_positive(tokens@),
    {
        Self { tokens }
    }

    /// The stored count of a place, if it has one.
    pub fn get_num_toks_at_place(&self, place_id: &usize) -> (r: Option<&u32>)
        ensures
            match r {
                Some(v) => self@.contains_key(*place_id) && *v == self@[*place_id],
                None => !self@.contains_key(*place_id),
            },
    {
        self.tokens.get(place_id)
    }

    /// The number of tokens at a place, zero where it is not marked.
    pub fn toks(&self, place_id: usize) -> (r: u32)
        ensures
            r == self.spec_toks(place_id),
    {
        btree_count(&self.tokens, place_id)
    }

    /// The stored entries, by increasing place.
    pub fn iter_tokens(&self) -> (r: Iter<'_, usize, u32>)
        ensures
            r == self.tokens.iter(),
    {
        self.tokens.iter()
    }

    /// Markings are equal when they hold the same entries.
    pub fn same(&self, other: &Marking) -> (r: bool)
        ensures
            r == (self@ == other@),
    {
        btree_same(&self.tokens, &other.tokens)
    }

    /// Renumbers the marking for the removal of place `place_id`: its
    /// tokens go, and the entries of higher places move down by one.
    pub fn remove_place(&mut self, place_id: usize)
        ensures
            final(self)@ == shift_down(old(self)@, place_id),
            old(self).wf() ==> final(self).wf(),
    {
        self.tokens = btree_shift_down(&self.tokens, place_id);
    }

    /// Moves the tokens of place `from` to place `to`; where `to` is marked
    /// too, the larger of the two counts stays.
    pub fn merge_place(&mut self, from: usize, to: usize)
        ensures
            final(self)@ == merge_tokens(old(self)@, from, to),
            old(self).wf() ==> final(self).wf(),
    {
        btree_merge(&mut self.tokens, from, to);
    }

    /// A copy with the same entries.
    pub fn duplicate(&self) -> (r: Marking)
        ensures
            r@ == self@,
    {
        Marking { tokens: self.tokens.clone() }
    }
}

} // verus!
