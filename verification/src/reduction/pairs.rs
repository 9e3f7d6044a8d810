use vstd::prelude::*;
use itertools::structs::Combinations;
use itertools::Itertools;
use std::ops::Range;

verus! {

/// The pair `(a, b)` stands in `list`.
pub open spec fn holds_pair(list: Seq<(usize, usize)>, a: usize, b: usize) -> bool {
    exists|i: int| 0 <= i < list.len() && #[trigger] list[i] == (a, b)
}

/// `list` holds every pair `a < b < n` once, ordered by `a` and then by `b`.
pub open spec fn lists_pairs(list: Seq<(usize, usize)>, n: nat) -> bool {
    &&& forall|i: int| 0 <= i < list.len() ==> (#[trigger] list[i]).0 < list[i].1 < n
    &&& forall|a: usize, b: usize| a < b < n ==> #[trigger] holds_pair(list, a, b)
    &&& forall|i: int, j: int|
        0 <= i < j < list.len() ==> (#[trigger] list[i]).0 < (#[trigger] list[j]).0 || (list[i].0 == list[j].0
            && list[i].1 < list[j].1)
}

/// A walk through the pairs of distinct identifiers below some number: the
/// iterator that `Itertools::combinations` makes over a range. What it
/// holds is known only through `pairs_left`.
#[verifier::external_body]
pub struct PairWalk {
    inner: Combinations<Range<usize>>,
}

/// The pairs that a walk has still to yield, in the order in which it will
/// yield them.
pub uninterp spec fn pairs_left(walk: PairWalk) -> Seq<(usize, usize)>;

/// A walk through the pairs of distinct identifiers below `n`, as
/// `Itertools::combinations` yields the two-element combinations of `0..n`.
/// Not proved; the contract claims: each pair has its smaller identifier
/// first, every such pair is to come, and the pairs come in increasing
/// order, by the first identifier and then by the second.
#[verifier::external_body]
pub(crate) fn pairs_below(n: usize) -> (walk: PairWalk)
    ensures
        lists_pairs(pairs_left(walk), n as nat),
{
    PairWalk { inner: (0..n).combinations(2) }
}

/// The next pair of a walk, through `Iterator::next` of the combinations.
/// Not proved; the contract claims that the pair is the first of those
/// left and that the others stay, and that nothing comes where none is
/// left.
#[verifier::external_body]
pub(crate) fn next_pair(walk: &mut PairWalk) -> (r: Option<(usize, usize)>)
    ensures
        match r {
            Some(pair) => pairs_left(*old(walk)).len() > 0 && pair == pairs_left(*old(walk))[0] && pairs_left(
                *final(walk),
            ) == pairs_left(*old(walk)).skip(1),
            None => pairs_left(*old(walk)).len() == 0 && pairs_left(*final(walk)).len() == 0,
        },
{
    walk.inner.next().map(|c| (c[0], c[1]))
}

/// In a list of all pairs in order, every pair before the one at `i` stands
/// at an earlier index.
pub proof fn lemma_earlier_pairs(list: Seq<(usize, usize)>, n: nat, i: int, x: usize, y: usize)
    requires
        lists_pairs(list, n),
        0 <= i < list.len(),
        x < y < n,
        x < list[i].0 || (x == list[i].0 && y < list[i].1),
    ensures
        exists|k: int| 0 <= k < i && #[trigger] list[k] == (x, y),
{
    assert(holds_pair(list, x, y));
    let k = choose|k: int| 0 <= k < list.len() && #[trigger] list[k] == (x, y);
    if k > i {
        assert(list[i].0 < list[k].0 || (list[i].0 == list[k].0 && list[i].1 < list[k].1));
    }
    assert(k < i);
}

} // verus!
