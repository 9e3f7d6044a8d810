use vstd::prelude::*;
use vstd::std_specs::iter::IteratorSpec;
use vstd::set_lib::lemma_subset_equality;
use std::collections::HashMap;
use std::collections::BTreeMap;

verus! {

broadcast use {vstd::std_specs::hash::group_hash_axioms, vstd::std_specs::btree::group_btree_axioms};

/// The count that a token map gives to a key: the stored value, or zero
/// where the key is absent.
pub open spec fn count_at(m: Map<usize, u32>, k: usize) -> u32 {
    if m.contains_key(k) {
        m[k]
    } else {
        0
    }
}

/// Every stored count is strictly positive.
pub open spec fn all_positive(m: Map<usize, u32>) -> bool {
    forall|k: usize| #[trigger] m.contains_key(k) ==> m[k] > 0
}

/// Every key is below `n`.
pub open spec fn keys_below(m: Map<usize, u32>, n: nat) -> bool {
    forall|k: usize| #[trigger] m.contains_key(k) ==> k < n
}

/// The map left when identifier `removed` ceases to exist: its entry goes,
/// and every entry with a higher key moves down by one.
pub open spec fn shift_down(m: Map<usize, u32>, removed: usize) -> Map<usize, u32> {
    Map::new(
        |k: usize|
            if k < removed {
                m.contains_key(k)
            } else {
                k < usize::MAX && m.contains_key((k + 1) as usize)
            },
        |k: usize|
            if k < removed {
                m[k]
            } else {
                m[(k + 1) as usize]
            },
    )
}

/// `e` lists the entries of `m`, each key once.
pub open spec fn lists(e: Seq<(usize, u32)>, m: Map<usize, u32>) -> bool {
    &&& e.len() == m.len()
    &&& forall|i: int| 0 <= i < e.len() ==> m.contains_key(#[trigger] e[i].0) && m[e[i].0] == e[i].1
    &&& forall|k: usize| #[trigger] m.contains_key(k) ==> exists|i: int| 0 <= i < e.len() && #[trigger] e[i].0 == k
    &&& forall|i: int, j: int| 0 <= i < j < e.len() ==> e[i].0 != e[j].0
}

/// Key `k` stands among the first `j` entries of `e`.
pub open spec fn listed_before(e: Seq<(usize, u32)>, j: int, k: usize) -> bool {
    exists|i: int| 0 <= i < j && (#[trigger] e[i]).0 == k
}

/// The entries of a hash map as a vector, each key once, in no stated order.
pub fn hash_entries(m: &HashMap<usize, u32>) -> (r: Vec<(usize, u32)>)
    ensures
        lists(r@, m@),
{
    let mut out: Vec<(usize, u32)> = Vec::new();
    let ghost s = m.iter().remaining();
    for kv in it: m.iter()
        invariant
            s == it.seq(),
            out@.len() == it.index(),
            forall|i: int| 0 <= i < out@.len() ==> out@[i].0 == *it.seq()[i].0 && out@[i].1 == *it.seq()[i].1,
    {
        out.push((*kv.0, *kv.1));
    }
    proof {
        assert forall|i: int, j: int| 0 <= i < j < out@.len() implies out@[i].0 != out@[j].0 by {
            if out@[i].0 == out@[j].0 {
                assert(m@.contains_key(*s[i].0) && m@[*s[i].0] == *s[i].1);
                assert(m@.contains_key(*s[j].0) && m@[*s[j].0] == *s[j].1);
                assert(s[i] == s[j]);
            }
        }
    }
    out
}

/// The entries of an ordered map as a vector, each key once.
pub fn btree_entries(m: &BTreeMap<usize, u32>) -> (r: Vec<(usize, u32)>)
    ensures
        lists(r@, m@),
{
    let mut out: Vec<(usize, u32)> = Vec::new();
    let ghost s = m.iter().remaining();
    for kv in it: m.iter()
        invariant
            s == it.seq(),
            out@.len() == it.index(),
            forall|i: int| 0 <= i < out@.len() ==> out@[i].0 == *it.seq()[i].0 && out@[i].1 == *it.seq()[i].1,
    {
        out.push((*kv.0, *kv.1));
    }
    proof {
        assert forall|i: int, j: int| 0 <= i < j < out@.len() implies out@[i].0 != out@[j].0 by {
            if out@[i].0 == out@[j].0 {
                assert(m@.contains_key(*s[i].0) && m@[*s[i].0] == *s[i].1);
                assert(m@.contains_key(*s[j].0) && m@[*s[j].0] == *s[j].1);
                assert(s[i] == s[j]);
            }
        }
    }
    out
}

/// The count stored under `k`, zero where there is none.
pub fn hash_count(m: &HashMap<usize, u32>, k: usize) -> (r: u32)
    ensures
        r == count_at(m@, k),
{
    match m.get(&k) {
        Some(v) => *v,
        None => 0,
    }
}

/// The count stored under `k`, zero where there is none.
pub fn btree_count(m: &BTreeMap<usize, u32>, k: usize) -> (r: u32)
    ensures
        r == count_at(m@, k),
{
    match m.get(&k) {
        Some(v) => *v,
        None => 0,
    }
}

/// Two finite maps of equal size, where every entry of the first is an entry
/// of the second, are the same map.
pub proof fn lemma_same_size_inclusion(a: Map<usize, u32>, b: Map<usize, u32>)
    requires
        a.dom().finite(),
        b.dom().finite(),
        a.len() == b.len(),
        forall|k: usize| #[trigger] a.contains_key(k) ==> b.contains_key(k) && b[k] == a[k],
    ensures
        a == b,
{
    assert forall|k: usize| a.dom().contains(k) implies b.dom().contains(k) by {
        assert(a.contains_key(k));
    }
    assert(a.dom().subset_of(b.dom()));
    lemma_subset_equality(a.dom(), b.dom());
    assert(a =~= b);
}

/// Whether two hash maps hold the same entries.
pub fn hash_same(a: &HashMap<usize, u32>, b: &HashMap<usize, u32>) -> (r: bool)
    ensures
        r == (a@ == b@),
{
    if a.len() != b.len() {
        return false;
    }
    let e = hash_entries(a);
    let mut i: usize = 0;
    while i < e.len()
        invariant
            0 <= i <= e.len(),
            lists(e@, a@),
            forall|j: int| 0 <= j < i ==> b@.contains_key(#[trigger] e@[j].0) && b@[e@[j].0] == e@[j].1,
        decreases e.len() - i,
    {
        let k: usize = e[i].0;
        let v: u32 = e[i].1;
        match b.get(&k) {
            Some(w) => {
                if *w != v {
                    assert(a@[k] != b@[k]);
                    return false;
                }
            },
            None => {
                assert(a@.contains_key(k));
                return false;
            },
        }
        i = i + 1;
    }
    proof {
        assert forall|k: usize| #[trigger] a@.contains_key(k) implies b@.contains_key(k) && b@[k] == a@[k] by {
            let j = choose|j: int| 0 <= j < e@.len() && #[trigger] e@[j].0 == k;
            assert(b@.contains_key(e@[j].0));
        }
        lemma_same_size_inclusion(a@, b@);
    }
    true
}

/// Whether two ordered maps hold the same entries.
pub fn btree_same(a: &BTreeMap<usize, u32>, b: &BTreeMap<usize, u32>) -> (r: bool)
    ensures
        r == (a@ == b@),
{
    if a.len() != b.len() {
        return false;
    }
    let e = btree_entries(a);
    let mut i: usize = 0;
    while i < e.len()
        invariant
            0 <= i <= e.len(),
            lists(e@, a@),
            forall|j: int| 0 <= j < i ==> b@.contains_key(#[trigger] e@[j].0) && b@[e@[j].0] == e@[j].1,
        decreases e.len() - i,
    {
        let k: usize = e[i].0;
        let v: u32 = e[i].1;
        match b.get(&k) {
            Some(w) => {
                if *w != v {
                    assert(a@[k] != b@[k]);
                    return false;
                }
            },
            None => {
                assert(a@.contains_key(k));
                return false;
            },
        }
        i = i + 1;
    }
    proof {
        assert forall|k: usize| #[trigger] a@.contains_key(k) implies b@.contains_key(k) && b@[k] == a@[k] by {
            let j = choose|j: int| 0 <= j < e@.len() && #[trigger] e@[j].0 == k;
            assert(b@.contains_key(e@[j].0));
        }
        lemma_same_size_inclusion(a@, b@);
    }
    true
}

/// The entries of `e[..i]`, renumbered for the removal of `removed`.
pub open spec fn shifted_prefix(e: Seq<(usize, u32)>, i: int, removed: usize) -> Map<usize, u32> {
    Map::new(
        |k: usize|
            exists|j: int|
                0 <= j < i && (#[trigger] e[j]).0 != removed && k == (if e[j].0 < removed {
                    e[j].0 as int
                } else {
                    e[j].0 - 1
                }),
        |k: usize|
            if k < removed {
                count_in(e, k)
            } else {
                count_in(e, (k + 1) as usize)
            },
    )
}

/// The value listed under key `k` in `e`.
pub open spec fn count_in(e: Seq<(usize, u32)>, k: usize) -> u32 {
    let j = choose|j: int| 0 <= j < e.len() && (#[trigger] e[j]).0 == k;
    e[j].1
}

proof fn lemma_count_in(e: Seq<(usize, u32)>, m: Map<usize, u32>, k: usize)
    requires
        lists(e, m),
        m.contains_key(k),
    ensures
        count_in(e, k) == m[k],
{
    let j0 = choose|j: int| 0 <= j < e.len() && #[trigger] e[j].0 == k;
    let j = choose|j: int| 0 <= j < e.len() && (#[trigger] e[j]).0 == k;
    assert(e[j0].0 == k);
    assert(m[e[j].0] == e[j].1);
}

proof fn lemma_shifted_all(e: Seq<(usize, u32)>, m: Map<usize, u32>, removed: usize)
    requires
        lists(e, m),
    ensures
        shifted_prefix(e, e.len() as int, removed) == shift_down(m, removed),
{
    let a = shifted_prefix(e, e.len() as int, removed);
    let b = shift_down(m, removed);
    assert forall|k: usize| a.contains_key(k) <==> b.contains_key(k) by {
        if a.contains_key(k) {
            let j = choose|j: int|
                0 <= j < e.len() && (#[trigger] e[j]).0 != removed && k == (if e[j].0 < removed {
                    e[j].0 as int
                } else {
                    e[j].0 - 1
                });
            assert(m.contains_key(e[j].0));
        }
        if b.contains_key(k) {
            let src: usize = if k < removed { k } else { (k + 1) as usize };
            assert(m.contains_key(src));
            let j = choose|j: int| 0 <= j < e.len() && #[trigger] e[j].0 == src;
            assert(e[j].0 != removed);
        }
    }
    assert forall|k: usize| a.contains_key(k) implies a[k] == b[k] by {
        let src: usize = if k < removed { k } else { (k + 1) as usize };
        lemma_count_in(e, m, src);
    }
    assert(a =~= b);
}

/// A hash map renumbered for the removal of identifier `removed`.
pub fn hash_shift_down(m: &HashMap<usize, u32>, removed: usize) -> (r: HashMap<usize, u32>)
    ensures
        r@ == shift_down(m@, removed),
{
    let e = hash_entries(m);
    let mut out: HashMap<usize, u32> = HashMap::new();
    let mut i: usize = 0;
    while i < e.len()
        invariant
            0 <= i <= e.len(),
            lists(e@, m@),
            out@ == shifted_prefix(e@, i as int, removed),
        decreases e.len() - i,
    {
        let k: usize = e[i].0;
        let v: u32 = e[i].1;
        let ghost before = out@;
        if k < removed {
            out.insert(k, v);
        } else if k > removed {
            out.insert(k - 1, v);
        }
        proof {
            let next = shifted_prefix(e@, i + 1, removed);
            assert forall|q: usize| out@.contains_key(q) <==> next.contains_key(q) by {
                if out@.contains_key(q) {
                    if before.contains_key(q) {
                        let j = choose|j: int|
                            0 <= j < i && (#[trigger] e@[j]).0 != removed && q == (if e@[j].0 < removed {
                                e@[j].0 as int
                            } else {
                                e@[j].0 - 1
                            });
                        assert(0 <= j < i + 1);
                    } else {
                        assert(e@[i as int].0 != removed);
                    }
                }
                if next.contains_key(q) {
                    let j = choose|j: int|
                        0 <= j < i + 1 && (#[trigger] e@[j]).0 != removed && q == (if e@[j].0 < removed {
                            e@[j].0 as int
                        } else {
                            e@[j].0 - 1
                        });
                    if j < i {
                        assert(before.contains_key(q));
                    }
                }
            }
            assert forall|q: usize| out@.contains_key(q) implies out@[q] == next[q] by {
                let src: usize = if q < removed { q } else { (q + 1) as usize };
                if src == k {
                    assert(m@.contains_key(e@[i as int].0));
                    lemma_count_in(e@, m@, k);
                }
            }
            assert(out@ =~= next);
        }
        i = i + 1;
    }
    proof {
        assert(shifted_prefix(e@, 0, removed) =~= Map::<usize, u32>::empty());
        lemma_shifted_all(e@, m@, removed);
    }
    out
}

/// An ordered map renumbered for the removal of identifier `removed`.
pub fn btree_shift_down(m: &BTreeMap<usize, u32>, removed: usize) -> (r: BTreeMap<usize, u32>)
    ensures
        r@ == shift_down(m@, removed),
{
    let e = btree_entries(m);
    let mut out: BTreeMap<usize, u32> = BTreeMap::new();
    let mut i: usize = 0;
    while i < e.len()
        invariant
            0 <= i <= e.len(),
            lists(e@, m@),
            out@ == shifted_prefix(e@, i as int, removed),
        decreases e.len() - i,
    {
        let k: usize = e[i].0;
        let v: u32 = e[i].1;
        let ghost before = out@;
        if k < removed {
            out.insert(k, v);
        } else if k > removed {
            out.insert(k - 1, v);
        }
        proof {
            let next = shifted_prefix(e@, i + 1, removed);
            assert forall|q: usize| out@.contains_key(q) <==> next.contains_key(q) by {
                if out@.contains_key(q) {
                    if before.contains_key(q) {
                        let j = choose|j: int|
                            0 <= j < i && (#[trigger] e@[j]).0 != removed && q == (if e@[j].0 < removed {
                                e@[j].0 as int
                            } else {
                                e@[j].0 - 1
                            });
                        assert(0 <= j < i + 1);
                    } else {
                        assert(e@[i as int].0 != removed);
                    }
                }
                if next.contains_key(q) {
                    let j = choose|j: int|
                        0 <= j < i + 1 && (#[trigger] e@[j]).0 != removed && q == (if e@[j].0 < removed {
                            e@[j].0 as int
                        } else {
                            e@[j].0 - 1
                        });
                    if j < i {
                        assert(before.contains_key(q));
                    }
                }
            }
            assert forall|q: usize| out@.contains_key(q) implies out@[q] == next[q] by {
                let src: usize = if q < removed { q } else { (q + 1) as usize };
                if src == k {
                    assert(m@.contains_key(e@[i as int].0));
                    lemma_count_in(e@, m@, k);
                }
            }
            assert(out@ =~= next);
        }
        i = i + 1;
    }
    proof {
        assert(shifted_prefix(e@, 0, removed) =~= Map::<usize, u32>::empty());
        lemma_shifted_all(e@, m@, removed);
    }
    out
}


/// The map in which the count stored under `from` has moved onto `to`,
/// added to what `to` held.
pub open spec fn redirect(m: Map<usize, u32>, from: usize, to: usize) -> Map<usize, u32> {
    if m.contains_key(from) {
        let k = m[from];
        let rest = m.remove(from);
        if rest.contains_key(to) {
            rest.insert(to, (rest[to] + k) as u32)
        } else {
            rest.insert(to, k)
        }
    } else {
        m
    }
}

/// The map in which the count stored under `from` has moved onto `to`,
/// where the larger of the two counts stays.
pub open spec fn merge_tokens(m: Map<usize, u32>, from: usize, to: usize) -> Map<usize, u32> {
    if m.contains_key(from) {
        let k = m[from];
        let rest = m.remove(from);
        if rest.contains_key(to) {
            rest.insert(to, if k >= rest[to] { k } else { rest[to] })
        } else {
            rest.insert(to, k)
        }
    } else {
        m
    }
}

/// The sum of two maps, key by key.
pub open spec fn added(a: Map<usize, u32>, b: Map<usize, u32>) -> Map<usize, u32> {
    Map::new(
        |k: usize| a.contains_key(k) || b.contains_key(k),
        |k: usize| (count_at(a, k) + count_at(b, k)) as u32,
    )
}

/// Moves the count stored under `from` onto `to`, adding it to what `to`
/// holds.
pub fn hash_redirect(m: &mut HashMap<usize, u32>, from: usize, to: usize)
    requires
        from != to && old(m)@.contains_key(from) && old(m)@.contains_key(to) ==> old(m)@[from] + old(m)@[to]
            <= u32::MAX,
    ensures
        final(m)@ == redirect(old(m)@, from, to),
{
    match m.remove(&from) {
        Some(k) => {
            let there: u32 = hash_count(m, to);
            if m.contains_key(&to) {
                m.insert(to, there + k);
            } else {
                m.insert(to, k);
            }
        },
        None => {},
    }
}

/// Moves the count stored under `from` onto `to`, where the larger of the
/// two counts stays.
pub fn btree_merge(m: &mut BTreeMap<usize, u32>, from: usize, to: usize)
    ensures
        final(m)@ == merge_tokens(old(m)@, from, to),
{
    match m.remove(&from) {
        Some(k) => {
            let there: u32 = btree_count(m, to);
            if m.contains_key(&to) {
                m.insert(to, if k >= there { k } else { there });
            } else {
                m.insert(to, k);
            }
        },
        None => {},
    }
}

/// `a` plus the entries of `b` listed among the first `j` of `e`.
pub open spec fn added_prefix(a: Map<usize, u32>, b: Map<usize, u32>, e: Seq<(usize, u32)>, j: int) -> Map<
    usize,
    u32,
> {
    Map::new(
        |k: usize| a.contains_key(k) || listed_before(e, j, k),
        |k: usize|
            if listed_before(e, j, k) {
                (count_at(a, k) + count_at(b, k)) as u32
            } else {
                a[k]
            },
    )
}

/// Adds to every count of `dst` the count that `src` holds under the same
/// key.
pub fn hash_add_all(dst: &mut HashMap<usize, u32>, src: &HashMap<usize, u32>)
    requires
        forall|k: usize| #[trigger] count_at(old(dst)@, k) + count_at(src@, k) <= u32::MAX,
    ensures
        final(dst)@ == added(old(dst)@, src@),
{
    let e = hash_entries(src);
    let mut j: usize = 0;
    assert(dst@ =~= added_prefix(old(dst)@, src@, e@, 0));
    while j < e.len()
        invariant
            0 <= j <= e.len(),
            lists(e@, src@),
            forall|k: usize| #[trigger] count_at(old(dst)@, k) + count_at(src@, k) <= u32::MAX,
            dst@ == added_prefix(old(dst)@, src@, e@, j as int),
        decreases e.len() - j,
    {
        let k: usize = e[j].0;
        let v: u32 = e[j].1;
        assert(src@.contains_key(e@[j as int].0));
        assert(!listed_before(e@, j as int, k)) by {
            if listed_before(e@, j as int, k) {
                let i = choose|i: int| 0 <= i < j && (#[trigger] e@[i]).0 == k;
                assert(e@[i].0 != e@[j as int].0);
            }
        }
        let there: u32 = hash_count(dst, k);
        assert(count_at(old(dst)@, k) + count_at(src@, k) <= u32::MAX);
        dst.insert(k, there + v);
        proof {
            let next = added_prefix(old(dst)@, src@, e@, j + 1);
            assert forall|q: usize| dst@.contains_key(q) == next.contains_key(q) by {
                if listed_before(e@, j + 1, q) {
                    let i = choose|i: int| 0 <= i < j + 1 && (#[trigger] e@[i]).0 == q;
                    if i < j {
                        assert(listed_before(e@, j as int, q));
                    }
                }
                if listed_before(e@, j as int, q) {
                    let i = choose|i: int| 0 <= i < j && (#[trigger] e@[i]).0 == q;
                    assert(0 <= i < j + 1);
                }
                if q == k {
                    assert(e@[j as int].0 == q);
                }
            }
            assert forall|q: usize| dst@.contains_key(q) implies dst@[q] == next[q] by {
                if q == k {
                    assert(e@[j as int].0 == q);
                } else {
                    if listed_before(e@, j + 1, q) {
                        let i = choose|i: int| 0 <= i < j + 1 && (#[trigger] e@[i]).0 == q;
                        assert(i < j);
                        assert(listed_before(e@, j as int, q));
                    }
                    if listed_before(e@, j as int, q) {
                        let i = choose|i: int| 0 <= i < j && (#[trigger] e@[i]).0 == q;
                        assert(0 <= i < j + 1);
                    }
                }
            }
            assert(dst@ =~= next);
        }
        j = j + 1;
    }
    proof {
        let last = added_prefix(old(dst)@, src@, e@, e@.len() as int);
        let goal = added(old(dst)@, src@);
        assert forall|q: usize| listed_before(e@, e@.len() as int, q) == src@.contains_key(q) by {
            if src@.contains_key(q) {
                let i = choose|i: int| 0 <= i < e@.len() && #[trigger] e@[i].0 == q;
                assert(e@[i].0 == q);
            }
            if listed_before(e@, e@.len() as int, q) {
                let i = choose|i: int| 0 <= i < e@.len() && (#[trigger] e@[i]).0 == q;
                assert(src@.contains_key(e@[i].0));
            }
        }
        assert(last =~= goal);
    }
}

/// Writes every entry of `src` into `dst`, over what `dst` held under the
/// same key.
pub fn hash_absorb(dst: &mut HashMap<usize, u32>, src: &HashMap<usize, u32>)
    ensures
        final(dst)@ == old(dst)@.union_prefer_right(src@),
{
    let e = hash_entries(src);
    let mut j: usize = 0;
    while j < e.len()
        invariant
            0 <= j <= e.len(),
            lists(e@, src@),
            forall|k: usize|
                #[trigger] dst@.contains_key(k) <==> old(dst)@.contains_key(k) || listed_before(e@, j as int, k),
            forall|k: usize|
                #[trigger] dst@.contains_key(k) ==> dst@[k] == if listed_before(e@, j as int, k) {
                    src@[k]
                } else {
                    old(dst)@[k]
                },
        decreases e.len() - j,
    {
        let k: usize = e[j].0;
        let v: u32 = e[j].1;
        assert(src@.contains_key(e@[j as int].0));
        let ghost before = dst@;
        dst.insert(k, v);
        proof {
            assert forall|q: usize| listed_before(e@, j + 1, q) == (listed_before(e@, j as int, q) || q == k) by {
                if listed_before(e@, j + 1, q) {
                    let i = choose|i: int| 0 <= i < j + 1 && (#[trigger] e@[i]).0 == q;
                    if i < j {
                        assert(listed_before(e@, j as int, q));
                    }
                }
                if listed_before(e@, j as int, q) {
                    let i = choose|i: int| 0 <= i < j && (#[trigger] e@[i]).0 == q;
                    assert(0 <= i < j + 1);
                }
                if q == k {
                    assert(e@[j as int].0 == q);
                }
            }
            assert forall|q: usize| #[trigger]
                dst@.contains_key(q) <==> old(dst)@.contains_key(q) || listed_before(e@, j + 1, q) by {
                assert(before.contains_key(q) <==> old(dst)@.contains_key(q) || listed_before(e@, j as int, q));
            }
            assert forall|q: usize| #[trigger] dst@.contains_key(q) implies dst@[q] == if listed_before(
                e@,
                j + 1,
                q,
            ) {
                src@[q]
            } else {
                old(dst)@[q]
            } by {
                if q != k {
                    assert(before.contains_key(q));
                }
            }
        }
        j = j + 1;
    }
    proof {
        assert forall|q: usize| listed_before(e@, e@.len() as int, q) == src@.contains_key(q) by {
            if src@.contains_key(q) {
                let i = choose|i: int| 0 <= i < e@.len() && #[trigger] e@[i].0 == q;
                assert(e@[i].0 == q);
            }
            if listed_before(e@, e@.len() as int, q) {
                let i = choose|i: int| 0 <= i < e@.len() && (#[trigger] e@[i]).0 == q;
                assert(src@.contains_key(e@[i].0));
            }
        }
        assert(dst@ =~= old(dst)@.union_prefer_right(src@));
    }
}

/// Where both maps hold a key, they hold it with one value.
pub open spec fn agree(a: Map<usize, u32>, b: Map<usize, u32>) -> bool {
    forall|k: usize| #[trigger] a.contains_key(k) && b.contains_key(k) ==> a[k] == b[k]
}

/// Whether two hash maps give one value to every key they share.
pub fn hash_agree(a: &HashMap<usize, u32>, b: &HashMap<usize, u32>) -> (r: bool)
    ensures
        r == agree(a@, b@),
{
    let e = hash_entries(a);
    let mut i: usize = 0;
    while i < e.len()
        invariant
            0 <= i <= e.len(),
            lists(e@, a@),
            forall|j: int| 0 <= j < i && b@.contains_key((#[trigger] e@[j]).0) ==> b@[e@[j].0] == e@[j].1,
        decreases e.len() - i,
    {
        let k: usize = e[i].0;
        let v: u32 = e[i].1;
        assert(a@.contains_key(e@[i as int].0));
        match b.get(&k) {
            Some(w) => {
                if *w != v {
                    assert(a@.contains_key(k) && b@.contains_key(k) && a@[k] != b@[k]);
                    return false;
                }
            },
            None => {},
        }
        i = i + 1;
    }
    proof {
        assert forall|k: usize| #[trigger] a@.contains_key(k) && b@.contains_key(k) implies a@[k] == b@[k] by {
            let j = choose|j: int| 0 <= j < e@.len() && #[trigger] e@[j].0 == k;
            assert(b@.contains_key(e@[j].0));
        }
    }
    true
}

} // verus!
