//! Generic facts about sequences: first matches and priority orders.
use vstd::prelude::*;

verus! {

/// Position of the first element of `s` that satisfies `p`, if any.
#[verifier::opaque]
pub open spec fn first_match<A>(s: Seq<A>, p: spec_fn(A) -> bool) -> Option<int> {
    if exists|i: int| 0 <= i < s.len() && p(s[i]) {
        Some(choose|i: int| 0 <= i < s.len() && p(s[i]) && forall|k: int| 0 <= k < i ==> !p(s[k]))
    } else {
        None
    }
}

pub proof fn lemma_first_match_at<A>(s: Seq<A>, p: spec_fn(A) -> bool, i: int)
    requires
        0 <= i < s.len(),
        p(s[i]),
        forall|k: int| 0 <= k < i ==> !p(s[k]),
    ensures
        first_match(s, p) == Some(i),
{
    reveal(first_match);
    let w = choose|j: int| 0 <= j < s.len() && p(s[j]) && forall|k: int| 0 <= k < j ==> !p(s[k]);
    assert(0 <= i < s.len() && p(s[i]) && forall|k: int| 0 <= k < i ==> !p(s[k]));
    if w < i {
        assert(!p(s[w]));
    } else if w > i {
        assert(!p(s[i]));
    }
}

pub proof fn lemma_first_match_none<A>(s: Seq<A>, p: spec_fn(A) -> bool)
    requires
        forall|k: int| 0 <= k < s.len() ==> !p(s[k]),
    ensures
        first_match(s, p) is None,
{
    reveal(first_match);
}

pub proof fn lemma_first_match_props<A>(s: Seq<A>, p: spec_fn(A) -> bool)
    ensures
        first_match(s, p) matches Some(i) ==> 0 <= i < s.len() && p(s[i]) && forall|k: int|
            0 <= k < i ==> !p(s[k]),
        first_match(s, p) is None ==> forall|k: int| 0 <= k < s.len() ==> !p(s[k]),
{
    reveal(first_match);
    if exists|i: int| 0 <= i < s.len() && p(s[i]) {
        let i = choose|i: int| 0 <= i < s.len() && p(s[i]);
        lemma_least_witness(s, p, i);
    }
}

proof fn lemma_least_witness<A>(s: Seq<A>, p: spec_fn(A) -> bool, i: int)
    requires
        0 <= i < s.len(),
        p(s[i]),
    ensures
        exists|j: int| 0 <= j < s.len() && p(s[j]) && forall|k: int| 0 <= k < j ==> !p(s[k]),
    decreases i,
{
    if exists|k: int| 0 <= k < i && p(s[k]) {
        let k = choose|k: int| 0 <= k < i && p(s[k]);
        lemma_least_witness(s, p, k);
    } else {
        assert(0 <= i < s.len() && p(s[i]) && forall|k: int| 0 <= k < i ==> !p(s[k]));
    }
}

/// Element `a` comes before `b` when ranking by descending key, earlier position first on ties.
pub open spec fn ranks_before(keys: Seq<u32>, a: int, b: int) -> bool {
    keys[a] > keys[b] || (keys[a] == keys[b] && a < b)
}

/// `k` occurs in `order`.
pub open spec fn lists(order: Seq<usize>, k: int) -> bool {
    exists|i: int| 0 <= i < order.len() && order[i] == k
}

/// `order` lists every position of `keys` once, by descending key, ties in their
/// given order: what a stable sort by descending key yields.
pub open spec fn is_priority_order(order: Seq<usize>, keys: Seq<u32>) -> bool {
    &&& order.len() == keys.len()
    &&& forall|i: int| 0 <= i < order.len() ==> 0 <= #[trigger] order[i] < keys.len()
    &&& forall|k: int| 0 <= k < keys.len() ==> #[trigger] lists(order, k)
    &&& forall|i: int, j: int|
        0 <= i < j < order.len() ==> ranks_before(
            keys,
            #[trigger] order[i] as int,
            #[trigger] order[j] as int,
        )
}

/// There is exactly one priority order for a sequence of keys.
pub proof fn lemma_priority_order_unique(o1: Seq<usize>, o2: Seq<usize>, keys: Seq<u32>)
    requires
        is_priority_order(o1, keys),
        is_priority_order(o2, keys),
    ensures
        o1 == o2,
{
    if o1.len() > 0 {
        lemma_orders_agree_upto(o1, o2, keys, o1.len() - 1);
    }
    assert(o1 =~= o2);
}

proof fn lemma_orders_agree_upto(o1: Seq<usize>, o2: Seq<usize>, keys: Seq<u32>, i: int)
    requires
        is_priority_order(o1, keys),
        is_priority_order(o2, keys),
        0 <= i < o1.len(),
    ensures
        forall|k: int| 0 <= k <= i ==> o1[k] == o2[k],
    decreases i,
{
    if i > 0 {
        lemma_orders_agree_upto(o1, o2, keys, i - 1);
    }
    let a = o1[i];
    let b = o2[i];
    if a != b {
        assert(0 <= b < keys.len());
        assert(lists(o1, b as int));
        let pb = choose|p: int| 0 <= p < o1.len() && #[trigger] o1[p] == b as usize;
        if pb < i {
            assert(o2[pb] == b);
            assert(ranks_before(keys, o2[pb] as int, o2[i] as int));
        } else {
            assert(ranks_before(keys, o1[i] as int, o1[pb] as int));
        }
        assert(0 <= a < keys.len());
        assert(lists(o2, a as int));
        let pa = choose|p: int| 0 <= p < o2.len() && #[trigger] o2[p] == a as usize;
        if pa < i {
            assert(o1[pa] == a);
            assert(ranks_before(keys, o1[pa] as int, o1[i] as int));
        } else {
            assert(ranks_before(keys, o2[i] as int, o2[pa] as int));
        }
    }
}

/// Positions of `keys` in priority order: a stable sort by descending key.
pub fn rank_order(keys: &[u32]) -> (order: Vec<usize>)
    ensures
        is_priority_order(order@, keys@),
{
    let mut order: Vec<usize> = Vec::new();
    let mut i: usize = 0;
    while i < keys.len()
        invariant
            i <= keys@.len(),
            order@.len() == i,
            forall|p: int| 0 <= p < i ==> #[trigger] order@[p] < i,
            forall|k: int| 0 <= k < i ==> #[trigger] lists(order@, k),
            forall|p: int, q: int|
                0 <= p < q < i ==> ranks_before(
                    keys@,
                    #[trigger] order@[p] as int,
                    #[trigger] order@[q] as int,
                ),
        decreases keys@.len() - i,
    {
        let mut p: usize = 0;
        while p < order.len() && keys[order[p]] >= keys[i]
            invariant
                i < keys@.len(),
                p <= order@.len() == i,
                forall|q: int| 0 <= q < i ==> #[trigger] order@[q] < i,
                forall|q: int| 0 <= q < p ==> keys@[#[trigger] order@[q] as int] >= keys@[i as int],
            decreases order@.len() - p,
        {
            p = p + 1;
        }
        let ghost before = order@;
        order.insert(p, i);
        proof {
            let after = order@;
            assert(after == before.insert(p as int, i));
            assert forall|q: int| 0 <= q < i + 1 implies #[trigger] after[q] < i + 1 by {
                if q < p {
                    assert(after[q] == before[q]);
                } else if q > p {
                    assert(after[q] == before[q - 1]);
                }
            }
            assert forall|k: int| 0 <= k < i + 1 implies #[trigger] lists(after, k) by {
                if k == i {
                    assert(after[p as int] == i);
                } else {
                    assert(lists(before, k));
                    let w = choose|w: int| 0 <= w < before.len() && before[w] == k;
                    if w < p {
                        assert(after[w] == k);
                    } else {
                        assert(after[w + 1] == k);
                    }
                }
            }
            assert forall|a: int, b: int| 0 <= a < b < i + 1 implies ranks_before(
                keys@,
                #[trigger] after[a] as int,
                #[trigger] after[b] as int,
            ) by {
                if b < p {
                    assert(after[a] == before[a] && after[b] == before[b]);
                } else if b == p {
                    assert(after[a] == before[a]);
                    assert(keys@[before[a] as int] >= keys@[i as int]);
                } else if a < p {
                    assert(after[a] == before[a] && after[b] == before[b - 1]);
                } else if a == p {
                    assert(after[b] == before[b - 1]);
                    if p < before.len() {
                        assert(keys@[before[p as int] as int] < keys@[i as int]);
                        if b - 1 > p {
                            assert(ranks_before(keys@, before[p as int] as int, before[b - 1] as int));
                        }
                    }
                } else {
                    assert(after[a] == before[a - 1] && after[b] == before[b - 1]);
                }
            }
        }
        i = i + 1;
    }
    order
}

/// Every sequence of keys has a priority order.
pub proof fn lemma_priority_order_exists(keys: Seq<u32>)
    requires
        keys.len() <= usize::MAX,
    ensures
        exists|o: Seq<usize>| is_priority_order(o, keys),
    decreases keys.len(),
{
    if keys.len() == 0 {
        assert(is_priority_order(Seq::<usize>::empty(), keys));
    } else {
        let n = keys.len() - 1;
        let prev = keys.drop_last();
        lemma_priority_order_exists(prev);
        let o = choose|o: Seq<usize>| is_priority_order(o, prev);
        let kn = keys[n];
        // Insert n after every entry whose key is at least kn.
        let p = match first_match(o, |k: usize| keys[k as int] < kn) {
            Some(i) => i,
            None => o.len() as int,
        };
        lemma_first_match_props(o, |k: usize| keys[k as int] < kn);
        assert forall|q: int| 0 <= q < o.len() implies #[trigger] keys[o[q] as int] == prev[o[q] as int] by {
            assert(0 <= o[q] < prev.len());
        }
        // Entries before p have keys at least kn; entries from p on have keys below kn.
        assert forall|q: int| p <= q < o.len() implies keys[#[trigger] o[q] as int] < kn by {
            if q > p {
                assert(ranks_before(prev, o[p] as int, o[q] as int));
            }
        }
        let r = o.insert(p, n as usize);
        assert forall|q: int| 0 <= q < r.len() implies 0 <= #[trigger] r[q] < keys.len() by {
            if q < p {
                assert(r[q] == o[q]);
            } else if q > p {
                assert(r[q] == o[q - 1]);
            }
        }
        assert forall|k: int| 0 <= k < keys.len() implies #[trigger] lists(r, k) by {
            if k == n {
                assert(r[p] == n);
            } else {
                assert(lists(o, k));
                let w = choose|w: int| 0 <= w < o.len() && o[w] == k;
                if w < p {
                    assert(r[w] == k);
                } else {
                    assert(r[w + 1] == k);
                }
            }
        }
        assert forall|a: int, b: int| 0 <= a < b < r.len() implies ranks_before(
            keys,
            #[trigger] r[a] as int,
            #[trigger] r[b] as int,
        ) by {
            if b < p {
                assert(r[a] == o[a] && r[b] == o[b]);
                assert(ranks_before(prev, o[a] as int, o[b] as int));
            } else if b == p {
                assert(r[a] == o[a]);
                assert(!(keys[o[a] as int] < kn));
                assert(o[a] < n);
            } else if a < p {
                assert(r[a] == o[a] && r[b] == o[b - 1]);
                assert(ranks_before(prev, o[a] as int, o[b - 1] as int));
            } else if a == p {
                assert(r[b] == o[b - 1]);
                assert(keys[o[b - 1] as int] < kn);
            } else {
                assert(r[a] == o[a - 1] && r[b] == o[b - 1]);
                assert(ranks_before(prev, o[a - 1] as int, o[b - 1] as int));
            }
        }
        assert(is_priority_order(r, keys));
    }
}

} // verus!
