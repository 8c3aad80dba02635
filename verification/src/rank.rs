use vstd::prelude::*;
use crate::types::{Message, MessageView, messages_view};

verus! {

/// Item `a` comes before item `b` when ranked by key, highest first, items with
/// equal keys keeping their original order.
pub open spec fn precedes(keys: Seq<u64>, a: int, b: int) -> bool {
    keys[a] > keys[b] || (keys[a] == keys[b] && a < b)
}

/// `order` lists the items `0 .. i` ranked by `keys`.
pub open spec fn is_partial_ranking(keys: Seq<u64>, order: Seq<usize>, i: int) -> bool {
    &&& order.len() == i
    &&& forall|k: int| 0 <= k < order.len() ==> (#[trigger] order[k]) < i
    &&& forall|x: usize| (x as int) < i ==> #[trigger] order.contains(x)
    &&& forall|a: int, b: int|
        0 <= a < b < order.len() ==> precedes(keys, #[trigger] order[a] as int, #[trigger] order[b] as int)
}

/// `order` lists every item once, ranked by key from highest to lowest, items
/// with equal keys in their original order (a stable descending sort).
pub open spec fn is_ranking(keys: Seq<u64>, order: Seq<usize>) -> bool {
    is_partial_ranking(keys, order, keys.len() as int)
}

/// The indices of the items, ranked by key from highest to lowest; items with
/// equal keys keep their original order.
pub fn rank_descending(keys: &Vec<u64>) -> (order: Vec<usize>)
    ensures
        is_ranking(keys@, order@),
{
    let n = keys.len();
    let mut order: Vec<usize> = Vec::new();
    let mut i: usize = 0;
    while i < n
        invariant
            n == keys@.len(),
            i <= n,
            is_partial_ranking(keys@, order@, i as int),
        decreases n - i,
    {
        let ki = keys[i];
        let mut p: usize = 0;
        while p < order.len() && keys[order[p]] >= ki
            invariant
                n == keys@.len(),
                i < n,
                ki == keys@[i as int],
                is_partial_ranking(keys@, order@, i as int),
                p <= order@.len(),
                forall|q: int| 0 <= q < p ==> keys@[#[trigger] order@[q] as int] >= ki,
            decreases order@.len() - p,
        {
            p += 1;
        }
        let ghost old_order = order@;
        proof {
            assert forall|q: int| p <= q < old_order.len() implies keys@[#[trigger] old_order[q] as int] < ki by {
                if p < q {
                    assert(precedes(keys@, old_order[p as int] as int, old_order[q] as int));
                }
            }
        }
        order.insert(p, i);
        proof {
            let ord = order@;
            assert(ord == old_order.insert(p as int, i));
            assert forall|k: int| 0 <= k < ord.len() implies (#[trigger] ord[k]) < i + 1 by {
                if k < p {
                    assert(ord[k] == old_order[k]);
                } else if k > p {
                    assert(ord[k] == old_order[k - 1]);
                }
            }
            assert forall|x: usize| (x as int) < i + 1 implies #[trigger] ord.contains(x) by {
                if x == i {
                    assert(ord[p as int] == i);
                } else {
                    assert(old_order.contains(x));
                    let j = choose|j: int| 0 <= j < old_order.len() && old_order[j] == x;
                    if j < p {
                        assert(ord[j] == x);
                    } else {
                        assert(ord[j + 1] == x);
                    }
                }
            }
            assert forall|a: int, b: int| 0 <= a < b < ord.len() implies precedes(
                keys@,
                #[trigger] ord[a] as int,
                #[trigger] ord[b] as int,
            ) by {
                if b < p {
                    assert(ord[a] == old_order[a] && ord[b] == old_order[b]);
                } else if b == p {
                    assert(ord[a] == old_order[a]);
                    assert(keys@[old_order[a] as int] >= ki);
                    assert(old_order[a] < i);
                } else if a < p {
                    assert(ord[a] == old_order[a] && ord[b] == old_order[b - 1]);
                } else if a == p {
                    assert(ord[b] == old_order[b - 1]);
                    assert(keys@[old_order[b - 1] as int] < ki);
                } else {
                    assert(ord[a] == old_order[a - 1] && ord[b] == old_order[b - 1]);
                }
            }
        }
        i += 1;
    }
    order
}

/// A ranking is unique: two rankings of the same keys are the same sequence.
pub proof fn lemma_ranking_unique(keys: Seq<u64>, o1: Seq<usize>, o2: Seq<usize>)
    requires
        is_ranking(keys, o1),
        is_ranking(keys, o2),
    ensures
        o1 == o2,
{
    if o1.len() > 0 {
        lemma_ranking_prefix_equal(keys, o1, o2, o1.len() - 1);
    }
    assert(o1 =~= o2);
}

proof fn lemma_ranking_prefix_equal(keys: Seq<u64>, o1: Seq<usize>, o2: Seq<usize>, i: int)
    requires
        is_ranking(keys, o1),
        is_ranking(keys, o2),
        0 <= i < o1.len(),
    ensures
        forall|k: int| 0 <= k <= i ==> o1[k] == o2[k],
    decreases i,
{
    if i > 0 {
        lemma_ranking_prefix_equal(keys, o1, o2, i - 1);
    }
    let a = o1[i];
    let b = o2[i];
    if a != b {
        assert(a < keys.len() && b < keys.len());
        if precedes(keys, a as int, b as int) {
            assert(o2.contains(a));
            let j = choose|j: int| 0 <= j < o2.len() && o2[j] == a;
            if j > i {
                assert(precedes(keys, o2[i] as int, o2[j] as int));
            } else {
                assert(o1[j] == o2[j]);
                assert(precedes(keys, o1[j] as int, o1[i] as int));
            }
        } else {
            assert(o1.contains(b));
            let m = choose|m: int| 0 <= m < o1.len() && o1[m] == b;
            if m > i {
                assert(precedes(keys, o1[i] as int, o1[m] as int));
            } else {
                assert(o1[m] == o2[m]);
                assert(precedes(keys, o2[m] as int, o2[i] as int));
            }
        }
    }
}

/// The first `k` items (all of them if there are fewer) in the given order.
pub open spec fn top_of(items: Seq<MessageView>, order: Seq<usize>, k: nat) -> Seq<MessageView> {
    let m = if k < order.len() { k as int } else { order.len() as int };
    order.take(m).map_values(|j: usize| items[j as int])
}

/// The `top_k` items with the highest keys, highest first; items with equal
/// keys keep their original order.
pub fn select_top(items: &Vec<Message>, keys: &Vec<u64>, top_k: usize) -> (r: Vec<Message>)
    requires
        items@.len() == keys@.len(),
    ensures
        exists|order: Seq<usize>|
            is_ranking(keys@, order) && messages_view(r@) == top_of(messages_view(items@), order, top_k as nat),
{
    let order = rank_descending(keys);
    let m: usize = if top_k < order.len() { top_k } else { order.len() };
    let mut r: Vec<Message> = Vec::new();
    let mut i: usize = 0;
    while i < m
        invariant
            m <= order@.len(),
            is_ranking(keys@, order@),
            items@.len() == keys@.len(),
            i <= m,
            messages_view(r@) =~= order@.take(i as int).map_values(|j: usize| messages_view(items@)[j as int]),
        decreases m - i,
    {
        let j = order[i];
        let msg = items[j].duplicate();
        let ghost old_r = r@;
        r.push(msg);
        proof {
            assert(j < items@.len());
            assert(messages_view(r@) =~= messages_view(old_r).push(items@[j as int]@));
            assert(order@.take(i + 1) =~= order@.take(i as int).push(j));
            assert(messages_view(items@)[j as int] == items@[j as int]@);
        }
        i += 1;
    }
    assert(messages_view(r@) == top_of(messages_view(items@), order@, top_k as nat));
    r
}

} // verus!
