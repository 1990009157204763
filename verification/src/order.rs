//! Stable ordering of items by an integer key.

use vstd::prelude::*;

verus! {

/// Whether position `a` comes before position `b` when `keys` are put in
/// ascending order and equal keys keep the order they came in.
pub open spec fn precedes(keys: Seq<i128>, a: int, b: int) -> bool {
    keys[a] < keys[b] || (keys[a] == keys[b] && a < b)
}

/// `order` lists every position of `keys` exactly once, smallest key first,
/// equal keys in the order they came in. For given `keys` there is one such
/// list.
pub open spec fn is_stable_order(keys: Seq<i128>, order: Seq<usize>) -> bool {
    &&& order.len() == keys.len()
    &&& forall|i: int| 0 <= i < order.len() ==> (#[trigger] order[i]) < keys.len()
    &&& forall|m: usize| m < keys.len() ==> #[trigger] order.contains(m)
    &&& forall|i: int, j: int|
        0 <= i < j < order.len() ==> precedes(keys, #[trigger] order[i] as int, #[trigger] order[j] as int)
}

/// The items of `items` in the sequence that `order` gives.
pub open spec fn arrange<T>(items: Seq<T>, order: Seq<usize>) -> Seq<T> {
    Seq::new(order.len(), |i: int| items[order[i] as int])
}

/// The positions of `keys` in ascending key order; ties keep their order.
pub fn stable_order(keys: &Vec<i128>) -> (order: Vec<usize>)
    ensures
        is_stable_order(keys@, order@),
{
    let n = keys.len();
    let mut order: Vec<usize> = Vec::new();
    let mut k: usize = 0;
    while k < n
        invariant
            n == keys.len(),
            k <= n,
            order.len() == k,
            forall|i: int| 0 <= i < order.len() ==> (#[trigger] order[i]) < k,
            forall|m: usize| m < k ==> #[trigger] order@.contains(m),
            forall|i: int, j: int|
                0 <= i < j < order.len() ==> precedes(
                    keys@,
                    #[trigger] order[i] as int,
                    #[trigger] order[j] as int,
                ),
        decreases n - k,
    {
        let mut pos: usize = order.len();
        while pos > 0 && keys[order[pos - 1]] > keys[k]
            invariant
                n == keys.len(),
                k < n,
                pos <= order.len(),
                order.len() == k,
                forall|i: int| 0 <= i < order.len() ==> (#[trigger] order[i]) < k,
                forall|j: int| pos <= j < order.len() ==> keys[k as int] < keys[order[j] as int],
            decreases pos,
        {
            pos -= 1;
        }
        let ghost before = order@;
        order.insert(pos, k);
        proof {
            assert forall|m: usize| m < k + 1 implies #[trigger] order@.contains(m) by {
                if m == k {
                    assert(order[pos as int] == m);
                } else {
                    assert(before.contains(m));
                    let i0 = choose|i: int| 0 <= i < before.len() && before[i] == m;
                    if i0 < pos {
                        assert(order[i0] == m);
                    } else {
                        assert(order[i0 + 1] == m);
                    }
                }
            }
            assert forall|i: int, j: int| 0 <= i < j < order.len() implies precedes(
                keys@,
                #[trigger] order[i] as int,
                #[trigger] order[j] as int,
            ) by {
                if j < pos {
                    assert(order[i] == before[i] && order[j] == before[j]);
                } else if j == pos {
                    assert(order[i] == before[i]);
                    if i < pos - 1 {
                        assert(precedes(keys@, before[i] as int, before[pos - 1] as int));
                    }
                } else if i < pos {
                    assert(order[i] == before[i] && order[j] == before[j - 1]);
                } else if i == pos {
                    assert(order[j] == before[j - 1]);
                } else {
                    assert(order[i] == before[i - 1] && order[j] == before[j - 1]);
                }
            }
        }
        k += 1;
    }
    order
}

/// Two stable orders of the same keys are the same list.
pub proof fn lemma_stable_order_unique(keys: Seq<i128>, p: Seq<usize>, q: Seq<usize>)
    requires
        is_stable_order(keys, p),
        is_stable_order(keys, q),
    ensures
        p == q,
    decreases keys.len(),
{
    assert forall|i: int| 0 <= i < p.len() implies p[i] == q[i] by {
        lemma_same_at(keys, p, q, i);
    }
    assert(p =~= q);
}

/// In a stable order, the entry at `i` has exactly `i` positions before it.
proof fn lemma_same_at(keys: Seq<i128>, p: Seq<usize>, q: Seq<usize>, i: int)
    requires
        is_stable_order(keys, p),
        is_stable_order(keys, q),
        0 <= i < p.len(),
    ensures
        p[i] == q[i],
    decreases i,
{
    // Every entry before `i` agrees, by induction.
    assert forall|j: int| 0 <= j < i implies p[j] == q[j] by {
        lemma_same_at(keys, p, q, j);
    }
    let a = p[i] as int;
    let b = q[i] as int;
    if a != b {
        // `a` occurs in q, and `b` occurs in p, both after position i.
        assert(q.contains(p[i]) && p.contains(q[i]));
        let ja = choose|j: int| 0 <= j < q.len() && q[j] == p[i];
        let jb = choose|j: int| 0 <= j < p.len() && p[j] == q[i];
        if ja < i {
            assert(p[ja] == q[ja]);
            assert(precedes(keys, p[ja] as int, p[i] as int));
        }
        if jb < i {
            assert(p[jb] == q[jb]);
            assert(precedes(keys, q[jb] as int, q[i] as int));
        }
        assert(ja > i && jb > i);
        assert(precedes(keys, q[i] as int, q[ja] as int));
        assert(precedes(keys, p[i] as int, p[jb] as int));
    }
}

} // verus!
