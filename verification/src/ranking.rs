//! Stable ranking of items by an integer key.

use vstd::prelude::*;

verus! {

/// Position `a` ranks before position `b`: it holds the smaller key, or the
/// same key and comes first.
pub open spec fn ranks_before(keys: Seq<u64>, a: int, b: int) -> bool {
    keys[a] < keys[b] || (keys[a] == keys[b] && a < b)
}

/// `order` lists the positions of `keys` by ascending key, positions with
/// equal keys in the order they are given in. Since every entry ranks strictly
/// before the next, no position is listed twice, and since there are as many
/// entries as keys, none is left out.
pub open spec fn is_stable_order(keys: Seq<u64>, order: Seq<usize>) -> bool {
    &&& order.len() == keys.len()
    &&& forall|i: int| 0 <= i < order.len() ==> (#[trigger] order[i]) < keys.len()
    &&& forall|i: int, j: int|
        0 <= i < j < order.len() ==> ranks_before(
            keys,
            #[trigger] order[i] as int,
            #[trigger] order[j] as int,
        )
}

/// The positions of `keys` in ascending order of key; equal keys keep their
/// given order.
pub fn stable_order(keys: &Vec<u64>) -> (order: Vec<usize>)
    ensures
        is_stable_order(keys@, order@),
{
    let mut order: Vec<usize> = Vec::new();
    let mut k: usize = 0;
    while k < keys.len()
        invariant
            k <= keys.len(),
            order.len() == k,
            forall|i: int| 0 <= i < order.len() ==> (#[trigger] order[i]) < k,
            forall|i: int, j: int|
                0 <= i < j < order.len() ==> ranks_before(
                    keys@,
                    #[trigger] order[i] as int,
                    #[trigger] order[j] as int,
                ),
        decreases keys.len() - k,
    {
        let mut pos: usize = order.len();
        while pos > 0 && keys[order[pos - 1]] > keys[k]
            invariant
                pos <= order.len(),
                order.len() == k,
                k < keys.len(),
                forall|i: int| 0 <= i < order.len() ==> (#[trigger] order[i]) < k,
                forall|j: int| pos <= j < order.len() ==> keys[(#[trigger] order[j]) as int] > keys[k as int],
            decreases pos,
        {
            pos -= 1;
        }
        let ghost before = order@;
        order.insert(pos, k);
        proof {
            assert forall|i: int, j: int| 0 <= i < j < order.len() implies ranks_before(
                keys@,
                #[trigger] order[i] as int,
                #[trigger] order[j] as int,
            ) by {
                if j < pos {
                    assert(order[i] == before[i] && order[j] == before[j]);
                } else if j == pos {
                    assert(order[i] == before[i]);
                    if i < pos - 1 {
                        assert(ranks_before(keys@, before[i] as int, before[pos - 1] as int));
                    }
                } else if i < pos {
                    assert(order[i] == before[i] && order[j] == before[j - 1]);
                    if i < j - 1 {
                        assert(ranks_before(keys@, before[i] as int, before[j - 1] as int));
                    }
                } else if i == pos {
                    assert(order[j] == before[j - 1]);
                } else {
                    assert(order[i] == before[i - 1] && order[j] == before[j - 1]);
                    assert(ranks_before(keys@, before[i - 1] as int, before[j - 1] as int));
                }
            }
            assert forall|i: int| 0 <= i < order.len() implies (#[trigger] order[i]) < k + 1 by {
                if i < pos {
                    assert(order[i] == before[i]);
                } else if i > pos {
                    assert(order[i] == before[i - 1]);
                }
            }
        }
        k += 1;
    }
    order
}

} // verus!
