//! Stable ordering of numbers by the IEEE 754 total order.

use vstd::prelude::*;
use crate::quantities::scalar::Real;

verus! {

/// Whether item `i` comes before item `j`: by rank in the total order, and
/// between items of one rank, by position.
pub open spec fn before(keys: Seq<Real>, i: int, j: int) -> bool {
    keys[i].rank() < keys[j].rank() || (keys[i].rank() == keys[j].rank() && i < j)
}

/// Whether the position `x` occurs in `order`.
pub open spec fn listed(order: Seq<usize>, x: int) -> bool {
    exists|k: int| 0 <= k < order.len() && #[trigger] order[k] == x
}

/// Whether `order` lists every position of `keys` once, each before the next.
pub open spec fn is_stable_order(keys: Seq<Real>, order: Seq<usize>) -> bool {
    &&& order.len() == keys.len()
    &&& forall|k: int| 0 <= k < order.len() ==> (#[trigger] order[k]) < keys.len()
    &&& forall|x: int| 0 <= x < keys.len() ==> #[trigger] listed(order, x)
    &&& forall|a: int, b: int|
        0 <= a < b < order.len() ==> before(keys, #[trigger] order[a] as int, #[trigger] order[b] as int)
}

/// Whether `order` lists each of the positions `0 .. n` exactly once.
pub open spec fn is_permutation(order: Seq<usize>, n: nat) -> bool {
    &&& order.len() == n
    &&& forall|k: int| 0 <= k < order.len() ==> (#[trigger] order[k]) < n
    &&& forall|x: int| 0 <= x < n ==> #[trigger] listed(order, x)
    &&& forall|a: int, b: int|
        0 <= a < b < order.len() ==> (#[trigger] order[a]) != (#[trigger] order[b])
}

/// The items of `items` in the order that `order` gives.
pub open spec fn permuted<T>(items: Seq<T>, order: Seq<usize>) -> Seq<T> {
    Seq::new(order.len(), |k: int| items[order[k] as int])
}

/// Orders the positions of `keys` by rising rank. Keys of equal rank keep
/// their relative order.
pub fn stable_order(keys: &Vec<Real>) -> (order: Vec<usize>)
    ensures
        is_stable_order(keys@, order@),
{
    let n: usize = keys.len();
    let mut order: Vec<usize> = Vec::new();
    let mut i: usize = 0;
    while i < n
        invariant
            i <= n,
            n == keys.len(),
            order.len() == i,
            forall|k: int| 0 <= k < order.len() ==> (#[trigger] order[k]) < i,
            forall|x: int| 0 <= x < i ==> #[trigger] listed(order@, x),
            forall|a: int, b: int|
                0 <= a < b < order.len() ==> before(
                    keys@,
                    #[trigger] order[a] as int,
                    #[trigger] order[b] as int,
                ),
        decreases n - i,
    {
        // The new item goes behind every item that does not rank above it.
        let mut j: usize = order.len();
        while j > 0 && keys[i].total_lt(keys[order[j - 1]])
            invariant
                j <= order.len(),
                i < n,
                n == keys.len(),
                forall|k: int| 0 <= k < order.len() ==> (#[trigger] order[k]) < i,
                forall|k: int|
                    j <= k < order.len() ==> keys[i as int].rank() < keys[(#[trigger] order[k]) as int].rank(),
            decreases j,
        {
            j -= 1;
        }
        let ghost prev = order@;
        order.insert(j, i);
        proof {
            assert(order@ == prev.insert(j as int, i));
            assert forall|x: int| 0 <= x < i + 1 implies #[trigger] listed(order@, x) by {
                if x < i {
                    assert(listed(prev, x));
                    let k0 = choose|k: int| 0 <= k < prev.len() && #[trigger] prev[k] == x;
                    if k0 < j {
                        assert(order[k0] == x);
                    } else {
                        assert(order[k0 + 1] == x);
                    }
                } else {
                    assert(order[j as int] == x);
                }
            }
            assert forall|a: int, b: int| 0 <= a < b < order.len() implies before(
                keys@,
                #[trigger] order[a] as int,
                #[trigger] order[b] as int,
            ) by {
                let pa = if a < j { a } else { a - 1 };
                let pb = if b < j { b } else { b - 1 };
                if a == j {
                    assert(order[b] == prev[pb]);
                } else if b == j {
                    assert(order[a] == prev[pa]);
                    if j > 0 {
                        assert(prev[pa] == prev[j - 1] || before(keys@, prev[pa] as int, prev[j - 1] as int));
                    }
                } else {
                    assert(order[a] == prev[pa]);
                    assert(order[b] == prev[pb]);
                }
            }
        }
        i += 1;
    }
    order
}

/// A stable order moves items and neither drops nor repeats one.
pub proof fn lemma_stable_order_permutes(keys: Seq<Real>, order: Seq<usize>)
    requires
        is_stable_order(keys, order),
    ensures
        is_permutation(order, keys.len()),
{
    assert forall|a: int, b: int| 0 <= a < b < order.len() implies (#[trigger] order[a])
        != (#[trigger] order[b]) by {
        assert(before(keys, order[a] as int, order[b] as int));
    }
}

/// A permutation without the place that holds the last position is a
/// permutation of the positions before it.
pub proof fn lemma_permutation_shrinks(order: Seq<usize>, n: nat, m: int)
    requires
        n > 0,
        is_permutation(order, n),
        0 <= m < order.len(),
        order[m] == n - 1,
    ensures
        is_permutation(order.remove(m), (n - 1) as nat),
{
    let rest = order.remove(m);
    assert forall|k: int| 0 <= k < rest.len() implies (#[trigger] rest[k]) < n - 1 by {
        let k0 = if k < m { k } else { k + 1 };
        assert(rest[k] == order[k0]);
        if k0 < m {
            assert(order[k0] != order[m]);
        } else {
            assert(order[m] != order[k0]);
        }
    }
    assert forall|x: int| 0 <= x < n - 1 implies #[trigger] listed(rest, x) by {
        assert(listed(order, x));
        let k0 = choose|k: int| 0 <= k < order.len() && #[trigger] order[k] == x;
        if k0 < m {
            assert(rest[k0] == x);
        } else {
            assert(rest[k0 - 1] == x);
        }
    }
    assert forall|a: int, b: int| 0 <= a < b < rest.len() implies (#[trigger] rest[a])
        != (#[trigger] rest[b]) by {
        let a0 = if a < m { a } else { a + 1 };
        let b0 = if b < m { b } else { b + 1 };
        assert(rest[a] == order[a0]);
        assert(rest[b] == order[b0]);
    }
}

/// At most one order is stable: the contract of [`stable_order`] leaves
/// no choice.
pub proof fn lemma_stable_order_unique(keys: Seq<Real>, first: Seq<usize>, second: Seq<usize>)
    requires
        is_stable_order(keys, first),
        is_stable_order(keys, second),
    ensures
        first == second,
{
    assert forall|k: int| 0 <= k < first.len() implies first[k] == second[k] by {
        lemma_stable_order_agree(keys, first, second, k);
    }
    assert(first =~= second);
}

proof fn lemma_stable_order_agree(keys: Seq<Real>, first: Seq<usize>, second: Seq<usize>, k: int)
    requires
        is_stable_order(keys, first),
        is_stable_order(keys, second),
        0 <= k < first.len(),
    ensures
        first[k] == second[k],
    decreases k,
{
    assert forall|j: int| 0 <= j < k implies first[j] == second[j] by {
        lemma_stable_order_agree(keys, first, second, j);
    }
    lemma_not_before(keys, first, second, k);
    lemma_not_before(keys, second, first, k);
}

/// If two stable orders agree below `k`, then `first[k]` does not come
/// before `second[k]`: it would have no place left in `second`.
proof fn lemma_not_before(keys: Seq<Real>, first: Seq<usize>, second: Seq<usize>, k: int)
    requires
        is_stable_order(keys, first),
        is_stable_order(keys, second),
        0 <= k < first.len(),
        forall|j: int| 0 <= j < k ==> first[j] == second[j],
    ensures
        !before(keys, first[k] as int, second[k] as int),
{
    if before(keys, first[k] as int, second[k] as int) {
        let x = first[k] as int;
        assert(listed(second, x));
        let m = choose|m: int| 0 <= m < second.len() && #[trigger] second[m] == x;
        if m < k {
            assert(first[m] == second[m]);
            assert(before(keys, first[m] as int, first[k] as int));
        } else if m > k {
            assert(before(keys, second[k] as int, second[m] as int));
        }
    }
}

} // verus!
