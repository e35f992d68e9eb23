use vstd::prelude::*;

verus! {

/// Whether the item at `i` goes before the item at `j`: by the smaller key,
/// and between equal keys by the earlier place.
pub open spec fn precedes(keys: Seq<i128>, i: int, j: int) -> bool {
    keys[i] < keys[j] || (keys[i] == keys[j] && i < j)
}

/// `order` lists each of the first `m` places once, every earlier entry
/// preceding every later one.
pub open spec fn orders_prefix(keys: Seq<i128>, order: Seq<usize>, m: int) -> bool {
    &&& order.len() == m
    &&& m <= keys.len()
    &&& forall|a: int| 0 <= a < order.len() ==> (#[trigger] order[a]) < m
    &&& forall|j: usize| j < m ==> #[trigger] order.contains(j)
    &&& forall|a: int, b: int|
        0 <= a < b < order.len() ==> precedes(
            keys,
            #[trigger] order[a] as int,
            #[trigger] order[b] as int,
        )
}

/// `order` is the permutation that sorts `keys` ascending and keeps equal keys
/// in their given order.
pub open spec fn is_stable_order(keys: Seq<i128>, order: Seq<usize>) -> bool {
    orders_prefix(keys, order, keys.len() as int)
}

/// Two stable orders of the same keys agree on their first `k` entries.
pub proof fn lemma_stable_orders_agree(keys: Seq<i128>, a: Seq<usize>, b: Seq<usize>, k: int)
    requires
        is_stable_order(keys, a),
        is_stable_order(keys, b),
        0 <= k <= keys.len(),
    ensures
        forall|j: int| 0 <= j < k ==> a[j] == b[j],
    decreases k,
{
    if k > 0 {
        lemma_stable_orders_agree(keys, a, b, k - 1);
        let m = k - 1;
        let x = a[m];
        let y = b[m];
        assert(b.contains(x));
        assert(a.contains(y));
        let q = choose|q: int| 0 <= q < b.len() && b[q] == x;
        let p = choose|p: int| 0 <= p < a.len() && a[p] == y;
        if q < m {
            assert(a[q] == b[q]);
            assert(precedes(keys, a[q] as int, a[m] as int));
        } else if p < m {
            assert(a[p] == b[p]);
            assert(precedes(keys, b[p] as int, b[m] as int));
        } else if q > m && p > m {
            assert(precedes(keys, b[m] as int, b[q] as int));
            assert(precedes(keys, a[m] as int, a[p] as int));
        }
    }
}

/// The stable order of given keys is unique.
pub proof fn lemma_stable_order_is_unique(keys: Seq<i128>, a: Seq<usize>, b: Seq<usize>)
    requires
        is_stable_order(keys, a),
        is_stable_order(keys, b),
    ensures
        a == b,
{
    lemma_stable_orders_agree(keys, a, b, keys.len() as int);
    assert(a =~= b);
}

/// Along a stable order the keys never descend, and equal keys keep the
/// order given.
pub proof fn lemma_stable_order_ascends(keys: Seq<i128>, order: Seq<usize>, a: int, b: int)
    requires
        is_stable_order(keys, order),
        0 <= a < b < order.len(),
    ensures
        keys[order[a] as int] <= keys[order[b] as int],
        keys[order[a] as int] == keys[order[b] as int] ==> order[a] < order[b],
{
    assert(precedes(keys, order[a] as int, order[b] as int));
}

/// The places of `keys` in ascending order of key, equal keys in the
/// order given.
pub fn rank_order(keys: &Vec<i128>) -> (order: Vec<usize>)
    ensures
        is_stable_order(keys@, order@),
{
    let n: usize = keys.len();
    let mut order: Vec<usize> = Vec::new();
    let mut i: usize = 0;
    while i < n
        invariant
            i <= n,
            n == keys@.len(),
            orders_prefix(keys@, order@, i as int),
        decreases n - i,
    {
        let mut p: usize = order.len();
        while p > 0 && keys[order[p - 1]] > keys[i]
            invariant
                p <= order@.len(),
                i < n,
                n == keys@.len(),
                orders_prefix(keys@, order@, i as int),
                forall|b: int|
                    p <= b < order@.len() ==> keys@[#[trigger] order@[b] as int] > keys@[i as int],
            decreases p,
        {
            p -= 1;
        }
        let ghost before = order@;
        order.insert(p, i);
        proof {
            let after = order@;
            assert(after == before.insert(p as int, i));
            assert forall|a: int| 0 <= a < p implies keys@[#[trigger] before[a] as int] <= keys@[i as int]
            by {
                if a < p - 1 {
                    assert(precedes(keys@, before[a] as int, before[p - 1] as int));
                }
            }
            assert forall|j: usize| j < i + 1 implies #[trigger] after.contains(j) by {
                if j == i {
                    assert(after[p as int] == j);
                } else {
                    assert(before.contains(j));
                    let a = choose|a: int| 0 <= a < before.len() && before[a] == j;
                    if a < p {
                        assert(after[a] == j);
                    } else {
                        assert(after[a + 1] == j);
                    }
                }
            }
            assert forall|a: int, b: int| 0 <= a < b < after.len() implies precedes(
                keys@,
                #[trigger] after[a] as int,
                #[trigger] after[b] as int,
            ) by {
                if b < p {
                    assert(after[a] == before[a] && after[b] == before[b]);
                } else if b == p {
                    assert(after[a] == before[a]);
                } else if a < p {
                    assert(after[a] == before[a] && after[b] == before[b - 1]);
                } else if a == p {
                    assert(after[b] == before[b - 1]);
                } else {
                    assert(after[a] == before[a - 1] && after[b] == before[b - 1]);
                }
            }
        }
        i += 1;
    }
    order
}

} // verus!
