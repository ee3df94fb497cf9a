//! Stable ordering by integer keys.
//!
//! Items are not moved: the result is the order in which to read them, as a
//! sequence of their indices. Among items with equal keys the one that came
//! first stays first.
use vstd::prelude::*;

verus! {

/// `order` with the index `item` put behind the last index whose key is not
/// greater than the key of `item`.
pub open spec fn with_inserted(order: Seq<usize>, keys: Seq<i128>, item: usize) -> Seq<usize>
    decreases order.len(),
{
    if order.len() == 0 {
        seq![item]
    } else if keys[order.last() as int] <= keys[item as int] {
        order.push(item)
    } else {
        with_inserted(order.drop_last(), keys, item).push(order.last())
    }
}

/// The first `n` indices in ascending order of their keys, indices with
/// equal keys in ascending order.
pub open spec fn stable_order_of_first(keys: Seq<i128>, n: nat) -> Seq<usize>
    decreases n,
{
    if n == 0 {
        Seq::empty()
    } else {
        with_inserted(stable_order_of_first(keys, (n - 1) as nat), keys, (n - 1) as usize)
    }
}

/// All indices of `keys` in ascending order of their keys, indices with equal
/// keys in ascending order.
pub open spec fn stable_order(keys: Seq<i128>) -> Seq<usize> {
    stable_order_of_first(keys, keys.len())
}

/// The items read in the order that `order` gives.
pub open spec fn reordered<T>(items: Seq<T>, order: Seq<usize>) -> Seq<T> {
    Seq::new(order.len(), |i: int| items[order[i] as int])
}

/// `order` lists indices below `n`, none twice, keys ascending and, where
/// keys are equal, indices ascending.
pub open spec fn is_stable_order(order: Seq<usize>, keys: Seq<i128>, n: nat) -> bool {
    &&& n <= keys.len()
    &&& order.len() == n
    &&& forall|i: int| 0 <= i < order.len() ==> #[trigger] order[i] < n
    &&& forall|i: int, j: int|
        0 <= i < j < order.len() ==> {
            ||| keys[#[trigger] order[i] as int] < keys[#[trigger] order[j] as int]
            ||| (keys[order[i] as int] == keys[order[j] as int] && order[i] < order[j])
        }
}

/// Inserting the next index keeps a stable order stable.
pub proof fn lemma_with_inserted(order: Seq<usize>, keys: Seq<i128>, n: nat)
    requires
        n < keys.len(),
        n <= usize::MAX,
        order.len() <= n,
        forall|i: int| 0 <= i < order.len() ==> #[trigger] order[i] < n,
        forall|i: int, j: int|
            0 <= i < j < order.len() ==> {
                ||| keys[#[trigger] order[i] as int] < keys[#[trigger] order[j] as int]
                ||| (keys[order[i] as int] == keys[order[j] as int] && order[i] < order[j])
            },
    ensures
        ({
            let next = with_inserted(order, keys, n as usize);
            &&& next.len() == order.len() + 1
            &&& forall|i: int| 0 <= i < next.len() ==> #[trigger] next[i] <= n
            &&& forall|i: int|
                0 <= i < next.len() ==> next[i] == n || exists|k: int|
                    0 <= k < order.len() && order[k] == #[trigger] next[i]
            &&& forall|i: int, j: int|
                0 <= i < j < next.len() ==> {
                    ||| keys[#[trigger] next[i] as int] < keys[#[trigger] next[j] as int]
                    ||| (keys[next[i] as int] == keys[next[j] as int] && next[i] < next[j])
                }
        }),
    decreases order.len(),
{
    let item = n as usize;
    let next = with_inserted(order, keys, item);
    if order.len() == 0 {
    } else if keys[order.last() as int] <= keys[item as int] {
        assert forall|i: int, j: int| 0 <= i < j < next.len() implies {
            ||| keys[#[trigger] next[i] as int] < keys[#[trigger] next[j] as int]
            ||| (keys[next[i] as int] == keys[next[j] as int] && next[i] < next[j])
        } by {
            if j == order.len() {
                if i < order.len() - 1 {
                    assert(keys[order[i] as int] <= keys[order[order.len() - 1] as int]);
                }
                assert(order[i] < n);
            } else {
                assert(next[i] == order[i]);
                assert(next[j] == order[j]);
            }
        }
        assert forall|i: int| 0 <= i < next.len() implies next[i] == n || exists|k: int|
            0 <= k < order.len() && order[k] == #[trigger] next[i] by {
            if i < order.len() {
                assert(order[i] == next[i]);
            }
        }
    } else {
        let front = order.drop_last();
        let last = order.last();
        assert forall|i: int, j: int| 0 <= i < j < front.len() implies {
            ||| keys[#[trigger] front[i] as int] < keys[#[trigger] front[j] as int]
            ||| (keys[front[i] as int] == keys[front[j] as int] && front[i] < front[j])
        } by {
            assert(front[i] == order[i]);
            assert(front[j] == order[j]);
        }
        assert forall|i: int| 0 <= i < front.len() implies #[trigger] front[i] < n by {
            assert(front[i] == order[i]);
        }
        lemma_with_inserted(front, keys, n);
        let inner = with_inserted(front, keys, item);
        assert(next == inner.push(last));
        assert forall|i: int|
            0 <= i < next.len() implies next[i] == n || exists|k: int|
            0 <= k < order.len() && order[k] == #[trigger] next[i] by {
            if i < inner.len() {
                if inner[i] != n {
                    let k = choose|k: int| 0 <= k < front.len() && front[k] == inner[i];
                    assert(order[k] == next[i]);
                }
            } else {
                assert(order[order.len() - 1] == next[i]);
            }
        }
        assert forall|i: int, j: int| 0 <= i < j < next.len() implies {
            ||| keys[#[trigger] next[i] as int] < keys[#[trigger] next[j] as int]
            ||| (keys[next[i] as int] == keys[next[j] as int] && next[i] < next[j])
        } by {
            if j == inner.len() {
                assert(next[j] == last);
                if inner[i] == n {
                } else {
                    let k = choose|k: int| 0 <= k < front.len() && front[k] == inner[i];
                    assert(order[k] == inner[i]);
                    assert(k < order.len() - 1);
                    assert(order[order.len() - 1] == last);
                }
            } else {
                assert(next[i] == inner[i]);
                assert(next[j] == inner[j]);
            }
        }
    }
}

/// The stable order is what its name says: every index once, keys
/// ascending, equal keys in the order in which they came.
pub proof fn lemma_stable_order(keys: Seq<i128>, n: nat)
    requires
        n <= keys.len(),
        n <= usize::MAX,
    ensures
        is_stable_order(stable_order_of_first(keys, n), keys, n),
    decreases n,
{
    if n > 0 {
        lemma_stable_order(keys, (n - 1) as nat);
        lemma_with_inserted(stable_order_of_first(keys, (n - 1) as nat), keys, (n - 1) as nat);
        let next = stable_order_of_first(keys, n);
        assert forall|i: int| 0 <= i < next.len() implies #[trigger] next[i] < n by {
        }
    }
}

/// Taking the front of an order and putting the rest back behind the new
/// index gives the same as inserting into the whole, as long as the rest has
/// greater keys.
proof fn lemma_insert_behind(order: Seq<usize>, keys: Seq<i128>, item: usize, j: int)
    requires
        0 <= j <= order.len(),
        forall|k: int| j <= k < order.len() ==> keys[#[trigger] order[k] as int] > keys[item as int],
    ensures
        with_inserted(order, keys, item) == with_inserted(order.take(j), keys, item) + order.skip(
            j,
        ),
    decreases order.len() - j,
{
    if j == order.len() {
        assert(order.take(j) =~= order);
        assert(with_inserted(order, keys, item) + order.skip(j) =~= with_inserted(
            order,
            keys,
            item,
        ));
    } else {
        let front = order.drop_last();
        assert(keys[order[order.len() - 1] as int] > keys[item as int]);
        assert forall|k: int| j <= k < front.len() implies keys[#[trigger] front[k] as int]
            > keys[item as int] by {
            assert(front[k] == order[k]);
        }
        lemma_insert_behind(front, keys, item, j);
        assert(front.take(j) =~= order.take(j));
        assert(front.skip(j).push(order.last()) =~= order.skip(j));
        assert(with_inserted(order, keys, item) =~= with_inserted(order.take(j), keys, item)
            + order.skip(j));
    }
}

/// The order in which to read the items whose keys are given: ascending by
/// key, items with equal keys in the order in which they came.
pub fn sort_order(keys: &Vec<i128>) -> (order: Vec<usize>)
    ensures
        order@ == stable_order(keys@),
        is_stable_order(order@, keys@, keys@.len()),
{
    let mut order: Vec<usize> = Vec::new();
    let mut n: usize = 0;
    while n < keys.len()
        invariant
            n <= keys.len(),
            order@ == stable_order_of_first(keys@, n as nat),
            is_stable_order(order@, keys@, n as nat),
        decreases keys.len() - n,
    {
        let key = keys[n];
        let mut j: usize = order.len();
        while j > 0 && keys[order[j - 1]] > key
            invariant
                j <= order.len(),
                n < keys.len(),
                key == keys@[n as int],
                is_stable_order(order@, keys@, n as nat),
                forall|k: int| j <= k < order.len() ==> keys@[#[trigger] order@[k] as int] > key,
            decreases j,
        {
            j -= 1;
        }
        proof {
            lemma_insert_behind(order@, keys@, n, j as int);
            let front = order@.take(j as int);
            if j > 0 {
                assert(front.last() == order@[j - 1]);
            }
            assert(with_inserted(front, keys@, n) == front.push(n));
            assert(front.push(n) + order@.skip(j as int) =~= order@.insert(j as int, n));
            lemma_stable_order(keys@, (n + 1) as nat);
        }
        order.insert(j, n);
        n += 1;
    }
    order
}

} // verus!
