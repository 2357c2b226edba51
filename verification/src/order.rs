//! A stable sort, as the order in which to visit the items.
use vstd::prelude::*;

verus! {

/// The item at `left` is to be visited before the item at `right`: by key, and
/// by position where the keys are equal.
pub open spec fn precedes(keys: Seq<i128>, left: int, right: int) -> bool {
    keys[left] < keys[right] || (keys[left] == keys[right] && left < right)
}

/// `order` holds every position of `keys` once, each before those it precedes.
pub open spec fn is_stable_order(keys: Seq<i128>, order: Seq<usize>) -> bool {
    &&& order.len() == keys.len()
    &&& forall|i: int| 0 <= i < order.len() ==> (#[trigger] order[i]) < keys.len()
    &&& forall|i: int, j: int|
        0 <= i < j < order.len() ==> precedes(keys, #[trigger] order[i] as int, #[trigger] order[j] as int)
    &&& forall|k: usize| k < keys.len() ==> #[trigger] order.contains(k)
}

/// The same for the positions from `low` up to `high`.
spec fn orders_range(keys: Seq<i128>, low: int, high: int, order: Seq<usize>) -> bool {
    &&& order.len() == high - low
    &&& forall|i: int| 0 <= i < order.len() ==> low <= (#[trigger] order[i]) < high
    &&& forall|i: int, j: int|
        0 <= i < j < order.len() ==> precedes(keys, #[trigger] order[i] as int, #[trigger] order[j] as int)
    &&& forall|k: usize| low <= k < high ==> #[trigger] order.contains(k)
}

/// The order in which a stable sort by key leaves the items.
pub fn stable_order(keys: &[i128]) -> (order: Vec<usize>)
    ensures
        is_stable_order(keys@, order@),
{
    order_range(keys, 0, keys.len())
}

fn order_range(keys: &[i128], low: usize, high: usize) -> (order: Vec<usize>)
    requires
        low <= high <= keys.len(),
    ensures
        orders_range(keys@, low as int, high as int, order@),
    decreases high - low,
{
    let mut order: Vec<usize> = Vec::new();
    if high - low == 0 {
        return order;
    }
    if high - low == 1 {
        order.push(low);
        assert(order@[0] == low);
        return order;
    }
    let middle: usize = low + (high - low) / 2;
    let left: Vec<usize> = order_range(keys, low, middle);
    let right: Vec<usize> = order_range(keys, middle, high);
    merge(keys, low, middle, high, &left, &right)
}

fn merge(
    keys: &[i128],
    low: usize,
    middle: usize,
    high: usize,
    left: &Vec<usize>,
    right: &Vec<usize>,
) -> (order: Vec<usize>)
    requires
        low <= middle <= high <= keys.len(),
        orders_range(keys@, low as int, middle as int, left@),
        orders_range(keys@, middle as int, high as int, right@),
    ensures
        orders_range(keys@, low as int, high as int, order@),
{
    let mut order: Vec<usize> = Vec::with_capacity(high - low);
    let mut i: usize = 0;
    let mut j: usize = 0;
    while i < left.len() || j < right.len()
        invariant
            low <= middle <= high <= keys.len(),
            orders_range(keys@, low as int, middle as int, left@),
            orders_range(keys@, middle as int, high as int, right@),
            i <= left.len(),
            j <= right.len(),
            order.len() == i + j,
            forall|a: int| 0 <= a < order.len() ==> low <= (#[trigger] order@[a]) < high,
            forall|a: int, b: int|
                0 <= a < b < order.len() ==> precedes(
                    keys@,
                    #[trigger] order@[a] as int,
                    #[trigger] order@[b] as int,
                ),
            forall|a: int, b: int|
                0 <= a < order.len() && i <= b < left.len() ==> precedes(
                    keys@,
                    #[trigger] order@[a] as int,
                    #[trigger] left@[b] as int,
                ),
            forall|a: int, b: int|
                0 <= a < order.len() && j <= b < right.len() ==> precedes(
                    keys@,
                    #[trigger] order@[a] as int,
                    #[trigger] right@[b] as int,
                ),
            forall|a: int| 0 <= a < i ==> order@.contains(#[trigger] left@[a]),
            forall|b: int| 0 <= b < j ==> order@.contains(#[trigger] right@[b]),
        decreases left.len() - i + right.len() - j,
    {
        let ghost before = order@;
        let from_left: bool = j >= right.len() || (i < left.len() && keys[left[i]] <= keys[right[j]]);
        let next: usize = if from_left {
            left[i]
        } else {
            right[j]
        };
        order.push(next);
        if from_left {
            i = i + 1;
        } else {
            j = j + 1;
        }
        proof {
            assert(order@[before.len() as int] == next);
            assert forall|k: usize| before.contains(k) implies order@.contains(k) by {
                let a = choose|a: int| 0 <= a < before.len() && before[a] == k;
                assert(order@[a] == k);
            }
        }
    }
    proof {
        assert forall|k: usize| low <= k < high implies #[trigger] order@.contains(k) by {
            if k < middle {
                assert(left@.contains(k));
            } else {
                assert(right@.contains(k));
            }
        }
    }
    order
}

/// Equal keys give one order only: what a stable sort returns is determined.
pub proof fn law_stable_order_is_unique(keys: Seq<i128>, one: Seq<usize>, other: Seq<usize>)
    requires
        is_stable_order(keys, one),
        is_stable_order(keys, other),
    ensures
        one == other,
{
    assert forall|i: int| 0 <= i < one.len() implies one[i] == other[i] by {
        lemma_same_at(keys, one, other, i);
    }
}

proof fn lemma_same_at(keys: Seq<i128>, one: Seq<usize>, other: Seq<usize>, i: int)
    requires
        is_stable_order(keys, one),
        is_stable_order(keys, other),
        0 <= i < one.len(),
    ensures
        one[i] == other[i],
    decreases i,
{
    assert forall|h: int| 0 <= h < i implies one[h] == other[h] by {
        lemma_same_at(keys, one, other, h);
    }
    assert(other.contains(one[i]));
    let j = choose|j: int| 0 <= j < other.len() && other[j] == one[i];
    assert(one.contains(other[i]));
    let k = choose|k: int| 0 <= k < one.len() && one[k] == other[i];
    if j < i {
        assert(precedes(keys, one[j] as int, one[i] as int));
    }
    if k < i {
        assert(precedes(keys, other[k] as int, other[i] as int));
    }
    if i < j && i < k {
        assert(precedes(keys, other[i] as int, other[j] as int));
        assert(precedes(keys, one[i] as int, one[k] as int));
    }
}

/// A sort neither drops an item nor repeats one.
pub proof fn law_stable_order_is_a_permutation(keys: Seq<i128>, order: Seq<usize>)
    requires
        is_stable_order(keys, order),
    ensures
        order.no_duplicates(),
        order.len() == keys.len(),
        keys.len() <= usize::MAX ==> is_permutation(order, keys.len()),
{
    assert forall|i: int, j: int| 0 <= i < order.len() && 0 <= j < order.len() && i != j implies order[i]
        != order[j] by {
        if i < j {
            assert(precedes(keys, order[i] as int, order[j] as int));
        } else {
            assert(precedes(keys, order[j] as int, order[i] as int));
        }
    }
}

/// Keys have an order, as many as positions can be numbered.
pub proof fn law_stable_order_exists(keys: Seq<i128>) -> (order: Seq<usize>)
    requires
        keys.len() <= usize::MAX,
    ensures
        is_stable_order(keys, order),
    decreases keys.len(),
{
    if keys.len() == 0 {
        Seq::empty()
    } else {
        let shorter = keys.drop_last();
        let before = law_stable_order_exists(shorter);
        let last = (keys.len() - 1) as usize;
        let at = place_for(shorter, before, keys.last(), before.len() as int);
        lemma_place_for(shorter, before, keys.last(), before.len() as int);
        let order = before.insert(at, last);
        assert(forall|i: int| 0 <= i < before.len() ==> #[trigger] before[i] < shorter.len());
        assert forall|i: int, j: int| 0 <= i < j < order.len() implies precedes(
            keys,
            #[trigger] order[i] as int,
            #[trigger] order[j] as int,
        ) by {
            let left = if i < at { i } else { i - 1 };
            let right = if j < at { j } else { j - 1 };
            if i != at && j != at {
                assert(order[i] == before[left] && order[j] == before[right]);
                assert(precedes(shorter, before[left] as int, before[right] as int));
            } else if i == at {
                assert(order[j] == before[right]);
                assert(shorter[before[right] as int] > keys.last());
            } else {
                assert(order[i] == before[left]);
                assert(shorter[before[left] as int] <= keys.last());
            }
        }
        assert forall|k: usize| k < keys.len() implies #[trigger] order.contains(k) by {
            if k == last {
                assert(order[at] == k);
            } else {
                assert(before.contains(k));
                let i = choose|i: int| 0 <= i < before.len() && before[i] == k;
                assert(order[if i < at { i } else { i + 1 }] == k);
            }
        }
        order
    }
}

/// Where a key goes among the first `end` positions of an order: behind all that
/// do not exceed it.
spec fn place_for(keys: Seq<i128>, order: Seq<usize>, key: i128, end: int) -> int
    decreases end,
{
    if end <= 0 {
        0
    } else if keys[order[end - 1] as int] <= key {
        end
    } else {
        place_for(keys, order, key, end - 1)
    }
}

proof fn lemma_place_for(keys: Seq<i128>, order: Seq<usize>, key: i128, end: int)
    requires
        is_stable_order(keys, order),
        0 <= end <= order.len(),
    ensures
        0 <= place_for(keys, order, key, end) <= end,
        forall|i: int|
            0 <= i < place_for(keys, order, key, end) ==> keys[#[trigger] order[i] as int] <= key,
        forall|i: int|
            place_for(keys, order, key, end) <= i < end ==> keys[#[trigger] order[i] as int] > key,
    decreases end,
{
    if end > 0 {
        if keys[order[end - 1] as int] <= key {
            assert forall|i: int| 0 <= i < end implies keys[#[trigger] order[i] as int] <= key by {
                if i < end - 1 {
                    assert(precedes(keys, order[i] as int, order[end - 1] as int));
                }
            }
        } else {
            lemma_place_for(keys, order, key, end - 1);
        }
    }
}

/// How many marks are set.
pub open spec fn marks(marked: Seq<bool>) -> nat
    decreases marked.len(),
{
    if marked.len() == 0 {
        0
    } else if marked.last() {
        marks(marked.drop_last()) + 1
    } else {
        marks(marked.drop_last())
    }
}

/// `places` holds every position below `len` once, as many as can be numbered.
pub open spec fn is_permutation(places: Seq<usize>, len: nat) -> bool {
    &&& len <= usize::MAX
    &&& places.len() == len
    &&& places.no_duplicates()
    &&& forall|i: int| 0 <= i < len ==> (#[trigger] places[i]) < len
    &&& forall|k: usize| k < len ==> #[trigger] places.contains(k)
}

/// The items at these places, in turn.
pub open spec fn permuted<T>(items: Seq<T>, places: Seq<usize>) -> Seq<T> {
    places.map_values(|at: usize| items[at as int])
}

proof fn lemma_marks_remove(marked: Seq<bool>, at: int)
    requires
        0 <= at < marked.len(),
    ensures
        marks(marked) == marks(marked.remove(at)) + if marked[at] {
            1nat
        } else {
            0
        },
    decreases marked.len(),
{
    let rest = marked.remove(at);
    if at == marked.len() - 1 {
        assert(rest =~= marked.drop_last());
    } else {
        assert(rest.drop_last() =~= marked.drop_last().remove(at));
        lemma_marks_remove(marked.drop_last(), at);
    }
}

/// Marks count the same in any order.
pub proof fn lemma_marks_permuted(marked: Seq<bool>, places: Seq<usize>)
    requires
        is_permutation(places, marked.len()),
    ensures
        marks(permuted(marked, places)) == marks(marked),
    decreases marked.len(),
{
    if marked.len() > 0 {
        let last = (marked.len() - 1) as usize;
        assert(places[0] < marked.len());
        assert(places.contains(last));
        let at = choose|at: int| 0 <= at < places.len() && places[at] == last;
        let fewer = places.remove(at);
        let shorter = marked.drop_last();
        assert forall|i: int| 0 <= i < fewer.len() implies (#[trigger] fewer[i]) < shorter.len() by {
            let from = if i < at { i } else { i + 1 };
            assert(fewer[i] == places[from]);
            assert(places[from] < marked.len());
        }
        assert forall|k: usize| k < shorter.len() implies #[trigger] fewer.contains(k) by {
            assert(places.contains(k));
            let from = choose|from: int| 0 <= from < places.len() && places[from] == k;
            assert(fewer[if from < at { from } else { from - 1 }] == k);
        }
        assert forall|i: int, j: int|
            0 <= i < fewer.len() && 0 <= j < fewer.len() && i != j implies fewer[i] != fewer[j] by {
            let left = if i < at { i } else { i + 1 };
            let right = if j < at { j } else { j + 1 };
            assert(fewer[i] == places[left] && fewer[j] == places[right]);
        }
        lemma_marks_permuted(shorter, fewer);
        lemma_marks_remove(permuted(marked, places), at);
        assert(permuted(marked, places).remove(at) =~= permuted(shorter, fewer));
    } else {
        assert(permuted(marked, places) =~= marked);
    }
}

/// How many keys are below a bound.
pub open spec fn count_below(keys: Seq<i128>, bound: int) -> nat {
    marks(keys.map_values(|key: i128| key < bound))
}

proof fn lemma_few_marks(marked: Seq<bool>, from: int)
    requires
        0 <= from <= marked.len(),
        forall|i: int| from <= i < marked.len() ==> !marked[i],
    ensures
        marks(marked) <= from,
    decreases marked.len(),
{
    if marked.len() > 0 {
        if from == marked.len() {
            lemma_few_marks(marked.drop_last(), from - 1);
        } else {
            lemma_few_marks(marked.drop_last(), from);
        }
    }
}

proof fn lemma_many_marks(marked: Seq<bool>, to: int)
    requires
        0 <= to <= marked.len(),
        forall|i: int| 0 <= i < to ==> marked[i],
    ensures
        marks(marked) >= to,
    decreases marked.len(),
{
    if marked.len() > 0 {
        if to == marked.len() {
            lemma_many_marks(marked.drop_last(), to - 1);
        } else {
            lemma_many_marks(marked.drop_last(), to);
        }
    }
}

/// More keys are below a greater bound.
proof fn lemma_count_grows(keys: Seq<i128>, low: int, high: int)
    requires
        low <= high,
    ensures
        count_below(keys, low) <= count_below(keys, high),
    decreases keys.len(),
{
    let lows = keys.map_values(|key: i128| key < low);
    let highs = keys.map_values(|key: i128| key < high);
    if keys.len() > 0 {
        let shorter = keys.drop_last();
        lemma_count_grows(shorter, low, high);
        assert(lows.drop_last() =~= shorter.map_values(|key: i128| key < low));
        assert(highs.drop_last() =~= shorter.map_values(|key: i128| key < high));
    }
}

/// The key at a rank once the keys are sorted: no more keys than the rank are
/// below it, and more than the rank are not above it.
pub open spec fn has_rank(keys: Seq<i128>, rank: int, key: int) -> bool {
    &&& count_below(keys, key) <= rank
    &&& count_below(keys, key + 1) >= rank + 1
}

/// What a sort puts at a rank has that rank by count.
pub proof fn law_rank_is_a_count(keys: Seq<i128>, order: Seq<usize>, rank: int)
    requires
        is_stable_order(keys, order),
        keys.len() <= usize::MAX,
        0 <= rank < keys.len(),
    ensures
        has_rank(keys, rank, keys[order[rank] as int] as int),
{
    law_stable_order_is_a_permutation(keys, order);
    let key = keys[order[rank] as int] as int;
    let below = keys.map_values(|k: i128| k < key);
    let up_to = keys.map_values(|k: i128| k < key + 1);
    lemma_marks_permuted(below, order);
    lemma_marks_permuted(up_to, order);
    assert forall|i: int| rank <= i < keys.len() implies !permuted(below, order)[i] by {
        if rank < i {
            assert(precedes(keys, order[rank] as int, order[i] as int));
        }
        assert(order[i] < keys.len());
    }
    lemma_few_marks(permuted(below, order), rank);
    assert forall|i: int| 0 <= i < rank + 1 implies permuted(up_to, order)[i] by {
        if i < rank {
            assert(precedes(keys, order[i] as int, order[rank] as int));
        }
        assert(order[i] < keys.len());
    }
    lemma_many_marks(permuted(up_to, order), rank + 1);
}

/// One key has a rank, and a greater rank has no smaller key.
pub proof fn law_ranks_are_ordered(
    keys: Seq<i128>,
    low: int,
    high: int,
    lesser: int,
    greater: int,
)
    requires
        low <= high,
        has_rank(keys, low, lesser),
        has_rank(keys, high, greater),
    ensures
        lesser <= greater,
        low == high ==> lesser == greater,
{
    if lesser > greater {
        lemma_count_grows(keys, greater + 1, lesser);
    }
    if low == high && lesser < greater {
        lemma_count_grows(keys, lesser + 1, greater);
    }
}

/// Keys have their ranks in whatever order they come.
pub proof fn law_ranks_ignore_the_order(
    keys: Seq<i128>,
    places: Seq<usize>,
    rank: int,
    key: int,
)
    requires
        is_permutation(places, keys.len()),
    ensures
        has_rank(permuted(keys, places), rank, key) == has_rank(keys, rank, key),
{
    lemma_count_permuted(keys, places, key);
    lemma_count_permuted(keys, places, key + 1);
}

proof fn lemma_count_permuted(keys: Seq<i128>, places: Seq<usize>, bound: int)
    requires
        is_permutation(places, keys.len()),
    ensures
        count_below(permuted(keys, places), bound) == count_below(keys, bound),
{
    let marked = keys.map_values(|key: i128| key < bound);
    lemma_marks_permuted(marked, places);
    assert(permuted(keys, places).map_values(|key: i128| key < bound) =~= permuted(marked, places))
        by {
        assert forall|i: int| 0 <= i < places.len() implies (#[trigger] places[i]) < keys.len() by {}
    }
}

} // verus!
