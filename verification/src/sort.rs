//! A stable sort that returns the order of the positions.
use vstd::prelude::*;

verus! {

/// Whether position `i` comes before position `j` in a stable ascending sort
/// of `keys`: it has the smaller key, or the same key and the earlier position.
pub open spec fn before(keys: Seq<i64>, i: int, j: int) -> bool {
    keys[i] < keys[j] || (keys[i] == keys[j] && i < j)
}

/// Whether `order` lists each position from `lo` to below `hi` once, in the
/// order of a stable ascending sort of `keys`.
pub open spec fn sorts(keys: Seq<i64>, order: Seq<usize>, lo: int, hi: int) -> bool {
    &&& order.len() == hi - lo
    &&& forall|a: int| 0 <= a < order.len() ==> lo <= #[trigger] order[a] < hi
    &&& forall|a: int, b: int|
        0 <= a < b < order.len() ==> before(keys, #[trigger] order[a] as int, #[trigger] order[b] as int)
}

/// The positions of `keys` in the order of a stable ascending sort.
pub fn stable_order(keys: &[i64]) -> (order: Vec<usize>)
    ensures
        sorts(keys@, order@, 0, keys@.len() as int),
{
    sort_range(keys, 0, keys.len())
}

/// Sorts the positions from `lo` to below `hi`: each half first, then merges.
fn sort_range(keys: &[i64], lo: usize, hi: usize) -> (order: Vec<usize>)
    requires
        lo <= hi <= keys@.len(),
    ensures
        sorts(keys@, order@, lo as int, hi as int),
    decreases hi - lo,
{
    let mut order: Vec<usize> = Vec::new();
    if hi - lo == 1 {
        order.push(lo);
    } else if hi - lo > 1 {
        let mid: usize = lo + (hi - lo) / 2;
        let left = sort_range(keys, lo, mid);
        let right = sort_range(keys, mid, hi);
        order = merge(keys, &left, &right, Ghost(lo as int), Ghost(mid as int), Ghost(hi as int));
    }
    order
}

/// Merges the sorted positions below `mid` with those from `mid` on.
fn merge(
    keys: &[i64],
    left: &Vec<usize>,
    right: &Vec<usize>,
    Ghost(lo): Ghost<int>,
    Ghost(mid): Ghost<int>,
    Ghost(hi): Ghost<int>,
) -> (order: Vec<usize>)
    requires
        0 <= lo <= mid <= hi <= keys@.len(),
        sorts(keys@, left@, lo, mid),
        sorts(keys@, right@, mid, hi),
    ensures
        sorts(keys@, order@, lo, hi),
{
    let mut order: Vec<usize> = Vec::new();
    let mut i: usize = 0;
    let mut j: usize = 0;
    while i < left.len() || j < right.len()
        invariant
            0 <= lo <= mid <= hi <= keys@.len(),
            sorts(keys@, left@, lo, mid),
            sorts(keys@, right@, mid, hi),
            i <= left.len(),
            j <= right.len(),
            order@.len() == i + j,
            forall|a: int| 0 <= a < order@.len() ==> lo <= #[trigger] order@[a] < hi,
            forall|a: int, b: int|
                0 <= a < b < order@.len() ==> before(
                    keys@,
                    #[trigger] order@[a] as int,
                    #[trigger] order@[b] as int,
                ),
            forall|a: int, b: int|
                0 <= a < order@.len() && i <= b < left@.len() ==> before(
                    keys@,
                    #[trigger] order@[a] as int,
                    #[trigger] left@[b] as int,
                ),
            forall|a: int, b: int|
                0 <= a < order@.len() && j <= b < right@.len() ==> before(
                    keys@,
                    #[trigger] order@[a] as int,
                    #[trigger] right@[b] as int,
                ),
        decreases left.len() - i + right.len() - j,
    {
        let take_left: bool = if i == left.len() {
            false
        } else if j == right.len() {
            true
        } else {
            keys[left[i]] <= keys[right[j]]
        };
        if take_left {
            order.push(left[i]);
            i += 1;
        } else {
            order.push(right[j]);
            j += 1;
        }
    }
    order
}

/// The order lists every position once. Keys ascend along it, and positions
/// ascend where keys are equal.
pub proof fn law_order_is_a_stable_sort(keys: &[i64], order: Vec<usize>)
    requires
        call_ensures(stable_order, (keys,), order),
    ensures
        order@.len() == keys@.len(),
        forall|p: usize| p < keys@.len() ==> #[trigger] order@.contains(p),
        forall|a: int| 0 <= a < order@.len() ==> #[trigger] order@[a] < keys@.len(),
        forall|a: int, b: int|
            0 <= a < b < order@.len() ==> {
                ||| keys@[#[trigger] order@[a] as int] < keys@[#[trigger] order@[b] as int]
                ||| (keys@[order@[a] as int] == keys@[order@[b] as int] && order@[a] < order@[b])
            },
{
    let n = keys@.len();
    let places = order@.map_values(|p: usize| p as int);
    let all = vstd::set_lib::set_int_range(0, n as int);
    vstd::set_lib::lemma_int_range(0, n as int);
    assert(places.no_duplicates()) by {
        assert forall|a: int, b: int| 0 <= a < b < places.len() implies places[a] != places[b] by {
            assert(before(keys@, order@[a] as int, order@[b] as int));
        }
    }
    places.unique_seq_to_set();
    assert(places.to_set().subset_of(all));
    vstd::set_lib::lemma_subset_equality(places.to_set(), all);
    assert forall|p: usize| p < n implies #[trigger] order@.contains(p) by {
        assert(all.contains(p as int));
        let a = choose|a: int| 0 <= a < places.len() && places[a] == p;
        assert(order@[a] == p);
    }
    assert forall|a: int, b: int| 0 <= a < b < order@.len() implies {
        ||| keys@[#[trigger] order@[a] as int] < keys@[#[trigger] order@[b] as int]
        ||| (keys@[order@[a] as int] == keys@[order@[b] as int] && order@[a] < order@[b])
    } by {
        assert(before(keys@, order@[a] as int, order@[b] as int));
    }
}

} // verus!
