//! Latency statistics of a run: the mean and three percentiles.
use crate::double::{some_nan, Double};
use crate::sort::stable_order;
use vstd::prelude::*;

verus! {

/// Latency statistics, in milliseconds.
#[derive(Debug, Clone, Copy, PartialEq, Eq, Structural)]
pub struct Latency {
    pub mean: Double,
    pub p50: Double,
    pub p95: Double,
    pub p99: Double,
}

/// Whether sample `j` comes before sample `i` in a stable ascending sort: it
/// is worth less, or as much and was taken earlier.
pub open spec fn precedes(samples: Seq<Double>, j: int, i: int) -> bool {
    samples[j].scaled() < samples[i].scaled() || (samples[j].scaled() == samples[i].scaled() && j < i)
}

/// How many of the first `upto` samples come before sample `i` in a stable
/// ascending sort.
pub open spec fn preceding(samples: Seq<Double>, i: int, upto: int) -> nat
    decreases upto,
{
    if upto <= 0 {
        0
    } else {
        preceding(samples, i, upto - 1) + if precedes(samples, upto - 1, i) {
            1nat
        } else {
            0nat
        }
    }
}

/// The place of sample `i` in a stable ascending sort, counted from 0.
pub open spec fn rank(samples: Seq<Double>, i: int) -> nat {
    preceding(samples, i, samples.len() as int)
}

/// The place of the `percent` percentile among `len` sorted samples: the
/// integer nearest to `(len - 1) * percent / 100`, the larger one of two.
pub open spec fn spec_nearest_rank(len: int, percent: int) -> int {
    ((len - 1) * percent + 50) / 100
}

/// Whether `d` is the `percent` percentile of `samples`: the sample whose
/// place in a stable ascending sort is the percentile's.
pub open spec fn is_percentile(samples: Seq<Double>, percent: int, d: Double) -> bool {
    exists|i: int|
        0 <= i < samples.len() && #[trigger] rank(samples, i) == spec_nearest_rank(
            samples.len() as int,
            percent,
        ) && d == samples[i]
}

/// The place of the `percent` percentile among `len` sorted samples.
pub fn nearest_rank(len: usize, percent: u64) -> (place: usize)
    requires
        0 < len,
        percent <= 100,
    ensures
        place == spec_nearest_rank(len as int, percent as int),
        place < len,
{
    proof {
        lemma_nearest_rank_in_range(len as int, percent as int);
    }
    (((len - 1) as u128 * percent as u128 + 50) / 100) as usize
}

impl Latency {
    /// The statistics of no samples: all zero.
    pub open spec fn spec_none() -> Latency {
        Latency {
            mean: Double { bits: 0 },
            p50: Double { bits: 0 },
            p95: Double { bits: 0 },
            p99: Double { bits: 0 },
        }
    }

    /// The statistics of `samples`, whose arithmetic mean is `mean`. Of no
    /// samples they are all zero.
    ///
    /// Two samples or more are compared, so none of them may be a NaN.
    pub fn from_samples(samples: &[Double], mean: Double) -> (latency: Latency)
        requires
            samples@.len() >= 2 ==> !some_nan(samples@),
        ensures
            samples@.len() == 0 ==> latency == Latency::spec_none(),
            samples@.len() > 0 ==> {
                &&& latency.mean == mean
                &&& is_percentile(samples@, 50, latency.p50)
                &&& is_percentile(samples@, 95, latency.p95)
                &&& is_percentile(samples@, 99, latency.p99)
            },
    {
        if samples.len() == 0 {
            return Latency::default();
        }
        let mut keys: Vec<i64> = Vec::new();
        let mut i: usize = 0;
        while i < samples.len()
            invariant
                i <= samples@.len(),
                keys@.len() == i,
                forall|j: int| 0 <= j < i ==> #[trigger] keys@[j] == samples@[j].spec_order_key(),
            decreases samples@.len() - i,
        {
            keys.push(samples[i].order_key());
            i += 1;
        }
        let order = stable_order(keys.as_slice());
        let at50 = nearest_rank(samples.len(), 50);
        let at95 = nearest_rank(samples.len(), 95);
        let at99 = nearest_rank(samples.len(), 99);
        proof {
            lemma_place_is_rank(samples@, keys@, order@, at50 as int);
            lemma_place_is_rank(samples@, keys@, order@, at95 as int);
            lemma_place_is_rank(samples@, keys@, order@, at99 as int);
        }
        Latency {
            mean,
            p50: samples[order[at50]],
            p95: samples[order[at95]],
            p99: samples[order[at99]],
        }
    }
}

impl Default for Latency {
    /// The statistics of no samples: all zero.
    fn default() -> (latency: Self)
        ensures
            latency == Latency::spec_none(),
    {
        Latency { mean: Double::zero(), p50: Double::zero(), p95: Double::zero(), p99: Double::zero() }
    }
}

/// The samples that come before sample `i` in a stable ascending sort.
spec fn predecessors(samples: Seq<Double>, i: int) -> Set<int> {
    Set::new(|j: int| 0 <= j < samples.len() && precedes(samples, j, i))
}

/// The rank of a sample is the number of its predecessors.
proof fn lemma_rank_counts(samples: Seq<Double>, i: int)
    ensures
        predecessors(samples, i).finite(),
        rank(samples, i) == predecessors(samples, i).len(),
{
    lemma_preceding_counts(samples, i, samples.len() as int);
    assert(predecessors(samples, i) =~= Set::new(|j: int| 0 <= j < samples.len() && precedes(samples, j, i)));
}

proof fn lemma_preceding_counts(samples: Seq<Double>, i: int, upto: int)
    requires
        0 <= upto,
    ensures
        Set::new(|j: int| 0 <= j < upto && precedes(samples, j, i)).finite(),
        preceding(samples, i, upto) == Set::new(|j: int| 0 <= j < upto && precedes(samples, j, i)).len(),
    decreases upto,
{
    let found = Set::new(|j: int| 0 <= j < upto && precedes(samples, j, i));
    if upto == 0 {
        assert(found =~= Set::empty());
    } else {
        let before = Set::new(|j: int| 0 <= j < upto - 1 && precedes(samples, j, i));
        lemma_preceding_counts(samples, i, upto - 1);
        if precedes(samples, upto - 1, i) {
            assert(found =~= before.insert(upto - 1));
        } else {
            assert(found =~= before);
        }
    }
}

/// The place of a percentile is one of a sample.
proof fn lemma_nearest_rank_in_range(len: int, percent: int)
    requires
        0 < len,
        0 <= percent <= 100,
    ensures
        0 <= spec_nearest_rank(len, percent) < len,
{
    assert(0 <= (len - 1) * percent <= (len - 1) * 100) by (nonlinear_arith)
        requires
            0 < len,
            0 <= percent <= 100,
    ;
}

/// The sample at place `k` of the sorted order has rank `k`.
proof fn lemma_place_is_rank(samples: Seq<Double>, keys: Seq<i64>, order: Seq<usize>, k: int)
    requires
        keys.len() == samples.len(),
        forall|j: int| 0 <= j < keys.len() ==> #[trigger] keys[j] == samples[j].spec_order_key(),
        crate::sort::sorts(keys, order, 0, keys.len() as int),
        0 <= k < samples.len(),
    ensures
        rank(samples, order[k] as int) == k,
{
    let at = order[k] as int;
    let places = order.map_values(|p: usize| p as int);
    let first = places.take(k);
    assert forall|j: int, i: int| 0 <= j < samples.len() && 0 <= i < samples.len() implies #[trigger] precedes(
        samples,
        j,
        i,
    ) == crate::sort::before(keys, j, i) by {
        crate::double::law_order_key_orders_by_value(samples[j], samples[i]);
        assert(keys[j] == samples[j].spec_order_key());
        assert(keys[i] == samples[i].spec_order_key());
    }
    lemma_order_covers(places, samples.len());
    assert(first.to_set() =~= predecessors(samples, at)) by {
        assert forall|j: int| first.to_set().contains(j) implies predecessors(samples, at).contains(j) by {
            let a = choose|a: int| 0 <= a < first.len() && first[a] == j;
            assert(order[a] as int == j);
            assert(crate::sort::before(keys, order[a] as int, order[k] as int));
        }
        assert forall|j: int| predecessors(samples, at).contains(j) implies first.to_set().contains(j) by {
            assert(precedes(samples, j, at));
            assert(places.contains(j));
            let a = choose|a: int| 0 <= a < places.len() && places[a] == j;
            assert(order[a] as int == j);
            if a > k {
                assert(crate::sort::before(keys, order[k] as int, order[a] as int));
            }
            assert(first[a] == j);
        }
    }
    first.unique_seq_to_set();
    lemma_rank_counts(samples, at);
}

/// A list of `n` different positions below `n` holds all of them.
proof fn lemma_order_covers(places: Seq<int>, n: nat)
    requires
        places.len() == n,
        places.no_duplicates(),
        forall|a: int| 0 <= a < n ==> 0 <= #[trigger] places[a] < n,
    ensures
        forall|j: int| 0 <= j < n ==> places.contains(j),
{
    let all = vstd::set_lib::set_int_range(0, n as int);
    vstd::set_lib::lemma_int_range(0, n as int);
    places.unique_seq_to_set();
    assert(places.to_set().subset_of(all));
    vstd::set_lib::lemma_subset_equality(places.to_set(), all);
    assert forall|j: int| 0 <= j < n implies places.contains(j) by {
        assert(all.contains(j));
    }
}

/// A sample that comes before another has the smaller rank.
proof fn lemma_rank_increases(samples: Seq<Double>, i: int, k: int)
    requires
        0 <= i < samples.len(),
        0 <= k < samples.len(),
        precedes(samples, i, k),
    ensures
        rank(samples, i) < rank(samples, k),
{
    let lower = predecessors(samples, i);
    let upper = predecessors(samples, k);
    lemma_rank_counts(samples, i);
    lemma_rank_counts(samples, k);
    assert(lower.insert(i).subset_of(upper));
    vstd::set_lib::lemma_len_subset(lower.insert(i), upper);
}

/// Any set of sample positions is finite.
proof fn lemma_indices_finite(samples: Seq<Double>, positions: Set<int>)
    requires
        forall|j: int| positions.contains(j) ==> 0 <= j < samples.len(),
    ensures
        positions.finite(),
{
    let all = vstd::set_lib::set_int_range(0, samples.len() as int);
    vstd::set_lib::lemma_int_range(0, samples.len() as int);
    assert(positions.subset_of(all));
    vstd::set_lib::lemma_set_subset_finite(all, positions);
}

/// No two samples share a rank.
pub proof fn law_ranks_differ(samples: Seq<Double>, i: int, k: int)
    requires
        0 <= i < samples.len(),
        0 <= k < samples.len(),
        i != k,
    ensures
        rank(samples, i) != rank(samples, k),
{
    if precedes(samples, i, k) {
        lemma_rank_increases(samples, i, k);
    } else {
        lemma_rank_increases(samples, k, i);
    }
}

/// A percentile is one of the samples, and there is only one that it can be.
pub proof fn law_percentile_is_unique(samples: Seq<Double>, percent: int, a: Double, b: Double)
    requires
        is_percentile(samples, percent, a),
        is_percentile(samples, percent, b),
    ensures
        samples.contains(a),
        a == b,
{
    let place = spec_nearest_rank(samples.len() as int, percent);
    let i = choose|i: int|
        0 <= i < samples.len() && #[trigger] rank(samples, i) == place && a == samples[i];
    let k = choose|k: int|
        0 <= k < samples.len() && #[trigger] rank(samples, k) == place && b == samples[k];
    if i != k {
        law_ranks_differ(samples, i, k);
    }
}

/// A higher percentile is worth no less: p50 <= p95 <= p99.
pub proof fn law_percentiles_ascend(samples: Seq<Double>, low: int, high: int, a: Double, b: Double)
    requires
        low <= high,
        is_percentile(samples, low, a),
        is_percentile(samples, high, b),
    ensures
        a.scaled() <= b.scaled(),
{
    let len = samples.len() as int;
    let i = choose|i: int|
        0 <= i < len && #[trigger] rank(samples, i) == spec_nearest_rank(len, low) && a == samples[i];
    let k = choose|k: int|
        0 <= k < len && #[trigger] rank(samples, k) == spec_nearest_rank(len, high) && b == samples[k];
    assert((len - 1) * low <= (len - 1) * high) by (nonlinear_arith)
        requires
            low <= high,
            0 < len,
    ;
    assert(spec_nearest_rank(len, low) <= spec_nearest_rank(len, high));
    if b.scaled() < a.scaled() {
        lemma_rank_increases(samples, k, i);
    }
}

/// The samples that are worth less than `value`.
spec fn below(samples: Seq<Double>, value: int) -> Set<int> {
    Set::new(|j: int| 0 <= j < samples.len() && samples[j].scaled() < value)
}

/// How many samples are worth less than `value`, counted without positions.
proof fn lemma_below_counts(samples: Seq<Double>, value: int)
    ensures
        below(samples, value).finite(),
        below(samples, value).len() == samples.to_multiset().filter(|d: Double| d.scaled() < value).len(),
    decreases samples.len(),
{
    let pick = |d: Double| d.scaled() < value;
    lemma_indices_finite(samples, below(samples, value));
    broadcast use {vstd::multiset::group_multiset_axioms, vstd::seq_lib::group_to_multiset_ensures};

    if samples.len() == 0 {
        assert(below(samples, value) =~= Set::empty());
        assert(samples.to_multiset() =~= vstd::multiset::Multiset::empty());
        assert(samples.to_multiset().filter(pick) =~= vstd::multiset::Multiset::empty());
    } else {
        let rest = samples.drop_last();
        let last = samples.last();
        let at = samples.len() - 1;
        lemma_below_counts(rest, value);
        assert(samples =~= rest.push(last));
        assert(samples.to_multiset() =~= rest.to_multiset().insert(last));
        if last.scaled() < value {
            assert(below(samples, value) =~= below(rest, value).insert(at));
            assert(samples.to_multiset().filter(pick) =~= rest.to_multiset().filter(pick).insert(last));
        } else {
            assert(below(samples, value) =~= below(rest, value));
            assert(samples.to_multiset().filter(pick) =~= rest.to_multiset().filter(pick));
        }
    }
}

/// The rank of a sample is at least the number of samples worth less, and
/// less than the number of samples worth no more.
proof fn lemma_rank_bounds(samples: Seq<Double>, i: int)
    requires
        0 <= i < samples.len(),
    ensures
        below(samples, samples[i].scaled()).len() <= rank(samples, i),
        rank(samples, i) < below(samples, samples[i].scaled() + 1).len(),
{
    let value = samples[i].scaled();
    let under = below(samples, value);
    let upto = below(samples, value + 1);
    let found = predecessors(samples, i);
    lemma_rank_counts(samples, i);
    lemma_indices_finite(samples, upto);
    assert(under.subset_of(found));
    vstd::set_lib::lemma_len_subset(under, found);
    assert(found.insert(i).subset_of(upto));
    vstd::set_lib::lemma_len_subset(found.insert(i), upto);
}

/// The order in which the samples were taken does not change what a
/// percentile is worth.
pub proof fn law_percentile_ignores_order(
    samples: Seq<Double>,
    shuffled: Seq<Double>,
    percent: int,
    a: Double,
    b: Double,
)
    requires
        samples.to_multiset() == shuffled.to_multiset(),
        is_percentile(samples, percent, a),
        is_percentile(shuffled, percent, b),
    ensures
        a.scaled() == b.scaled(),
{
    broadcast use vstd::seq_lib::group_to_multiset_ensures;

    assert(samples.len() == samples.to_multiset().len());
    assert(shuffled.len() == shuffled.to_multiset().len());
    let place = spec_nearest_rank(samples.len() as int, percent);
    let i = choose|i: int|
        0 <= i < samples.len() && #[trigger] rank(samples, i) == place && a == samples[i];
    let k = choose|k: int|
        0 <= k < shuffled.len() && #[trigger] rank(shuffled, k) == place && b == shuffled[k];
    lemma_rank_bounds(samples, i);
    lemma_rank_bounds(shuffled, k);
    lemma_below_counts(samples, a.scaled());
    lemma_below_counts(shuffled, a.scaled());
    lemma_below_counts(samples, a.scaled() + 1);
    lemma_below_counts(shuffled, a.scaled() + 1);
    if a.scaled() < b.scaled() {
        lemma_indices_finite(shuffled, below(shuffled, b.scaled()));
        vstd::set_lib::lemma_len_subset(below(shuffled, a.scaled() + 1), below(shuffled, b.scaled()));
    }
    if b.scaled() < a.scaled() {
        lemma_indices_finite(shuffled, below(shuffled, a.scaled()));
        vstd::set_lib::lemma_len_subset(below(shuffled, b.scaled() + 1), below(shuffled, a.scaled()));
    }
}

/// Samples that are each worth no less give percentiles that are worth no
/// less.
pub proof fn law_slower_samples_give_no_faster_percentile(
    samples: Seq<Double>,
    slower: Seq<Double>,
    percent: int,
    a: Double,
    b: Double,
)
    requires
        samples.len() == slower.len(),
        forall|i: int| 0 <= i < samples.len() ==> (#[trigger] samples[i]).scaled() <= slower[i].scaled(),
        is_percentile(samples, percent, a),
        is_percentile(slower, percent, b),
    ensures
        a.scaled() <= b.scaled(),
{
    let place = spec_nearest_rank(samples.len() as int, percent);
    let i = choose|i: int|
        0 <= i < samples.len() && #[trigger] rank(samples, i) == place && a == samples[i];
    let k = choose|k: int|
        0 <= k < slower.len() && #[trigger] rank(slower, k) == place && b == slower[k];
    lemma_rank_bounds(samples, i);
    lemma_rank_bounds(slower, k);
    if b.scaled() < a.scaled() {
        lemma_indices_finite(samples, below(samples, a.scaled()));
        assert(below(slower, b.scaled() + 1).subset_of(below(samples, a.scaled()))) by {
            assert forall|j: int| below(slower, b.scaled() + 1).contains(j) implies below(
                samples,
                a.scaled(),
            ).contains(j) by {
                assert(samples[j].scaled() <= slower[j].scaled());
            }
        }
        vstd::set_lib::lemma_len_subset(below(slower, b.scaled() + 1), below(samples, a.scaled()));
    }
}

/// The place of a percentile is the integer nearest to
/// `(len - 1) * percent / 100`, the larger one of two.
pub proof fn law_place_is_nearest(len: usize, percent: u64, place: usize)
    requires
        call_ensures(nearest_rank, (len, percent), place),
    ensures
        -50 < 100 * place - (len - 1) * percent <= 50,
        0 < len && percent <= 100 ==> place < len,
{
    if 0 < len && percent <= 100 {
        lemma_nearest_rank_in_range(len as int, percent as int);
    }
}

/// The percentile of `n` samples has `place` samples before it in a stable
/// ascending sort, where `place` is within one half of `(n - 1) * percent / 100`:
/// no more samples than that are worth less, and more than that are worth no
/// more.
pub proof fn law_percentile_has_its_share_before(samples: Seq<Double>, percent: int, d: Double) -> (found: (int, int))
    requires
        is_percentile(samples, percent, d),
    ensures
        ({
            let (i, place) = found;
            let n = samples.len();
            let before = Set::new(
                |j: int|
                    0 <= j < n && (samples[j].scaled() < d.scaled() || (samples[j].scaled() == d.scaled() && j < i)),
            );
            let less = Set::new(|j: int| 0 <= j < n && samples[j].scaled() < d.scaled());
            let no_more = Set::new(|j: int| 0 <= j < n && samples[j].scaled() <= d.scaled());
            &&& 0 <= i < n
            &&& samples[i] == d
            &&& -50 < 100 * place - (n - 1) * percent <= 50
            &&& before.finite()
            &&& before.len() == place
            &&& less.finite()
            &&& less.len() <= place
            &&& no_more.finite()
            &&& place < no_more.len()
        }),
{
    let n = samples.len();
    let i = choose|i: int|
        0 <= i < n && #[trigger] rank(samples, i) == spec_nearest_rank(n as int, percent) && d == samples[i];
    let place = rank(samples, i) as int;
    let before = Set::new(
        |j: int| 0 <= j < n && (samples[j].scaled() < d.scaled() || (samples[j].scaled() == d.scaled() && j < i)),
    );
    let less = Set::new(|j: int| 0 <= j < n && samples[j].scaled() < d.scaled());
    let no_more = Set::new(|j: int| 0 <= j < n && samples[j].scaled() <= d.scaled());
    lemma_rank_counts(samples, i);
    lemma_rank_bounds(samples, i);
    lemma_indices_finite(samples, less);
    lemma_indices_finite(samples, no_more);
    assert(before =~= predecessors(samples, i));
    assert(less =~= below(samples, d.scaled()));
    assert(no_more =~= below(samples, d.scaled() + 1));
    (i, place)
}

/// Each of the three percentiles that the statistics of samples report has its
/// share of them before it: 50, 95 and 99 in a hundred, counted over all `n`
/// samples.
pub proof fn law_statistics_report_percentiles(
    samples: &[Double],
    mean: Double,
    latency: Latency,
    percent: int,
    d: Double,
) -> (found: (int, int))
    requires
        call_ensures(Latency::from_samples, (samples, mean), latency),
        samples@.len() > 0,
        (percent, d) == (50int, latency.p50) || (percent, d) == (95int, latency.p95) || (percent, d) == (
            99int,
            latency.p99,
        ),
    ensures
        ({
            let (i, place) = found;
            let n = samples@.len();
            let before = Set::new(
                |j: int|
                    0 <= j < n && (samples@[j].scaled() < d.scaled() || (samples@[j].scaled() == d.scaled() && j < i)),
            );
            let less = Set::new(|j: int| 0 <= j < n && samples@[j].scaled() < d.scaled());
            let no_more = Set::new(|j: int| 0 <= j < n && samples@[j].scaled() <= d.scaled());
            &&& 0 <= i < n
            &&& samples@[i] == d
            &&& -50 < 100 * place - (n - 1) * percent <= 50
            &&& before.finite()
            &&& before.len() == place
            &&& less.finite()
            &&& less.len() <= place
            &&& no_more.finite()
            &&& place < no_more.len()
        }),
{
    law_percentile_has_its_share_before(samples@, percent, d)
}

/// The statistics hold the mean as it is given. Of no samples they are all
/// zero, and of one sample every percentile is that sample.
pub proof fn law_statistics_of_few_samples(samples: &[Double], mean: Double, latency: Latency)
    requires
        call_ensures(Latency::from_samples, (samples, mean), latency),
    ensures
        samples@.len() > 0 ==> latency.mean == mean,
        samples@.len() == 0 ==> latency.mean.bits == 0 && latency.p50.bits == 0 && latency.p95.bits == 0
            && latency.p99.bits == 0,
        samples@.len() == 1 ==> latency.p50 == samples@[0] && latency.p95 == samples@[0] && latency.p99
            == samples@[0],
{
}

/// The default statistics are all zero.
pub proof fn law_default_statistics_are_zero(latency: Latency)
    requires
        call_ensures(<Latency as Default>::default, (), latency),
    ensures
        latency.mean.bits == 0,
        latency.p50.bits == 0,
        latency.p95.bits == 0,
        latency.p99.bits == 0,
{
}

} // verus!
