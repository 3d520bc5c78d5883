//! Median and median absolute deviation of whole numbers, without rounding.
//!
//! The median of whole numbers is a multiple of one half, and the median of the
//! distances from it a multiple of one quarter. Both are given as whole numbers
//! of these.

use vstd::prelude::*;

verus! {

/// Numbers as mathematical integers.
pub open spec fn integers(values: Seq<u64>) -> Seq<int> {
    Seq::new(values.len(), |i: int| values[i] as int)
}

/// Wide numbers as mathematical integers.
pub open spec fn wide_integers(values: Seq<u128>) -> Seq<int> {
    Seq::new(values.len(), |i: int| values[i] as int)
}

/// Twice the value in the middle of an ordered sample, or the sum of the two in
/// the middle.
pub open spec fn middle_doubled(ordered: Seq<int>) -> int {
    let n = ordered.len() as int;
    if n % 2 == 0 {
        ordered[n / 2 - 1] + ordered[n / 2]
    } else {
        2 * ordered[n / 2]
    }
}

/// The usual order of the integers.
pub open spec fn at_most() -> spec_fn(int, int) -> bool {
    |a: int, b: int| a <= b
}

/// A sample in rising order.
pub open spec fn rising(values: Seq<int>) -> Seq<int> {
    values.sort_by(at_most())
}

/// Twice the median of a sample.
pub open spec fn median_doubled(values: Seq<int>) -> int {
    middle_doubled(rising(values))
}

/// The distance of two numbers.
pub open spec fn distance(a: int, b: int) -> int {
    if a >= b {
        a - b
    } else {
        b - a
    }
}

/// Twice the distances of the values from the median.
pub open spec fn deviations_doubled(values: Seq<int>) -> Seq<int> {
    Seq::new(values.len(), |i: int| distance(2 * values[i], median_doubled(values)))
}

/// Four times the median of the distances from the median.
pub open spec fn deviation_quadrupled(values: Seq<int>) -> int {
    median_doubled(deviations_doubled(values))
}

/// Where a sample lies and how far it spreads.
#[derive(Debug, Clone, Copy, PartialEq, Eq, Structural)]
pub struct Spread {
    /// The median, in halves.
    pub median_halves: u128,
    /// The median absolute deviation, in quarters.
    pub deviation_quarters: u128,
}

/// The largest value that a sample of this module holds.
pub open spec fn sample_limit() -> int {
    0x2_0000_0000_0000_0000
}

/// Orders a sample.
fn ordered(values: &Vec<u128>) -> (out: Vec<u128>)
    ensures
        wide_integers(out@) == rising(wide_integers(values@)),
{
    let mut out: Vec<u128> = Vec::new();
    let mut i: usize = 0;
    proof {
        assert(wide_integers(out@) =~= wide_integers(values@).take(0));
    }
    while i < values.len()
        invariant
            i <= values.len(),
            out.len() == i,
            forall|a: int, b: int| 0 <= a <= b < out.len() ==> out@[a] <= out@[b],
            wide_integers(out@).to_multiset() == wide_integers(values@).take(i as int).to_multiset(),
        decreases values.len() - i,
    {
        let value: u128 = values[i];
        let mut at: usize = out.len();
        while at > 0 && out[at - 1] > value
            invariant
                at <= out.len(),
                forall|j: int| at <= j < out.len() ==> out@[j] > value,
            decreases at,
        {
            at -= 1;
        }
        let ghost before = out@;
        out.insert(at, value);
        proof {
            assert(wide_integers(out@) =~= wide_integers(before).insert(at as int, value as int));
            let earlier = wide_integers(values@).take(i as int);
            assert(wide_integers(values@).take(i as int + 1) =~= earlier.push(value as int));
            vstd::seq_lib::to_multiset_insert(wide_integers(before), at as int, value as int);
            vstd::seq_lib::to_multiset_build(earlier, value as int);
            assert forall|a: int, b: int| 0 <= a <= b < out.len() implies out@[a] <= out@[b] by {
                let x = if a < at { a } else { a - 1 };
                let y = if b < at { b } else { b - 1 };
                if a != at && b != at {
                    assert(before[x] <= before[y]);
                } else if b == at && a < at {
                    assert(before[a] <= before[at - 1]);
                }
            }
        }
        i += 1;
    }
    proof {
        let source = wide_integers(values@);
        assert(source.take(values.len() as int) =~= source);
        source.lemma_sort_by_ensures(at_most());
        assert(vstd::relations::sorted_by(wide_integers(out@), at_most()));
        vstd::seq_lib::lemma_sorted_unique(wide_integers(out@), rising(source), at_most());
    }
    out
}

/// Computes twice the median of a sample.
fn doubled_median(values: &Vec<u128>) -> (median: u128)
    requires
        values@.len() > 0,
        forall|i: int| 0 <= i < values@.len() ==> #[trigger] values@[i] < sample_limit(),
    ensures
        median == median_doubled(wide_integers(values@)),
        median < 2 * sample_limit(),
{
    let sorted = ordered(values);
    let n: usize = sorted.len();
    proof {
        let source = wide_integers(values@);
        rising_holds_the_same(source);
        assert forall|i: int| 0 <= i < n implies #[trigger] sorted@[i] < sample_limit() by {
            assert(wide_integers(sorted@)[i] == sorted@[i]);
            assert(rising(source).contains(sorted@[i] as int));
            let j = choose|j: int| 0 <= j < source.len() && source[j] == sorted@[i];
            assert(values@[j] == sorted@[i]);
        }
        assert forall|i: int| 0 <= i < n implies #[trigger] sorted@[i] == rising(source)[i] by {
            assert(wide_integers(sorted@)[i] == sorted@[i]);
        }
    }
    if n % 2 == 0 {
        sorted[n / 2 - 1] + sorted[n / 2]
    } else {
        2 * sorted[n / 2]
    }
}

/// Computes where a sample lies and how far it spreads; none if it is empty.
pub fn spread(values: &Vec<u64>) -> (out: Option<Spread>)
    ensures
        match out {
            Some(found) => {
                &&& values@.len() > 0
                &&& found.median_halves == median_doubled(integers(values@))
                &&& found.deviation_quarters == deviation_quadrupled(integers(values@))
            },
            None => values@.len() == 0,
        },
{
    let n: usize = values.len();
    if n == 0 {
        return None;
    }
    let mut wide: Vec<u128> = Vec::new();
    let mut i: usize = 0;
    while i < n
        invariant
            n == values@.len(),
            i <= n,
            wide@.len() == i,
            forall|j: int| 0 <= j < i ==> #[trigger] wide@[j] == values@[j],
        decreases n - i,
    {
        wide.push(values[i] as u128);
        i += 1;
    }
    proof {
        assert(wide_integers(wide@) =~= integers(values@));
    }
    let median_halves: u128 = doubled_median(&wide);
    let mut distances: Vec<u128> = Vec::new();
    let mut j: usize = 0;
    while j < n
        invariant
            n == values@.len(),
            j <= n,
            median_halves == median_doubled(integers(values@)),
            median_halves < 2 * sample_limit(),
            distances@.len() == j,
            forall|k: int|
                0 <= k < j ==> #[trigger] distances@[k] == distance(
                    2 * values@[k],
                    median_halves as int,
                ),
        decreases n - j,
    {
        let doubled: u128 = 2 * (values[j] as u128);
        let apart: u128 = if doubled >= median_halves {
            doubled - median_halves
        } else {
            median_halves - doubled
        };
        distances.push(apart);
        j += 1;
    }
    proof {
        assert(wide_integers(distances@) =~= deviations_doubled(integers(values@)));
        median_is_in_range(integers(values@), u64::MAX as int);
        assert forall|k: int| 0 <= k < distances@.len() implies #[trigger] distances@[k]
            < sample_limit() by {}
    }
    let deviation_quarters: u128 = doubled_median(&distances);
    Some(Spread { median_halves, deviation_quarters })
}

/// The median lies between the smallest and the largest value of a sample.
pub proof fn median_is_in_range(values: Seq<int>, limit: int)
    requires
        values.len() > 0,
        forall|i: int| 0 <= i < values.len() ==> 0 <= #[trigger] values[i] <= limit,
    ensures
        0 <= median_doubled(values) <= 2 * limit,
{
    rising_holds_the_same(values);
    let sorted = rising(values);
    assert forall|i: int| 0 <= i < sorted.len() implies 0 <= #[trigger] sorted[i] <= limit by {
        assert(sorted.contains(sorted[i]));
    }
}

/// Ordering a sample neither adds nor drops a value.
pub proof fn rising_holds_the_same(values: Seq<int>)
    ensures
        rising(values).len() == values.len(),
        forall|x: int| #[trigger] rising(values).contains(x) ==> values.contains(x),
{
    values.lemma_sort_by_ensures(at_most());
    vstd::seq_lib::to_multiset_len(values);
    vstd::seq_lib::to_multiset_len(rising(values));
}

/// The order in which a sample comes does not matter to its median and deviation.
pub proof fn order_does_not_matter(a: Seq<int>, b: Seq<int>)
    requires
        a.to_multiset() == b.to_multiset(),
    ensures
        median_doubled(a) == median_doubled(b),
        deviation_quadrupled(a) == deviation_quadrupled(b),
{
    same_order_for_the_same_values(a, b);
    let m = median_doubled(a);
    let f = |x: int| distance(2 * x, m);
    assert(deviations_doubled(a) =~= a.map_values(f));
    assert(deviations_doubled(b) =~= b.map_values(f));
    mapping_keeps_the_same_values(a, b, f);
    same_order_for_the_same_values(deviations_doubled(a), deviations_doubled(b));
}

proof fn same_order_for_the_same_values(a: Seq<int>, b: Seq<int>)
    requires
        a.to_multiset() == b.to_multiset(),
    ensures
        rising(a) == rising(b),
{
    a.lemma_sort_by_ensures(at_most());
    b.lemma_sort_by_ensures(at_most());
    vstd::seq_lib::lemma_sorted_unique(rising(a), rising(b), at_most());
}

/// Samples with the same values have the same values after each was mapped.
proof fn mapping_keeps_the_same_values(a: Seq<int>, b: Seq<int>, f: spec_fn(int) -> int)
    requires
        a.to_multiset() == b.to_multiset(),
    ensures
        a.map_values(f).to_multiset() == b.map_values(f).to_multiset(),
    decreases a.len(),
{
    vstd::seq_lib::to_multiset_len(a);
    vstd::seq_lib::to_multiset_len(b);
    if a.len() == 0 {
        assert(a.map_values(f) =~= b.map_values(f));
    } else {
        let x = a.last();
        vstd::seq_lib::to_multiset_contains(a, x);
        vstd::seq_lib::to_multiset_contains(b, x);
        assert(a[a.len() - 1] == x);
        assert(b.contains(x));
        let at = choose|at: int| 0 <= at < b.len() && b[at] == x;
        let shorter = a.drop_last();
        let fewer = b.remove(at);
        vstd::seq_lib::to_multiset_remove(a, a.len() - 1);
        vstd::seq_lib::to_multiset_remove(b, at);
        assert(a.remove(a.len() - 1) =~= shorter);
        mapping_keeps_the_same_values(shorter, fewer, f);
        vstd::seq_lib::to_multiset_remove(a.map_values(f), a.len() - 1);
        vstd::seq_lib::to_multiset_remove(b.map_values(f), at);
        assert(a.map_values(f).remove(a.len() - 1) =~= shorter.map_values(f));
        assert(b.map_values(f).remove(at) =~= fewer.map_values(f));
        let left = a.map_values(f).to_multiset();
        let right = b.map_values(f).to_multiset();
        vstd::seq_lib::to_multiset_contains(a.map_values(f), f(x));
        vstd::seq_lib::to_multiset_contains(b.map_values(f), f(x));
        assert(a.map_values(f)[a.len() - 1] == f(x));
        assert(b.map_values(f)[at] == f(x));
        broadcast use vstd::multiset::group_multiset_axioms;

        assert(left =~= left.remove(f(x)).insert(f(x)));
        assert(right =~= right.remove(f(x)).insert(f(x)));
    }
}

/// The median lies in the middle: of a sample in rising order, it is the mean of the values
/// that stand in the middle from below and from above, which are the same where their
/// number is odd.
pub proof fn the_median_is_in_the_middle(values: Seq<int>, sorted: Seq<int>)
    requires
        values.len() > 0,
        sorted.to_multiset() == values.to_multiset(),
        forall|i: int, j: int| 0 <= i <= j < sorted.len() ==> #[trigger] sorted[i] <= #[trigger] sorted[j],
    ensures
        sorted.len() == values.len(),
        median_doubled(values) == sorted[(values.len() - 1) / 2] + sorted[values.len() as int / 2],
{
    vstd::seq_lib::to_multiset_len(values);
    vstd::seq_lib::to_multiset_len(sorted);
    values.lemma_sort_by_ensures(at_most());
    assert(vstd::relations::sorted_by(sorted, at_most()));
    vstd::seq_lib::lemma_sorted_unique(rising(values), sorted, at_most());
}

/// The deviation is the median of the distances from the median, each of them taken
/// without its sign.
pub proof fn the_deviation_is_the_median_distance(
    values: Seq<int>,
    distances: Seq<int>,
    sorted: Seq<int>,
)
    requires
        values.len() > 0,
        distances.len() == values.len(),
        forall|i: int|
            0 <= i < values.len() ==> #[trigger] distances[i] >= 0 && (distances[i] == 2 * values[i]
                - median_doubled(values) || distances[i] == median_doubled(values) - 2 * values[i]),
        sorted.to_multiset() == distances.to_multiset(),
        forall|i: int, j: int| 0 <= i <= j < sorted.len() ==> #[trigger] sorted[i] <= #[trigger] sorted[j],
    ensures
        deviation_quadrupled(values) == sorted[(values.len() - 1) / 2] + sorted[values.len() as int
            / 2],
{
    assert(distances =~= deviations_doubled(values));
    the_median_is_in_the_middle(distances, sorted);
}

/// A sample of one value is that value, without deviation; in one of two, each is half
/// their difference away from the middle.
pub proof fn small_samples(a: int, b: int)
    requires
        a <= b,
    ensures
        median_doubled(seq![a]) == 2 * a,
        deviation_quadrupled(seq![a]) == 0,
        median_doubled(seq![b, a]) == a + b,
        deviation_quadrupled(seq![b, a]) == 2 * (b - a),
{
    the_median_is_in_the_middle(seq![a], seq![a]);
    the_deviation_is_the_median_distance(seq![a], seq![0int], seq![0int]);
    vstd::seq_lib::to_multiset_build(seq![a], b);
    vstd::seq_lib::to_multiset_build(seq![b], a);
    vstd::seq_lib::to_multiset_build(Seq::<int>::empty(), a);
    vstd::seq_lib::to_multiset_build(Seq::<int>::empty(), b);
    assert(Seq::<int>::empty().push(a) =~= seq![a]);
    assert(Seq::<int>::empty().push(b) =~= seq![b]);
    assert(seq![a].push(b) =~= seq![a, b]);
    assert(seq![b].push(a) =~= seq![b, a]);
    assert(seq![a, b].to_multiset() =~= seq![b, a].to_multiset());
    order_does_not_matter(seq![b, a], seq![a, b]);
    the_median_is_in_the_middle(seq![a, b], seq![a, b]);
    the_deviation_is_the_median_distance(seq![a, b], seq![b - a, b - a], seq![b - a, b - a]);
}

/// A sample has a spread exactly if it is not empty: its median and its deviation.
pub proof fn every_sample_has_a_spread(values: &Vec<u64>, out: Option<Spread>)
    requires
        call_ensures(spread, (values,), out),
    ensures
        out is None <==> values@.len() == 0,
        out matches Some(found) ==> found.median_halves == median_doubled(integers(values@))
            && found.deviation_quarters == deviation_quadrupled(integers(values@)),
{
}

} // verus!
