//! A weighted histogram of the number of events per bucket.

use vstd::prelude::*;

use crate::decay::DecayParams;
use crate::float;
use crate::float::{FloatOp, FloatUnit};
use crate::sorting;
use crate::stats;
use crate::weights;

verus! {

/// How histograms are kept.
#[derive(Debug, Clone, Copy, PartialEq, Eq, Structural)]
pub struct HistogramConfig {
    /// How fast weights decay.
    pub decay: DecayParams,
    /// How many bins a histogram may have. What comes beyond them goes into the one
    /// with the largest number.
    pub max_bins: usize,
}

/// What a histogram holds.
pub ghost struct HistogramView {
    /// The numbers of events that have been seen, each with the bits of its weight.
    pub bins: Seq<(u32, u32)>,
    /// The bucket of the last observation.
    pub last_touched_bucket: u64,
}

/// Whether the bin at a place collects what finds no bin of its own: no number is
/// larger than its own, and it is the last with that number.
pub open spec fn is_collector(bins: Seq<(u32, u32)>, place: int) -> bool {
    &&& 0 <= place < bins.len()
    &&& forall|i: int| 0 <= i < bins.len() ==> (#[trigger] bins[i]).0 <= bins[place].0
    &&& forall|i: int| place < i < bins.len() ==> (#[trigger] bins[i]).0 < bins[place].0
}

/// The place of the bin that collects what finds no bin of its own.
pub open spec fn collector(bins: Seq<(u32, u32)>) -> int {
    choose|place: int| is_collector(bins, place)
}

/// The bins after a number of events has been entered: into its own bin, into a
/// new one while there is room, and else into the collector.
pub open spec fn entered(
    bins: Seq<(u32, u32)>,
    count: u32,
    max_bins: nat,
    model: spec_fn(FloatOp) -> u64,
) -> Seq<(u32, u32)> {
    let place = weights::place_of(bins, count, 0);
    if place < bins.len() {
        weights::raised(bins, place, model)
    } else if bins.len() < max_bins {
        bins.push((count, float::ONE_WEIGHT))
    } else {
        weights::raised(bins, collector(bins), model)
    }
}

/// At least one bin.
pub open spec fn bin_limit(max_bins: usize) -> nat {
    if max_bins >= 1 {
        max_bins as nat
    } else {
        1
    }
}

impl HistogramView {
    /// A histogram without observations.
    pub open spec fn empty() -> HistogramView {
        HistogramView { bins: Seq::empty(), last_touched_bucket: 0 }
    }

    /// The histogram after an observation: first the weights decay, then the
    /// number is entered, and what has become negligible is dropped.
    pub open spec fn observed(
        self,
        count: u32,
        bucket: u64,
        config: HistogramConfig,
        model: spec_fn(FloatOp) -> u64,
    ) -> HistogramView {
        let elapsed = weights::elapsed_since(self.last_touched_bucket, bucket);
        HistogramView {
            bins: weights::pruned(
                entered(
                    weights::decayed(self.bins, elapsed, config.decay, model),
                    count,
                    bin_limit(config.max_bins),
                    model,
                ),
            ),
            last_touched_bucket: if bucket >= self.last_touched_bucket {
                bucket
            } else {
                self.last_touched_bucket
            },
        }
    }

    /// The sum of the weights.
    pub open spec fn total(self, model: spec_fn(FloatOp) -> u64) -> u64 {
        weights::total_of(self.bins, model)
    }

    /// Whether the weights reach a threshold.
    pub open spec fn trusted(self, min_weight: u64, model: spec_fn(FloatOp) -> u64) -> bool {
        float::at_least64(self.total(model), min_weight)
    }

    /// Twice the weighted median of the numbers, and four times that of their
    /// distances from it; none without weight.
    pub open spec fn median_deviation(self, model: spec_fn(FloatOp) -> u64) -> Option<(int, int)> {
        if self.bins.len() == 0 {
            None
        } else {
            let items = weighted_counts(self.bins);
            match weighted_median_doubled(items, model) {
                None => None,
                Some(median) => match weighted_median_doubled(
                    weighted_distances(self.bins, median),
                    model,
                ) {
                    None => None,
                    Some(deviation) => Some((median, deviation)),
                },
            }
        }
    }
}

/// The numbers of a histogram with their weights.
pub open spec fn weighted_counts(bins: Seq<(u32, u32)>) -> Seq<(u64, u32)> {
    Seq::new(bins.len(), |i: int| (bins[i].0 as u64, bins[i].1))
}

/// Twice the distances of the numbers of a histogram from the median, with their
/// weights.
pub open spec fn weighted_distances(bins: Seq<(u32, u32)>, median_doubled: int) -> Seq<(u64, u32)> {
    Seq::new(
        bins.len(),
        |i: int| (stats::distance(2 * bins[i].0, median_doubled) as u64, bins[i].1),
    )
}

/// The values of weighted items.
pub open spec fn values_of(items: Seq<(u64, u32)>) -> Seq<u64> {
    Seq::new(items.len(), |i: int| items[i].0)
}

/// Twice the value at which the weights, added up in the order of the items,
/// reach half of the total. Where they just meet it, it is the sum of that value
/// and the next.
pub open spec fn halfway_doubled(
    items: Seq<(u64, u32)>,
    from: int,
    cumulative: u64,
    total: u64,
    model: spec_fn(FloatOp) -> u64,
) -> int
    decreases items.len() - from,
{
    if from >= items.len() {
        2 * items.last().0
    } else {
        let sum = model(FloatOp::Accumulate { total: cumulative, weight: items[from].1 });
        let reach = model(FloatOp::ReachesHalf { cumulative: sum, total });
        if reach == 0 {
            halfway_doubled(items, from + 1, sum, total, model)
        } else if reach == 1 && from + 1 < items.len() {
            items[from].0 + items[from + 1].0
        } else {
            2 * items[from].0
        }
    }
}

/// Twice the weighted median; none without weight.
pub open spec fn weighted_median_doubled(
    items: Seq<(u64, u32)>,
    model: spec_fn(FloatOp) -> u64,
) -> Option<int> {
    let total = weights::total_of(items, model);
    if float::at_least64(float::ZERO_TOTAL, total) {
        None
    } else {
        Some(
            halfway_doubled(
                sorting::arranged(items, values_of(items)),
                0,
                float::ZERO_TOTAL,
                total,
                model,
            ),
        )
    }
}

/// Computes twice the weighted median.
fn weighted_median<F: Fn(FloatOp) -> u64>(
    items: &Vec<(u64, u32)>,
    Ghost(limit): Ghost<int>,
    floats: &FloatUnit<F>,
) -> (median: Option<u64>)
    requires
        floats.is_total(),
        items@.len() > 0,
        2 * limit <= u64::MAX,
        forall|i: int| 0 <= i < items@.len() ==> (#[trigger] items@[i]).0 <= limit,
    ensures
        median is Some ==> median->0 <= 2 * limit,
        forall|model: spec_fn(FloatOp) -> u64| #[trigger]
            floats.computes(model) ==> match median {
                Some(found) => weighted_median_doubled(items@, model) == Some(found as int),
                None => weighted_median_doubled(items@, model) is None,
            },
{
    let total: u64 = weights::total(items, floats);
    if float::is_at_least64(float::ZERO_TOTAL, total) {
        return None;
    }
    let n: usize = items.len();
    let mut values: Vec<u64> = Vec::new();
    let mut k: usize = 0;
    while k < n
        invariant
            n == items@.len(),
            k <= n,
            values@ =~= values_of(items@).take(k as int),
        decreases n - k,
    {
        values.push(items[k].0);
        k += 1;
    }
    proof {
        assert(values@ =~= values_of(items@));
    }
    let places = sorting::stable_order(&values);
    let ghost sorted = sorting::arranged(items@, values_of(items@));
    let mut cumulative: u64 = float::ZERO_TOTAL;
    let mut i: usize = 0;
    while i < n
        invariant
            floats.is_total(),
            n == items@.len() == places@.len(),
            sorted == sorting::arranged(items@, values_of(items@)),
            forall|j: int|
                0 <= j < n ==> #[trigger] places@[j] < n && sorted[j] == items@[places@[j] as int],
            2 * limit <= u64::MAX,
            forall|j: int| 0 <= j < items@.len() ==> (#[trigger] items@[j]).0 <= limit,
            i <= n,
            forall|model: spec_fn(FloatOp) -> u64| #[trigger]
                floats.computes(model) ==> halfway_doubled(
                    sorted,
                    i as int,
                    cumulative,
                    total,
                    model,
                ) == halfway_doubled(sorted, 0, float::ZERO_TOTAL, total, model),
            forall|model: spec_fn(FloatOp) -> u64| #[trigger]
                floats.computes(model) ==> total == weights::total_of(items@, model),
            !float::at_least64(float::ZERO_TOTAL, total),
        decreases n - i,
    {
        let place: usize = places[i];
        let (value, weight) = items[place];
        cumulative = floats.run(FloatOp::Accumulate { total: cumulative, weight });
        let reach: u64 = floats.run(FloatOp::ReachesHalf { cumulative, total });
        if reach != 0 {
            if reach == 1 && i + 1 < n {
                let next: usize = places[i + 1];
                return Some(value + items[next].0);
            }
            return Some(2 * value);
        }
        i += 1;
    }
    let last: usize = places[n - 1];
    Some(2 * items[last].0)
}

/// A histogram of numbers of events, with weights that decay.
#[derive(Debug, Clone, PartialEq)]
pub struct CountHistogram {
    bins: Vec<(u32, u32)>,
    last_touched_bucket: u64,
}

impl View for CountHistogram {
    type V = HistogramView;

    closed spec fn view(&self) -> HistogramView {
        HistogramView { bins: self.bins@, last_touched_bucket: self.last_touched_bucket }
    }
}

impl Default for CountHistogram {
    fn default() -> (histogram: CountHistogram)
        ensures
            histogram@ == HistogramView::empty(),
    {
        CountHistogram { bins: Vec::new(), last_touched_bucket: 0 }
    }
}

impl CountHistogram {
    /// Builds a histogram from its bins.
    pub fn from_bins(bins: Vec<(u32, u32)>, last_touched_bucket: u64) -> (histogram: CountHistogram)
        ensures
            histogram@ == (HistogramView { bins: bins@, last_touched_bucket }),
    {
        CountHistogram { bins, last_touched_bucket }
    }

    /// The bins: numbers of events, each with the bits of its weight.
    pub fn bins(&self) -> (bins: &Vec<(u32, u32)>)
        ensures
            bins@ == self@.bins,
    {
        &self.bins
    }

    /// A copy of the histogram.
    pub fn duplicate(&self) -> (copy: CountHistogram)
        ensures
            copy@ == self@,
    {
        let mut bins: Vec<(u32, u32)> = Vec::new();
        let mut i: usize = 0;
        while i < self.bins.len()
            invariant
                i <= self.bins@.len(),
                bins@ =~= self.bins@.take(i as int),
            decreases self.bins@.len() - i,
        {
            bins.push(self.bins[i]);
            i += 1;
        }
        proof {
            assert(bins@ =~= self.bins@);
        }
        CountHistogram { bins, last_touched_bucket: self.last_touched_bucket }
    }

    /// Takes an observation.
    pub fn observe<F: Fn(FloatOp) -> u64>(
        &mut self,
        count: u32,
        bucket: u64,
        config: &HistogramConfig,
        floats: &FloatUnit<F>,
    )
        requires
            floats.is_total(),
        ensures
            forall|model: spec_fn(FloatOp) -> u64| #[trigger]
                floats.computes(model) ==> final(self)@ == old(self)@.observed(
                    count,
                    bucket,
                    *config,
                    model,
                ),
            final(self)@.last_touched_bucket == if bucket >= old(self)@.last_touched_bucket {
                bucket
            } else {
                old(self)@.last_touched_bucket
            },
    {
        let elapsed: u64 = bucket.saturating_sub(self.last_touched_bucket);
        weights::decay_all(&mut self.bins, elapsed, config.decay, floats);
        self.insert(
            count,
            if config.max_bins >= 1 {
                config.max_bins
            } else {
                1
            },
            floats,
        );
        if bucket > self.last_touched_bucket {
            self.last_touched_bucket = bucket;
        }
        weights::prune(&mut self.bins);
    }

    /// Enters a number of events.
    fn insert<F: Fn(FloatOp) -> u64>(&mut self, count: u32, max_bins: usize, floats: &FloatUnit<F>)
        requires
            floats.is_total(),
            max_bins >= 1,
        ensures
            final(self).last_touched_bucket == old(self).last_touched_bucket,
            forall|model: spec_fn(FloatOp) -> u64| #[trigger]
                floats.computes(model) ==> final(self).bins@ == entered(
                    old(self).bins@,
                    count,
                    max_bins as nat,
                    model,
                ),
    {
        let n: usize = self.bins.len();
        let mut i: usize = 0;
        while i < n && self.bins[i].0 != count
            invariant
                n == self.bins@.len(),
                i <= n,
                weights::place_of(self.bins@, count, 0) == weights::place_of(
                    self.bins@,
                    count,
                    i as int,
                ),
            decreases n - i,
        {
            i += 1;
        }
        if i < n {
            weights::raise(&mut self.bins, i, floats);
            return;
        }
        if n < max_bins {
            self.bins.push((count, float::ONE_WEIGHT));
            return;
        }
        let mut place: usize = 0;
        let mut k: usize = 1;
        while k < n
            invariant
                n == self.bins@.len(),
                1 <= k <= n,
                place < k,
                is_collector(self.bins@.take(k as int), place as int),
            decreases n - k,
        {
            proof {
                let shorter = self.bins@.take(k as int);
                let longer = self.bins@.take(k as int + 1);
                assert(forall|j: int| 0 <= j < k ==> #[trigger] longer[j] == shorter[j]);
                assert(longer[k as int] == self.bins@[k as int]);
            }
            if self.bins[k].0 >= self.bins[place].0 {
                place = k;
            }
            k += 1;
        }
        proof {
            assert(self.bins@.take(n as int) =~= self.bins@);
            assert(is_collector(self.bins@, place as int));
            let other = collector(self.bins@);
            assert(is_collector(self.bins@, other));
            assert(other == place) by {
                assert(self.bins@[other].0 <= self.bins@[place as int].0);
            }
        }
        weights::raise(&mut self.bins, place, floats);
    }

    /// Adds up the weights.
    pub fn total_weight<F: Fn(FloatOp) -> u64>(&self, floats: &FloatUnit<F>) -> (total: u64)
        requires
            floats.is_total(),
        ensures
            forall|model: spec_fn(FloatOp) -> u64| #[trigger]
                floats.computes(model) ==> total == self@.total(model),
    {
        weights::total(&self.bins, floats)
    }

    /// Computes the weighted median, in halves, and the weighted median absolute
    /// deviation, in quarters.
    pub fn median_mad<F: Fn(FloatOp) -> u64>(&self, floats: &FloatUnit<F>) -> (found: Option<(u64, u64)>)
        requires
            floats.is_total(),
        ensures
            forall|model: spec_fn(FloatOp) -> u64| #[trigger]
                floats.computes(model) ==> match found {
                    Some((median, deviation)) => self@.median_deviation(model) == Some(
                        (median as int, deviation as int),
                    ),
                    None => self@.median_deviation(model) is None,
                },
    {
        let n: usize = self.bins.len();
        if n == 0 {
            return None;
        }
        let mut items: Vec<(u64, u32)> = Vec::new();
        let mut i: usize = 0;
        while i < n
            invariant
                n == self.bins@.len(),
                i <= n,
                items@ =~= weighted_counts(self.bins@).take(i as int),
            decreases n - i,
        {
            items.push((self.bins[i].0 as u64, self.bins[i].1));
            i += 1;
        }
        proof {
            assert(items@ =~= weighted_counts(self.bins@));
        }
        let median: u64 = match weighted_median(&items, Ghost(u32::MAX as int), floats) {
            Some(median) => median,
            None => {
                return None;
            },
        };
        let mut distances: Vec<(u64, u32)> = Vec::new();
        let mut j: usize = 0;
        while j < n
            invariant
                n == self.bins@.len(),
                j <= n,
                median <= 2 * u32::MAX,
                distances@ =~= weighted_distances(self.bins@, median as int).take(j as int),
            decreases n - j,
        {
            let doubled: u64 = 2 * (self.bins[j].0 as u64);
            let apart: u64 = if doubled >= median {
                doubled - median
            } else {
                median - doubled
            };
            distances.push((apart, self.bins[j].1));
            j += 1;
        }
        proof {
            assert(distances@ =~= weighted_distances(self.bins@, median as int));
        }
        match weighted_median(&distances, Ghost(2 * u32::MAX as int), floats) {
            Some(deviation) => Some((median, deviation)),
            None => None,
        }
    }

    /// Whether the weights reach a threshold, given by its bits.
    pub fn is_trusted<F: Fn(FloatOp) -> u64>(&self, min_weight: u64, floats: &FloatUnit<F>) -> (trusted:
        bool)
        requires
            floats.is_total(),
        ensures
            forall|model: spec_fn(FloatOp) -> u64| #[trigger]
                floats.computes(model) ==> trusted == self@.trusted(min_weight, model),
    {
        float::is_at_least64(self.total_weight(floats), min_weight)
    }

    /// The bucket of the last observation.
    pub fn last_touched_bucket(&self) -> (bucket: u64)
        ensures
            bucket == self@.last_touched_bucket,
    {
        self.last_touched_bucket
    }
}

/// An observation: a number of events, and the bucket that had them.
pub ghost struct Observation {
    /// How many events there were.
    pub count: u32,
    /// The bucket.
    pub bucket: u64,
}

impl HistogramView {
    /// The histogram after a number of observations, one after the other.
    pub open spec fn observed_all(
        self,
        observations: Seq<Observation>,
        config: HistogramConfig,
        model: spec_fn(FloatOp) -> u64,
    ) -> HistogramView
        decreases observations.len(),
    {
        if observations.len() == 0 {
            self
        } else {
            self.observed_all(observations.drop_last(), config, model).observed(
                observations.last().count,
                observations.last().bucket,
                config,
                model,
            )
        }
    }
}

/// However many observations a histogram takes, it never has more bins than it may have.
pub proof fn bins_stay_bounded(
    observations: Seq<Observation>,
    config: HistogramConfig,
    model: spec_fn(FloatOp) -> u64,
)
    ensures
        HistogramView::empty().observed_all(observations, config, model).bins.len() <= bin_limit(
            config.max_bins,
        ),
    decreases observations.len(),
{
    if observations.len() > 0 {
        let earlier = observations.drop_last();
        bins_stay_bounded(earlier, config, model);
        an_observation_keeps_the_bound(
            HistogramView::empty().observed_all(earlier, config, model),
            observations.last().count,
            observations.last().bucket,
            config,
            model,
        );
    }
}

/// An observation does not give a histogram more bins than it may have.
proof fn an_observation_keeps_the_bound(
    histogram: HistogramView,
    count: u32,
    bucket: u64,
    config: HistogramConfig,
    model: spec_fn(FloatOp) -> u64,
)
    requires
        histogram.bins.len() <= bin_limit(config.max_bins),
    ensures
        histogram.observed(count, bucket, config, model).bins.len() <= bin_limit(config.max_bins),
{
    let elapsed = weights::elapsed_since(histogram.last_touched_bucket, bucket);
    let all = entered(
        weights::decayed(histogram.bins, elapsed, config.decay, model),
        count,
        bin_limit(config.max_bins),
        model,
    );
    weights::pruning_keeps_what_counts(all);
    let bins = weights::decayed(histogram.bins, elapsed, config.decay, model);
    weights::place_is_in_range(bins, count, 0);
    if bins.len() > 0 {
        collector_exists(bins);
    }
}

/// Where there is a bin, one of them collects.
proof fn collector_exists(bins: Seq<(u32, u32)>)
    requires
        bins.len() > 0,
    ensures
        is_collector(bins, collector(bins)),
    decreases bins.len(),
{
    let last = bins.len() - 1;
    if last == 0 {
        assert(is_collector(bins, 0));
    } else {
        let fewer = bins.drop_last();
        collector_exists(fewer);
        let place = collector(fewer);
        assert(forall|i: int| 0 <= i < last ==> #[trigger] bins[i] == fewer[i]);
        if bins[last].0 >= bins[place].0 {
            assert(is_collector(bins, last));
        } else {
            assert(is_collector(bins, place));
        }
    }
}

/// The first observation of a histogram makes one bin, for just that number, with the
/// weight of one.
pub proof fn the_first_observation_counts_one(
    count: u32,
    bucket: u64,
    config: HistogramConfig,
    model: spec_fn(FloatOp) -> u64,
)
    ensures
        ({
            let after = HistogramView::empty().observed(count, bucket, config, model);
            &&& after.bins == seq![(count, 0x3f80_0000u32)]
            &&& after.last_touched_bucket == bucket
            &&& after.total(model) == model(
                FloatOp::Accumulate { total: 0, weight: 0x3f80_0000u32 },
            )
        }),
{
    let none = Seq::<(u32, u32)>::empty();
    weights::weights_decay_with_the_buckets(none, 0, bucket, config.decay, model);
    assert(weights::decayed(none, weights::elapsed_since(0, bucket), config.decay, model) =~= none);
    weights::pruning_drops_what_is_too_light(none, (count, 0x3f80_0000u32));
    assert(weights::pruned(none) =~= none);
    assert(none.push((count, 0x3f80_0000u32)) =~= seq![(count, 0x3f80_0000u32)]);
    weights::weights_add_up(none, (count, 0x3f80_0000u32), model);
}

/// An observation in the bucket of the last one, or in an earlier one, decays nothing.
/// The number that is observed gains what one more observation adds; a number that was
/// not seen before gets a bin of its own, with the weight of one, while there is room;
/// all other bins stay as they are.
pub proof fn an_observation_raises_its_own_bin(
    histogram: HistogramView,
    count: u32,
    bucket: u64,
    config: HistogramConfig,
    model: spec_fn(FloatOp) -> u64,
    place: int,
)
    requires
        bucket <= histogram.last_touched_bucket,
        config.max_bins >= 1,
        0 <= place <= histogram.bins.len(),
        forall|i: int| 0 <= i < place ==> (#[trigger] histogram.bins[i]).0 != count,
        place < histogram.bins.len() ==> histogram.bins[place].0 == count,
    ensures
        ({
            let after = histogram.observed(count, bucket, config, model);
            let bins = histogram.bins;
            &&& after.last_touched_bucket == histogram.last_touched_bucket
            &&& place < bins.len() ==> after.bins == weights::pruned(
                bins.update(
                    place,
                    (count, model(FloatOp::Increment { weight: bins[place].1 }) as u32),
                ),
            )
            &&& place == bins.len() && bins.len() < config.max_bins ==> after.bins
                == weights::pruned(bins.push((count, 0x3f80_0000u32)))
        }),
{
    let bins = histogram.bins;
    weights::place_is_in_range(bins, count, 0);
}

/// A number that was not seen before, and for which there is no room, counts for the
/// largest number that was.
pub proof fn no_room_means_the_largest_bin(
    histogram: HistogramView,
    count: u32,
    bucket: u64,
    config: HistogramConfig,
    model: spec_fn(FloatOp) -> u64,
    largest: int,
)
    requires
        bucket <= histogram.last_touched_bucket,
        1 <= config.max_bins <= histogram.bins.len(),
        forall|i: int| 0 <= i < histogram.bins.len() ==> (#[trigger] histogram.bins[i]).0 != count,
        0 <= largest < histogram.bins.len(),
        forall|i: int|
            0 <= i < largest ==> (#[trigger] histogram.bins[i]).0 <= histogram.bins[largest].0,
        forall|i: int|
            largest < i < histogram.bins.len() ==> (#[trigger] histogram.bins[i]).0
                < histogram.bins[largest].0,
    ensures
        histogram.observed(count, bucket, config, model).bins == weights::pruned(
            histogram.bins.update(
                largest,
                (
                    histogram.bins[largest].0,
                    model(FloatOp::Increment { weight: histogram.bins[largest].1 }) as u32,
                ),
            ),
        ),
{
    let bins = histogram.bins;
    weights::place_is_in_range(bins, count, 0);
    assert(is_collector(bins, largest));
    collector_exists(bins);
    let other = collector(bins);
    if other < largest {
        assert(bins[largest].0 < bins[other].0);
    } else if other > largest {
        assert(bins[other].0 < bins[largest].0);
    }
}

/// A histogram is trusted exactly if its weights add up to the threshold. Numbers that
/// are not negative are compared by their bits.
pub proof fn trust_takes_weight(
    histogram: HistogramView,
    min_weight: u64,
    model: spec_fn(FloatOp) -> u64,
)
    requires
        min_weight <= 0x7ff0_0000_0000_0000,
        histogram.total(model) <= 0x7ff0_0000_0000_0000,
    ensures
        histogram.trusted(min_weight, model) <==> histogram.total(model) >= min_weight,
{
    float::bits_compare_as_numbers(histogram.total(model), min_weight);
}

/// Where only one number was ever seen, the median is that number and nothing deviates
/// from it.
pub proof fn one_number_is_the_median(
    histogram: HistogramView,
    count: u32,
    weight: u32,
    model: spec_fn(FloatOp) -> u64,
)
    requires
        histogram.bins == seq![(count, weight)],
        0 < model(FloatOp::Accumulate { total: 0, weight }) <= 0x7ff0_0000_0000_0000,
    ensures
        histogram.median_deviation(model) == Some((2 * count as int, 0int)),
{
    let bins = histogram.bins;
    assert(bins =~= Seq::<(u32, u32)>::empty().push((count, weight)));
    let items = weighted_counts(bins);
    one_item_is_the_median(items, model);
    let distances = weighted_distances(bins, 2 * count as int);
    one_item_is_the_median(distances, model);
}

proof fn one_item_is_the_median(items: Seq<(u64, u32)>, model: spec_fn(FloatOp) -> u64)
    requires
        items.len() == 1,
        0 < model(FloatOp::Accumulate { total: 0, weight: items[0].1 }) <= 0x7ff0_0000_0000_0000,
    ensures
        weighted_median_doubled(items, model) == Some(2 * items[0].0 as int),
{
    let none = Seq::<(u64, u32)>::empty();
    assert(items =~= none.push(items[0]));
    weights::weights_add_up(none, items[0], model);
    let total = weights::total_of(items, model);
    float::bits_compare_as_numbers(0, total);
    sorting::the_order_is_stable(values_of(items));
    let sorted = sorting::arranged(items, values_of(items));
    assert(0 <= sorting::stably_sorted(values_of(items))[0].1 < 1);
    assert(sorted =~= items);
    reveal_with_fuel(halfway_doubled, 3);
}

/// Of two numbers, in whatever order their bins stand, the median is the smaller if its
/// weight is more than half of all, the larger if it is less, and the mean of both if it
/// is just half. The deviation is found in the same way from the distances to it.
pub proof fn the_heavier_number_is_the_median(
    histogram: HistogramView,
    smaller: (u32, u32),
    larger: (u32, u32),
    total: u64,
    reach: u64,
    model: spec_fn(FloatOp) -> u64,
)
    requires
        smaller.0 < larger.0,
        histogram.bins == seq![smaller, larger] || histogram.bins == seq![larger, smaller],
        total == histogram.total(model),
        0 < total <= 0x7ff0_0000_0000_0000,
        reach == model(
            FloatOp::ReachesHalf {
                cumulative: model(FloatOp::Accumulate { total: 0, weight: smaller.1 }),
                total,
            },
        ),
    ensures
        histogram.median_deviation(model) matches Some((median, _)) ==> median == if reach == 0 {
            2 * larger.0 as int
        } else if reach == 1 {
            smaller.0 + larger.0
        } else {
            2 * smaller.0 as int
        },
        weighted_median_doubled(weighted_counts(histogram.bins), model) is Some,
{
    let bins = histogram.bins;
    let items = weighted_counts(bins);
    let keys = values_of(items);
    same_total(bins, items, model);
    float::bits_compare_as_numbers(0, total);
    sorting::the_order_is_stable(keys);
    let order = sorting::stably_sorted(keys);
    let sorted = sorting::arranged(items, keys);
    let first = order[0].1;
    let second = order[1].1;
    assert(0 <= first < 2 && 0 <= second < 2);
    assert(keys[first] < keys[second] || keys[first] == keys[second] && first < second);
    assert(keys[0] != keys[1]);
    assert(sorted[0] == (smaller.0 as u64, smaller.1));
    assert(sorted[1] == (larger.0 as u64, larger.1));
    reveal_with_fuel(halfway_doubled, 4);
}

proof fn same_total(bins: Seq<(u32, u32)>, items: Seq<(u64, u32)>, model: spec_fn(FloatOp) -> u64)
    requires
        bins.len() == items.len(),
        forall|i: int| 0 <= i < bins.len() ==> (#[trigger] items[i]).1 == bins[i].1,
    ensures
        weights::total_of(bins, model) == weights::total_of(items, model),
    decreases bins.len(),
{
    if bins.len() > 0 {
        assert(items.last().1 == bins.last().1);
        assert forall|i: int| 0 <= i < bins.len() - 1 implies (#[trigger] items.drop_last()[i]).1
            == bins.drop_last()[i].1 by {
            assert(items[i].1 == bins[i].1);
        }
        same_total(bins.drop_last(), items.drop_last(), model);
    }
}

/// The median lies between the smallest and the largest number, whatever they weigh.
pub proof fn the_median_is_among_the_numbers(
    histogram: HistogramView,
    low: int,
    high: int,
    model: spec_fn(FloatOp) -> u64,
)
    requires
        forall|i: int|
            0 <= i < histogram.bins.len() ==> low <= (#[trigger] histogram.bins[i]).0 <= high,
    ensures
        histogram.median_deviation(model) matches Some((median, deviation)) ==> 2 * low <= median
            <= 2 * high,
{
    let items = weighted_counts(histogram.bins);
    if items.len() > 0 {
        let keys = values_of(items);
        sorting::the_order_is_stable(keys);
        let sorted = sorting::arranged(items, keys);
        assert forall|i: int| 0 <= i < sorted.len() implies low <= (#[trigger] sorted[i]).0 <= high by {
            let place = sorting::stably_sorted(keys)[i].1;
            assert(0 <= place < items.len());
            assert(low <= histogram.bins[place].0 <= high);
        }
        halfway_is_in_range(
            sorted,
            0,
            float::ZERO_TOTAL,
            weights::total_of(items, model),
            low,
            high,
            model,
        );
    }
}

proof fn halfway_is_in_range(
    items: Seq<(u64, u32)>,
    from: int,
    cumulative: u64,
    total: u64,
    low: int,
    high: int,
    model: spec_fn(FloatOp) -> u64,
)
    requires
        items.len() > 0,
        0 <= from <= items.len(),
        forall|i: int| 0 <= i < items.len() ==> low <= (#[trigger] items[i]).0 <= high,
    ensures
        2 * low <= halfway_doubled(items, from, cumulative, total, model) <= 2 * high,
    decreases items.len() - from,
{
    assert(low <= items.last().0 <= high) by {
        assert(items[items.len() - 1] == items.last());
    }
    if from < items.len() {
        let sum = model(FloatOp::Accumulate { total: cumulative, weight: items[from].1 });
        halfway_is_in_range(items, from + 1, sum, total, low, high, model);
        if from + 1 < items.len() {
            assert(low <= items[from + 1].0 <= high);
        }
        assert(low <= items[from].0 <= high);
    }
}

/// Where the median is the mean of two numbers, each of them is half their difference
/// away from it; and no number is further from the median than the smallest and the
/// largest are apart.
pub proof fn deviations_are_distances_from_the_median(
    histogram: HistogramView,
    smaller: (u32, u32),
    larger: (u32, u32),
    low: int,
    high: int,
    model: spec_fn(FloatOp) -> u64,
)
    requires
        0 <= low <= high <= u32::MAX,
        forall|i: int|
            0 <= i < histogram.bins.len() ==> low <= (#[trigger] histogram.bins[i]).0 <= high,
    ensures
        histogram.median_deviation(model) matches Some((median, deviation)) ==> {
            &&& 0 <= deviation <= 4 * (high - low)
            &&& histogram.bins == seq![smaller, larger] && smaller.0 < larger.0 && median
                == smaller.0 + larger.0 ==> deviation == 2 * (larger.0 - smaller.0)
        },
{
    the_median_is_among_the_numbers(histogram, low, high, model);
    let bins = histogram.bins;
    if let Some((median, deviation)) = histogram.median_deviation(model) {
        let items = weighted_distances(bins, median);
        let keys = values_of(items);
        sorting::the_order_is_stable(keys);
        let sorted = sorting::arranged(items, keys);
        let total = weights::total_of(items, model);
        assert forall|i: int| 0 <= i < sorted.len() implies 0 <= (#[trigger] sorted[i]).0 <= 2 * (high
            - low) by {
            let place = sorting::stably_sorted(keys)[i].1;
            assert(0 <= place < items.len());
            assert(low <= bins[place].0 <= high);
        }
        halfway_is_in_range(sorted, 0, float::ZERO_TOTAL, total, 0, 2 * (high - low), model);
        if bins == seq![smaller, larger] && smaller.0 < larger.0 && median == smaller.0 + larger.0 {
            let apart = larger.0 - smaller.0;
            assert forall|i: int| 0 <= i < sorted.len() implies apart <= (#[trigger] sorted[i]).0
                <= apart by {
                let place = sorting::stably_sorted(keys)[i].1;
                assert(0 <= place < items.len());
                assert(bins[place] == smaller || bins[place] == larger);
            }
            halfway_is_in_range(sorted, 0, float::ZERO_TOTAL, total, apart, apart, model);
        }
    }
}

/// An observation in a later bucket is one in a histogram whose weights have decayed by the
/// buckets that went by, each by itself; no number is lost before it is too light.
pub proof fn a_later_observation_is_one_after_decay(
    histogram: HistogramView,
    count: u32,
    bucket: u64,
    config: HistogramConfig,
    model: spec_fn(FloatOp) -> u64,
    faded: HistogramView,
)
    requires
        bucket > histogram.last_touched_bucket,
        faded.last_touched_bucket == bucket,
        faded.bins.len() == histogram.bins.len(),
        forall|i: int|
            0 <= i < faded.bins.len() ==> (#[trigger] faded.bins[i]).0 == histogram.bins[i].0
                && faded.bins[i].1 == model(
                FloatOp::Decay {
                    weight: histogram.bins[i].1,
                    elapsed: (bucket - histogram.last_touched_bucket) as u64,
                    decay: config.decay,
                },
            ) as u32,
    ensures
        histogram.observed(count, bucket, config, model) == faded.observed(
            count,
            bucket,
            config,
            model,
        ),
        histogram.observed(count, bucket, config, model).last_touched_bucket == bucket,
{
    let elapsed = weights::elapsed_since(histogram.last_touched_bucket, bucket);
    assert(weights::decayed(histogram.bins, elapsed, config.decay, model) =~= faded.bins);
    assert(weights::decayed(faded.bins, 0, config.decay, model) == faded.bins);
}

/// A histogram is read as it was built, copies included.
pub proof fn a_histogram_is_read_as_it_was_built(
    bins: Vec<(u32, u32)>,
    bucket: u64,
    histogram: CountHistogram,
    copy: CountHistogram,
    read: &Vec<(u32, u32)>,
    touched: u64,
)
    requires
        call_ensures(CountHistogram::from_bins, (bins, bucket), histogram),
        call_ensures(CountHistogram::duplicate, (&histogram,), copy),
        call_ensures(CountHistogram::bins, (&copy,), read),
        call_ensures(CountHistogram::last_touched_bucket, (&copy,), touched),
    ensures
        read@ == bins@,
        touched == bucket,
{
}

} // verus!
