//! All baselines: a histogram for every unit, template and slot, a profile for
//! every unit, and the bucket that is still open for every unit.

use std::collections::HashMap;

use vstd::prelude::*;

use crate::config::BaselineConfig;
use crate::decay;
use crate::decay::DecayParams;
use crate::float;
use crate::float::{FloatOp, FloatUnit};
use crate::hash;
use crate::histogram::{CountHistogram, HistogramConfig, HistogramView};
use crate::profile::{ProfileConfig, ProfileShare, ProfileView, UnitProfile};
use crate::slot;
use crate::slot::Slot;
use crate::tables;
use crate::tables::CompositeMap;
use crate::template::TemplateId;
use crate::text;
use crate::window::saturating_micros;

verus! {

/// Stands for the name of the unit of events that have none.
pub const NO_UNIT_NAME: &'static str = "<none>";

/// The key of a unit: the hash of its name.
pub open spec fn unit_key(unit: Option<Seq<char>>) -> u64 {
    hash::fnv1a(
        vstd::utf8::encode_utf8(
            match unit {
                Some(name) => name,
                None => NO_UNIT_NAME@,
            },
        ),
    )
}

/// Computes the key of a unit. Events without a unit are taken together.
pub fn unit_key_from_name(unit: Option<&str>) -> (key: u64)
    ensures
        key == unit_key(text::str_of(unit)),
{
    match unit {
        Some(name) => hash::fnv1a_hash64(name.as_bytes()),
        None => hash::fnv1a_hash64(NO_UNIT_NAME.as_bytes()),
    }
}

/// What a baseline is about.
#[derive(Debug, Clone, Copy, PartialEq, Eq, Hash, Structural)]
pub struct BaselineKey {
    /// The key of the unit.
    pub unit_key: u64,
    /// The template.
    pub template_id: TemplateId,
    /// The slot.
    pub slot: Slot,
}

impl BaselineKey {
    /// The parts of the key.
    pub open spec fn parts(self) -> (u64, u64, u8) {
        (self.unit_key, self.template_id.0, self.slot.0)
    }

    /// Takes the key apart.
    pub fn as_parts(&self) -> (parts: (u64, u64, u8))
        ensures
            parts == self.parts(),
    {
        (self.unit_key, self.template_id.0, self.slot.0)
    }
}

/// Where the rate of a template is held against.
#[derive(Debug, Clone, Copy, PartialEq, Eq, Structural)]
pub enum RateSource {
    /// The baseline of the slot.
    SlotBaseline,
    /// The baseline of any time.
    AnySlotBaseline,
    /// The history of the last buckets.
    ShortTerm,
    /// Nothing.
    Nowhere,
}

/// The baseline that a rate is held against.
#[derive(Debug, Clone, Copy, PartialEq, Eq, Structural)]
pub struct BaselineRate {
    /// The weighted median, in halves.
    pub median_halves: u64,
    /// The weighted median absolute deviation, in quarters.
    pub deviation_quarters: u64,
}

/// The baselines as they are stored.
#[derive(Debug, Clone, PartialEq)]
pub struct BaselineSnapshot {
    /// The histograms.
    pub histograms: Vec<(BaselineKey, CountHistogram)>,
    /// The profiles, by the keys of their units.
    pub profiles: Vec<(u64, UnitProfile)>,
}

impl Default for BaselineSnapshot {
    fn default() -> (snapshot: BaselineSnapshot)
        ensures
            snapshot.histograms@.len() == 0,
            snapshot.profiles@.len() == 0,
    {
        BaselineSnapshot { histograms: Vec::new(), profiles: Vec::new() }
    }
}

/// What stored histograms say.
pub open spec fn stored_histograms(entries: Seq<(BaselineKey, CountHistogram)>) -> Seq<
    ((u64, u64, u8), HistogramView),
> {
    Seq::new(entries.len(), |i: int| (entries[i].0.parts(), entries[i].1@))
}

/// What stored profiles say.
pub open spec fn stored_profiles(entries: Seq<(u64, UnitProfile)>) -> Seq<(u64, ProfileView)> {
    Seq::new(entries.len(), |i: int| (entries[i].0, entries[i].1@))
}

/// What is open for a unit.
pub ghost struct UnitView {
    /// The bucket that is open.
    pub open_bucket: Option<u64>,
    /// The slot in which it was opened.
    pub open_slot: u8,
    /// The events of every template in the open bucket.
    pub counts: Map<u64, u32>,
    /// The templates of the unit, with the bucket of their last event.
    pub known: Map<u64, u64>,
    /// The bucket of the last event.
    pub last_touched_bucket: u64,
}

impl UnitView {
    /// A unit without events.
    pub open spec fn empty() -> UnitView {
        UnitView {
            open_bucket: None,
            open_slot: Slot::ANY,
            counts: Map::empty(),
            known: Map::empty(),
            last_touched_bucket: 0,
        }
    }

    /// How many events of a template the open bucket has.
    pub open spec fn count(self, template_id: u64) -> u32 {
        if self.counts.contains_key(template_id) {
            self.counts[template_id]
        } else {
            0
        }
    }

    /// Whether an event in a bucket ends the open one.
    pub open spec fn ends_before(self, bucket: u64) -> bool {
        self.open_bucket is Some && bucket > self.open_bucket->0
    }

    /// The unit once the bucket of an event is open. Events of earlier buckets count
    /// for the open one.
    pub open spec fn opened(self, bucket: u64, slot: u8) -> UnitView {
        let last_touched_bucket = if bucket >= self.last_touched_bucket {
            bucket
        } else {
            self.last_touched_bucket
        };
        if self.ends_before(bucket) {
            UnitView {
                open_bucket: Some(bucket),
                open_slot: slot,
                counts: Map::empty(),
                last_touched_bucket,
                ..self
            }
        } else if self.open_bucket is None {
            UnitView { open_bucket: Some(bucket), open_slot: slot, last_touched_bucket, ..self }
        } else {
            UnitView { last_touched_bucket, ..self }
        }
    }

    /// The unit after an event of a template.
    pub open spec fn counted(self, template_id: u64, bucket: u64) -> UnitView {
        UnitView {
            counts: self.counts.insert(template_id, (self.count(template_id) + 1) as u32),
            known: self.known.insert(template_id, bucket),
            ..self
        }
    }

    /// Whether no template of the unit has been without an event for longer.
    pub open spec fn is_oldest(self, template_id: u64) -> bool {
        &&& self.known.contains_key(template_id)
        &&& forall|other: u64| #[trigger]
            self.known.contains_key(other) ==> self.known[template_id] <= self.known[other]
    }

    /// Whether `after` does not know too many templates: if there was one too many,
    /// one of those whose last event is longest ago has been forgotten.
    pub open spec fn forgets(self, max_known: usize, after: UnitView) -> bool {
        let limit = if max_known >= 1 {
            max_known as nat
        } else {
            1
        };
        if self.known.len() <= limit {
            after == self
        } else {
            exists|oldest: u64| #[trigger] self.is_oldest(oldest) && after == (UnitView {
                known: self.known.remove(oldest),
                counts: self.counts.remove(oldest),
                ..self
            })
        }
    }
}

/// All baselines.
pub ghost struct StoreView {
    /// The histograms, by unit, template and slot.
    pub histograms: Map<(u64, u64, u8), HistogramView>,
    /// The profiles, by unit.
    pub profiles: Map<u64, ProfileView>,
    /// What is open, by unit.
    pub units: Map<u64, UnitView>,
    /// The length of a bucket.
    pub bucket_us: u64,
    /// How fast weights decay.
    pub decay: DecayParams,
    /// The settings.
    pub settings: BaselineConfig,
}

/// A histogram, or an empty one if there is none.
pub open spec fn histogram_at(
    histograms: Map<(u64, u64, u8), HistogramView>,
    key: (u64, u64, u8),
) -> HistogramView {
    if histograms.contains_key(key) {
        histograms[key]
    } else {
        HistogramView::empty()
    }
}

/// Whether the end of a bucket of a unit is an observation for a histogram: for
/// those of the given templates, in the slot of the bucket and in the one that
/// stands for any time.
pub open spec fn is_observed(
    key: (u64, u64, u8),
    unit_key: u64,
    templates: Set<u64>,
    slot: u8,
) -> bool {
    key.0 == unit_key && templates.contains(key.1) && (key.2 == slot || key.2 == Slot::ANY)
}

/// Whether the end of a bucket of a unit has made and changed just those histograms
/// for which it is an observation.
pub open spec fn only_observed_change(
    before: Map<(u64, u64, u8), HistogramView>,
    after: Map<(u64, u64, u8), HistogramView>,
    unit_key: u64,
    templates: Set<u64>,
    slot: u8,
) -> bool {
    forall|key: (u64, u64, u8)|
        {
            &&& #[trigger] after.contains_key(key) <==> before.contains_key(key) || is_observed(
                key,
                unit_key,
                templates,
                slot,
            )
            &&& before.contains_key(key) && !is_observed(key, unit_key, templates, slot)
                ==> after[key] == before[key]
        }
}

/// The histograms after the open bucket of a unit has ended. Every template that
/// is given is observed: with the number of its events, or with zero.
pub open spec fn closed_for(
    histograms: Map<(u64, u64, u8), HistogramView>,
    unit_key: u64,
    unit: UnitView,
    templates: Set<u64>,
    bucket: u64,
    config: HistogramConfig,
    model: spec_fn(FloatOp) -> u64,
) -> Map<(u64, u64, u8), HistogramView> {
    Map::new(
        |key: (u64, u64, u8)|
            histograms.contains_key(key) || is_observed(key, unit_key, templates, unit.open_slot),
        |key: (u64, u64, u8)|
            if is_observed(key, unit_key, templates, unit.open_slot) {
                histogram_at(histograms, key).observed(unit.count(key.1), bucket, config, model)
            } else {
                histograms[key]
            },
    )
}

/// The histograms after an observation for one of them.
pub open spec fn observed_at(
    histograms: Map<(u64, u64, u8), HistogramView>,
    key: (u64, u64, u8),
    count: u32,
    bucket: u64,
    config: HistogramConfig,
    model: spec_fn(FloatOp) -> u64,
) -> Map<(u64, u64, u8), HistogramView> {
    histograms.insert(key, histogram_at(histograms, key).observed(count, bucket, config, model))
}

/// The histograms after an observation in a slot, which is one at any time too.
pub open spec fn observed_in_both(
    histograms: Map<(u64, u64, u8), HistogramView>,
    key: (u64, u64, u8),
    count: u32,
    bucket: u64,
    config: HistogramConfig,
    model: spec_fn(FloatOp) -> u64,
) -> Map<(u64, u64, u8), HistogramView> {
    let regular = observed_at(histograms, key, count, bucket, config, model);
    if key.2 == Slot::ANY {
        regular
    } else {
        observed_at(regular, (key.0, key.1, Slot::ANY), count, bucket, config, model)
    }
}

impl StoreView {
    /// How histograms are kept.
    pub open spec fn histogram_config(self) -> HistogramConfig {
        HistogramConfig { decay: self.decay, max_bins: self.settings.max_bins }
    }

    /// How profiles are kept.
    pub open spec fn profile_config(self) -> ProfileConfig {
        ProfileConfig { decay: self.decay, max_templates: self.settings.profile_max_templates }
    }

    /// The unit with a key, or one without events.
    pub open spec fn unit(self, unit_key: u64) -> UnitView {
        if self.units.contains_key(unit_key) {
            self.units[unit_key]
        } else {
            UnitView::empty()
        }
    }

    /// The profile of a unit, or an empty one.
    pub open spec fn profile(self, unit_key: u64) -> ProfileView {
        if self.profiles.contains_key(unit_key) {
            self.profiles[unit_key]
        } else {
            ProfileView::empty()
        }
    }

    /// Whether the counters have room for an event.
    pub open spec fn can_record(self, timestamp_us: u64, unit_key: u64, template_id: u64) -> bool {
        !self.unit(unit_key).ends_before(timestamp_us / self.bucket_us) ==> self.unit(
            unit_key,
        ).count(template_id) < u32::MAX
    }

    /// The histograms after an event: if it ends the open bucket of its unit, every
    /// template that the unit knows is observed.
    pub open spec fn histograms_after(
        self,
        bucket: u64,
        unit_key: u64,
        model: spec_fn(FloatOp) -> u64,
    ) -> Map<(u64, u64, u8), HistogramView> {
        let unit = self.unit(unit_key);
        if unit.ends_before(bucket) {
            closed_for(
                self.histograms,
                unit_key,
                unit,
                unit.known.dom(),
                unit.open_bucket->0,
                self.histogram_config(),
                model,
            )
        } else {
            self.histograms
        }
    }

    /// Whether `after` is the store after an event in a slot, as far as the model
    /// computes.
    pub open spec fn records(
        self,
        timestamp_us: u64,
        unit_key: u64,
        template_id: u64,
        slot: u8,
        after: StoreView,
        model: spec_fn(FloatOp) -> u64,
    ) -> bool {
        let bucket = timestamp_us / self.bucket_us;
        &&& after.histograms == self.histograms_after(bucket, unit_key, model)
        &&& after.profiles == self.profiles.insert(
            unit_key,
            self.profile(unit_key).observed(
                template_id,
                bucket,
                self.profile_config(),
                model,
            ),
        )
    }

    /// Whether `after` has counted an event in a slot, apart from what is computed with
    /// floating-point numbers.
    pub open spec fn counts_event(
        self,
        timestamp_us: u64,
        unit_key: u64,
        template_id: u64,
        slot: u8,
        after: StoreView,
    ) -> bool {
        let bucket = timestamp_us / self.bucket_us;
        &&& after.units.contains_key(unit_key)
        &&& after.units == self.units.insert(unit_key, after.units[unit_key])
        &&& self.unit(unit_key).opened(bucket, slot).counted(template_id, bucket).forgets(
            self.settings.profile_max_templates,
            after.units[unit_key],
        )
        &&& if self.unit(unit_key).ends_before(bucket) {
            only_observed_change(
                self.histograms,
                after.histograms,
                unit_key,
                self.unit(unit_key).known.dom(),
                self.unit(unit_key).open_slot,
            )
        } else {
            after.histograms == self.histograms
        }
        &&& after.profiles.contains_key(unit_key)
        &&& after.profiles == self.profiles.insert(unit_key, after.profiles[unit_key])
        &&& after.bucket_us == self.bucket_us
        &&& after.decay == self.decay
        &&& after.settings == self.settings
    }

    /// The median and the deviation of a baseline that is trusted.
    pub open spec fn trusted_rate(
        self,
        key: (u64, u64, u8),
        model: spec_fn(FloatOp) -> u64,
    ) -> Option<(int, int)> {
        if self.histograms.contains_key(key) && self.histograms[key].trusted(
            self.settings.min_weight,
            model,
        ) {
            self.histograms[key].median_deviation(model)
        } else {
            None
        }
    }

    /// The baseline that the rate of a template is held against: that of its slot,
    /// or else that of any time.
    pub open spec fn rate_in(
        self,
        slot: u8,
        unit_key: u64,
        template_id: u64,
        model: spec_fn(FloatOp) -> u64,
    ) -> Option<(int, int, RateSource)> {
        let exact = if slot == Slot::ANY {
            None
        } else {
            self.trusted_rate((unit_key, template_id, slot), model)
        };
        match exact {
            Some((median, deviation)) => Some((median, deviation, RateSource::SlotBaseline)),
            None => match self.trusted_rate((unit_key, template_id, Slot::ANY), model) {
                Some((median, deviation)) => Some(
                    (median, deviation, RateSource::AnySlotBaseline),
                ),
                None => None,
            },
        }
    }

    /// How much of the profile of its unit a template makes up, if the profile is
    /// trusted.
    pub open spec fn share_of(
        self,
        unit_key: u64,
        template_id: u64,
        model: spec_fn(FloatOp) -> u64,
    ) -> Option<ProfileShare> {
        if self.profiles.contains_key(unit_key) && self.profiles[unit_key].trusted(
            self.settings.profile_min_weight,
            model,
        ) {
            Some(
                ProfileShare {
                    weight: self.profiles[unit_key].weight(template_id),
                    total: self.profiles[unit_key].total(model),
                    distinct: self.profiles[unit_key].counts.len() as usize,
                },
            )
        } else {
            None
        }
    }

    /// Whether some baseline is trusted.
    pub open spec fn has_trusted(self, model: spec_fn(FloatOp) -> u64) -> bool {
        ||| exists|key: (u64, u64, u8)| #[trigger]
            self.histograms.contains_key(key) && self.histograms[key].trusted(
                self.settings.min_weight,
                model,
            )
        ||| exists|key: u64| #[trigger]
            self.profiles.contains_key(key) && self.profiles[key].trusted(
                self.settings.profile_min_weight,
                model,
            )
    }
}

/// Histograms rank by their weight.
pub open spec fn by_weight(model: spec_fn(FloatOp) -> u64) -> spec_fn(HistogramView) -> int {
    |histogram: HistogramView| float::total_rank64(histogram.total(model))
}

/// Profiles rank by their last observation.
pub open spec fn by_last_observation() -> spec_fn(ProfileView) -> int {
    |profile: ProfileView| profile.last_touched_bucket as int
}

/// Units rank by their last event.
pub open spec fn by_last_event() -> spec_fn(UnitView) -> int {
    |unit: UnitView| unit.last_touched_bucket as int
}

struct UnitBucketState {
    open_bucket: Option<u64>,
    open_slot: Slot,
    bucket_counts: HashMap<u64, u32>,
    known_templates: HashMap<u64, u64>,
    last_touched_bucket: u64,
}

impl View for UnitBucketState {
    type V = UnitView;

    closed spec fn view(&self) -> UnitView {
        UnitView {
            open_bucket: self.open_bucket,
            open_slot: self.open_slot.0,
            counts: self.bucket_counts@,
            known: self.known_templates@,
            last_touched_bucket: self.last_touched_bucket,
        }
    }
}

impl UnitBucketState {
    fn new() -> (state: UnitBucketState)
        ensures
            state@ == UnitView::empty(),
    {
        UnitBucketState {
            open_bucket: None,
            open_slot: Slot::any(),
            bucket_counts: HashMap::new(),
            known_templates: HashMap::new(),
            last_touched_bucket: 0,
        }
    }

    /// Counts an event of a template.
    fn count(&mut self, template_id: u64, bucket: u64)
        requires
            old(self)@.count(template_id) < u32::MAX,
        ensures
            final(self)@ == old(self)@.counted(template_id, bucket),
    {
        broadcast use vstd::std_specs::hash::group_hash_axioms;

        let count: u32 = match self.bucket_counts.get(&template_id) {
            Some(count) => *count,
            None => 0,
        };
        self.bucket_counts.insert(template_id, count + 1);
        self.known_templates.insert(template_id, bucket);
    }

    /// Forgets the template whose last event is longest ago, if there is one too
    /// many.
    fn evict_known_if_needed(&mut self, max_known: usize)
        ensures
            old(self)@.forgets(max_known, final(self)@),
    {
        broadcast use vstd::std_specs::hash::group_hash_axioms;

        let limit: usize = if max_known >= 1 {
            max_known
        } else {
            1
        };
        if self.known_templates.len() <= limit {
            return;
        }
        let mut oldest: Option<(u64, u64)> = None;
        for (id, last) in it: self.known_templates.iter()
            invariant
                forall|i: int|
                    0 <= i < it.seq().len() ==> self.known_templates@.contains_key(
                        *(#[trigger] it.seq()[i]).0,
                    ) && self.known_templates@[*it.seq()[i].0] == *it.seq()[i].1,
                oldest is None <==> it.index() == 0,
                match oldest {
                    Some((id, bucket)) => {
                        &&& self.known_templates@.contains_key(id)
                        &&& self.known_templates@[id] == bucket
                        &&& forall|j: int|
                            0 <= j < it.index() ==> bucket <= *(#[trigger] it.seq()[j]).1
                    },
                    None => true,
                },
        {
            let older: bool = match oldest {
                Some((_, bucket)) => *last < bucket,
                None => true,
            };
            if older {
                oldest = Some((*id, *last));
            }
        }
        match oldest {
            Some((id, _)) => {
                proof {
                    assert forall|other: u64| #[trigger]
                        self@.known.contains_key(other) implies self@.known[id]
                        <= self@.known[other] by {
                        assert(self.known_templates@.contains_key(other));
                    }
                    assert(old(self)@.is_oldest(id));
                }
                let _ = self.known_templates.remove(&id);
                let _ = self.bucket_counts.remove(&id);
            },
            None => {
                proof {
                    assert(self.known_templates@.dom().len() == 0);
                }
            },
        }
    }
}

spec fn histogram_views(histograms: Map<(u64, u64, u8), CountHistogram>) -> Map<
    (u64, u64, u8),
    HistogramView,
> {
    histograms.map_values(|histogram: CountHistogram| histogram@)
}

spec fn profile_views(profiles: Map<u64, UnitProfile>) -> Map<u64, ProfileView> {
    profiles.map_values(|profile: UnitProfile| profile@)
}

spec fn unit_views(units: Map<u64, UnitBucketState>) -> Map<u64, UnitView> {
    units.map_values(|unit: UnitBucketState| unit@)
}

/// Enters an observation into one histogram.
fn observe_at<F: Fn(FloatOp) -> u64>(
    histograms: &mut CompositeMap<CountHistogram>,
    key: (u64, u64, u8),
    count: u32,
    bucket: u64,
    config: HistogramConfig,
    floats: &FloatUnit<F>,
)
    requires
        floats.is_total(),
    ensures
        final(histograms)@.contains_key(key),
        final(histograms)@ == old(histograms)@.insert(key, final(histograms)@[key]),
        forall|model: spec_fn(FloatOp) -> u64| #[trigger]
            floats.computes(model) ==> histogram_views(final(histograms)@) == observed_at(
                histogram_views(old(histograms)@),
                key,
                count,
                bucket,
                config,
                model,
            ),
{
    let ghost before = histograms@;
    let mut histogram = match histograms.remove(key) {
        Some(histogram) => histogram,
        None => CountHistogram::default(),
    };
    proof {
        assert(histogram@ == histogram_at(histogram_views(before), key));
    }
    histogram.observe(count, bucket, &config, floats);
    histograms.insert(key, histogram);
    proof {
        assert(histograms@ =~= before.insert(key, histograms@[key]));
        assert forall|model: spec_fn(FloatOp) -> u64| #[trigger]
            floats.computes(model) implies histogram_views(histograms@) == observed_at(
            histogram_views(before),
            key,
            count,
            bucket,
            config,
            model,
        ) by {
            assert(histogram_views(histograms@) =~= observed_at(
                histogram_views(before),
                key,
                count,
                bucket,
                config,
                model,
            ));
        }
    }
}

/// Enters an observation into the histogram of its slot and into that of any time.
fn observe_both_slots<F: Fn(FloatOp) -> u64>(
    histograms: &mut CompositeMap<CountHistogram>,
    key: (u64, u64, u8),
    count: u32,
    bucket: u64,
    config: HistogramConfig,
    floats: &FloatUnit<F>,
)
    requires
        floats.is_total(),
    ensures
        only_observed_change(
            histogram_views(old(histograms)@),
            histogram_views(final(histograms)@),
            key.0,
            set![key.1],
            key.2,
        ),
        forall|model: spec_fn(FloatOp) -> u64| #[trigger]
            floats.computes(model) ==> histogram_views(final(histograms)@) == observed_in_both(
                histogram_views(old(histograms)@),
                key,
                count,
                bucket,
                config,
                model,
            ),
{
    observe_at(histograms, key, count, bucket, config, floats);
    if key.2 != Slot::ANY {
        observe_at(histograms, (key.0, key.1, Slot::ANY), count, bucket, config, floats);
    }
}

/// Closing a bucket for one more template is one more observation.
proof fn closing_one_more(
    histograms: Map<(u64, u64, u8), HistogramView>,
    unit_key: u64,
    unit: UnitView,
    templates: Set<u64>,
    template_id: u64,
    bucket: u64,
    config: HistogramConfig,
    model: spec_fn(FloatOp) -> u64,
)
    requires
        !templates.contains(template_id),
    ensures
        closed_for(
            histograms,
            unit_key,
            unit,
            templates.insert(template_id),
            bucket,
            config,
            model,
        ) == observed_in_both(
            closed_for(histograms, unit_key, unit, templates, bucket, config, model),
            (unit_key, template_id, unit.open_slot),
            unit.count(template_id),
            bucket,
            config,
            model,
        ),
{
    assert(closed_for(
        histograms,
        unit_key,
        unit,
        templates.insert(template_id),
        bucket,
        config,
        model,
    ) =~= observed_in_both(
        closed_for(histograms, unit_key, unit, templates, bucket, config, model),
        (unit_key, template_id, unit.open_slot),
        unit.count(template_id),
        bucket,
        config,
        model,
    ));
}

/// Ends the open bucket of a unit: every template that it knows is observed.
fn close_bucket<F: Fn(FloatOp) -> u64>(
    histograms: &mut CompositeMap<CountHistogram>,
    unit_key: u64,
    state: &UnitBucketState,
    closing_bucket: u64,
    config: HistogramConfig,
    floats: &FloatUnit<F>,
)
    requires
        floats.is_total(),
    ensures
        only_observed_change(
            histogram_views(old(histograms)@),
            histogram_views(final(histograms)@),
            unit_key,
            state@.known.dom(),
            state@.open_slot,
        ),
        forall|model: spec_fn(FloatOp) -> u64| #[trigger]
            floats.computes(model) ==> histogram_views(final(histograms)@) == closed_for(
                histogram_views(old(histograms)@),
                unit_key,
                state@,
                state@.known.dom(),
                closing_bucket,
                config,
                model,
            ),
{
    broadcast use vstd::std_specs::hash::group_hash_axioms;

    let ghost before = histogram_views(histograms@);
    let keys = tables::keys_of(&state.known_templates);
    let mut i: usize = 0;
    proof {
        assert forall|model: spec_fn(FloatOp) -> u64| #[trigger] floats.computes(model) implies before
            == closed_for(
            before,
            unit_key,
            state@,
            keys@.take(0).to_set(),
            closing_bucket,
            config,
            model,
        ) by {
            assert(before =~= closed_for(
                before,
                unit_key,
                state@,
                keys@.take(0).to_set(),
                closing_bucket,
                config,
                model,
            ));
        }
    }
    while i < keys.len()
        invariant
            floats.is_total(),
            keys@.no_duplicates(),
            forall|id: u64| #[trigger] state@.known.contains_key(id) <==> keys@.contains(id),
            i <= keys@.len(),
            only_observed_change(
                before,
                histogram_views(histograms@),
                unit_key,
                keys@.take(i as int).to_set(),
                state@.open_slot,
            ),
            forall|model: spec_fn(FloatOp) -> u64| #[trigger]
                floats.computes(model) ==> histogram_views(histograms@) == closed_for(
                    before,
                    unit_key,
                    state@,
                    keys@.take(i as int).to_set(),
                    closing_bucket,
                    config,
                    model,
                ),
        decreases keys@.len() - i,
    {
        let template_id: u64 = keys[i];
        let count: u32 = match state.bucket_counts.get(&template_id) {
            Some(count) => *count,
            None => 0,
        };
        proof {
            assert(count == state@.count(template_id));
        }
        let ghost current = histogram_views(histograms@);
        observe_both_slots(
            histograms,
            (unit_key, template_id, state.open_slot.0),
            count,
            closing_bucket,
            config,
            floats,
        );
        proof {
            let done = keys@.take(i as int).to_set();
            assert(!done.contains(template_id)) by {
                if done.contains(template_id) {
                    let j = choose|j: int|
                        0 <= j < keys@.take(i as int).len() && keys@.take(i as int)[j] == template_id;
                    assert(keys@[j] == keys@[i as int]);
                }
            }
            assert(keys@.take(i as int + 1).to_set() =~= done.insert(template_id)) by {
                assert(keys@.take(i as int + 1) =~= keys@.take(i as int).push(template_id));
                assert forall|id: u64| #[trigger]
                    keys@.take(i as int + 1).to_set().contains(id) <==> done.insert(
                        template_id,
                    ).contains(id) by {
                    let longer = keys@.take(i as int + 1);
                    let shorter = keys@.take(i as int);
                    if done.contains(id) {
                        let j = choose|j: int| 0 <= j < shorter.len() && shorter[j] == id;
                        assert(longer[j] == id);
                    }
                    if id == template_id {
                        assert(longer[i as int] == id);
                    }
                    if longer.contains(id) {
                        let j = choose|j: int| 0 <= j < longer.len() && longer[j] == id;
                        if j < i {
                            assert(shorter[j] == id);
                        }
                    }
                }
            }
            assert forall|model: spec_fn(FloatOp) -> u64| #[trigger]
                floats.computes(model) implies histogram_views(histograms@) == closed_for(
                before,
                unit_key,
                state@,
                keys@.take(i as int + 1).to_set(),
                closing_bucket,
                config,
                model,
            ) by {
                closing_one_more(
                    before,
                    unit_key,
                    state@,
                    done,
                    template_id,
                    closing_bucket,
                    config,
                    model,
                );
            }
        }
        i += 1;
    }
    proof {
        assert(keys@.take(keys@.len() as int) =~= keys@);
        assert(keys@.to_set() =~= state@.known.dom()) by {
            assert forall|id: u64| #[trigger] keys@.to_set().contains(id) <==> state@.known.dom().contains(
                id,
            ) by {
                assert(state@.known.contains_key(id) <==> keys@.contains(id));
            }
        }
    }
}

/// All baselines.
pub struct BaselineStore {
    histograms: CompositeMap<CountHistogram>,
    unit_profiles: HashMap<u64, UnitProfile>,
    unit_states: HashMap<u64, UnitBucketState>,
    bucket_us: u64,
    decay: DecayParams,
    settings: BaselineConfig,
}

impl View for BaselineStore {
    type V = StoreView;

    closed spec fn view(&self) -> StoreView {
        StoreView {
            histograms: histogram_views(self.histograms@),
            profiles: profile_views(self.unit_profiles@),
            units: unit_views(self.unit_states@),
            bucket_us: self.bucket_us,
            decay: self.decay,
            settings: self.settings,
        }
    }
}

/// The length of a bucket in microseconds: at least one second, and what does not
/// fit counts as the largest number.
pub open spec fn bucket_micros(bucket_seconds: u64) -> u64 {
    let seconds = if bucket_seconds >= 1 {
        bucket_seconds as int
    } else {
        1
    };
    if seconds * 1_000_000 <= u64::MAX {
        (seconds * 1_000_000) as u64
    } else {
        u64::MAX
    }
}

/// Computes the length of a bucket in microseconds.
pub fn bucket_length(bucket_seconds: u64) -> (micros: u64)
    ensures
        micros == bucket_micros(bucket_seconds),
        micros >= 1,
{
    saturating_micros(
        if bucket_seconds >= 1 {
            bucket_seconds
        } else {
            1
        },
    )
}

impl BaselineStore {
    /// Creates an empty store.
    pub fn new(bucket_seconds: u64, config: &BaselineConfig) -> (store: BaselineStore)
        ensures
            store@.histograms == Map::<(u64, u64, u8), HistogramView>::empty(),
            store@.profiles == Map::<u64, ProfileView>::empty(),
            store@.units == Map::<u64, UnitView>::empty(),
            store@.bucket_us == bucket_micros(bucket_seconds),
            store@.bucket_us >= 1,
            store@.decay == decay::by_hours(config.half_life_hours, bucket_seconds),
            store@.settings == *config,
    {
        let store = BaselineStore {
            histograms: CompositeMap::new(),
            unit_profiles: HashMap::new(),
            unit_states: HashMap::new(),
            bucket_us: bucket_length(bucket_seconds),
            decay: DecayParams::from_hours(config.half_life_hours, bucket_seconds),
            settings: *config,
        };
        proof {
            assert(store@.histograms =~= Map::empty());
            assert(store@.profiles =~= Map::empty());
            assert(store@.units =~= Map::empty());
        }
        store
    }

    /// How histograms are kept.
    fn histogram_config(&self) -> (config: HistogramConfig)
        ensures
            config == self@.histogram_config(),
    {
        HistogramConfig { decay: self.decay, max_bins: self.settings.max_bins }
    }

    /// How profiles are kept.
    fn profile_config(&self) -> (config: ProfileConfig)
        ensures
            config == self@.profile_config(),
    {
        ProfileConfig { decay: self.decay, max_templates: self.settings.profile_max_templates }
    }

    /// Takes an event. Its slot is that of its time in the time zone of the machine.
    pub fn record<F: Fn(FloatOp) -> u64>(
        &mut self,
        timestamp_us: u64,
        unit_key: u64,
        template: TemplateId,
        floats: &FloatUnit<F>,
    )
        requires
            floats.is_total(),
            old(self)@.bucket_us >= 1,
            old(self)@.can_record(timestamp_us, unit_key, template.0),
        ensures
            exists|slot: u8|
                {
                    &&& slot::can_be_slot_of(timestamp_us, slot)
                    &&& #[trigger] old(self)@.counts_event(
                        timestamp_us,
                        unit_key,
                        template.0,
                        slot,
                        final(self)@,
                    )
                    &&& forall|model: spec_fn(FloatOp) -> u64| #[trigger]
                        floats.computes(model) ==> old(self)@.records(
                            timestamp_us,
                            unit_key,
                            template.0,
                            slot,
                            final(self)@,
                            model,
                        )
                },
    {
        let slot = Slot::from_timestamp_us(timestamp_us);
        self.record_in_slot(timestamp_us, unit_key, template, slot, floats);
        proof {
            assert(old(self)@.counts_event(timestamp_us, unit_key, template.0, slot.0, self@));
        }
    }

    /// Takes an event in a slot. The profile of its unit takes it at once; the
    /// histograms take it when its bucket ends.
    pub fn record_in_slot<F: Fn(FloatOp) -> u64>(
        &mut self,
        timestamp_us: u64,
        unit_key: u64,
        template: TemplateId,
        slot: Slot,
        floats: &FloatUnit<F>,
    )
        requires
            floats.is_total(),
            old(self)@.bucket_us >= 1,
            old(self)@.can_record(timestamp_us, unit_key, template.0),
        ensures
            old(self)@.counts_event(timestamp_us, unit_key, template.0, slot.0, final(self)@),
            forall|model: spec_fn(FloatOp) -> u64| #[trigger]
                floats.computes(model) ==> old(self)@.records(
                    timestamp_us,
                    unit_key,
                    template.0,
                    slot.0,
                    final(self)@,
                    model,
                ),
            records_with(
                old(self)@,
                timestamp_us,
                unit_key,
                template.0,
                slot.0,
                *floats,
                final(self)@,
            ),
    {
        broadcast use vstd::std_specs::hash::group_hash_axioms;

        let ghost before = self@;
        let bucket: u64 = timestamp_us / self.bucket_us;
        let mut profile = match self.unit_profiles.remove(&unit_key) {
            Some(profile) => profile,
            None => UnitProfile::default(),
        };
        proof {
            assert(profile@ == before.profile(unit_key));
        }
        let profile_config = self.profile_config();
        profile.observe(template, bucket, &profile_config, floats);
        let ghost observed = profile@;
        self.unit_profiles.insert(unit_key, profile);
        proof {
            assert(self@.profiles =~= before.profiles.insert(unit_key, observed));
        }
        let mut state = match self.unit_states.remove(&unit_key) {
            Some(state) => state,
            None => UnitBucketState::new(),
        };
        proof {
            assert(state@ == before.unit(unit_key));
        }
        if bucket > state.last_touched_bucket {
            state.last_touched_bucket = bucket;
        }
        match state.open_bucket {
            Some(previous) => {
                if bucket > previous {
                    let config = self.histogram_config();
                    close_bucket(
                        &mut self.histograms,
                        unit_key,
                        &state,
                        previous,
                        config,
                        floats,
                    );
                    proof {
                        assert forall|model: spec_fn(FloatOp) -> u64| #[trigger]
                            floats.computes(model) implies histogram_views(self.histograms@)
                            == before.histograms_after(bucket, unit_key, model) by {
                            assert(histogram_views(self.histograms@) =~= before.histograms_after(
                                bucket,
                                unit_key,
                                model,
                            ));
                        }
                    }
                    state.bucket_counts.clear();
                    state.open_bucket = Some(bucket);
                    state.open_slot = slot;
                }
            },
            None => {
                state.open_bucket = Some(bucket);
                state.open_slot = slot;
            },
        }
        proof {
            assert(state@ == before.unit(unit_key).opened(bucket, slot.0));
        }
        state.count(template.0, bucket);
        state.evict_known_if_needed(self.settings.profile_max_templates);
        let ghost entry = state@;
        self.unit_states.insert(unit_key, state);
        proof {
            assert(self@.units =~= before.units.insert(unit_key, entry));
            assert(self@.units[unit_key] == entry);
        }
    }

    /// The baseline that the rate of a template is held against, in the slot of a
    /// time in the time zone of the machine.
    pub fn baseline_rate<F: Fn(FloatOp) -> u64>(
        &self,
        timestamp_us: u64,
        unit_key: u64,
        template: TemplateId,
        floats: &FloatUnit<F>,
    ) -> (rate: Option<(BaselineRate, RateSource)>)
        requires
            floats.is_total(),
        ensures
            exists|slot: u8|
                #![trigger is_rate_in_slot(*self, slot, unit_key, template, *floats, rate)]
                slot::can_be_slot_of(timestamp_us, slot) && is_rate_in_slot(
                    *self,
                    slot,
                    unit_key,
                    template,
                    *floats,
                    rate,
                ),
    {
        let slot = Slot::from_timestamp_us(timestamp_us);
        let rate = self.baseline_rate_in_slot(slot, unit_key, template, floats);
        proof {
            assert(is_rate_in_slot(*self, slot.0, unit_key, template, *floats, rate));
        }
        rate
    }

    /// The baseline that the rate of a template is held against in a slot: that of
    /// the slot, or else that of any time; none if neither is trusted.
    pub fn baseline_rate_in_slot<F: Fn(FloatOp) -> u64>(
        &self,
        slot: Slot,
        unit_key: u64,
        template: TemplateId,
        floats: &FloatUnit<F>,
    ) -> (rate: Option<(BaselineRate, RateSource)>)
        requires
            floats.is_total(),
        ensures
            is_rate_in_slot(*self, slot.0, unit_key, template, *floats, rate),
    {
        if slot.0 != Slot::ANY {
            if let Some(rate) = self.trusted_rate((unit_key, template.0, slot.0), floats) {
                return Some((rate, RateSource::SlotBaseline));
            }
        }
        if let Some(rate) = self.trusted_rate((unit_key, template.0, Slot::ANY), floats) {
            return Some((rate, RateSource::AnySlotBaseline));
        }
        None
    }

    /// The median and the deviation of a baseline, if it is trusted.
    fn trusted_rate<F: Fn(FloatOp) -> u64>(&self, key: (u64, u64, u8), floats: &FloatUnit<F>) -> (rate:
        Option<BaselineRate>)
        requires
            floats.is_total(),
        ensures
            forall|model: spec_fn(FloatOp) -> u64| #[trigger]
                floats.computes(model) ==> match rate {
                    Some(found) => self@.trusted_rate(key, model) == Some(
                        (found.median_halves as int, found.deviation_quarters as int),
                    ),
                    None => self@.trusted_rate(key, model) is None,
                },
    {
        match self.histograms.get(key) {
            Some(histogram) => {
                if !histogram.is_trusted(self.settings.min_weight, floats) {
                    return None;
                }
                match histogram.median_mad(floats) {
                    Some((median_halves, deviation_quarters)) => Some(
                        BaselineRate { median_halves, deviation_quarters },
                    ),
                    None => None,
                }
            },
            None => None,
        }
    }

    /// How much of the profile of its unit a template makes up; none if the profile
    /// is not trusted.
    pub fn profile_share<F: Fn(FloatOp) -> u64>(
        &self,
        unit_key: u64,
        template: TemplateId,
        floats: &FloatUnit<F>,
    ) -> (share: Option<ProfileShare>)
        requires
            floats.is_total(),
        ensures
            forall|model: spec_fn(FloatOp) -> u64| #[trigger]
                floats.computes(model) ==> share == self@.share_of(unit_key, template.0, model),
            is_share(self@, unit_key, template.0, *floats, share),
    {
        broadcast use vstd::std_specs::hash::group_hash_axioms;

        match self.unit_profiles.get(&unit_key) {
            Some(profile) => profile.share_of(template, self.settings.profile_min_weight, floats),
            None => None,
        }
    }

    /// Whether some baseline is trusted.
    pub fn has_trusted_baselines<F: Fn(FloatOp) -> u64>(&self, floats: &FloatUnit<F>) -> (trusted: bool)
        requires
            floats.is_total(),
        ensures
            forall|model: spec_fn(FloatOp) -> u64| #[trigger]
                floats.computes(model) ==> trusted == self@.has_trusted(model),
            tells_trust(self@, *floats, trusted),
    {
        broadcast use vstd::std_specs::hash::group_hash_axioms;

        let keys = self.histograms.keys();
        let mut i: usize = 0;
        while i < keys.len()
            invariant
                floats.is_total(),
                forall|key: (u64, u64, u8)| #[trigger]
                    self.histograms@.contains_key(key) <==> keys@.contains(key),
                i <= keys@.len(),
                forall|model: spec_fn(FloatOp) -> u64, j: int|
                    #![trigger floats.computes(model), keys@[j]]
                    floats.computes(model) && 0 <= j < i ==> !self@.histograms[keys@[j]].trusted(
                        self.settings.min_weight,
                        model,
                    ),
            decreases keys@.len() - i,
        {
            proof {
                assert(keys@.contains(keys@[i as int]));
                assert(self@.histograms.contains_key(keys@[i as int]));
            }
            match self.histograms.get(keys[i]) {
                Some(histogram) => {
                    if histogram.is_trusted(self.settings.min_weight, floats) {
                        return true;
                    }
                },
                None => {},
            }
            i += 1;
        }
        let units = tables::keys_of(&self.unit_profiles);
        let mut k: usize = 0;
        while k < units.len()
            invariant
                floats.is_total(),
                forall|key: u64| #[trigger]
                    self.unit_profiles@.contains_key(key) <==> units@.contains(key),
                k <= units@.len(),
                forall|model: spec_fn(FloatOp) -> u64, j: int|
                    #![trigger floats.computes(model), units@[j]]
                    floats.computes(model) && 0 <= j < k ==> !self@.profiles[units@[j]].trusted(
                        self.settings.profile_min_weight,
                        model,
                    ),
            decreases units@.len() - k,
        {
            proof {
                assert(units@.contains(units@[k as int]));
                assert(self@.profiles.contains_key(units@[k as int]));
            }
            match self.unit_profiles.get(&units[k]) {
                Some(profile) => {
                    if profile.is_trusted(self.settings.profile_min_weight, floats) {
                        return true;
                    }
                },
                None => {},
            }
            k += 1;
        }
        proof {
            assert forall|model: spec_fn(FloatOp) -> u64| #[trigger]
                floats.computes(model) implies !self@.has_trusted(model) by {
                assert forall|key: (u64, u64, u8)| #[trigger]
                    self@.histograms.contains_key(key) implies !self@.histograms[key].trusted(
                    self.settings.min_weight,
                    model,
                ) by {
                    let j = choose|j: int| 0 <= j < keys@.len() && keys@[j] == key;
                    assert(keys@[j] == key);
                }
                assert forall|key: u64| #[trigger] self@.profiles.contains_key(key) implies !self@.profiles[key].trusted(
                    self.settings.profile_min_weight,
                    model,
                ) by {
                    let j = choose|j: int| 0 <= j < units@.len() && units@[j] == key;
                    assert(units@[j] == key);
                }
            }
        }
        false
    }

    /// Drops baselines until there are not too many: the histograms with the least
    /// weight, and the profiles and units whose last event is longest ago.
    pub fn enforce_limits<F: Fn(FloatOp) -> u64>(&mut self, floats: &FloatUnit<F>)
        requires
            floats.is_total(),
        ensures
            final(self)@ == (StoreView {
                histograms: final(self)@.histograms,
                profiles: final(self)@.profiles,
                units: final(self)@.units,
                ..old(self)@
            }),
            forall|model: spec_fn(FloatOp) -> u64| #[trigger]
                floats.computes(model) ==> tables::keeps_highest(
                    old(self)@.histograms,
                    final(self)@.histograms,
                    old(self)@.settings.max_baselines as nat,
                    by_weight(model),
                ),
            keeps_the_heaviest(old(self)@, *floats, final(self)@),
            final(self)@.histograms.submap_of(old(self)@.histograms),
            final(self)@.histograms.len() <= old(self)@.settings.max_baselines,
            tables::keeps_highest(
                old(self)@.profiles,
                final(self)@.profiles,
                old(self)@.settings.max_baselines as nat,
                by_last_observation(),
            ),
            tables::keeps_highest(
                old(self)@.units,
                final(self)@.units,
                old(self)@.settings.max_baselines as nat,
                by_last_event(),
            ),
    {
        self.limit_histograms(floats);
        self.limit_profiles();
        self.limit_units();
    }

    fn limit_histograms<F: Fn(FloatOp) -> u64>(&mut self, floats: &FloatUnit<F>)
        requires
            floats.is_total(),
        ensures
            final(self)@ == (StoreView { histograms: final(self)@.histograms, ..old(self)@ }),
            forall|model: spec_fn(FloatOp) -> u64| #[trigger]
                floats.computes(model) ==> tables::keeps_highest(
                    old(self)@.histograms,
                    final(self)@.histograms,
                    old(self)@.settings.max_baselines as nat,
                    by_weight(model),
                ),
            final(self)@.histograms.submap_of(old(self)@.histograms),
            final(self)@.histograms.len() <= old(self)@.settings.max_baselines,
    {
        let ghost before = self@.histograms;
        let limit: usize = self.settings.max_baselines;
        proof {
            self.histograms.is_finite();
            assert(before.dom() =~= self.histograms@.dom());
        }
        while self.histograms.len() > limit
            invariant
                floats.is_total(),
                limit == self.settings.max_baselines,
                before.dom().finite(),
                self@ == (StoreView { histograms: self@.histograms, ..old(self)@ }),
                self@.histograms.dom() == self.histograms@.dom(),
                self@.histograms.submap_of(before),
                before.len() <= limit ==> self@.histograms == before,
                before.len() > limit ==> self@.histograms.len() >= limit,
                forall|model: spec_fn(FloatOp) -> u64| #[trigger]
                    floats.computes(model) ==> tables::keeps_highest(
                        before,
                        self@.histograms,
                        self@.histograms.len(),
                        by_weight(model),
                    ),
            decreases self.histograms@.len(),
        {
            let ghost current = self@.histograms;
            let lightest = self.lightest_histogram(floats);
            let _ = self.histograms.remove(lightest);
            proof {
                assert(self@.histograms =~= current.remove(lightest));
                assert(self@.histograms.dom() =~= current.dom().remove(lightest));
                assert(self.histograms@.dom() =~= self@.histograms.dom());
                assert forall|model: spec_fn(FloatOp) -> u64| #[trigger]
                    floats.computes(model) implies tables::keeps_highest(
                    before,
                    self@.histograms,
                    self@.histograms.len(),
                    by_weight(model),
                ) by {
                    tables::dropping_the_lowest(before, current, lightest, by_weight(model));
                }
            }
        }
    }

    /// The key of a histogram that has no more weight than any other.
    fn lightest_histogram<F: Fn(FloatOp) -> u64>(&self, floats: &FloatUnit<F>) -> (key: (u64, u64, u8))
        requires
            floats.is_total(),
            self.histograms@.len() > 0,
        ensures
            self@.histograms.contains_key(key),
            forall|model: spec_fn(FloatOp) -> u64| #[trigger]
                floats.computes(model) ==> forall|other: (u64, u64, u8)| #[trigger]
                    self@.histograms.contains_key(other) ==> by_weight(model)(
                        self@.histograms[key],
                    ) <= by_weight(model)(self@.histograms[other]),
    {
        let keys = self.histograms.keys();
        let mut best: Option<((u64, u64, u8), i128)> = None;
        let mut i: usize = 0;
        while i < keys.len()
            invariant
                floats.is_total(),
                forall|key: (u64, u64, u8)| #[trigger]
                    self.histograms@.contains_key(key) <==> keys@.contains(key),
                i <= keys@.len(),
                best is None <==> i == 0,
                match best {
                    Some((key, rank)) => {
                        &&& self@.histograms.contains_key(key)
                        &&& forall|model: spec_fn(FloatOp) -> u64| #[trigger]
                            floats.computes(model) ==> rank == by_weight(model)(
                                self@.histograms[key],
                            )
                        &&& forall|model: spec_fn(FloatOp) -> u64, j: int|
                            #![trigger floats.computes(model), keys@[j]]
                            floats.computes(model) && 0 <= j < i ==> rank <= by_weight(model)(
                                self@.histograms[keys@[j]],
                            )
                    },
                    None => true,
                },
            decreases keys@.len() - i,
        {
            let key: (u64, u64, u8) = keys[i];
            proof {
                assert(keys@.contains(keys@[i as int]));
                assert(self@.histograms.contains_key(key));
            }
            match self.histograms.get(key) {
                Some(histogram) => {
                    let rank: i128 = float::total_order64(histogram.total_weight(floats));
                    proof {
                        assert(histogram@ == self@.histograms[key]);
                    }
                    let lighter: bool = match best {
                        Some((_, least)) => rank < least,
                        None => true,
                    };
                    if lighter {
                        best = Some((key, rank));
                    }
                },
                None => {
                    proof {
                        assert(false);
                    }
                },
            }
            i += 1;
        }
        match best {
            Some((key, rank)) => {
                proof {
                    assert forall|model: spec_fn(FloatOp) -> u64| #[trigger]
                        floats.computes(model) implies forall|other: (u64, u64, u8)| #[trigger]
                        self@.histograms.contains_key(other) ==> by_weight(model)(
                            self@.histograms[key],
                        ) <= by_weight(model)(self@.histograms[other]) by {
                        assert forall|other: (u64, u64, u8)| #[trigger]
                            self@.histograms.contains_key(other) implies by_weight(model)(
                            self@.histograms[key],
                        ) <= by_weight(model)(self@.histograms[other]) by {
                            assert(self.histograms@.contains_key(other));
                            let j = choose|j: int| 0 <= j < keys@.len() && keys@[j] == other;
                            assert(keys@[j] == other);
                        }
                    }
                }
                key
            },
            None => {
                proof {
                    assert(false);
                }
                (0, 0, 0)
            },
        }
    }

    fn limit_profiles(&mut self)
        ensures
            final(self)@ == (StoreView { profiles: final(self)@.profiles, ..old(self)@ }),
            tables::keeps_highest(
                old(self)@.profiles,
                final(self)@.profiles,
                old(self)@.settings.max_baselines as nat,
                by_last_observation(),
            ),
    {
        broadcast use vstd::std_specs::hash::group_hash_axioms;

        let ghost before = self@.profiles;
        let limit: usize = self.settings.max_baselines;
        proof {
            assert(before.dom() =~= self.unit_profiles@.dom());
        }
        while self.unit_profiles.len() > limit
            invariant
                limit == self.settings.max_baselines,
                before.dom().finite(),
                self@ == (StoreView { profiles: self@.profiles, ..old(self)@ }),
                self@.profiles.dom() == self.unit_profiles@.dom(),
                before.len() <= limit ==> self@.profiles == before,
                before.len() > limit ==> self@.profiles.len() >= limit,
                tables::keeps_highest(
                    before,
                    self@.profiles,
                    self@.profiles.len(),
                    by_last_observation(),
                ),
            decreases self.unit_profiles@.len(),
        {
            let ghost current = self@.profiles;
            let keys = tables::keys_of(&self.unit_profiles);
            let mut best: Option<(u64, u64)> = None;
            let mut i: usize = 0;
            while i < keys.len()
                invariant
                    current == self@.profiles,
                    forall|key: u64| #[trigger]
                        self.unit_profiles@.contains_key(key) <==> keys@.contains(key),
                    i <= keys@.len(),
                    best is None <==> i == 0,
                    match best {
                        Some((key, bucket)) => {
                            &&& current.contains_key(key)
                            &&& bucket == current[key].last_touched_bucket
                            &&& forall|j: int|
                                0 <= j < i ==> bucket <= current[#[trigger] keys@[j]].last_touched_bucket
                        },
                        None => true,
                    },
                decreases keys@.len() - i,
            {
                let key: u64 = keys[i];
                proof {
                    assert(keys@.contains(keys@[i as int]));
                    assert(self.unit_profiles@.contains_key(key));
                }
                match self.unit_profiles.get(&key) {
                    Some(profile) => {
                        let bucket: u64 = profile.last_touched_bucket();
                        let older: bool = match best {
                            Some((_, least)) => bucket < least,
                            None => true,
                        };
                        if older {
                            best = Some((key, bucket));
                        }
                    },
                    None => {
                        proof {
                            assert(false);
                        }
                    },
                }
                i += 1;
            }
            match best {
                Some((key, _)) => {
                    proof {
                        assert forall|other: u64| #[trigger] current.contains_key(
                            other,
                        ) implies by_last_observation()(current[key]) <= by_last_observation()(
                            current[other],
                        ) by {
                            assert(self.unit_profiles@.contains_key(other));
                            let j = choose|j: int| 0 <= j < keys@.len() && keys@[j] == other;
                            assert(keys@[j] == other);
                        }
                        tables::dropping_the_lowest(before, current, key, by_last_observation());
                    }
                    let _ = self.unit_profiles.remove(&key);
                    proof {
                        assert(self@.profiles =~= current.remove(key));
                        assert(self@.profiles.dom() =~= self.unit_profiles@.dom());
                    }
                },
                None => {
                    proof {
                        assert(false);
                    }
                },
            }
        }
    }

    fn limit_units(&mut self)
        ensures
            final(self)@ == (StoreView { units: final(self)@.units, ..old(self)@ }),
            tables::keeps_highest(
                old(self)@.units,
                final(self)@.units,
                old(self)@.settings.max_baselines as nat,
                by_last_event(),
            ),
    {
        broadcast use vstd::std_specs::hash::group_hash_axioms;

        let ghost before = self@.units;
        let limit: usize = self.settings.max_baselines;
        proof {
            assert(before.dom() =~= self.unit_states@.dom());
        }
        while self.unit_states.len() > limit
            invariant
                limit == self.settings.max_baselines,
                before.dom().finite(),
                self@ == (StoreView { units: self@.units, ..old(self)@ }),
                self@.units.dom() == self.unit_states@.dom(),
                before.len() <= limit ==> self@.units == before,
                before.len() > limit ==> self@.units.len() >= limit,
                tables::keeps_highest(before, self@.units, self@.units.len(), by_last_event()),
            decreases self.unit_states@.len(),
        {
            let ghost current = self@.units;
            let keys = tables::keys_of(&self.unit_states);
            let mut best: Option<(u64, u64)> = None;
            let mut i: usize = 0;
            while i < keys.len()
                invariant
                    current == self@.units,
                    forall|key: u64| #[trigger]
                        self.unit_states@.contains_key(key) <==> keys@.contains(key),
                    i <= keys@.len(),
                    best is None <==> i == 0,
                    match best {
                        Some((key, bucket)) => {
                            &&& current.contains_key(key)
                            &&& bucket == current[key].last_touched_bucket
                            &&& forall|j: int|
                                0 <= j < i ==> bucket <= current[#[trigger] keys@[j]].last_touched_bucket
                        },
                        None => true,
                    },
                decreases keys@.len() - i,
            {
                let key: u64 = keys[i];
                proof {
                    assert(keys@.contains(keys@[i as int]));
                    assert(self.unit_states@.contains_key(key));
                }
                match self.unit_states.get(&key) {
                    Some(state) => {
                        let bucket: u64 = state.last_touched_bucket;
                        let older: bool = match best {
                            Some((_, least)) => bucket < least,
                            None => true,
                        };
                        if older {
                            best = Some((key, bucket));
                        }
                    },
                    None => {
                        proof {
                            assert(false);
                        }
                    },
                }
                i += 1;
            }
            match best {
                Some((key, _)) => {
                    proof {
                        assert forall|other: u64| #[trigger] current.contains_key(
                            other,
                        ) implies by_last_event()(current[key]) <= by_last_event()(
                            current[other],
                        ) by {
                            assert(self.unit_states@.contains_key(other));
                            let j = choose|j: int| 0 <= j < keys@.len() && keys@[j] == other;
                            assert(keys@[j] == other);
                        }
                        tables::dropping_the_lowest(before, current, key, by_last_event());
                    }
                    let _ = self.unit_states.remove(&key);
                    proof {
                        assert(self@.units =~= current.remove(key));
                        assert(self@.units.dom() =~= self.unit_states@.dom());
                    }
                },
                None => {
                    proof {
                        assert(false);
                    }
                },
            }
        }
    }

    /// How many histograms there are.
    pub fn histogram_count(&self) -> (count: usize)
        ensures
            count == self@.histograms.len(),
    {
        proof {
            assert(self@.histograms.dom() =~= self.histograms@.dom());
        }
        self.histograms.len()
    }

    /// How many profiles there are.
    pub fn unit_profile_count(&self) -> (count: usize)
        ensures
            count == self@.profiles.len(),
    {
        broadcast use vstd::std_specs::hash::group_hash_axioms;

        proof {
            assert(self@.profiles.dom() =~= self.unit_profiles@.dom());
        }
        self.unit_profiles.len()
    }

    /// For how many units a bucket is open.
    pub fn unit_state_count(&self) -> (count: usize)
        ensures
            count == self@.units.len(),
    {
        broadcast use vstd::std_specs::hash::group_hash_axioms;

        proof {
            assert(self@.units.dom() =~= self.unit_states@.dom());
        }
        self.unit_states.len()
    }

    /// How many events of a template the open bucket of a unit has.
    pub fn current_bucket_count(&self, unit_key: u64, template: TemplateId) -> (count: u32)
        ensures
            count == self@.unit(unit_key).count(template.0),
    {
        broadcast use vstd::std_specs::hash::group_hash_axioms;

        match self.unit_states.get(&unit_key) {
            Some(state) => match state.bucket_counts.get(&template.0) {
                Some(count) => *count,
                None => 0,
            },
            None => 0,
        }
    }

    /// Copies the histograms and profiles for storage. Buckets that are still open
    /// are not part of it.
    pub fn snapshot(&self) -> (snapshot: BaselineSnapshot)
        ensures
            tables::map_of(stored_histograms(snapshot.histograms@)) == self@.histograms,
            tables::map_of(stored_profiles(snapshot.profiles@)) == self@.profiles,
            snapshot.histograms@.len() == self@.histograms.len(),
            snapshot.profiles@.len() == self@.profiles.len(),
            tables::keys_differ(stored_histograms(snapshot.histograms@)),
            tables::keys_differ(stored_profiles(snapshot.profiles@)),
    {
        broadcast use vstd::std_specs::hash::group_hash_axioms;

        let keys = self.histograms.keys();
        let mut histograms: Vec<(BaselineKey, CountHistogram)> = Vec::new();
        let mut i: usize = 0;
        while i < keys.len()
            invariant
                keys@.no_duplicates(),
                forall|key: (u64, u64, u8)| #[trigger]
                    self.histograms@.contains_key(key) <==> keys@.contains(key),
                i <= keys@.len(),
                histograms@.len() == i,
                forall|key: (u64, u64, u8)| #[trigger]
                    tables::map_of(stored_histograms(histograms@)).contains_key(key)
                        <==> keys@.take(i as int).contains(key),
                forall|key: (u64, u64, u8)| #[trigger]
                    tables::map_of(stored_histograms(histograms@)).contains_key(key)
                        ==> tables::map_of(stored_histograms(histograms@))[key]
                        == self@.histograms[key],
            decreases keys@.len() - i,
        {
            let key: (u64, u64, u8) = keys[i];
            let ghost before = stored_histograms(histograms@);
            proof {
                assert(keys@.contains(keys@[i as int]));
                assert(self.histograms@.contains_key(key));
            }
            match self.histograms.get(key) {
                Some(histogram) => {
                    let copy = histogram.duplicate();
                    let ghost copied = copy@;
                    histograms.push(
                        (
                            BaselineKey {
                                unit_key: key.0,
                                template_id: TemplateId(key.1),
                                slot: Slot(key.2),
                            },
                            copy,
                        ),
                    );
                    proof {
                        let after = stored_histograms(histograms@);
                        assert(after.drop_last() =~= before);
                        assert(after.last() == (key, copied));
                        assert(keys@.take(i as int + 1) =~= keys@.take(i as int).push(key));
                        let shorter = keys@.take(i as int);
                        let longer = keys@.take(i as int + 1);
                        assert forall|k: (u64, u64, u8)| #[trigger]
                            tables::map_of(after).contains_key(k) <==> longer.contains(k) by {
                            if shorter.contains(k) {
                                let j = choose|j: int| 0 <= j < shorter.len() && shorter[j] == k;
                                assert(longer[j] == k);
                            }
                            if k == key {
                                assert(longer[i as int] == k);
                            }
                            if longer.contains(k) && k != key {
                                let j = choose|j: int| 0 <= j < longer.len() && longer[j] == k;
                                assert(shorter[j] == k);
                            }
                            assert(tables::map_of(before).contains_key(k) <==> shorter.contains(k));
                        }
                        assert forall|k: (u64, u64, u8)| #[trigger]
                            tables::map_of(after).contains_key(k) implies tables::map_of(after)[k]
                            == self@.histograms[k] by {
                            if k != key {
                                assert(tables::map_of(before).contains_key(k));
                            }
                        }
                    }
                },
                None => {
                    proof {
                        assert(false);
                    }
                },
            }
            i += 1;
        }
        proof {
            assert(keys@.take(keys@.len() as int) =~= keys@);
            assert forall|key: (u64, u64, u8)| #[trigger]
                tables::map_of(stored_histograms(histograms@)).contains_key(key)
                    <==> self@.histograms.contains_key(key) by {
                assert(self.histograms@.contains_key(key) <==> keys@.contains(key));
            }
            assert(tables::map_of(stored_histograms(histograms@)) =~= self@.histograms);
            assert(self@.histograms.dom() =~= self.histograms@.dom());
        }
        let units = tables::keys_of(&self.unit_profiles);
        let mut profiles: Vec<(u64, UnitProfile)> = Vec::new();
        let mut n: usize = 0;
        while n < units.len()
            invariant
                units@.no_duplicates(),
                forall|key: u64| #[trigger]
                    self.unit_profiles@.contains_key(key) <==> units@.contains(key),
                n <= units@.len(),
                profiles@.len() == n,
                forall|key: u64| #[trigger]
                    tables::map_of(stored_profiles(profiles@)).contains_key(key)
                        <==> units@.take(n as int).contains(key),
                forall|key: u64| #[trigger]
                    tables::map_of(stored_profiles(profiles@)).contains_key(key)
                        ==> tables::map_of(stored_profiles(profiles@))[key] == self@.profiles[key],
            decreases units@.len() - n,
        {
            let key: u64 = units[n];
            let ghost before = stored_profiles(profiles@);
            proof {
                assert(units@.contains(units@[n as int]));
                assert(self.unit_profiles@.contains_key(key));
            }
            match self.unit_profiles.get(&key) {
                Some(profile) => {
                    let copy = profile.duplicate();
                    let ghost copied = copy@;
                    profiles.push((key, copy));
                    proof {
                        let after = stored_profiles(profiles@);
                        assert(after.drop_last() =~= before);
                        assert(after.last() == (key, copied));
                        assert(units@.take(n as int + 1) =~= units@.take(n as int).push(key));
                        let shorter = units@.take(n as int);
                        let longer = units@.take(n as int + 1);
                        assert forall|k: u64| #[trigger]
                            tables::map_of(after).contains_key(k) <==> longer.contains(k) by {
                            if shorter.contains(k) {
                                let j = choose|j: int| 0 <= j < shorter.len() && shorter[j] == k;
                                assert(longer[j] == k);
                            }
                            if k == key {
                                assert(longer[n as int] == k);
                            }
                            if longer.contains(k) && k != key {
                                let j = choose|j: int| 0 <= j < longer.len() && longer[j] == k;
                                assert(shorter[j] == k);
                            }
                            assert(tables::map_of(before).contains_key(k) <==> shorter.contains(k));
                        }
                        assert forall|k: u64| #[trigger]
                            tables::map_of(after).contains_key(k) implies tables::map_of(after)[k]
                            == self@.profiles[k] by {
                            if k != key {
                                assert(tables::map_of(before).contains_key(k));
                            }
                        }
                    }
                },
                None => {
                    proof {
                        assert(false);
                    }
                },
            }
            n += 1;
        }
        proof {
            assert(units@.take(units@.len() as int) =~= units@);
            assert forall|key: u64| #[trigger]
                tables::map_of(stored_profiles(profiles@)).contains_key(key)
                    <==> self@.profiles.contains_key(key) by {
                assert(self.unit_profiles@.contains_key(key) <==> units@.contains(key));
            }
            assert(tables::map_of(stored_profiles(profiles@)) =~= self@.profiles);
            assert(self@.profiles.dom() =~= self.unit_profiles@.dom());
            assert(stored_histograms(histograms@).len() == self@.histograms.len());
            tables::as_many_keys_as_entries(stored_histograms(histograms@));
            assert(stored_profiles(profiles@).len() == self@.profiles.len());
            tables::as_many_keys_as_entries(stored_profiles(profiles@));
        }
        BaselineSnapshot { histograms, profiles }
    }

    /// Builds a store from what was stored. No bucket is open.
    pub fn restore(snapshot: BaselineSnapshot, bucket_seconds: u64, config: &BaselineConfig) -> (store:
        BaselineStore)
        ensures
            store@.histograms == tables::map_of(stored_histograms(snapshot.histograms@)),
            store@.profiles == tables::map_of(stored_profiles(snapshot.profiles@)),
            store@.units == Map::<u64, UnitView>::empty(),
            store@.bucket_us == bucket_micros(bucket_seconds),
            store@.bucket_us >= 1,
            store@.decay == decay::by_hours(config.half_life_hours, bucket_seconds),
            store@.settings == *config,
    {
        broadcast use vstd::std_specs::hash::group_hash_axioms;

        let mut store = BaselineStore::new(bucket_seconds, config);
        let ghost fresh = store@;
        let histograms = snapshot.histograms;
        let ghost all = stored_histograms(histograms@);
        proof {
            assert(store@.histograms =~= tables::map_of(all.take(0)));
        }
        for entry in it: histograms.into_iter()
            invariant
                it.seq() == histograms@,
                all == stored_histograms(histograms@),
                store@.histograms == tables::map_of(all.take(it.index())),
                store@ == (StoreView { histograms: store@.histograms, ..fresh }),
        {
            let ghost k = it.index();
            let ghost current = store@.histograms;
            let (key, histogram) = entry;
            let ghost held = histogram@;
            proof {
                assert(all.take(k + 1).drop_last() =~= all.take(k));
                assert(all[k] == (key.parts(), held));
            }
            store.histograms.insert(key.as_parts(), histogram);
            proof {
                assert(store@.histograms =~= current.insert(key.parts(), held));
            }
        }
        proof {
            assert(all.take(all.len() as int) =~= all);
        }
        let ghost filled = store@;
        let profiles = snapshot.profiles;
        let ghost units = stored_profiles(profiles@);
        proof {
            assert(store@.profiles =~= tables::map_of(units.take(0)));
        }
        for entry in it: profiles.into_iter()
            invariant
                it.seq() == profiles@,
                units == stored_profiles(profiles@),
                store@.profiles == tables::map_of(units.take(it.index())),
                store@ == (StoreView { profiles: store@.profiles, ..filled }),
        {
            let ghost k = it.index();
            let ghost current = store@.profiles;
            let (key, profile) = entry;
            let ghost held = profile@;
            proof {
                assert(units.take(k + 1).drop_last() =~= units.take(k));
                assert(units[k] == (key, held));
            }
            store.unit_profiles.insert(key, profile);
            proof {
                assert(store@.profiles =~= current.insert(key, held));
            }
        }
        proof {
            assert(units.take(units.len() as int) =~= units);
        }
        store
    }
}

/// Whether `after` is the store after an event in a slot, as the numbers are computed.
pub open spec fn records_with<F: Fn(FloatOp) -> u64>(
    before: StoreView,
    timestamp_us: u64,
    unit_key: u64,
    template_id: u64,
    slot: u8,
    floats: FloatUnit<F>,
    after: StoreView,
) -> bool {
    forall|model: spec_fn(FloatOp) -> u64| #[trigger]
        floats.computes(model) ==> before.records(
            timestamp_us,
            unit_key,
            template_id,
            slot,
            after,
            model,
        )
}

/// Whether a share is that of a template in the profile of its unit, as the numbers are
/// computed.
pub open spec fn is_share<F: Fn(FloatOp) -> u64>(
    store: StoreView,
    unit_key: u64,
    template_id: u64,
    floats: FloatUnit<F>,
    share: Option<ProfileShare>,
) -> bool {
    forall|model: spec_fn(FloatOp) -> u64| #[trigger]
        floats.computes(model) ==> share == store.share_of(unit_key, template_id, model)
}

/// Whether it is told rightly that some baseline is trusted, as the numbers are computed.
pub open spec fn tells_trust<F: Fn(FloatOp) -> u64>(
    store: StoreView,
    floats: FloatUnit<F>,
    trusted: bool,
) -> bool {
    forall|model: spec_fn(FloatOp) -> u64| #[trigger]
        floats.computes(model) ==> trusted == store.has_trusted(model)
}

/// Whether the histograms have been cut down to their limit, and the heaviest are left, as
/// the numbers are computed.
pub open spec fn keeps_the_heaviest<F: Fn(FloatOp) -> u64>(
    before: StoreView,
    floats: FloatUnit<F>,
    after: StoreView,
) -> bool {
    forall|model: spec_fn(FloatOp) -> u64| #[trigger]
        floats.computes(model) ==> tables::keeps_highest(
            before.histograms,
            after.histograms,
            before.settings.max_baselines as nat,
            by_weight(model),
        )
}

/// Whether a rate is that of a baseline in a slot.
pub open spec fn is_rate_in_slot<F: Fn(FloatOp) -> u64>(
    store: BaselineStore,
    slot: u8,
    unit_key: u64,
    template: TemplateId,
    floats: FloatUnit<F>,
    rate: Option<(BaselineRate, RateSource)>,
) -> bool {
    &&& rate matches Some((_, source)) ==> source == RateSource::SlotBaseline || source
        == RateSource::AnySlotBaseline
    &&& forall|model: spec_fn(FloatOp) -> u64| #[trigger]
        floats.computes(model) ==> match rate {
            Some((found, source)) => store@.rate_in(slot, unit_key, template.0, model) == Some(
                (found.median_halves as int, found.deviation_quarters as int, source),
            ),
            None => store@.rate_in(slot, unit_key, template.0, model) is None,
        }
}

/// When a bucket of a unit ends, every template that the unit knows is observed
/// exactly once in the slot of the bucket and once at any time, with the number of
/// its events or with zero, and no other histogram changes.
pub proof fn known_templates_are_observed(
    store: StoreView,
    bucket: u64,
    unit_key: u64,
    key: (u64, u64, u8),
    model: spec_fn(FloatOp) -> u64,
)
    requires
        store.unit(unit_key).ends_before(bucket),
    ensures
        ({
            let unit = store.unit(unit_key);
            let after = store.histograms_after(bucket, unit_key, model);
            if key.0 == unit_key && unit.known.contains_key(key.1) && (key.2 == unit.open_slot || key.2
                == Slot::ANY) {
                &&& after.contains_key(key)
                &&& after[key] == histogram_at(store.histograms, key).observed(
                    unit.count(key.1),
                    unit.open_bucket->0,
                    store.histogram_config(),
                    model,
                )
            } else {
                &&& after.contains_key(key) == store.histograms.contains_key(key)
                &&& after.contains_key(key) ==> after[key] == store.histograms[key]
            }
        }),
{
}

/// An event whose time has a calendar date is observed twice once its bucket has
/// ended: in the slot of its time, and at any time. Until then no histogram has it.
pub proof fn a_closed_bucket_fills_two_histograms(
    store: StoreView,
    unit_key: u64,
    first_us: u64,
    first_id: u64,
    first_slot: u8,
    between: StoreView,
    second_us: u64,
    second_id: u64,
    second_slot: u8,
    after: StoreView,
)
    requires
        store.bucket_us >= 1,
        store.histograms == Map::<(u64, u64, u8), HistogramView>::empty(),
        store.unit(unit_key) == UnitView::empty(),
        first_us / 1_000_000 <= slot::LAST_SECOND,
        slot::can_be_slot_of(first_us, first_slot),
        second_us / store.bucket_us > first_us / store.bucket_us,
        store.counts_event(first_us, unit_key, first_id, first_slot, between),
        between.counts_event(second_us, unit_key, second_id, second_slot, after),
    ensures
        between.histograms.len() == 0,
        after.histograms.dom() == set![
            (unit_key, first_id, first_slot),
            (unit_key, first_id, Slot::ANY),
        ],
        after.histograms.len() == 2,
        after.unit(unit_key).count(second_id) == 1,
{
    let bucket = first_us / store.bucket_us;
    let opened = store.unit(unit_key).opened(bucket, first_slot).counted(first_id, bucket);
    assert(opened.known =~= Map::<u64, u64>::empty().insert(first_id, bucket));
    assert(opened.known.dom() =~= set![first_id]);
    assert(opened.known.len() == 1);
    let both = set![(unit_key, first_id, first_slot), (unit_key, first_id, Slot::ANY)];
    assert forall|key: (u64, u64, u8)| #[trigger]
        after.histograms.dom().contains(key) <==> both.contains(key) by {
        assert(after.histograms.contains_key(key) <==> between.histograms.contains_key(key)
            || is_observed(key, unit_key, between.unit(unit_key).known.dom(), first_slot));
    }
    assert(after.histograms.dom() =~= both);
    assert(both.len() == 2);
    let later = second_us / store.bucket_us;
    let counted = between.unit(unit_key).opened(later, second_slot).counted(second_id, later);
    assert(counted.known =~= opened.known.insert(second_id, later));
    if second_id == first_id {
        assert(counted.known.dom() =~= set![first_id]);
        assert(counted.known.len() == 1);
    } else {
        assert(counted.known.contains_key(first_id) && counted.known[first_id] == bucket);
        assert(!counted.is_oldest(second_id));
    }
}

/// How many templates a unit may know.
pub open spec fn known_limit(max_known: usize) -> nat {
    if max_known >= 1 {
        max_known as nat
    } else {
        1
    }
}

/// An event that is counted.
pub ghost struct StoreEvent {
    /// The time of the event.
    pub timestamp_us: u64,
    /// The key of its unit.
    pub unit_key: u64,
    /// Its template.
    pub template_id: u64,
    /// Its slot.
    pub slot: u8,
}

/// Whether a store has counted events one after the other: `states` says what it held
/// before each of them and after the last.
pub open spec fn counts_all(states: Seq<StoreView>, events: Seq<StoreEvent>) -> bool {
    &&& states.len() == events.len() + 1
    &&& forall|k: int|
        0 <= k < events.len() ==> #[trigger] states[k].counts_event(
            events[k].timestamp_us,
            events[k].unit_key,
            events[k].template_id,
            events[k].slot,
            states[k + 1],
        )
}

/// However many events there are, no unit ever knows more templates than it may.
pub proof fn known_templates_stay_bounded(
    states: Seq<StoreView>,
    events: Seq<StoreEvent>,
    unit_key: u64,
    k: int,
)
    requires
        counts_all(states, events),
        states[0].unit(unit_key) == UnitView::empty(),
        0 <= k < states.len(),
    ensures
        states[k].settings == states[0].settings,
        states[k].unit(unit_key).known.dom().finite(),
        states[k].unit(unit_key).known.len() <= known_limit(
            states[0].settings.profile_max_templates,
        ),
    decreases k,
{
    if k > 0 {
        let j: int = k - 1;
        known_templates_stay_bounded(states, events, unit_key, j);
        let event = events[j];
        assert(states[j].counts_event(
            event.timestamp_us,
            event.unit_key,
            event.template_id,
            event.slot,
            states[j + 1],
        ));
        if event.unit_key == unit_key {
            an_event_keeps_the_known_bounded(
                states[j].unit(unit_key),
                event.template_id,
                event.timestamp_us / states[j].bucket_us,
                event.slot,
                states[j].settings.profile_max_templates,
                states[k].unit(unit_key),
            );
        }
    }
}

/// An event does not make a unit know more templates than it may.
proof fn an_event_keeps_the_known_bounded(
    unit: UnitView,
    template_id: u64,
    bucket: u64,
    slot: u8,
    max_known: usize,
    after: UnitView,
)
    requires
        unit.known.dom().finite(),
        unit.known.len() <= known_limit(max_known),
        unit.opened(bucket, slot).counted(template_id, bucket).forgets(max_known, after),
    ensures
        after.known.dom().finite(),
        after.known.len() <= known_limit(max_known),
{
    let counted = unit.opened(bucket, slot).counted(template_id, bucket);
    assert(counted.known.dom() =~= unit.known.dom().insert(template_id));
    if counted.known.len() > known_limit(max_known) {
        let oldest = choose|oldest: u64| #[trigger]
            counted.is_oldest(oldest) && after == (UnitView {
                known: counted.known.remove(oldest),
                counts: counted.counts.remove(oldest),
                ..counted
            });
        assert(after.known.dom() =~= counted.known.dom().remove(oldest));
    }
}

/// Silence is not observed: however many buckets a unit skips, only the one that was open
/// counts.
pub proof fn silence_is_not_observed(
    store: StoreView,
    unit_key: u64,
    next: u64,
    later: u64,
    model: spec_fn(FloatOp) -> u64,
)
    requires
        store.unit(unit_key).ends_before(next),
        next <= later,
    ensures
        store.histograms_after(later, unit_key, model) == store.histograms_after(
            next,
            unit_key,
            model,
        ),
{
}

/// What a snapshot of a store holds and a store restored from it holds are the
/// same histograms and profiles.
pub proof fn restoring_undoes_storing(
    store: StoreView,
    histograms: Seq<((u64, u64, u8), HistogramView)>,
    profiles: Seq<(u64, ProfileView)>,
    restored: StoreView,
)
    requires
        tables::map_of(histograms) == store.histograms,
        tables::map_of(profiles) == store.profiles,
        restored.histograms == tables::map_of(histograms),
        restored.profiles == tables::map_of(profiles),
        restored.units == Map::<u64, UnitView>::empty(),
    ensures
        restored.histograms == store.histograms,
        restored.profiles == store.profiles,
        forall|unit_key: u64| #[trigger] restored.unit(unit_key) == UnitView::empty(),
{
}

/// The rate of a template in a slot is held against the histogram of just that unit,
/// template and slot, if it is trusted and has a median: the answer is its median and its
/// deviation, and says so.
pub proof fn a_slot_answers_for_itself<F: Fn(FloatOp) -> u64>(
    store: BaselineStore,
    slot: u8,
    unit_key: u64,
    template: TemplateId,
    floats: FloatUnit<F>,
    rate: Option<(BaselineRate, RateSource)>,
    model: spec_fn(FloatOp) -> u64,
    median: int,
    deviation: int,
)
    requires
        is_rate_in_slot(store, slot, unit_key, template, floats, rate),
        floats.computes(model),
        slot < 48,
        store@.histograms.contains_key((unit_key, template.0, slot)),
        store@.histograms[(unit_key, template.0, slot)].trusted(store@.settings.min_weight, model),
        store@.histograms[(unit_key, template.0, slot)].median_deviation(model) == Some(
            (median, deviation),
        ),
    ensures
        rate matches Some((found, source)) && found.median_halves == median
            && found.deviation_quarters == deviation && source == RateSource::SlotBaseline,
{
}

/// Where the histogram of the slot is missing or not trusted, the one of the same unit and
/// template for any time answers, and says so; where that is not trusted either, nothing
/// does. The histogram of any time answers for itself, too.
pub proof fn any_time_answers_for_the_rest<F: Fn(FloatOp) -> u64>(
    store: BaselineStore,
    slot: u8,
    unit_key: u64,
    template: TemplateId,
    floats: FloatUnit<F>,
    rate: Option<(BaselineRate, RateSource)>,
    model: spec_fn(FloatOp) -> u64,
    median: int,
    deviation: int,
)
    requires
        is_rate_in_slot(store, slot, unit_key, template, floats, rate),
        floats.computes(model),
        slot <= 48,
        slot < 48 ==> !store@.histograms.contains_key((unit_key, template.0, slot))
            || !store@.histograms[(unit_key, template.0, slot)].trusted(
            store@.settings.min_weight,
            model,
        ),
    ensures
        ({
            let any = (unit_key, template.0, 48u8);
            &&& store@.histograms.contains_key(any) && store@.histograms[any].trusted(
                store@.settings.min_weight,
                model,
            ) && store@.histograms[any].median_deviation(model) == Some((median, deviation)) ==> (
            rate matches Some((found, source)) && found.median_halves == median
                && found.deviation_quarters == deviation && source == RateSource::AnySlotBaseline)
            &&& !store@.histograms.contains_key(any) || !store@.histograms[any].trusted(
                store@.settings.min_weight,
                model,
            ) ==> rate is None
        }),
{
}

/// No other histogram has a say: two stores with the same threshold that agree on the
/// histograms of a unit and a template in a slot and at any time give the same answer.
pub proof fn other_histograms_have_no_say<F: Fn(FloatOp) -> u64>(
    one: BaselineStore,
    two: BaselineStore,
    slot: u8,
    unit_key: u64,
    template: TemplateId,
    floats: FloatUnit<F>,
    first: Option<(BaselineRate, RateSource)>,
    second: Option<(BaselineRate, RateSource)>,
    model: spec_fn(FloatOp) -> u64,
)
    requires
        is_rate_in_slot(one, slot, unit_key, template, floats, first),
        is_rate_in_slot(two, slot, unit_key, template, floats, second),
        floats.computes(model),
        one@.settings.min_weight == two@.settings.min_weight,
        forall|key: (u64, u64, u8)|
            key.0 == unit_key && key.1 == template.0 && (key.2 == slot || key.2 == 48) ==> {
                &&& #[trigger] one@.histograms.contains_key(key) <==> two@.histograms.contains_key(key)
                &&& one@.histograms.contains_key(key) ==> one@.histograms[key]
                    == two@.histograms[key]
            },
    ensures
        first == second,
{
    let own = (unit_key, template.0, slot);
    let any = (unit_key, template.0, 48u8);
    assert(one@.histograms.contains_key(own) <==> two@.histograms.contains_key(own));
    assert(one@.histograms.contains_key(any) <==> two@.histograms.contains_key(any));
    assert(one@.rate_in(slot, unit_key, template.0, model) == two@.rate_in(
        slot,
        unit_key,
        template.0,
        model,
    ));
}

/// As long as a unit has room for its templates, an event adds one to the count of its
/// template in the open bucket, and leaves the counts of the others; an event in a later
/// bucket opens that, in which only it counts. The first event of a bucket decides on its
/// slot. Other units, and the settings, stay as they are.
pub proof fn an_event_counts_for_its_bucket(
    store: StoreView,
    timestamp_us: u64,
    unit_key: u64,
    template_id: u64,
    slot: u8,
    after: StoreView,
    other: u64,
)
    requires
        store.bucket_us >= 1,
        store.counts_event(timestamp_us, unit_key, template_id, slot, after),
        store.units.contains_key(unit_key),
        store.units[unit_key].open_bucket is Some,
        store.units[unit_key].known.dom().finite(),
        store.units[unit_key].known.len() < store.settings.profile_max_templates,
        store.units[unit_key].counts.contains_key(template_id),
        store.units[unit_key].counts[template_id] < u32::MAX,
        other != template_id,
    ensures
        ({
            let bucket = timestamp_us / store.bucket_us;
            let open = store.units[unit_key].open_bucket->0;
            let before = store.units[unit_key];
            let unit = after.units[unit_key];
            &&& bucket <= open ==> {
                &&& unit.open_bucket == Some(open)
                &&& unit.open_slot == before.open_slot
                &&& unit.counts.contains_key(template_id)
                &&& unit.counts[template_id] == before.counts[template_id] + 1
                &&& unit.counts.contains_key(other) == before.counts.contains_key(other)
                &&& before.counts.contains_key(other) ==> unit.counts[other] == before.counts[other]
                &&& after.histograms == store.histograms
            }
            &&& bucket > open ==> {
                &&& unit.open_bucket == Some(bucket)
                &&& unit.open_slot == slot
                &&& unit.counts.contains_key(template_id)
                &&& unit.counts[template_id] == 1
                &&& !unit.counts.contains_key(other)
            }
            &&& unit.known.contains_key(template_id)
            &&& unit.known[template_id] == bucket
            &&& bucket >= before.last_touched_bucket ==> unit.last_touched_bucket == bucket
            &&& bucket < before.last_touched_bucket ==> unit.last_touched_bucket
                == before.last_touched_bucket
            &&& forall|id: u64| #[trigger] before.known.contains_key(id) ==> unit.known.contains_key(id)
            &&& forall|key: u64|
                key != unit_key ==> (#[trigger] after.units.contains_key(key)
                    == store.units.contains_key(key)) && (store.units.contains_key(key)
                    ==> after.units[key] == store.units[key])
            &&& after.settings == store.settings && after.bucket_us == store.bucket_us
        }),
{
    let bucket = timestamp_us / store.bucket_us;
    let counted = store.units[unit_key].opened(bucket, slot).counted(template_id, bucket);
    assert(counted.known.dom() =~= store.units[unit_key].known.dom().insert(template_id));
    assert(counted.known.len() <= store.settings.profile_max_templates);
}

/// The first event of a unit opens its bucket in the slot of the event and counts once;
/// no histogram knows of it yet.
pub proof fn the_first_event_opens_a_bucket(
    store: StoreView,
    timestamp_us: u64,
    unit_key: u64,
    template_id: u64,
    slot: u8,
    after: StoreView,
)
    requires
        store.bucket_us >= 1,
        store.counts_event(timestamp_us, unit_key, template_id, slot, after),
        !store.units.contains_key(unit_key),
    ensures
        ({
            let unit = after.units[unit_key];
            &&& after.units.contains_key(unit_key)
            &&& unit.open_bucket == Some((timestamp_us / store.bucket_us) as u64)
            &&& unit.open_slot == slot
            &&& unit.counts == map![template_id => 1u32]
            &&& unit.known.dom() == set![template_id]
            &&& unit.last_touched_bucket == timestamp_us / store.bucket_us
            &&& after.histograms == store.histograms
        }),
{
    let bucket = timestamp_us / store.bucket_us;
    let counted = store.unit(unit_key).opened(bucket, slot).counted(template_id, bucket);
    assert(counted.known =~= Map::<u64, u64>::empty().insert(template_id, bucket));
    assert(counted.known.dom() =~= set![template_id]);
    assert(counted.known.len() == 1);
    assert(counted.counts =~= map![template_id => 1u32]);
}

/// An event touches no histogram of another unit, none of another slot than the one in
/// which the bucket that it ends was opened (but for the one of any time), and none of a
/// template that its unit does not know.
pub proof fn an_event_keeps_the_histograms_of_others(
    store: StoreView,
    timestamp_us: u64,
    unit_key: u64,
    template_id: u64,
    slot: u8,
    after: StoreView,
    key: (u64, u64, u8),
)
    requires
        store.counts_event(timestamp_us, unit_key, template_id, slot, after),
        store.units.contains_key(unit_key),
        ({
            ||| key.0 != unit_key
            ||| key.2 != 48 && key.2 != store.units[unit_key].open_slot
            ||| !store.units[unit_key].known.contains_key(key.1)
        }),
    ensures
        after.histograms.contains_key(key) == store.histograms.contains_key(key),
        store.histograms.contains_key(key) ==> after.histograms[key] == store.histograms[key],
{
    assert(after.histograms.contains_key(key) == store.histograms.contains_key(key));
}

/// What a bucket held is what its end observes: each template that the unit knows, with
/// the number of its events in that bucket, or with zero; in the slot of the bucket and
/// at any time.
pub proof fn a_bucket_is_observed_as_it_was_counted(
    store: StoreView,
    timestamp_us: u64,
    unit_key: u64,
    template_id: u64,
    slot: u8,
    after: StoreView,
    model: spec_fn(FloatOp) -> u64,
    known: u64,
    at: u8,
)
    requires
        store.bucket_us >= 1,
        store.records(timestamp_us, unit_key, template_id, slot, after, model),
        store.units.contains_key(unit_key),
        store.units[unit_key].open_bucket is Some,
        timestamp_us / store.bucket_us > store.units[unit_key].open_bucket->0,
        store.units[unit_key].known.contains_key(known),
        at == 48 || at == store.units[unit_key].open_slot,
    ensures
        ({
            let unit = store.units[unit_key];
            let key = (unit_key, known, at);
            let config = HistogramConfig {
                decay: store.decay,
                max_bins: store.settings.max_bins,
            };
            let count = if unit.counts.contains_key(known) {
                unit.counts[known]
            } else {
                0u32
            };
            &&& after.histograms.contains_key(key)
            &&& store.histograms.contains_key(key) ==> after.histograms[key]
                == store.histograms[key].observed(count, unit.open_bucket->0, config, model)
            &&& !store.histograms.contains_key(key) ==> after.histograms[key].bins == seq![
                (count, 0x3f80_0000u32),
            ]
        }),
{
    let unit = store.units[unit_key];
    let config = HistogramConfig { decay: store.decay, max_bins: store.settings.max_bins };
    crate::histogram::the_first_observation_counts_one(
        unit.count(known),
        unit.open_bucket->0,
        config,
        model,
    );
}

/// The profile of a unit takes every event at once, and only its own.
pub proof fn a_profile_takes_its_own_events(
    store: StoreView,
    timestamp_us: u64,
    unit_key: u64,
    template_id: u64,
    slot: u8,
    after: StoreView,
    model: spec_fn(FloatOp) -> u64,
    other: u64,
)
    requires
        store.bucket_us >= 1,
        store.records(timestamp_us, unit_key, template_id, slot, after, model),
        other != unit_key,
    ensures
        ({
            let bucket = (timestamp_us / store.bucket_us) as u64;
            let config = ProfileConfig {
                decay: store.decay,
                max_templates: store.settings.profile_max_templates,
            };
            &&& after.profiles.contains_key(unit_key)
            &&& store.profiles.contains_key(unit_key) ==> after.profiles[unit_key]
                == store.profiles[unit_key].observed(template_id, bucket, config, model)
            &&& !store.profiles.contains_key(unit_key) ==> after.profiles[unit_key].counts == seq![
                (template_id, 0x3f80_0000u32),
            ]
            &&& after.profiles.contains_key(other) == store.profiles.contains_key(other)
            &&& store.profiles.contains_key(other) ==> after.profiles[other]
                == store.profiles[other]
        }),
{
    let config = ProfileConfig {
        decay: store.decay,
        max_templates: store.settings.profile_max_templates,
    };
    crate::profile::the_first_event_counts_one(
        template_id,
        (timestamp_us / store.bucket_us) as u64,
        config,
        model,
    );
}

/// A template of a profile is weighed against the whole profile of its own unit, and only
/// if that is trusted.
pub proof fn a_share_is_of_its_own_unit(
    store: StoreView,
    unit_key: u64,
    template_id: u64,
    model: spec_fn(FloatOp) -> u64,
)
    ensures
        !store.profiles.contains_key(unit_key) ==> store.share_of(unit_key, template_id, model)
            is None,
        store.profiles.contains_key(unit_key) ==> {
            let profile = store.profiles[unit_key];
            &&& store.share_of(unit_key, template_id, model) is Some <==> profile.trusted(
                store.settings.profile_min_weight,
                model,
            )
            &&& store.share_of(unit_key, template_id, model) matches Some(share) ==> {
                &&& share.weight == profile.weight(template_id)
                &&& share.total == profile.total(model)
                &&& profile.counts.len() <= usize::MAX ==> share.distinct == profile.counts.len()
            }
        },
{
}

/// Where anything is answered from a baseline, some baseline is trusted; where none is
/// trusted, nothing is answered.
pub proof fn only_trusted_baselines_answer(
    store: StoreView,
    slot: u8,
    unit_key: u64,
    template_id: u64,
    model: spec_fn(FloatOp) -> u64,
)
    ensures
        store.rate_in(slot, unit_key, template_id, model) is Some ==> store.has_trusted(model),
        store.share_of(unit_key, template_id, model) is Some ==> store.has_trusted(model),
        store.histograms.contains_key((unit_key, template_id, slot)) && store.histograms[(
            unit_key,
            template_id,
            slot,
        )].trusted(store.settings.min_weight, model) ==> store.has_trusted(model),
        store.histograms == Map::<(u64, u64, u8), HistogramView>::empty() && store.profiles
            == Map::<u64, ProfileView>::empty() ==> !store.has_trusted(model),
{
    assert(store.histograms.contains_key((unit_key, template_id, slot)) || true);
    assert(store.histograms.contains_key((unit_key, template_id, 48u8)) || true);
    assert(store.profiles.contains_key(unit_key) || true);
}

/// The key of a unit is the published hash of the bytes of its name; events without a
/// unit are taken together, as those of a unit that is called `<none>`. Two names of the
/// same length in bytes that differ in one byte have different keys.
pub proof fn units_are_told_apart_by_their_names(a: Seq<char>, b: Seq<char>, place: int)
    ensures
        unit_key(Some(a)) == hash::fnv1a(vstd::utf8::encode_utf8(a)),
        unit_key(None) == unit_key(Some("<none>"@)),
        ({
            let one = vstd::utf8::encode_utf8(a);
            let two = vstd::utf8::encode_utf8(b);
            one.len() == two.len() && 0 <= place < one.len() && one[place] != two[place] && (
            forall|i: int| 0 <= i < one.len() && i != place ==> #[trigger] one[i] == two[i])
                ==> unit_key(Some(a)) != unit_key(Some(b))
        }),
{
    let one = vstd::utf8::encode_utf8(a);
    let two = vstd::utf8::encode_utf8(b);
    if one.len() == two.len() && 0 <= place < one.len() && one[place] != two[place] && (forall|
        i: int,
    |
        0 <= i < one.len() && i != place ==> #[trigger] one[i] == two[i]) {
        hash::fnv1a_tells_one_byte_apart(one, two, place);
    }
}

/// A bucket is as long as its seconds, at least one, and never longer than can be counted.
pub proof fn buckets_last_their_seconds(bucket_seconds: u64)
    ensures
        bucket_micros(0) == 1_000_000,
        1 <= bucket_seconds <= 18_446_744_073_709 ==> bucket_micros(bucket_seconds)
            == bucket_seconds * 1_000_000,
        bucket_seconds > 18_446_744_073_709 ==> bucket_micros(bucket_seconds)
            == 18_446_744_073_709_551_615,
{
}

/// What is dropped when there are too many baselines weighs no more than what is kept, or
/// has been without an event for at least as long. Weights that are not negative are
/// compared by their bits.
pub proof fn the_least_goes_first(
    before: StoreView,
    after: StoreView,
    model: spec_fn(FloatOp) -> u64,
    dropped: (u64, u64, u8),
    kept: (u64, u64, u8),
    gone: u64,
    stays: u64,
)
    requires
        tables::keeps_highest(
            before.histograms,
            after.histograms,
            before.settings.max_baselines as nat,
            by_weight(model),
        ),
        tables::keeps_highest(
            before.profiles,
            after.profiles,
            before.settings.max_baselines as nat,
            by_last_observation(),
        ),
        tables::keeps_highest(
            before.units,
            after.units,
            before.settings.max_baselines as nat,
            by_last_event(),
        ),
    ensures
        before.histograms.contains_key(dropped) && !after.histograms.contains_key(dropped)
            && after.histograms.contains_key(kept) && before.histograms[dropped].total(model)
            < 0x8000_0000_0000_0000 && before.histograms[kept].total(model)
            < 0x8000_0000_0000_0000 ==> before.histograms[dropped].total(model)
            <= before.histograms[kept].total(model),
        before.profiles.contains_key(gone) && !after.profiles.contains_key(gone)
            && after.profiles.contains_key(stays) ==> before.profiles[gone].last_touched_bucket
            <= before.profiles[stays].last_touched_bucket,
        before.units.contains_key(gone) && !after.units.contains_key(gone)
            && after.units.contains_key(stays) ==> before.units[gone].last_touched_bucket
            <= before.units[stays].last_touched_bucket,
        before.histograms.len() <= before.settings.max_baselines ==> after.histograms.len()
            == before.histograms.len(),
        before.histograms.len() > before.settings.max_baselines ==> after.histograms.len()
            == before.settings.max_baselines,
        before.profiles.len() > before.settings.max_baselines ==> after.profiles.len()
            == before.settings.max_baselines,
        before.units.len() > before.settings.max_baselines ==> after.units.len()
            == before.settings.max_baselines,
        after.histograms.contains_key(kept) ==> after.histograms[kept] == before.histograms[kept],
{
    if before.histograms.contains_key(dropped) && !after.histograms.contains_key(dropped)
        && after.histograms.contains_key(kept) {
        assert(by_weight(model)(before.histograms[dropped]) <= by_weight(model)(
            before.histograms[kept],
        ));
        float::the_total_order_tells_bits_apart(
            before.histograms[kept].total(model),
            before.histograms[dropped].total(model),
            0,
            0,
        );
    }
    if before.profiles.contains_key(gone) && !after.profiles.contains_key(gone)
        && after.profiles.contains_key(stays) {
        assert(by_last_observation()(before.profiles[gone]) <= by_last_observation()(
            before.profiles[stays],
        ));
    }
    if after.histograms.contains_key(kept) {
        assert(before.histograms.dom().contains(kept));
    }
    if before.units.contains_key(gone) && !after.units.contains_key(gone)
        && after.units.contains_key(stays) {
        assert(by_last_event()(before.units[gone]) <= by_last_event()(before.units[stays]));
    }
}

/// When a unit comes to know one template too many, one goes whose last event is at least
/// as long ago as that of every other.
pub proof fn the_longest_silent_is_forgotten(
    unit: UnitView,
    max_known: usize,
    after: UnitView,
    gone: u64,
    other: u64,
)
    requires
        unit.forgets(max_known, after),
        unit.known.dom().finite(),
        unit.known.contains_key(gone),
        !after.known.contains_key(gone),
        unit.known.contains_key(other),
    ensures
        unit.known.len() > max_known || unit.known.len() > 1 && max_known == 0,
        unit.known[gone] <= unit.known[other],
        other != gone ==> after.known.contains_key(other) && after.known[other]
            == unit.known[other],
        !after.counts.contains_key(gone),
        other != gone && unit.counts.contains_key(other) ==> after.counts.contains_key(other)
            && after.counts[other] == unit.counts[other],
{
}

pub proof fn trial_a<F: Fn(FloatOp) -> u64>(
    store: &BaselineStore,
    unit_key: u64,
    template: TemplateId,
    floats: &FloatUnit<F>,
    share: Option<ProfileShare>,
    model: spec_fn(FloatOp) -> u64,
)
    requires
        call_ensures(BaselineStore::profile_share::<F>, (store, unit_key, template, floats), share),
    ensures
        floats.computes(model) ==> share == store@.share_of(unit_key, template.0, model),
{
}
pub proof fn trial_b<F: Fn(FloatOp) -> u64>(
    store: &BaselineStore,
    unit_key: u64,
    template: TemplateId,
    floats: &FloatUnit<F>,
    share: Option<ProfileShare>,
)
    requires
        call_ensures(BaselineStore::profile_share::<F>, (store, unit_key, template, floats), share),
    ensures
        forall|model: spec_fn(FloatOp) -> u64| #[trigger] floats.computes(model) ==> share == store@.share_of(unit_key, template.0, model),
{
}

/// To record an event is to count it in a slot in which its time can be; with a slot
/// given, in just that one.
pub proof fn a_store_records_what_it_is_given<F: Fn(FloatOp) -> u64>(
    store: &mut BaselineStore,
    timestamp_us: u64,
    unit_key: u64,
    template: TemplateId,
    slot: Slot,
    floats: &FloatUnit<F>,
    timed: &mut BaselineStore,
    model: spec_fn(FloatOp) -> u64,
)
    requires
        call_ensures(
            BaselineStore::record_in_slot::<F>,
            (store, timestamp_us, unit_key, template, slot, floats),
            (),
        ),
        call_ensures(BaselineStore::record::<F>, (timed, timestamp_us, unit_key, template, floats), ()),
        floats.computes(model),
    ensures
        old(store)@.counts_event(timestamp_us, unit_key, template.0, slot.0, final(store)@),
        old(store)@.records(timestamp_us, unit_key, template.0, slot.0, final(store)@, model),
        exists|own: u8|
            slot::can_be_slot_of(timestamp_us, own) && #[trigger] old(timed)@.counts_event(
                timestamp_us,
                unit_key,
                template.0,
                own,
                final(timed)@,
            ),
{
    assert(records_with(
        old(store)@,
        timestamp_us,
        unit_key,
        template.0,
        slot.0,
        *floats,
        final(store)@,
    ));
}

/// What a store says of itself is what it holds, and its answers are those of its
/// baselines.
pub proof fn a_store_tells_what_it_holds<F: Fn(FloatOp) -> u64>(
    store: &BaselineStore,
    slot: Slot,
    unit_key: u64,
    template: TemplateId,
    floats: &FloatUnit<F>,
    rate: Option<(BaselineRate, RateSource)>,
    histograms: usize,
    profiles: usize,
    units: usize,
    count: u32,
    share: Option<ProfileShare>,
    model: spec_fn(FloatOp) -> u64,
)
    requires
        call_ensures(
            BaselineStore::baseline_rate_in_slot::<F>,
            (store, slot, unit_key, template, floats),
            rate,
        ),
        call_ensures(BaselineStore::histogram_count, (store,), histograms),
        call_ensures(BaselineStore::unit_profile_count, (store,), profiles),
        call_ensures(BaselineStore::unit_state_count, (store,), units),
        call_ensures(BaselineStore::current_bucket_count, (store, unit_key, template), count),
        call_ensures(BaselineStore::profile_share::<F>, (store, unit_key, template, floats), share),
        floats.computes(model),
    ensures
        is_rate_in_slot(*store, slot.0, unit_key, template, *floats, rate),
        histograms == store@.histograms.len(),
        profiles == store@.profiles.len(),
        units == store@.units.len(),
        !store@.units.contains_key(unit_key) ==> count == 0,
        store@.units.contains_key(unit_key) && store@.units[unit_key].counts.contains_key(
            template.0,
        ) ==> count == store@.units[unit_key].counts[template.0],
        store@.units.contains_key(unit_key) && !store@.units[unit_key].counts.contains_key(
            template.0,
        ) ==> count == 0,
        share == store@.share_of(unit_key, template.0, model),
{
    assert(is_share(store@, unit_key, template.0, *floats, share));
}

/// A store that is made is empty and goes by its settings; one that is restored holds what
/// was stored by another, under its own settings.
pub proof fn a_restored_store_is_the_stored_one(
    bucket_seconds: u64,
    config: &BaselineConfig,
    fresh: BaselineStore,
    store: &BaselineStore,
    snapshot: BaselineSnapshot,
    restored: BaselineStore,
)
    requires
        1 <= bucket_seconds <= 18_446_744_073_709,
        call_ensures(BaselineStore::new, (bucket_seconds, config), fresh),
        call_ensures(BaselineStore::snapshot, (store,), snapshot),
        call_ensures(BaselineStore::restore, (snapshot, bucket_seconds, config), restored),
    ensures
        fresh@.histograms.dom() =~= Set::<(u64, u64, u8)>::empty(),
        fresh@.profiles.dom() =~= Set::<u64>::empty(),
        fresh@.units.dom() =~= Set::<u64>::empty(),
        fresh@.bucket_us == bucket_seconds * 1_000_000,
        fresh@.settings == *config,
        fresh@.decay.half_life_hours == config.half_life_hours,
        fresh@.decay.bucket_seconds == bucket_seconds,
        restored@.histograms == store@.histograms,
        restored@.profiles == store@.profiles,
        restored@.units.dom() =~= Set::<u64>::empty(),
        restored@.bucket_us == fresh@.bucket_us,
        restored@.settings == *config,
        restored@.decay == fresh@.decay,
        snapshot.histograms@.len() == store@.histograms.len(),
        snapshot.profiles@.len() == store@.profiles.len(),
{
}

/// The key of a unit is computed from its name; the same holds for units without one.
pub proof fn keys_are_computed_from_names(name: &str, key: u64, none: u64)
    requires
        call_ensures(unit_key_from_name, (Some(name),), key),
        call_ensures(unit_key_from_name, (None,), none),
    ensures
        key == hash::fnv1a(vstd::utf8::encode_utf8(name@)),
        none == hash::fnv1a(vstd::utf8::encode_utf8("<none>"@)),
        name@ == "<none>"@ ==> key == none,
{
}

/// The baseline of a time is that of a slot in which the time can be.
pub proof fn the_baseline_of_a_time_is_that_of_its_slot<F: Fn(FloatOp) -> u64>(
    store: &BaselineStore,
    timestamp_us: u64,
    unit_key: u64,
    template: TemplateId,
    floats: &FloatUnit<F>,
    rate: Option<(BaselineRate, RateSource)>,
)
    requires
        call_ensures(
            BaselineStore::baseline_rate::<F>,
            (store, timestamp_us, unit_key, template, floats),
            rate,
        ),
    ensures
        exists|slot: u8|
            slot::can_be_slot_of(timestamp_us, slot) && #[trigger] is_rate_in_slot(
                *store,
                slot,
                unit_key,
                template,
                *floats,
                rate,
            ),
{
}

/// The length of a bucket is computed as it is said to be, and the parts of a key are its
/// own.
pub proof fn lengths_and_keys_are_computed(seconds: u64, micros: u64, key: BaselineKey, parts: (u64, u64, u8))
    requires
        1 <= seconds <= 18_446_744_073_709,
        call_ensures(bucket_length, (seconds,), micros),
        call_ensures(BaselineKey::as_parts, (&key,), parts),
    ensures
        micros == seconds * 1_000_000,
        parts.0 == key.unit_key,
        parts.1 == key.template_id.0,
        parts.2 == key.slot.0,
{
}

} // verus!
