//! The long-term distribution of the templates of one unit.

use vstd::prelude::*;

use crate::decay::DecayParams;
use crate::float;
use crate::float::{FloatOp, FloatUnit};
use crate::template::TemplateId;
use crate::weights;

verus! {

/// How profiles are kept.
#[derive(Debug, Clone, Copy, PartialEq, Eq, Structural)]
pub struct ProfileConfig {
    /// How fast weights decay.
    pub decay: DecayParams,
    /// How many templates a profile may have.
    pub max_templates: usize,
}

/// What a profile holds.
pub ghost struct ProfileView {
    /// The templates, each with the bits of its weight.
    pub counts: Seq<(u64, u32)>,
    /// The bucket of the last observation.
    pub last_touched_bucket: u64,
}

/// Whether no template has less weight than the one at a place, and none before
/// it has as little.
pub open spec fn is_lightest(counts: Seq<(u64, u32)>, place: int) -> bool {
    &&& 0 <= place < counts.len()
    &&& forall|i: int|
        0 <= i < counts.len() ==> float::total_rank32(counts[place].1) <= float::total_rank32(
            (#[trigger] counts[i]).1,
        )
    &&& forall|i: int|
        0 <= i < place ==> float::total_rank32(counts[place].1) < float::total_rank32(
            (#[trigger] counts[i]).1,
        )
}

/// The place of the template with the least weight.
pub open spec fn lightest(counts: Seq<(u64, u32)>) -> int {
    choose|place: int| is_lightest(counts, place)
}

/// At least one template.
pub open spec fn template_limit(max_templates: usize) -> nat {
    if max_templates >= 1 {
        max_templates as nat
    } else {
        1
    }
}

/// The templates after one has been entered. A new one takes the place of the
/// lightest if there is no room.
pub open spec fn entered(
    counts: Seq<(u64, u32)>,
    template_id: u64,
    max_templates: nat,
    model: spec_fn(FloatOp) -> u64,
) -> Seq<(u64, u32)> {
    let place = weights::place_of(counts, template_id, 0);
    if place < counts.len() {
        weights::raised(counts, place, model)
    } else if counts.len() < max_templates {
        counts.push((template_id, float::ONE_WEIGHT))
    } else {
        counts.remove(lightest(counts)).push((template_id, float::ONE_WEIGHT))
    }
}

impl ProfileView {
    /// A profile without observations.
    pub open spec fn empty() -> ProfileView {
        ProfileView { counts: Seq::empty(), last_touched_bucket: 0 }
    }

    /// The profile after an observation: first the weights decay, then the
    /// template is entered, and what has become negligible is dropped.
    pub open spec fn observed(
        self,
        template_id: u64,
        bucket: u64,
        config: ProfileConfig,
        model: spec_fn(FloatOp) -> u64,
    ) -> ProfileView {
        let elapsed = weights::elapsed_since(self.last_touched_bucket, bucket);
        ProfileView {
            counts: weights::pruned(
                entered(
                    weights::decayed(self.counts, elapsed, config.decay, model),
                    template_id,
                    template_limit(config.max_templates),
                    model,
                ),
            ),
            last_touched_bucket: if bucket >= self.last_touched_bucket {
                bucket
            } else {
                self.last_touched_bucket
            },
        }
    }

    /// The sum of the weights.
    pub open spec fn total(self, model: spec_fn(FloatOp) -> u64) -> u64 {
        weights::total_of(self.counts, model)
    }

    /// The weight of a template; zero if it is unknown.
    pub open spec fn weight(self, template_id: u64) -> u32 {
        let place = weights::place_of(self.counts, template_id, 0);
        if place < self.counts.len() {
            self.counts[place].1
        } else {
            0
        }
    }

    /// Whether the weights reach a threshold.
    pub open spec fn trusted(self, min_weight: u64, model: spec_fn(FloatOp) -> u64) -> bool {
        float::at_least64(self.total(model), min_weight)
    }
}

/// How much of a profile a template makes up.
#[derive(Debug, Clone, Copy, PartialEq, Eq, Structural)]
pub struct ProfileShare {
    /// The weight of the template, by its single-precision bits.
    pub weight: u32,
    /// The weight of all templates, by its double-precision bits.
    pub total: u64,
    /// How many templates there are.
    pub distinct: usize,
}

/// The long-term distribution of the templates of one unit.
#[derive(Debug, Clone, PartialEq)]
pub struct UnitProfile {
    counts: Vec<(u64, u32)>,
    last_touched_bucket: u64,
}

impl View for UnitProfile {
    type V = ProfileView;

    closed spec fn view(&self) -> ProfileView {
        ProfileView { counts: self.counts@, last_touched_bucket: self.last_touched_bucket }
    }
}

impl Default for UnitProfile {
    fn default() -> (profile: UnitProfile)
        ensures
            profile@ == ProfileView::empty(),
    {
        UnitProfile { counts: Vec::new(), last_touched_bucket: 0 }
    }
}

impl UnitProfile {
    /// Builds a profile from its templates.
    pub fn from_counts(counts: Vec<(u64, u32)>, last_touched_bucket: u64) -> (profile: UnitProfile)
        ensures
            profile@ == (ProfileView { counts: counts@, last_touched_bucket }),
    {
        UnitProfile { counts, last_touched_bucket }
    }

    /// The templates, each with the bits of its weight.
    pub fn counts(&self) -> (counts: &Vec<(u64, u32)>)
        ensures
            counts@ == self@.counts,
    {
        &self.counts
    }

    /// A copy of the profile.
    pub fn duplicate(&self) -> (copy: UnitProfile)
        ensures
            copy@ == self@,
    {
        let mut counts: Vec<(u64, u32)> = Vec::new();
        let mut i: usize = 0;
        while i < self.counts.len()
            invariant
                i <= self.counts@.len(),
                counts@ =~= self.counts@.take(i as int),
            decreases self.counts@.len() - i,
        {
            counts.push(self.counts[i]);
            i += 1;
        }
        proof {
            assert(counts@ =~= self.counts@);
        }
        UnitProfile { counts, last_touched_bucket: self.last_touched_bucket }
    }

    /// Takes an observation.
    pub fn observe<F: Fn(FloatOp) -> u64>(
        &mut self,
        template: TemplateId,
        bucket: u64,
        config: &ProfileConfig,
        floats: &FloatUnit<F>,
    )
        requires
            floats.is_total(),
        ensures
            forall|model: spec_fn(FloatOp) -> u64| #[trigger]
                floats.computes(model) ==> final(self)@ == old(self)@.observed(
                    template.0,
                    bucket,
                    *config,
                    model,
                ),
            final(self)@.last_touched_bucket == if bucket >= old(self)@.last_touched_bucket {
                bucket
            } else {
                old(self)@.last_touched_bucket
            },
    {
        let elapsed: u64 = bucket.saturating_sub(self.last_touched_bucket);
        weights::decay_all(&mut self.counts, elapsed, config.decay, floats);
        self.insert(
            template.0,
            if config.max_templates >= 1 {
                config.max_templates
            } else {
                1
            },
            floats,
        );
        if bucket > self.last_touched_bucket {
            self.last_touched_bucket = bucket;
        }
        weights::prune(&mut self.counts);
    }

    /// Finds the first place of a template.
    fn find(&self, template_id: u64) -> (place: usize)
        ensures
            place == weights::place_of(self.counts@, template_id, 0),
            place <= self.counts@.len(),
    {
        let n: usize = self.counts.len();
        let mut i: usize = 0;
        while i < n && self.counts[i].0 != template_id
            invariant
                n == self.counts@.len(),
                i <= n,
                weights::place_of(self.counts@, template_id, 0) == weights::place_of(
                    self.counts@,
                    template_id,
                    i as int,
                ),
            decreases n - i,
        {
            i += 1;
        }
        i
    }

    /// Enters a template.
    fn insert<F: Fn(FloatOp) -> u64>(
        &mut self,
        template_id: u64,
        max_templates: usize,
        floats: &FloatUnit<F>,
    )
        requires
            floats.is_total(),
            max_templates >= 1,
        ensures
            final(self).last_touched_bucket == old(self).last_touched_bucket,
            forall|model: spec_fn(FloatOp) -> u64| #[trigger]
                floats.computes(model) ==> final(self).counts@ == entered(
                    old(self).counts@,
                    template_id,
                    max_templates as nat,
                    model,
                ),
    {
        let place: usize = self.find(template_id);
        if place < self.counts.len() {
            weights::raise(&mut self.counts, place, floats);
            return;
        }
        self.evict_lightest_if_needed(max_templates);
        self.counts.push((template_id, float::ONE_WEIGHT));
    }

    /// Drops the lightest template if there is no room for another one.
    fn evict_lightest_if_needed(&mut self, max_templates: usize)
        requires
            max_templates >= 1,
        ensures
            final(self).last_touched_bucket == old(self).last_touched_bucket,
            final(self).counts@ == if old(self).counts@.len() < max_templates {
                old(self).counts@
            } else {
                old(self).counts@.remove(lightest(old(self).counts@))
            },
    {
        let n: usize = self.counts.len();
        if n < max_templates {
            return;
        }
        let mut place: usize = 0;
        let mut k: usize = 1;
        while k < n
            invariant
                n == self.counts@.len(),
                1 <= k <= n,
                place < k,
                is_lightest(self.counts@.take(k as int), place as int),
            decreases n - k,
        {
            proof {
                let shorter = self.counts@.take(k as int);
                let longer = self.counts@.take(k as int + 1);
                assert(forall|j: int| 0 <= j < k ==> #[trigger] longer[j] == shorter[j]);
                assert(longer[k as int] == self.counts@[k as int]);
            }
            if float::total_order32(self.counts[k].1) < float::total_order32(self.counts[place].1) {
                place = k;
            }
            k += 1;
        }
        proof {
            assert(self.counts@.take(n as int) =~= self.counts@);
            assert(is_lightest(self.counts@, place as int));
            let other = lightest(self.counts@);
            assert(is_lightest(self.counts@, other));
            assert(other == place) by {
                assert(float::total_rank32(self.counts@[other].1) <= float::total_rank32(
                    self.counts@[place as int].1,
                ));
            }
        }
        let _ = self.counts.remove(place);
    }

    /// Adds up the weights.
    pub fn total_weight<F: Fn(FloatOp) -> u64>(&self, floats: &FloatUnit<F>) -> (total: u64)
        requires
            floats.is_total(),
        ensures
            forall|model: spec_fn(FloatOp) -> u64| #[trigger]
                floats.computes(model) ==> total == self@.total(model),
    {
        weights::total(&self.counts, floats)
    }

    /// The bits of the weight of a template; zero if it is unknown.
    pub fn weight_of(&self, template: TemplateId) -> (weight: u32)
        ensures
            weight == self@.weight(template.0),
    {
        let place: usize = self.find(template.0);
        if place < self.counts.len() {
            self.counts[place].1
        } else {
            0
        }
    }

    /// How many templates the profile holds.
    pub fn distinct_templates(&self) -> (count: usize)
        ensures
            count == self@.counts.len(),
    {
        self.counts.len()
    }

    /// How much of the profile a template makes up; none if the weights do not
    /// reach a threshold, given by its bits.
    pub fn share_of<F: Fn(FloatOp) -> u64>(
        &self,
        template: TemplateId,
        min_weight: u64,
        floats: &FloatUnit<F>,
    ) -> (share: Option<ProfileShare>)
        requires
            floats.is_total(),
        ensures
            forall|model: spec_fn(FloatOp) -> u64| #[trigger]
                floats.computes(model) ==> share == if self@.trusted(min_weight, model) {
                    Some(
                        ProfileShare {
                            weight: self@.weight(template.0),
                            total: self@.total(model),
                            distinct: self@.counts.len() as usize,
                        },
                    )
                } else {
                    None
                },
    {
        let total: u64 = self.total_weight(floats);
        if !float::is_at_least64(total, min_weight) {
            return None;
        }
        Some(
            ProfileShare {
                weight: self.weight_of(template),
                total,
                distinct: self.distinct_templates(),
            },
        )
    }

    /// Whether the weights reach a threshold, given by its bits.
    pub fn is_trusted<F: Fn(FloatOp) -> u64>(&self, min_weight: u64, floats: &FloatUnit<F>) -> (trusted:
        bool)
        requires
            floats.is_total(),
        ensures
            forall|model: spec_fn(FloatOp) -> u64| #[trigger]
                floats.computes(model) ==> trusted == self@.trusted(min_weight, model),
    {
        float::is_at_least64(self.total_weight(floats), min_weight)
    }

    /// The bucket of the last observation.
    pub fn last_touched_bucket(&self) -> (bucket: u64)
        ensures
            bucket == self@.last_touched_bucket,
    {
        self.last_touched_bucket
    }
}

/// Where there is a template, one of them is the lightest.
proof fn lightest_exists(counts: Seq<(u64, u32)>)
    requires
        counts.len() > 0,
    ensures
        is_lightest(counts, lightest(counts)),
    decreases counts.len(),
{
    let last = counts.len() - 1;
    if last == 0 {
        assert(is_lightest(counts, 0));
    } else {
        let fewer = counts.drop_last();
        lightest_exists(fewer);
        let place = lightest(fewer);
        assert(forall|i: int| 0 <= i < last ==> #[trigger] counts[i] == fewer[i]);
        if float::total_rank32(counts[last].1) < float::total_rank32(counts[place].1) {
            assert(is_lightest(counts, last));
        } else {
            assert(is_lightest(counts, place));
        }
    }
}

/// An event: its template, and the bucket that it falls into.
pub ghost struct ProfileEvent {
    /// The template.
    pub template_id: u64,
    /// The bucket.
    pub bucket: u64,
}

impl ProfileView {
    /// The profile after a number of events, one after the other.
    pub open spec fn observed_all(
        self,
        events: Seq<ProfileEvent>,
        config: ProfileConfig,
        model: spec_fn(FloatOp) -> u64,
    ) -> ProfileView
        decreases events.len(),
    {
        if events.len() == 0 {
            self
        } else {
            self.observed_all(events.drop_last(), config, model).observed(
                events.last().template_id,
                events.last().bucket,
                config,
                model,
            )
        }
    }
}

/// However many events a profile takes, it never has more templates than it may have.
pub proof fn profile_stays_bounded(
    events: Seq<ProfileEvent>,
    config: ProfileConfig,
    model: spec_fn(FloatOp) -> u64,
)
    ensures
        ProfileView::empty().observed_all(events, config, model).counts.len()
            <= template_limit(config.max_templates),
    decreases events.len(),
{
    if events.len() > 0 {
        let earlier = events.drop_last();
        profile_stays_bounded(earlier, config, model);
        an_event_keeps_the_bound(
            ProfileView::empty().observed_all(earlier, config, model),
            events.last().template_id,
            events.last().bucket,
            config,
            model,
        );
    }
}

/// An event does not give a profile more templates than it may have.
proof fn an_event_keeps_the_bound(
    profile: ProfileView,
    template_id: u64,
    bucket: u64,
    config: ProfileConfig,
    model: spec_fn(FloatOp) -> u64,
)
    requires
        profile.counts.len() <= template_limit(config.max_templates),
    ensures
        profile.observed(template_id, bucket, config, model).counts.len() <= template_limit(
            config.max_templates,
        ),
{
    let elapsed = weights::elapsed_since(profile.last_touched_bucket, bucket);
    let counts = weights::decayed(profile.counts, elapsed, config.decay, model);
    let all = entered(counts, template_id, template_limit(config.max_templates), model);
    weights::pruning_keeps_what_counts(all);
    weights::place_is_in_range(counts, template_id, 0);
    if counts.len() > 0 {
        lightest_exists(counts);
    }
}

/// The first event of a profile makes its template known, with the weight of one.
pub proof fn the_first_event_counts_one(
    template_id: u64,
    bucket: u64,
    config: ProfileConfig,
    model: spec_fn(FloatOp) -> u64,
)
    ensures
        ({
            let after = ProfileView::empty().observed(template_id, bucket, config, model);
            &&& after.counts == seq![(template_id, 0x3f80_0000u32)]
            &&& after.last_touched_bucket == bucket
            &&& after.weight(template_id) == 0x3f80_0000
            &&& forall|other: u64| other != template_id ==> #[trigger] after.weight(other) == 0
        }),
{
    let none = Seq::<(u64, u32)>::empty();
    weights::weights_decay_with_the_buckets(none, 0, bucket, config.decay, model);
    assert(weights::decayed(none, weights::elapsed_since(0, bucket), config.decay, model) =~= none);
    weights::pruning_drops_what_is_too_light(none, (template_id, 0x3f80_0000u32));
    assert(weights::pruned(none) =~= none);
    assert(none.push((template_id, 0x3f80_0000u32)) =~= seq![(template_id, 0x3f80_0000u32)]);
    let after = ProfileView::empty().observed(template_id, bucket, config, model);
    weights::place_is_in_range(after.counts, template_id, 0);
    assert(after.counts[0].0 == template_id);
    assert forall|other: u64| other != template_id implies #[trigger] after.weight(other) == 0 by {
        weights::place_is_in_range(after.counts, other, 0);
    }
}

/// An event in the bucket of the last one, or in an earlier one, decays nothing. Its
/// template gains what one more event adds; a template that was not known is entered
/// with the weight of one, while there is room; all others stay as they are.
pub proof fn an_event_raises_its_own_template(
    profile: ProfileView,
    template_id: u64,
    bucket: u64,
    config: ProfileConfig,
    model: spec_fn(FloatOp) -> u64,
    place: int,
)
    requires
        bucket <= profile.last_touched_bucket,
        config.max_templates >= 1,
        0 <= place <= profile.counts.len(),
        forall|i: int| 0 <= i < place ==> (#[trigger] profile.counts[i]).0 != template_id,
        place < profile.counts.len() ==> profile.counts[place].0 == template_id,
    ensures
        ({
            let after = profile.observed(template_id, bucket, config, model);
            let counts = profile.counts;
            &&& after.last_touched_bucket == profile.last_touched_bucket
            &&& place < counts.len() ==> after.counts == weights::pruned(
                counts.update(
                    place,
                    (template_id, model(FloatOp::Increment { weight: counts[place].1 }) as u32),
                ),
            )
            &&& place == counts.len() && counts.len() < config.max_templates ==> after.counts
                == weights::pruned(counts.push((template_id, 0x3f80_0000u32)))
        }),
{
    weights::place_is_in_range(profile.counts, template_id, 0);
}

/// A new template takes the place of the lightest if there is no room, of the first where
/// there are several. Weights that are not negative are compared by their bits.
pub proof fn the_lightest_makes_room(
    profile: ProfileView,
    template_id: u64,
    bucket: u64,
    config: ProfileConfig,
    model: spec_fn(FloatOp) -> u64,
    least: int,
)
    requires
        bucket <= profile.last_touched_bucket,
        1 <= config.max_templates <= profile.counts.len(),
        forall|i: int|
            0 <= i < profile.counts.len() ==> (#[trigger] profile.counts[i]).0 != template_id
                && profile.counts[i].1 <= 0x7f80_0000,
        0 <= least < profile.counts.len(),
        forall|i: int|
            0 <= i < least ==> (#[trigger] profile.counts[i]).1 > profile.counts[least].1,
        forall|i: int|
            least < i < profile.counts.len() ==> (#[trigger] profile.counts[i]).1
                >= profile.counts[least].1,
    ensures
        profile.observed(template_id, bucket, config, model).counts == weights::pruned(
            profile.counts.remove(least).push((template_id, 0x3f80_0000u32)),
        ),
{
    let counts = profile.counts;
    weights::place_is_in_range(counts, template_id, 0);
    lightest_exists(counts);
    let other = lightest(counts);
    float::the_total_order_tells_bits_apart(0, 0, counts[least].1, counts[other].1);
    float::the_total_order_tells_bits_apart(0, 0, counts[other].1, counts[least].1);
    if other < least {
        assert(counts[other].1 > counts[least].1);
    } else if other > least {
        assert(counts[other].1 >= counts[least].1);
        assert(float::total_rank32(counts[other].1) < float::total_rank32(counts[least].1));
    }
}

/// A profile is trusted exactly if its weights add up to the threshold. Numbers that are
/// not negative are compared by their bits.
pub proof fn trust_takes_weight(profile: ProfileView, min_weight: u64, model: spec_fn(FloatOp) -> u64)
    requires
        min_weight <= 0x7ff0_0000_0000_0000,
        profile.total(model) <= 0x7ff0_0000_0000_0000,
    ensures
        profile.trusted(min_weight, model) <==> profile.total(model) >= min_weight,
{
    float::bits_compare_as_numbers(profile.total(model), min_weight);
}

/// What a template weighs is what its first entry says, and nothing if it has none.
pub proof fn a_weight_is_that_of_its_entry(profile: ProfileView, template_id: u64, place: int)
    requires
        0 <= place <= profile.counts.len(),
        forall|i: int| 0 <= i < place ==> (#[trigger] profile.counts[i]).0 != template_id,
        place < profile.counts.len() ==> profile.counts[place].0 == template_id,
    ensures
        place < profile.counts.len() ==> profile.weight(template_id) == profile.counts[place].1,
        place == profile.counts.len() ==> profile.weight(template_id) == 0,
{
    weights::place_is_in_range(profile.counts, template_id, 0);
}

/// An event in a later bucket is one in a profile whose weights have decayed by the buckets
/// that went by, each by itself; no template is lost before it is too light.
pub proof fn a_later_event_is_one_after_decay(
    profile: ProfileView,
    template_id: u64,
    bucket: u64,
    config: ProfileConfig,
    model: spec_fn(FloatOp) -> u64,
    faded: ProfileView,
)
    requires
        bucket > profile.last_touched_bucket,
        faded.last_touched_bucket == bucket,
        faded.counts.len() == profile.counts.len(),
        forall|i: int|
            0 <= i < faded.counts.len() ==> (#[trigger] faded.counts[i]).0 == profile.counts[i].0
                && faded.counts[i].1 == model(
                FloatOp::Decay {
                    weight: profile.counts[i].1,
                    elapsed: (bucket - profile.last_touched_bucket) as u64,
                    decay: config.decay,
                },
            ) as u32,
    ensures
        profile.observed(template_id, bucket, config, model) == faded.observed(
            template_id,
            bucket,
            config,
            model,
        ),
        profile.observed(template_id, bucket, config, model).last_touched_bucket == bucket,
{
    let elapsed = weights::elapsed_since(profile.last_touched_bucket, bucket);
    assert(weights::decayed(profile.counts, elapsed, config.decay, model) =~= faded.counts);
    assert(weights::decayed(faded.counts, 0, config.decay, model) == faded.counts);
}

/// A profile is read as it was built, copies included, and weighs its templates by their
/// entries.
pub proof fn a_profile_is_read_as_it_was_built(
    counts: Vec<(u64, u32)>,
    bucket: u64,
    profile: UnitProfile,
    copy: UnitProfile,
    read: &Vec<(u64, u32)>,
    template: TemplateId,
    weight: u32,
    distinct: usize,
    touched: u64,
)
    requires
        call_ensures(UnitProfile::from_counts, (counts, bucket), profile),
        call_ensures(UnitProfile::duplicate, (&profile,), copy),
        call_ensures(UnitProfile::counts, (&copy,), read),
        call_ensures(UnitProfile::weight_of, (&copy, template), weight),
        call_ensures(UnitProfile::distinct_templates, (&copy,), distinct),
        call_ensures(UnitProfile::last_touched_bucket, (&copy,), touched),
        counts@.len() > 0,
        counts@[0].0 == template.0,
    ensures
        read@ == counts@,
        weight == counts@[0].1,
        distinct == counts@.len(),
        touched == bucket,
{
    a_weight_is_that_of_its_entry(copy@, template.0, 0);
}

} // verus!
