//! The analysis: observes events, and decides which of them are reported as
//! anomalies.
//!
//! Every event is observed: it enters the sliding window, the rate history and the
//! baselines. What has been observed is weighed by a function that the caller hands
//! in, and its combined score decides on the level of the event. Reports are
//! damped: nothing is reported while the engine is learning, a level is left only
//! once the score is clearly below its threshold, and a template is not reported
//! again for a while unless its level rises.

use std::collections::HashMap;

use vstd::prelude::*;

use crate::config::{AnalysisConfig, BaselineConfig};
use crate::decay;
use crate::float;
use crate::float::{FloatOp, FloatUnit};
use crate::pipeline;
use crate::profile::ProfileShare;
use crate::rate;
use crate::rate::{RateEvidence, RateTracker, TrackerView};
use crate::slot;
use crate::slot::Slot;
use crate::stats::Spread;
use crate::store;
use crate::store::{BaselineRate, BaselineSnapshot, BaselineStore, RateSource, StoreView};
use crate::template::TemplateId;
use crate::text;
use crate::window;
use crate::window::{SlidingWindow, WindowView};

verus! {

/// How serious an anomaly is.
#[derive(Debug, Clone, Copy, PartialEq, Eq, PartialOrd, Ord, Structural)]
pub enum AnomalyLevel {
    /// Nothing special; not reported.
    Normal,
    /// Worth a note.
    Info,
    /// Clearly out of the ordinary.
    Warn,
    /// Far out of the ordinary.
    Critical,
}

/// Where a level stands among the others.
pub open spec fn severity(level: AnomalyLevel) -> int {
    match level {
        AnomalyLevel::Normal => 0,
        AnomalyLevel::Info => 1,
        AnomalyLevel::Warn => 2,
        AnomalyLevel::Critical => 3,
    }
}

/// The name of a level.
pub open spec fn level_name(level: AnomalyLevel) -> Seq<char> {
    match level {
        AnomalyLevel::Normal => "normal"@,
        AnomalyLevel::Info => "info"@,
        AnomalyLevel::Warn => "warn"@,
        AnomalyLevel::Critical => "critical"@,
    }
}

impl Default for AnomalyLevel {
    fn default() -> (level: AnomalyLevel)
        ensures
            level == AnomalyLevel::Normal,
    {
        AnomalyLevel::Normal
    }
}

impl AnomalyLevel {
    /// The name of the level.
    pub fn as_str(&self) -> (name: &'static str)
        ensures
            name@ == level_name(*self),
    {
        match self {
            AnomalyLevel::Normal => "normal",
            AnomalyLevel::Info => "info",
            AnomalyLevel::Warn => "warn",
            AnomalyLevel::Critical => "critical",
        }
    }

    /// Where the level stands among the others.
    pub fn rank(&self) -> (rank: u8)
        ensures
            rank == severity(*self),
    {
        match self {
            AnomalyLevel::Normal => 0,
            AnomalyLevel::Info => 1,
            AnomalyLevel::Warn => 2,
            AnomalyLevel::Critical => 3,
        }
    }
}

/// What an event scores, by the bits of double-precision numbers.
#[derive(Debug, Clone, Copy, PartialEq, Eq, Structural)]
pub struct Scores {
    /// How far the rate of the template is from what is usual.
    pub rate_z: u64,
    /// How surprising the template is, in bits.
    pub surprisal_bits: u64,
    /// How far the entropy of the window is from what is usual.
    pub entropy_z: u64,
    /// What the rate adds, between zero and one.
    pub rate_component: u64,
    /// What the surprisal adds, between zero and one.
    pub surprisal_component: u64,
    /// What the entropy adds, between zero and one.
    pub entropy_component: u64,
    /// The combined score, between zero and one.
    pub combined: u64,
}

/// What an event scores, and where its rate was held against.
#[derive(Debug, Clone, Copy, PartialEq, Eq, Structural)]
pub struct ScoreBreakdown {
    /// The scores.
    pub scores: Scores,
    /// Where the rate was held against.
    pub rate_source: RateSource,
}

/// An anomaly that is reported.
#[derive(Debug, Clone, PartialEq)]
pub struct Anomaly {
    /// The time of the event, in microseconds since the epoch.
    pub timestamp_us: u64,
    /// The template of the event.
    pub template_id: TemplateId,
    /// The unit of the event, if it has one.
    pub unit: Option<String>,
    /// How serious it is.
    pub level: AnomalyLevel,
    /// What it scores.
    pub breakdown: ScoreBreakdown,
    /// How many reports of this template have been held back since the last one.
    pub suppressed_since_last: u64,
}

/// An event to be analysed.
#[derive(Debug, Clone)]
pub struct AnalysisInput<'a> {
    /// The time of the event, in microseconds since the epoch.
    pub timestamp_us: u64,
    /// The template of the event.
    pub template_id: TemplateId,
    /// The unit of the event, if it has one.
    pub unit: Option<&'a str>,
}

/// What the engine has done so far.
#[derive(Debug, Clone, Copy, PartialEq, Eq, Structural)]
pub struct AnalysisStats {
    /// How many events there were.
    pub processed: u64,
    /// How many anomalies were reported.
    pub emitted: u64,
    /// How many reports were held back because the template had just been reported.
    pub suppressed: u64,
    /// How many reports were held back while the engine was learning.
    pub suppressed_learning: u64,
}

impl Default for AnalysisStats {
    fn default() -> (stats: AnalysisStats)
        ensures
            stats == (AnalysisStats {
                processed: 0,
                emitted: 0,
                suppressed: 0,
                suppressed_learning: 0,
            }),
    {
        AnalysisStats { processed: 0, emitted: 0, suppressed: 0, suppressed_learning: 0 }
    }
}

/// What has been reported of a template.
#[derive(Debug, Clone, Copy, PartialEq, Eq, Structural)]
pub struct TemplateState {
    /// The level of its last event.
    pub current_level: AnomalyLevel,
    /// When it was reported last.
    pub last_emitted_us: Option<u64>,
    /// The level of that report.
    pub last_emitted_level: AnomalyLevel,
    /// How many reports have been held back since.
    pub suppressed_since_last: u64,
}

/// A template of which nothing has been reported.
pub open spec fn unreported() -> TemplateState {
    TemplateState {
        current_level: AnomalyLevel::Normal,
        last_emitted_us: None,
        last_emitted_level: AnomalyLevel::Normal,
        suppressed_since_last: 0,
    }
}

/// A rate, and what it is held against.
#[derive(Debug, Clone, Copy)]
pub struct RateReading {
    /// The number of events in the running bucket.
    pub count: u64,
    /// Where the number of events per bucket usually lies; none if that is unknown.
    pub usual: Option<Spread>,
    /// Where the rate is held against.
    pub source: RateSource,
}

/// What the surprisal of a template is computed from.
#[derive(Debug, Clone, Copy)]
pub enum SurprisalBasis {
    /// The profile of its unit.
    Profile(ProfileShare),
    /// The sliding window.
    Window {
        /// How often the template occurs.
        count: u64,
        /// How many events there are.
        total: u64,
        /// How many templates there are.
        distinct: usize,
    },
}

/// All that an event is scored by.
#[derive(Debug, Clone)]
pub struct Evidence {
    /// The rate of its template.
    pub rate: RateReading,
    /// What its surprisal is computed from.
    pub surprisal: SurprisalBasis,
    /// How often its template occurs in the window.
    pub window_count: u64,
    /// How many events the window holds.
    pub window_len: usize,
    /// How often each template occurs in the window.
    pub window_counts: Vec<u64>,
    /// The entropies of the window at the ends of the last buckets.
    pub entropy_history: Vec<u64>,
    /// The settings that say how much each part of it counts.
    pub settings: AnalysisConfig,
}

/// The rate of a template: held against its baseline if there is one, and else
/// against its history.
pub open spec fn rate_reading(
    short_term: RateEvidence,
    bucket_count: u32,
    baseline: Option<(BaselineRate, RateSource)>,
) -> RateReading {
    match baseline {
        Some((rate, source)) => RateReading {
            count: bucket_count as u64,
            usual: Some(
                Spread {
                    median_halves: rate.median_halves as u128,
                    deviation_quarters: rate.deviation_quarters as u128,
                },
            ),
            source,
        },
        None => RateReading {
            count: short_term.current,
            usual: short_term.history,
            source: RateSource::ShortTerm,
        },
    }
}

/// Chooses what a rate is held against.
pub fn read_rate(
    short_term: RateEvidence,
    bucket_count: u32,
    baseline: Option<(BaselineRate, RateSource)>,
) -> (reading: RateReading)
    ensures
        reading == rate_reading(short_term, bucket_count, baseline),
{
    match baseline {
        Some((rate, source)) => RateReading {
            count: bucket_count as u64,
            usual: Some(
                Spread {
                    median_halves: rate.median_halves as u128,
                    deviation_quarters: rate.deviation_quarters as u128,
                },
            ),
            source,
        },
        None => RateReading {
            count: short_term.current,
            usual: short_term.history,
            source: RateSource::ShortTerm,
        },
    }
}

/// What the surprisal of a template is computed from: the profile of its unit if it
/// is trusted, and else the window.
pub open spec fn surprisal_basis(
    profile: Option<ProfileShare>,
    window: WindowView,
    template_id: u64,
) -> SurprisalBasis {
    match profile {
        Some(share) => SurprisalBasis::Profile(share),
        None => SurprisalBasis::Window {
            count: window.count(template_id) as u64,
            total: window.entries.len() as u64,
            distinct: window.distinct().len() as usize,
        },
    }
}

/// The level that a score reaches.
pub open spec fn raw_level(score: u64, config: AnalysisConfig) -> AnomalyLevel {
    if float::at_least64(score, config.score_critical_threshold) {
        AnomalyLevel::Critical
    } else if float::at_least64(score, config.score_warn_threshold) {
        AnomalyLevel::Warn
    } else if float::at_least64(score, config.score_info_threshold) {
        AnomalyLevel::Info
    } else {
        AnomalyLevel::Normal
    }
}

/// The score down to which a level is held.
pub open spec fn exit_threshold(
    level: AnomalyLevel,
    config: AnalysisConfig,
    model: spec_fn(FloatOp) -> u64,
) -> u64 {
    let threshold = match level {
        AnomalyLevel::Critical => config.score_critical_threshold,
        AnomalyLevel::Warn => config.score_warn_threshold,
        _ => config.score_info_threshold,
    };
    model(FloatOp::ExitThreshold { threshold, factor: config.hysteresis_exit_factor })
}

/// The level that is held although the score does not reach it any more.
pub open spec fn held_level(
    previous: AnomalyLevel,
    score: u64,
    config: AnalysisConfig,
    model: spec_fn(FloatOp) -> u64,
) -> AnomalyLevel {
    if previous != AnomalyLevel::Normal && float::at_least64(
        score,
        exit_threshold(previous, config, model),
    ) {
        previous
    } else {
        AnomalyLevel::Normal
    }
}

/// The level of an event: the one that its score reaches, or the one that is held
/// if that is higher.
pub open spec fn level_after(
    previous: AnomalyLevel,
    score: u64,
    config: AnalysisConfig,
    model: spec_fn(FloatOp) -> u64,
) -> AnomalyLevel {
    let raw = raw_level(score, config);
    let held = held_level(previous, score, config, model);
    if severity(raw) >= severity(held) {
        raw
    } else {
        held
    }
}

/// Whether a level can follow another, whatever its exit threshold is: it is the one
/// that the score reaches, or the one before if that is higher.
pub open spec fn can_follow(
    previous: AnomalyLevel,
    score: u64,
    config: AnalysisConfig,
    level: AnomalyLevel,
) -> bool {
    let raw = raw_level(score, config);
    level == raw || level == previous && severity(previous) > severity(raw)
}

/// A product, or the largest number if it does not fit.
pub open spec fn saturated(a: u64, b: u64) -> u64 {
    if a * b <= u64::MAX {
        (a * b) as u64
    } else {
        u64::MAX
    }
}

/// How long the engine is learning, in microseconds.
pub open spec fn learning_us(config: AnalysisConfig) -> u64 {
    saturated(saturated(config.learning_phase_minutes, 60), 1_000_000)
}

/// The time from one moment to another; none if it is not later.
pub open spec fn elapsed(start: u64, end: u64) -> u64 {
    if end >= start {
        (end - start) as u64
    } else {
        0
    }
}

/// Whether a template has just been reported, on a level that is not lower.
pub open spec fn cools_down(
    state: TemplateState,
    timestamp_us: u64,
    level: AnomalyLevel,
    config: AnalysisConfig,
) -> bool {
    match state.last_emitted_us {
        Some(last) => severity(level) <= severity(state.last_emitted_level) && elapsed(
            last,
            timestamp_us,
        ) < saturated(config.cooldown_seconds, 1_000_000),
        None => false,
    }
}

/// What an engine holds.
pub ghost struct EngineView {
    /// The settings of the analysis.
    pub config: AnalysisConfig,
    /// The settings of the baselines.
    pub baseline_config: BaselineConfig,
    /// The sliding window.
    pub window: WindowView,
    /// The rate history.
    pub rates: TrackerView,
    /// The baselines.
    pub baselines: StoreView,
    /// The entropies of the window at the ends of the last buckets.
    pub entropy_history: Seq<u64>,
    /// The bucket whose entropy is not known yet.
    pub entropy_bucket: u64,
    /// The length of a bucket.
    pub bucket_us: u64,
    /// What has been reported of every template.
    pub states: Map<u64, TemplateState>,
    /// The time of the first event.
    pub first_event_us: Option<u64>,
    /// Whether the engine need not learn any more.
    pub learning_skipped: bool,
    /// What the engine has done so far.
    pub stats: AnalysisStats,
}

impl EngineView {
    /// What holds of every engine.
    pub open spec fn valid(self) -> bool {
        &&& self.window.valid()
        &&& self.rates.valid()
        &&& self.baselines.bucket_us >= 1
        &&& self.bucket_us >= 1
    }

    /// What has been reported of a template.
    pub open spec fn state(self, template_id: u64) -> TemplateState {
        if self.states.contains_key(template_id) {
            self.states[template_id]
        } else {
            unreported()
        }
    }

    /// Whether the engine is learning.
    pub open spec fn learning(self, timestamp_us: u64) -> bool {
        !self.learning_skipped && match self.first_event_us {
            Some(start) => elapsed(start, timestamp_us) < learning_us(self.config),
            None => true,
        }
    }

    /// How many seconds the engine will still be learning, rounded down, if it is.
    pub open spec fn learning_left(self, timestamp_us: u64) -> Option<u64> {
        if self.learning(timestamp_us) {
            let past = match self.first_event_us {
                Some(start) => elapsed(start, timestamp_us),
                None => 0,
            };
            Some(((learning_us(self.config) - past) / 1_000_000) as u64)
        } else {
            None
        }
    }

    /// The bucket whose entropy is not known yet when an event comes.
    pub open spec fn pending_bucket(self, timestamp_us: u64) -> u64 {
        if self.first_event_us is None {
            timestamp_us / self.bucket_us
        } else {
            self.entropy_bucket
        }
    }

    /// Whether an event ends a bucket.
    pub open spec fn ends_bucket(self, timestamp_us: u64) -> bool {
        timestamp_us / self.bucket_us > self.pending_bucket(timestamp_us)
    }

    /// Whether an event makes the entropy of the window known.
    pub open spec fn archives(self, timestamp_us: u64) -> bool {
        self.ends_bucket(timestamp_us) && self.window.entries.len() > 0
    }

    /// The entropies of the last buckets with one more at the end.
    pub open spec fn archived(self, entropy: u64) -> Seq<u64> {
        if self.entropy_history.len() >= self.config.rate_history_buckets {
            self.entropy_history.skip(1).push(entropy)
        } else {
            self.entropy_history.push(entropy)
        }
    }

    /// Whether all counters have room for an event, and the history of entropies has
    /// room for one.
    pub open spec fn can_process(self, timestamp_us: u64, template_id: u64, unit_key: u64) -> bool {
        &&& self.stats.processed < u64::MAX
        &&& self.stats.emitted < u64::MAX
        &&& self.stats.suppressed < u64::MAX
        &&& self.stats.suppressed_learning < u64::MAX
        &&& self.state(template_id).suppressed_since_last < u64::MAX
        &&& self.window.can_count()
        &&& self.rates.can_record(timestamp_us, template_id)
        &&& self.baselines.can_record(timestamp_us, unit_key, template_id)
        &&& self.archives(timestamp_us) ==> self.config.rate_history_buckets >= 1
    }

    /// Whether `after` has observed an event in a slot, apart from what is computed
    /// with floating-point numbers.
    pub open spec fn observes(
        self,
        timestamp_us: u64,
        template_id: u64,
        unit_key: u64,
        slot: u8,
        after: EngineView,
    ) -> bool {
        &&& after == (EngineView {
            stats: AnalysisStats { processed: (self.stats.processed + 1) as u64, ..self.stats },
            first_event_us: if self.first_event_us is None {
                Some(timestamp_us)
            } else {
                self.first_event_us
            },
            entropy_bucket: if self.ends_bucket(timestamp_us) {
                timestamp_us / self.bucket_us
            } else {
                self.pending_bucket(timestamp_us)
            },
            window: self.window.pushed(timestamp_us, template_id),
            rates: after.rates,
            baselines: after.baselines,
            entropy_history: after.entropy_history,
            ..self
        })
        &&& self.rates.records(timestamp_us, template_id, after.rates)
        &&& self.baselines.counts_event(timestamp_us, unit_key, template_id, slot, after.baselines)
        &&& !self.archives(timestamp_us) ==> after.entropy_history == self.entropy_history
    }

    /// Whether `after` has archived the entropy of the window as the model computes
    /// it, where `counts` says how often each template occurs.
    pub open spec fn archives_entropy(
        self,
        timestamp_us: u64,
        counts: Vec<u64>,
        after: EngineView,
        model: spec_fn(FloatOp) -> u64,
    ) -> bool {
        self.archives(timestamp_us) ==> after.entropy_history == self.archived(
            model(FloatOp::Entropy { counts }),
        )
    }

    /// The level of an event that has been observed.
    pub open spec fn level(
        self,
        template_id: u64,
        score: u64,
        model: spec_fn(FloatOp) -> u64,
    ) -> AnomalyLevel {
        level_after(self.state(template_id).current_level, score, self.config, model)
    }

    /// The engine after it has decided on an event that it has observed.
    pub open spec fn decided(
        self,
        timestamp_us: u64,
        template_id: u64,
        score: u64,
        model: spec_fn(FloatOp) -> u64,
    ) -> EngineView {
        self.decided_at(timestamp_us, template_id, self.level(template_id, score, model))
    }

    /// The engine after it has decided on an event that has a level.
    pub open spec fn decided_at(
        self,
        timestamp_us: u64,
        template_id: u64,
        level: AnomalyLevel,
    ) -> EngineView {
        let state = TemplateState { current_level: level, ..self.state(template_id) };
        if level == AnomalyLevel::Normal {
            EngineView { states: self.states.insert(template_id, state), ..self }
        } else if self.learning(timestamp_us) {
            EngineView {
                states: self.states.insert(template_id, state),
                stats: AnalysisStats {
                    suppressed_learning: (self.stats.suppressed_learning + 1) as u64,
                    ..self.stats
                },
                ..self
            }
        } else if cools_down(state, timestamp_us, level, self.config) {
            EngineView {
                states: self.states.insert(
                    template_id,
                    TemplateState {
                        suppressed_since_last: (state.suppressed_since_last + 1) as u64,
                        ..state
                    },
                ),
                stats: AnalysisStats {
                    suppressed: (self.stats.suppressed + 1) as u64,
                    ..self.stats
                },
                ..self
            }
        } else {
            EngineView {
                states: self.states.insert(
                    template_id,
                    TemplateState {
                        last_emitted_us: Some(timestamp_us),
                        last_emitted_level: level,
                        suppressed_since_last: 0,
                        ..state
                    },
                ),
                stats: AnalysisStats { emitted: (self.stats.emitted + 1) as u64, ..self.stats },
                ..self
            }
        }
    }

    /// Whether an event that has been observed is reported.
    pub open spec fn reports(
        self,
        timestamp_us: u64,
        template_id: u64,
        score: u64,
        model: spec_fn(FloatOp) -> u64,
    ) -> bool {
        self.reports_at(timestamp_us, template_id, self.level(template_id, score, model))
    }

    /// Whether an event that has a level is reported.
    pub open spec fn reports_at(
        self,
        timestamp_us: u64,
        template_id: u64,
        level: AnomalyLevel,
    ) -> bool {
        &&& level != AnomalyLevel::Normal
        &&& !self.learning(timestamp_us)
        &&& !cools_down(self.state(template_id), timestamp_us, level, self.config)
    }

    /// Whether `anomaly` is what is reported of an event that has a level.
    pub open spec fn report_at(
        self,
        timestamp_us: u64,
        template_id: u64,
        unit: Option<Seq<char>>,
        breakdown: ScoreBreakdown,
        level: AnomalyLevel,
        anomaly: Option<Anomaly>,
    ) -> bool {
        match anomaly {
            Some(found) => {
                &&& self.reports_at(timestamp_us, template_id, level)
                &&& found.timestamp_us == timestamp_us
                &&& found.template_id.0 == template_id
                &&& text::text_of(found.unit) == unit
                &&& found.level == level
                &&& found.breakdown == breakdown
                &&& found.suppressed_since_last == self.state(template_id).suppressed_since_last
            },
            None => !self.reports_at(timestamp_us, template_id, level),
        }
    }
}

/// Whether the evidence is what the engine holds after it has observed an event.
pub open spec fn is_evidence(
    after: EngineView,
    template_id: u64,
    unit_key: u64,
    slot: u8,
    evidence: Evidence,
) -> bool {
    &&& evidence.window_count == after.window.count(template_id)
    &&& evidence.window_len == after.window.entries.len()
    &&& evidence.entropy_history@ == after.entropy_history
    &&& evidence.settings == after.config
    &&& counts_window(after.window, evidence.window_counts)
    &&& evidence.rate.source == RateSource::ShortTerm ==> after.rates.templates.contains_key(
        template_id,
    ) && rate::is_evidence(
        RateEvidence { current: evidence.rate.count, history: evidence.rate.usual },
        after.rates.templates[template_id],
    )
}

/// Whether the evidence is held against the baselines as the model computes them.
pub open spec fn weighs_baselines(
    after: EngineView,
    template_id: u64,
    unit_key: u64,
    slot: u8,
    evidence: Evidence,
    model: spec_fn(FloatOp) -> u64,
) -> bool {
    &&& match after.baselines.rate_in(slot, unit_key, template_id, model) {
        Some((median, deviation, source)) => {
            &&& evidence.rate.source == source
            &&& evidence.rate.count == after.baselines.unit(unit_key).count(template_id)
            &&& evidence.rate.usual matches Some(usual) && usual.median_halves == median
                && usual.deviation_quarters == deviation
        },
        None => evidence.rate.source == RateSource::ShortTerm,
    }
    &&& evidence.surprisal == surprisal_basis(
        after.baselines.share_of(unit_key, template_id, model),
        after.window,
        template_id,
    )
}

/// The engine.
pub struct AnalysisEngine {
    config: AnalysisConfig,
    baseline_config: BaselineConfig,
    window: SlidingWindow,
    rates: RateTracker,
    baselines: BaselineStore,
    entropy_history: Vec<u64>,
    entropy_bucket: u64,
    bucket_us: u64,
    states: HashMap<u64, TemplateState>,
    first_event_us: Option<u64>,
    learning_skipped: bool,
    stats: AnalysisStats,
}

impl View for AnalysisEngine {
    type V = EngineView;

    closed spec fn view(&self) -> EngineView {
        EngineView {
            config: self.config,
            baseline_config: self.baseline_config,
            window: self.window@,
            rates: self.rates@,
            baselines: self.baselines@,
            entropy_history: self.entropy_history@,
            entropy_bucket: self.entropy_bucket,
            bucket_us: self.bucket_us,
            states: self.states@,
            first_event_us: self.first_event_us,
            learning_skipped: self.learning_skipped,
            stats: self.stats,
        }
    }
}

impl AnalysisEngine {
    /// Whether the engine is in a proper state.
    pub closed spec fn wf(&self) -> bool {
        &&& self@.valid()
        &&& self.window.wf()
        &&& self.rates.wf()
    }

    /// Creates an engine with the usual settings of the baselines.
    pub fn new(config: AnalysisConfig) -> (engine: AnalysisEngine)
        ensures
            engine.wf(),
            engine@.valid(),
            engine@.config == config,
            call_ensures(BaselineConfig::default, (), engine@.baseline_config),
            is_fresh(engine@),
    {
        AnalysisEngine::with_baseline_config(config, BaselineConfig::default())
    }

    /// Creates an engine.
    pub fn with_baseline_config(config: AnalysisConfig, baseline_config: BaselineConfig) -> (engine:
        AnalysisEngine)
        ensures
            engine.wf(),
            engine@.valid(),
            engine@.config == config,
            engine@.baseline_config == baseline_config,
            is_fresh(engine@),
    {
        let window = SlidingWindow::new(config.window_seconds, config.max_window_events);
        let rates = RateTracker::new(
            config.bucket_seconds,
            config.rate_history_buckets,
            config.max_templates,
            config.idle_eviction_buckets,
        );
        let baselines = BaselineStore::new(config.bucket_seconds, &baseline_config);
        AnalysisEngine {
            config,
            baseline_config,
            window,
            rates,
            baselines,
            entropy_history: Vec::new(),
            entropy_bucket: 0,
            bucket_us: store::bucket_length(config.bucket_seconds),
            states: HashMap::new(),
            first_event_us: None,
            learning_skipped: false,
            stats: AnalysisStats::default(),
        }
    }

    /// Replaces the baselines by what was stored.
    pub fn restore_baselines(&mut self, snapshot: BaselineSnapshot)
        requires
            old(self).wf(),
        ensures
            final(self).wf(),
            final(self)@ == (EngineView { baselines: final(self)@.baselines, ..old(self)@ }),
            final(self)@.baselines == (StoreView {
                histograms: crate::tables::map_of(
                    store::stored_histograms(snapshot.histograms@),
                ),
                profiles: crate::tables::map_of(store::stored_profiles(snapshot.profiles@)),
                units: Map::empty(),
                bucket_us: store::bucket_micros(old(self)@.config.bucket_seconds),
                decay: decay::by_hours(
                    old(self)@.baseline_config.half_life_hours,
                    old(self)@.config.bucket_seconds,
                ),
                settings: old(self)@.baseline_config,
            }),
    {
        self.baselines = BaselineStore::restore(
            snapshot,
            self.config.bucket_seconds,
            &self.baseline_config,
        );
    }

    /// Copies the baselines for storage.
    pub fn baseline_snapshot(&self) -> (snapshot: BaselineSnapshot)
        ensures
            crate::tables::map_of(store::stored_histograms(snapshot.histograms@))
                == self@.baselines.histograms,
            crate::tables::map_of(store::stored_profiles(snapshot.profiles@))
                == self@.baselines.profiles,
            snapshot.histograms@.len() == self@.baselines.histograms.len(),
            snapshot.profiles@.len() == self@.baselines.profiles.len(),
            crate::tables::keys_differ(store::stored_histograms(snapshot.histograms@)),
            crate::tables::keys_differ(store::stored_profiles(snapshot.profiles@)),
    {
        self.baselines.snapshot()
    }

    /// Drops baselines until there are not too many.
    pub fn enforce_baseline_limits<F: Fn(FloatOp) -> u64>(&mut self, floats: &FloatUnit<F>)
        requires
            old(self).wf(),
            floats.is_total(),
        ensures
            final(self).wf(),
            final(self)@ == (EngineView { baselines: final(self)@.baselines, ..old(self)@ }),
            final(self)@.baselines == (StoreView {
                histograms: final(self)@.baselines.histograms,
                profiles: final(self)@.baselines.profiles,
                units: final(self)@.baselines.units,
                ..old(self)@.baselines
            }),
            store::keeps_the_heaviest(old(self)@.baselines, *floats, final(self)@.baselines),
            final(self)@.baselines.histograms.submap_of(old(self)@.baselines.histograms),
            final(self)@.baselines.histograms.len()
                <= old(self)@.baselines.settings.max_baselines,
            forall|model: spec_fn(FloatOp) -> u64| #[trigger]
                floats.computes(model) ==> crate::tables::keeps_highest(
                    old(self)@.baselines.histograms,
                    final(self)@.baselines.histograms,
                    old(self)@.baselines.settings.max_baselines as nat,
                    store::by_weight(model),
                ),
            crate::tables::keeps_highest(
                old(self)@.baselines.profiles,
                final(self)@.baselines.profiles,
                old(self)@.baselines.settings.max_baselines as nat,
                store::by_last_observation(),
            ),
            crate::tables::keeps_highest(
                old(self)@.baselines.units,
                final(self)@.baselines.units,
                old(self)@.baselines.settings.max_baselines as nat,
                store::by_last_event(),
            ),
    {
        self.baselines.enforce_limits(floats);
    }

    /// Whether some baseline is trusted.
    pub fn has_trusted_baselines<F: Fn(FloatOp) -> u64>(&self, floats: &FloatUnit<F>) -> (trusted: bool)
        requires
            floats.is_total(),
        ensures
            forall|model: spec_fn(FloatOp) -> u64| #[trigger]
                floats.computes(model) ==> trusted == self@.baselines.has_trusted(model),
            store::tells_trust(self@.baselines, *floats, trusted),
    {
        self.baselines.has_trusted_baselines(floats)
    }

    /// What the engine has done so far.
    pub fn stats(&self) -> (stats: AnalysisStats)
        ensures
            stats == self@.stats,
    {
        self.stats
    }

    /// The entropy of the window, in bits, by the bits of a double-precision number.
    pub fn current_entropy<F: Fn(FloatOp) -> u64>(&self, floats: &FloatUnit<F>) -> (entropy: u64)
        requires
            self.wf(),
            floats.is_total(),
        ensures
            exists|counts: Vec<u64>|
                {
                    &&& #[trigger] counts_window(self@.window, counts)
                    &&& forall|model: spec_fn(FloatOp) -> u64| #[trigger]
                        floats.computes(model) ==> entropy == model(FloatOp::Entropy { counts })
                },
            pipeline::is_window_entropy(*self, entropy, *floats),
    {
        let counts = self.window.template_counts();
        let ghost handed = counts;
        let entropy: u64 = floats.run(FloatOp::Entropy { counts });
        proof {
            assert(counts_window(self@.window, handed));
        }
        entropy
    }

    /// How far the entropy of the window is from those of the last buckets.
    pub fn current_entropy_z<F: Fn(FloatOp) -> u64>(&self, floats: &FloatUnit<F>) -> (z: u64)
        requires
            self.wf(),
            floats.is_total(),
        ensures
            exists|counts: Vec<u64>, history: Vec<u64>|
                {
                    &&& #[trigger] counts_window(self@.window, counts)
                    &&& #[trigger] history@ == self@.entropy_history
                    &&& forall|model: spec_fn(FloatOp) -> u64| #[trigger]
                        floats.computes(model) ==> z == model(
                            FloatOp::EntropyZ { entropy: model(FloatOp::Entropy { counts }), history },
                        )
                },
            pipeline::is_window_entropy_z(*self, z, *floats),
    {
        let counts = self.window.template_counts();
        let ghost handed = counts;
        let entropy: u64 = floats.run(FloatOp::Entropy { counts });
        let history = copy_of(&self.entropy_history);
        let ghost past = history;
        let z: u64 = floats.run(FloatOp::EntropyZ { entropy, history });
        proof {
            assert(counts_window(self@.window, handed));
            assert(past@ == self@.entropy_history);
        }
        z
    }

    /// The entropies of the window at the ends of the last buckets, oldest first.
    pub fn entropy_history(&self) -> (history: &Vec<u64>)
        ensures
            history@ == self@.entropy_history,
    {
        &self.entropy_history
    }

    /// How many events the window holds.
    pub fn window_len(&self) -> (len: usize)
        ensures
            len == self@.window.entries.len(),
    {
        self.window.len()
    }

    /// How many templates occur in the window.
    pub fn distinct_templates(&self) -> (count: usize)
        requires
            self.wf(),
        ensures
            count == self@.window.distinct().len(),
    {
        self.window.distinct_templates()
    }

    /// The length of the window in seconds.
    pub fn window_seconds(&self) -> (seconds: u64)
        ensures
            seconds == self@.config.window_seconds,
    {
        self.config.window_seconds
    }

    /// How long the engine is learning, in microseconds.
    fn learning_length(&self) -> (micros: u64)
        ensures
            micros == learning_us(self@.config),
    {
        saturating_product(saturating_product(self.config.learning_phase_minutes, 60), 1_000_000)
    }

    /// How many seconds the engine will still be learning; none if it is not. Before
    /// the first event that is the whole length of the learning.
    pub fn learning_remaining_secs(&self, timestamp_us: u64) -> (seconds: Option<u64>)
        ensures
            seconds == self@.learning_left(timestamp_us),
    {
        if !self.in_learning_phase(timestamp_us) {
            return None;
        }
        match self.first_event_us {
            Some(start) => Some(
                self.learning_length().saturating_sub(timestamp_us.saturating_sub(start))
                    / 1_000_000,
            ),
            None => Some(self.learning_length() / 1_000_000),
        }
    }

    /// Ends the learning, because baselines that are trusted have been restored.
    pub fn skip_learning_phase(&mut self)
        ensures
            final(self)@ == (EngineView { learning_skipped: true, ..old(self)@ }),
            old(self).wf() ==> final(self).wf(),
    {
        self.learning_skipped = true;
    }

    /// Whether the engine is learning.
    pub fn in_learning_phase(&self, timestamp_us: u64) -> (learning: bool)
        ensures
            learning == self@.learning(timestamp_us),
    {
        if self.learning_skipped {
            return false;
        }
        match self.first_event_us {
            Some(start) => timestamp_us.saturating_sub(start) < self.learning_length(),
            None => true,
        }
    }

    /// Takes an event, and reports it if it is an anomaly. Its slot is that of its
    /// time in the time zone of the machine.
    pub fn process<F: Fn(FloatOp) -> u64, G: Fn(Evidence) -> Scores>(
        &mut self,
        input: AnalysisInput<'_>,
        floats: &FloatUnit<F>,
        score: &G,
    ) -> (anomaly: Option<Anomaly>)
        requires
            old(self).wf(),
            floats.is_total(),
            forall|evidence: Evidence| #[trigger] call_requires(*score, (evidence,)),
            old(self)@.can_process(
                input.timestamp_us,
                input.template_id.0,
                store::unit_key(text::str_of(input.unit)),
            ),
        ensures
            final(self).wf(),
            exists|slot: Slot|
                #![trigger processed(*old(self), input, slot, *floats, *score, *final(self), anomaly)]
                slot::can_be_slot_of(input.timestamp_us, slot.0) && processed(
                    *old(self),
                    input,
                    slot,
                    *floats,
                    *score,
                    *final(self),
                    anomaly,
                ),
    {
        let slot = Slot::from_timestamp_us(input.timestamp_us);
        let ghost event = input;
        let anomaly = self.process_in_slot(input, slot, floats, score);
        proof {
            assert(processed(*old(self), event, slot, *floats, *score, *self, anomaly));
        }
        anomaly
    }

    /// Takes an event in a slot, and reports it if it is an anomaly.
    pub fn process_in_slot<F: Fn(FloatOp) -> u64, G: Fn(Evidence) -> Scores>(
        &mut self,
        input: AnalysisInput<'_>,
        slot: Slot,
        floats: &FloatUnit<F>,
        score: &G,
    ) -> (anomaly: Option<Anomaly>)
        requires
            old(self).wf(),
            floats.is_total(),
            forall|evidence: Evidence| #[trigger] call_requires(*score, (evidence,)),
            old(self)@.can_process(
                input.timestamp_us,
                input.template_id.0,
                store::unit_key(text::str_of(input.unit)),
            ),
        ensures
            final(self).wf(),
            processed(*old(self), input, slot, *floats, *score, *final(self), anomaly),
    {
        let ghost before = *self;
        let ghost event = input;
        let evidence = self.observe(&input, slot, floats);
        let ghost observed = *self;
        let ghost seen = evidence;
        let rate_source = evidence.rate.source;
        let scores = score(evidence);
        let ghost given = scores;
        let anomaly = self.decide(&input, ScoreBreakdown { scores, rate_source }, floats);
        proof {
            assert(observed_event(before, event, slot, *floats, observed, seen));
            assert(call_ensures(*score, (seen,), given));
            assert(decided_event(
                observed,
                event,
                ScoreBreakdown { scores: given, rate_source: seen.rate.source },
                *floats,
                *self,
                anomaly,
            ));
        }
        anomaly
    }

    /// Observes an event in a slot, and collects what it is scored by.
    pub fn observe<F: Fn(FloatOp) -> u64>(
        &mut self,
        input: &AnalysisInput<'_>,
        slot: Slot,
        floats: &FloatUnit<F>,
    ) -> (evidence: Evidence)
        requires
            old(self).wf(),
            floats.is_total(),
            old(self)@.can_process(
                input.timestamp_us,
                input.template_id.0,
                store::unit_key(text::str_of(input.unit)),
            ),
        ensures
            final(self).wf(),
            observed_event(*old(self), *input, slot, *floats, *final(self), evidence),
    {
        let ghost before = self@;
        self.stats.processed = self.stats.processed + 1;
        if self.first_event_us.is_none() {
            self.first_event_us = Some(input.timestamp_us);
            self.entropy_bucket = input.timestamp_us / self.bucket_us;
        }
        self.roll_entropy_bucket(input.timestamp_us, floats);
        let unit_key: u64 = store::unit_key_from_name(input.unit);
        let short_term = self.rates.record(input.timestamp_us, input.template_id);
        self.window.push(input.timestamp_us, input.template_id);
        self.baselines.record_in_slot(
            input.timestamp_us,
            unit_key,
            input.template_id,
            slot,
            floats,
        );
        let bucket_count: u32 = self.baselines.current_bucket_count(unit_key, input.template_id);
        let baseline = self.baselines.baseline_rate_in_slot(
            slot,
            unit_key,
            input.template_id,
            floats,
        );
        let rate = read_rate(short_term, bucket_count, baseline);
        let surprisal = match self.baselines.profile_share(unit_key, input.template_id, floats) {
            Some(share) => SurprisalBasis::Profile(share),
            None => SurprisalBasis::Window {
                count: self.window.count_of(input.template_id),
                total: self.window.len() as u64,
                distinct: self.window.distinct_templates(),
            },
        };
        let window_counts = self.window.template_counts();
        proof {
            assert(counts_window(self@.window, window_counts));
        }
        let evidence = Evidence {
            rate,
            surprisal,
            window_count: self.window.count_of(input.template_id),
            window_len: self.window.len(),
            window_counts,
            entropy_history: copy_of(&self.entropy_history),
            settings: self.config,
        };
        proof {
            self.rates.wf_is_valid();
            assert(before.observes(
                input.timestamp_us,
                input.template_id.0,
                unit_key,
                slot.0,
                self@,
            ));
            assert(is_evidence(self@, input.template_id.0, unit_key, slot.0, evidence));
        }
        evidence
    }

    /// Archives the entropy of the window if an event ends a bucket.
    fn roll_entropy_bucket<F: Fn(FloatOp) -> u64>(&mut self, timestamp_us: u64, floats: &FloatUnit<F>)
        requires
            old(self).wf(),
            floats.is_total(),
            old(self)@.first_event_us is Some,
            old(self)@.archives(timestamp_us) ==> old(self)@.config.rate_history_buckets >= 1,
        ensures
            final(self).wf(),
            final(self)@ == (EngineView {
                entropy_history: final(self)@.entropy_history,
                entropy_bucket: if old(self)@.ends_bucket(timestamp_us) {
                    timestamp_us / old(self)@.bucket_us
                } else {
                    old(self)@.entropy_bucket
                },
                ..old(self)@
            }),
            !old(self)@.archives(timestamp_us) ==> final(self)@.entropy_history == old(
                self,
            )@.entropy_history,
            exists|counts: Vec<u64>|
                {
                    &&& #[trigger] counts_window(old(self)@.window, counts)
                    &&& forall|model: spec_fn(FloatOp) -> u64| #[trigger]
                        floats.computes(model) ==> old(self)@.archives_entropy(
                            timestamp_us,
                            counts,
                            final(self)@,
                            model,
                        )
                },
    {
        let ghost before = self@;
        let counts = self.window.template_counts();
        let ghost handed = counts;
        proof {
            assert(counts_window(before.window, handed));
        }
        let bucket: u64 = timestamp_us / self.bucket_us;
        if bucket <= self.entropy_bucket {
            return;
        }
        if !self.window.is_empty() {
            let entropy: u64 = floats.run(FloatOp::Entropy { counts });
            if self.entropy_history.len() >= self.config.rate_history_buckets {
                let _ = self.entropy_history.remove(0);
                proof {
                    assert(self.entropy_history@ =~= before.entropy_history.skip(1));
                }
            }
            self.entropy_history.push(entropy);
            proof {
                assert(self.entropy_history@ =~= before.archived(entropy));
            }
        }
        self.entropy_bucket = bucket;
    }

    /// Decides on an event that has been observed, given what it scores.
    pub fn decide<F: Fn(FloatOp) -> u64>(
        &mut self,
        input: &AnalysisInput<'_>,
        breakdown: ScoreBreakdown,
        floats: &FloatUnit<F>,
    ) -> (anomaly: Option<Anomaly>)
        requires
            old(self).wf(),
            floats.is_total(),
            old(self)@.stats.emitted < u64::MAX,
            old(self)@.stats.suppressed < u64::MAX,
            old(self)@.stats.suppressed_learning < u64::MAX,
            old(self)@.state(input.template_id.0).suppressed_since_last < u64::MAX,
        ensures
            final(self).wf(),
            decided_event(*old(self), *input, breakdown, *floats, *final(self), anomaly),
    {
        let score: u64 = breakdown.scores.combined;
        let state = self.state_of(input.template_id.0);
        let level = self.level_with_hysteresis(state.current_level, score, floats);
        let anomaly = self.decide_on_level(input, breakdown, level);
        proof {
            assert(decided_on_level(*old(self), *input, breakdown, level, *self, anomaly));
        }
        anomaly
    }

    /// Decides on an event that has a level.
    fn decide_on_level(
        &mut self,
        input: &AnalysisInput<'_>,
        breakdown: ScoreBreakdown,
        level: AnomalyLevel,
    ) -> (anomaly: Option<Anomaly>)
        requires
            old(self).wf(),
            old(self)@.stats.emitted < u64::MAX,
            old(self)@.stats.suppressed < u64::MAX,
            old(self)@.stats.suppressed_learning < u64::MAX,
            old(self)@.state(input.template_id.0).suppressed_since_last < u64::MAX,
        ensures
            final(self).wf(),
            decided_on_level(*old(self), *input, breakdown, level, *final(self), anomaly),
    {
        broadcast use vstd::std_specs::hash::group_hash_axioms;

        let id: u64 = input.template_id.0;
        let mut state = self.state_of(id);
        state.current_level = level;
        if level == AnomalyLevel::Normal {
            self.states.insert(id, state);
            return None;
        }
        if self.in_learning_phase(input.timestamp_us) {
            self.states.insert(id, state);
            self.stats.suppressed_learning = self.stats.suppressed_learning + 1;
            return None;
        }
        if self.is_in_cooldown(&state, input.timestamp_us, level) {
            state.suppressed_since_last = state.suppressed_since_last + 1;
            self.states.insert(id, state);
            self.stats.suppressed = self.stats.suppressed + 1;
            return None;
        }
        let suppressed_since_last: u64 = state.suppressed_since_last;
        state.last_emitted_us = Some(input.timestamp_us);
        state.last_emitted_level = level;
        state.suppressed_since_last = 0;
        self.states.insert(id, state);
        self.stats.emitted = self.stats.emitted + 1;
        let unit = match input.unit {
            Some(name) => Some(name.to_string()),
            None => None,
        };
        Some(
            Anomaly {
                timestamp_us: input.timestamp_us,
                template_id: input.template_id,
                unit,
                level,
                breakdown,
                suppressed_since_last,
            },
        )
    }

    /// What has been reported of a template.
    fn state_of(&self, template_id: u64) -> (state: TemplateState)
        ensures
            state == self@.state(template_id),
    {
        broadcast use vstd::std_specs::hash::group_hash_axioms;

        match self.states.get(&template_id) {
            Some(state) => *state,
            None => TemplateState {
                current_level: AnomalyLevel::Normal,
                last_emitted_us: None,
                last_emitted_level: AnomalyLevel::Normal,
                suppressed_since_last: 0,
            },
        }
    }

    /// The level of a score, given the level of the event before.
    pub fn level_with_hysteresis<F: Fn(FloatOp) -> u64>(
        &self,
        previous: AnomalyLevel,
        score: u64,
        floats: &FloatUnit<F>,
    ) -> (level: AnomalyLevel)
        requires
            floats.is_total(),
        ensures
            can_follow(previous, score, self@.config, level),
            forall|model: spec_fn(FloatOp) -> u64| #[trigger]
                floats.computes(model) ==> level == level_after(
                    previous,
                    score,
                    self@.config,
                    model,
                ),
    {
        let raw = if float::is_at_least64(score, self.config.score_critical_threshold) {
            AnomalyLevel::Critical
        } else if float::is_at_least64(score, self.config.score_warn_threshold) {
            AnomalyLevel::Warn
        } else if float::is_at_least64(score, self.config.score_info_threshold) {
            AnomalyLevel::Info
        } else {
            AnomalyLevel::Normal
        };
        let threshold: u64 = match previous {
            AnomalyLevel::Critical => self.config.score_critical_threshold,
            AnomalyLevel::Warn => self.config.score_warn_threshold,
            _ => self.config.score_info_threshold,
        };
        let exit: u64 = floats.run(
            FloatOp::ExitThreshold { threshold, factor: self.config.hysteresis_exit_factor },
        );
        let held = if previous != AnomalyLevel::Normal && float::is_at_least64(score, exit) {
            previous
        } else {
            AnomalyLevel::Normal
        };
        if raw.rank() >= held.rank() {
            raw
        } else {
            held
        }
    }

    /// Whether a template has just been reported, on a level that is not lower.
    fn is_in_cooldown(&self, state: &TemplateState, timestamp_us: u64, level: AnomalyLevel) -> (cools:
        bool)
        ensures
            cools == cools_down(*state, timestamp_us, level, self@.config),
    {
        match state.last_emitted_us {
            Some(last) => {
                if level.rank() > state.last_emitted_level.rank() {
                    return false;
                }
                timestamp_us.saturating_sub(last) < saturating_product(
                    self.config.cooldown_seconds,
                    1_000_000,
                )
            },
            None => false,
        }
    }
}

/// Whether an engine is set up by its settings and has seen no event.
pub open spec fn is_fresh(engine: EngineView) -> bool {
    &&& is_unused(engine)
    &&& engine.baselines.histograms == Map::<
        (u64, u64, u8),
        crate::histogram::HistogramView,
    >::empty()
    &&& engine.baselines.profiles == Map::<u64, crate::profile::ProfileView>::empty()
    &&& !engine.learning_skipped
}

/// Whether an engine is set up by its settings and has seen no event, whatever
/// baselines it started with.
pub open spec fn is_unused(engine: EngineView) -> bool {
    &&& engine.window == window::opened(
        engine.config.window_seconds,
        engine.config.max_window_events as nat,
    )
    &&& engine.rates == rate::opened(
        engine.config.bucket_seconds,
        engine.config.rate_history_buckets as nat,
        engine.config.max_templates as nat,
        engine.config.idle_eviction_buckets,
    )
    &&& engine.baselines.units == Map::<u64, store::UnitView>::empty()
    &&& engine.baselines.bucket_us == store::bucket_micros(engine.config.bucket_seconds)
    &&& engine.baselines.decay == decay::by_hours(
        engine.baseline_config.half_life_hours,
        engine.config.bucket_seconds,
    )
    &&& engine.baselines.settings == engine.baseline_config
    &&& engine.entropy_history.len() == 0
    &&& engine.entropy_bucket == 0
    &&& engine.bucket_us == store::bucket_micros(engine.config.bucket_seconds)
    &&& engine.states == Map::<u64, TemplateState>::empty()
    &&& engine.first_event_us is None
    &&& engine.stats == (AnalysisStats {
        processed: 0,
        emitted: 0,
        suppressed: 0,
        suppressed_learning: 0,
    })
}

/// Whether `counts` says how often each template of the window occurs.
pub open spec fn counts_window(window: WindowView, counts: Vec<u64>) -> bool {
    exists|ids: Seq<u64>| #[trigger] window::lists_counts(window, ids, counts@)
}

/// Whether an engine has observed an event in a slot, and the evidence is what the
/// event is scored by.
pub open spec fn observed_event<F: Fn(FloatOp) -> u64>(
    before: AnalysisEngine,
    input: AnalysisInput<'_>,
    slot: Slot,
    floats: FloatUnit<F>,
    after: AnalysisEngine,
    evidence: Evidence,
) -> bool {
    let unit_key = store::unit_key(text::str_of(input.unit));
    let id = input.template_id.0;
    &&& before@.observes(input.timestamp_us, id, unit_key, slot.0, after@)
    &&& is_evidence(after@, id, unit_key, slot.0, evidence)
    &&& forall|model: spec_fn(FloatOp) -> u64| #[trigger]
        floats.computes(model) ==> {
            &&& before@.baselines.records(
                input.timestamp_us,
                unit_key,
                id,
                slot.0,
                after@.baselines,
                model,
            )
            &&& weighs_baselines(after@, id, unit_key, slot.0, evidence, model)
        }
    &&& exists|counts: Vec<u64>|
        {
            &&& #[trigger] counts_window(before@.window, counts)
            &&& forall|model: spec_fn(FloatOp) -> u64| #[trigger]
                floats.computes(model) ==> before@.archives_entropy(
                    input.timestamp_us,
                    counts,
                    after@,
                    model,
                )
        }
}

/// Whether an engine has decided on an event that has a level, and the anomaly is
/// what it reports.
pub open spec fn decided_on_level(
    before: AnalysisEngine,
    input: AnalysisInput<'_>,
    breakdown: ScoreBreakdown,
    level: AnomalyLevel,
    after: AnalysisEngine,
    anomaly: Option<Anomaly>,
) -> bool {
    &&& after@ == before@.decided_at(input.timestamp_us, input.template_id.0, level)
    &&& before@.report_at(
        input.timestamp_us,
        input.template_id.0,
        text::str_of(input.unit),
        breakdown,
        level,
        anomaly,
    )
}

/// Whether an engine has decided on an event, and the anomaly is what it reports.
/// Only whether the level before is held rests on floating-point arithmetic.
pub open spec fn decided_event<F: Fn(FloatOp) -> u64>(
    before: AnalysisEngine,
    input: AnalysisInput<'_>,
    breakdown: ScoreBreakdown,
    floats: FloatUnit<F>,
    after: AnalysisEngine,
    anomaly: Option<Anomaly>,
) -> bool {
    let score = breakdown.scores.combined;
    let id = input.template_id.0;
    exists|level: AnomalyLevel|
        {
            &&& #[trigger] decided_on_level(before, input, breakdown, level, after, anomaly)
            &&& can_follow(before@.state(id).current_level, score, before@.config, level)
            &&& forall|model: spec_fn(FloatOp) -> u64| #[trigger]
                floats.computes(model) ==> level == before@.level(id, score, model)
        }
}

/// Whether an engine has taken an event in a slot: observed it, had it scored, and
/// decided on it.
pub open spec fn processed<F: Fn(FloatOp) -> u64, G: Fn(Evidence) -> Scores>(
    before: AnalysisEngine,
    input: AnalysisInput<'_>,
    slot: Slot,
    floats: FloatUnit<F>,
    score: G,
    after: AnalysisEngine,
    anomaly: Option<Anomaly>,
) -> bool {
    exists|observed: AnalysisEngine, evidence: Evidence, scores: Scores|
        {
            &&& #[trigger] observed_event(before, input, slot, floats, observed, evidence)
            &&& #[trigger] call_ensures(score, (evidence,), scores)
            &&& decided_event(
                observed,
                input,
                ScoreBreakdown { scores, rate_source: evidence.rate.source },
                floats,
                after,
                anomaly,
            )
        }
}

/// A product, or the largest number if it does not fit.
pub fn saturating_product(a: u64, b: u64) -> (product: u64)
    ensures
        product == saturated(a, b),
{
    match a.checked_mul(b) {
        Some(product) => product,
        None => u64::MAX,
    }
}

/// A copy of a list of numbers.
fn copy_of(values: &Vec<u64>) -> (copy: Vec<u64>)
    ensures
        copy@ == values@,
{
    let mut copy: Vec<u64> = Vec::new();
    let mut i: usize = 0;
    while i < values.len()
        invariant
            i <= values@.len(),
            copy@ =~= values@.take(i as int),
        decreases values@.len() - i,
    {
        copy.push(values[i]);
        i += 1;
    }
    proof {
        assert(copy@ =~= values@);
    }
    copy
}

/// While the engine is learning, nothing is reported.
pub proof fn learning_reports_nothing(
    engine: EngineView,
    timestamp_us: u64,
    template_id: u64,
    score: u64,
    model: spec_fn(FloatOp) -> u64,
)
    requires
        engine.learning(timestamp_us),
    ensures
        !engine.reports(timestamp_us, template_id, score, model),
        engine.decided(timestamp_us, template_id, score, model).stats.emitted == engine.stats.emitted,
{
}

/// A level is held until the score falls below its exit threshold: as long as it
/// does not, the level does not fall.
pub proof fn level_is_held(
    previous: AnomalyLevel,
    score: u64,
    config: AnalysisConfig,
    model: spec_fn(FloatOp) -> u64,
)
    requires
        float::at_least64(score, exit_threshold(previous, config, model)),
    ensures
        severity(level_after(previous, score, config, model)) >= severity(previous),
{
}

/// The level never is lower than the one that the score reaches.
pub proof fn level_reaches_the_score(
    previous: AnomalyLevel,
    score: u64,
    config: AnalysisConfig,
    model: spec_fn(FloatOp) -> u64,
)
    ensures
        severity(level_after(previous, score, config, model)) >= severity(raw_level(score, config)),
{
}

/// An event on which an engine decides.
pub ghost struct Verdict {
    /// The time of the event.
    pub timestamp_us: u64,
    /// The template of the event.
    pub template_id: u64,
    /// What the event scores.
    pub score: u64,
}

impl EngineView {
    /// The engine after it has decided on a number of events, one after the other.
    pub open spec fn decided_all(
        self,
        events: Seq<Verdict>,
        model: spec_fn(FloatOp) -> u64,
    ) -> EngineView
        decreases events.len(),
    {
        if events.len() == 0 {
            self
        } else {
            let last = events.last();
            self.decided_all(events.drop_last(), model).decided(
                last.timestamp_us,
                last.template_id,
                last.score,
                model,
            )
        }
    }

    /// The level of one of a number of events, after those before it.
    pub open spec fn level_among(
        self,
        events: Seq<Verdict>,
        i: int,
        model: spec_fn(FloatOp) -> u64,
    ) -> AnomalyLevel {
        self.decided_all(events.take(i), model).level(
            events[i].template_id,
            events[i].score,
            model,
        )
    }

    /// Whether one of a number of events is reported, after those before it.
    pub open spec fn reports_among(
        self,
        events: Seq<Verdict>,
        i: int,
        model: spec_fn(FloatOp) -> u64,
    ) -> bool {
        self.decided_all(events.take(i), model).reports(
            events[i].timestamp_us,
            events[i].template_id,
            events[i].score,
            model,
        )
    }

    /// How many of a number of events of a template deviate while the engine is not
    /// learning.
    pub open spec fn deviations(
        self,
        events: Seq<Verdict>,
        template_id: u64,
        model: spec_fn(FloatOp) -> u64,
    ) -> nat
        decreases events.len(),
    {
        if events.len() == 0 {
            0
        } else {
            let earlier = events.drop_last();
            let last = events.last();
            let before = self.decided_all(earlier, model);
            self.deviations(earlier, template_id, model) + if last.template_id == template_id
                && before.level(template_id, last.score, model) != AnomalyLevel::Normal
                && !before.learning(last.timestamp_us) {
                1nat
            } else {
                0nat
            }
        }
    }

    /// Whether none of a number of events of a template has a level higher than
    /// `level`.
    pub open spec fn none_rises(
        self,
        events: Seq<Verdict>,
        template_id: u64,
        level: AnomalyLevel,
        model: spec_fn(FloatOp) -> u64,
    ) -> bool {
        forall|i: int|
            0 <= i < events.len() && events[i].template_id == template_id ==> severity(
                #[trigger] self.level_among(events, i, model),
            ) <= severity(level)
    }
}

/// After a template has been reported, and whatever else is decided on in between,
/// an event of it within the cooldown is reported exactly if its level rises above
/// the one reported, outside the learning. As long as none rises, those that
/// deviate are held back and counted.
pub proof fn cooldown_holds_back(
    engine: EngineView,
    first: Verdict,
    events: Seq<Verdict>,
    model: spec_fn(FloatOp) -> u64,
)
    requires
        engine.reports(first.timestamp_us, first.template_id, first.score, model),
        forall|i: int|
            0 <= i < events.len() && (#[trigger] events[i]).template_id == first.template_id
                ==> elapsed(first.timestamp_us, events[i].timestamp_us) < saturated(
                engine.config.cooldown_seconds,
                1_000_000,
            ),
    ensures
        ({
            let id = first.template_id;
            let after = engine.decided(first.timestamp_us, id, first.score, model);
            let level = engine.level(id, first.score, model);
            &&& forall|i: int|
                0 <= i < events.len() && events[i].template_id == id && after.none_rises(
                    events.take(i),
                    id,
                    level,
                    model,
                ) ==> (#[trigger] after.reports_among(events, i, model) <==> severity(
                    after.level_among(events, i, model),
                ) > severity(level) && !after.learning(events[i].timestamp_us))
            &&& after.none_rises(events, id, level, model) && events.len() <= u64::MAX ==> {
                &&& after.decided_all(events, model).state(id).suppressed_since_last
                    == after.deviations(events, id, model)
                &&& forall|i: int|
                    0 <= i < events.len() && events[i].template_id == id
                        ==> !#[trigger] after.reports_among(events, i, model)
            }
        }),
{
    let id = first.template_id;
    let after = engine.decided(first.timestamp_us, id, first.score, model);
    let level = engine.level(id, first.score, model);
    assert forall|i: int|
        0 <= i < events.len() && events[i].template_id == id && after.none_rises(
            events.take(i),
            id,
            level,
            model,
        ) implies (#[trigger] after.reports_among(events, i, model) <==> severity(
        after.level_among(events, i, model),
    ) > severity(level) && !after.learning(events[i].timestamp_us)) by {
        let earlier = events.take(i);
        assert forall|j: int|
            0 <= j < earlier.len() && (#[trigger] earlier[j]).template_id == id implies elapsed(
            first.timestamp_us,
            earlier[j].timestamp_us,
        ) < saturated(after.config.cooldown_seconds, 1_000_000) by {
            assert(earlier[j] == events[j]);
        }
        cooldown_is_kept(after, first.timestamp_us, id, level, earlier, model);
    }
    if after.none_rises(events, id, level, model) && events.len() <= u64::MAX {
        cooldown_is_kept(after, first.timestamp_us, id, level, events, model);
    }
}

/// As long as no event of a template that has been reported rises above the level
/// reported, nothing of it is reported within the cooldown.
proof fn cooldown_is_kept(
    after: EngineView,
    first_us: u64,
    id: u64,
    level: AnomalyLevel,
    events: Seq<Verdict>,
    model: spec_fn(FloatOp) -> u64,
)
    requires
        after.state(id).last_emitted_us == Some(first_us),
        after.state(id).last_emitted_level == level,
        after.state(id).suppressed_since_last == 0,
        forall|i: int|
            0 <= i < events.len() && (#[trigger] events[i]).template_id == id ==> elapsed(
                first_us,
                events[i].timestamp_us,
            ) < saturated(after.config.cooldown_seconds, 1_000_000),
        after.none_rises(events, id, level, model),
    ensures
        ({
            let later = after.decided_all(events, model);
            &&& later.config == after.config
            &&& later.learning_skipped == after.learning_skipped
            &&& later.first_event_us == after.first_event_us
            &&& later.state(id).last_emitted_us == Some(first_us)
            &&& later.state(id).last_emitted_level == level
            &&& after.deviations(events, id, model) <= events.len()
            &&& events.len() <= u64::MAX ==> later.state(id).suppressed_since_last
                == after.deviations(events, id, model)
            &&& forall|i: int|
                0 <= i < events.len() && events[i].template_id == id
                    ==> !#[trigger] after.reports_among(events, i, model)
        }),
    decreases events.len(),
{
    if events.len() > 0 {
        let earlier = events.drop_last();
        let n = earlier.len() as int;
        assert(events.take(n) =~= earlier);
        assert forall|i: int|
            0 <= i < earlier.len() && earlier[i].template_id == id implies severity(
            #[trigger] after.level_among(earlier, i, model),
        ) <= severity(level) by {
            assert(earlier.take(i) =~= events.take(i));
            assert(earlier[i] == events[i]);
            assert(severity(after.level_among(events, i, model)) <= severity(level));
        }
        assert forall|i: int|
            0 <= i < earlier.len() && (#[trigger] earlier[i]).template_id == id implies elapsed(
            first_us,
            earlier[i].timestamp_us,
        ) < saturated(after.config.cooldown_seconds, 1_000_000) by {
            assert(earlier[i] == events[i]);
        }
        cooldown_is_kept(after, first_us, id, level, earlier, model);
        let before = after.decided_all(earlier, model);
        let last = events[n];
        if last.template_id == id {
            assert(severity(after.level_among(events, n, model)) <= severity(level));
            assert(elapsed(first_us, last.timestamp_us) < saturated(
                after.config.cooldown_seconds,
                1_000_000,
            ));
            assert(!after.reports_among(events, n, model));
        }
        assert forall|i: int| 0 <= i < events.len() && events[i].template_id == id implies !(
        #[trigger] after.reports_among(events, i, model)) by {
            if i < n {
                assert(earlier.take(i) =~= events.take(i));
                assert(earlier[i] == events[i]);
                assert(!after.reports_among(earlier, i, model));
            }
        }
    }
}

/// Every event that deviates is counted once: as reported, as held back by the
/// cooldown, or as held back while learning. One that does not is not counted.
pub proof fn every_deviation_is_counted_once(
    engine: EngineView,
    timestamp_us: u64,
    template_id: u64,
    score: u64,
    model: spec_fn(FloatOp) -> u64,
)
    requires
        engine.stats.emitted < u64::MAX,
        engine.stats.suppressed < u64::MAX,
        engine.stats.suppressed_learning < u64::MAX,
    ensures
        ({
            let before = engine.stats;
            let after = engine.decided(timestamp_us, template_id, score, model).stats;
            let level = engine.level(template_id, score, model);
            let reported = engine.reports(timestamp_us, template_id, score, model);
            &&& after.processed == before.processed
            &&& after.emitted - before.emitted == if reported {
                1int
            } else {
                0int
            }
            &&& after.emitted + after.suppressed + after.suppressed_learning == before.emitted
                + before.suppressed + before.suppressed_learning + if level
                == AnomalyLevel::Normal {
                0int
            } else {
                1int
            }
        }),
{
}

/// Deciding on an event changes neither what has been observed nor what is known of
/// other templates.
pub proof fn deciding_keeps_observations(
    engine: EngineView,
    timestamp_us: u64,
    template_id: u64,
    score: u64,
    model: spec_fn(FloatOp) -> u64,
    other: u64,
)
    ensures
        ({
            let after = engine.decided(timestamp_us, template_id, score, model);
            &&& after.window == engine.window
            &&& after.rates == engine.rates
            &&& after.baselines == engine.baselines
            &&& after.entropy_history == engine.entropy_history
            &&& other != template_id ==> after.state(other) == engine.state(other)
        }),
{
}

/// An engine is learning from its first event on for as many minutes as are set, and not
/// a microsecond longer; the seconds that are left are those up to that end, rounded
/// down. What is skipped is over.
pub proof fn learning_ends_when_it_is_set_to(engine: EngineView, start: u64, timestamp_us: u64)
    requires
        engine.first_event_us == Some(start),
        start <= timestamp_us,
        engine.config.learning_phase_minutes * 60_000_000 <= u64::MAX,
    ensures
        ({
            let end = start + engine.config.learning_phase_minutes * 60_000_000;
            &&& engine.learning(timestamp_us) <==> !engine.learning_skipped && timestamp_us < end
            &&& engine.learning_left(timestamp_us) is Some <==> engine.learning(timestamp_us)
            &&& engine.learning_left(timestamp_us) matches Some(left) ==> {
                &&& left * 1_000_000 <= end - timestamp_us
                &&& end - timestamp_us < left * 1_000_000 + 1_000_000
            }
        }),
{
    let minutes = engine.config.learning_phase_minutes;
    assert(minutes * 60 * 1_000_000 == minutes * 60_000_000) by (nonlinear_arith);
    assert(minutes * 60 <= u64::MAX);
}

/// Before its first event an engine is learning, unless that is skipped, and all of the
/// time that is set is left.
pub proof fn learning_starts_with_the_first_event(engine: EngineView, timestamp_us: u64)
    requires
        engine.first_event_us is None,
        engine.config.learning_phase_minutes * 60_000_000 <= u64::MAX,
    ensures
        engine.learning(timestamp_us) <==> !engine.learning_skipped,
        !engine.learning_skipped ==> engine.learning_left(timestamp_us) == Some(
            (engine.config.learning_phase_minutes * 60) as u64,
        ),
{
    let minutes = engine.config.learning_phase_minutes;
    assert(minutes * 60 * 1_000_000 == minutes * 60_000_000) by (nonlinear_arith);
    assert(minutes * 60 <= u64::MAX);
}

/// A score that no level was held over from reaches the highest level whose threshold
/// it is not below. Scores and thresholds that are not negative are compared by their
/// bits.
pub proof fn thresholds_part_the_levels(
    previous: AnomalyLevel,
    score: u64,
    config: AnalysisConfig,
    level: AnomalyLevel,
)
    requires
        can_follow(previous, score, config, level),
        score <= 0x7ff0_0000_0000_0000,
        config.score_info_threshold <= config.score_warn_threshold,
        config.score_warn_threshold <= config.score_critical_threshold,
        config.score_critical_threshold <= 0x7ff0_0000_0000_0000,
    ensures
        score >= config.score_critical_threshold ==> level == AnomalyLevel::Critical,
        score < config.score_critical_threshold && level == AnomalyLevel::Critical ==> previous
            == AnomalyLevel::Critical,
        score >= config.score_warn_threshold ==> level == AnomalyLevel::Warn || level
            == AnomalyLevel::Critical,
        score < config.score_warn_threshold && level == AnomalyLevel::Warn ==> previous
            == AnomalyLevel::Warn,
        score >= config.score_info_threshold ==> level != AnomalyLevel::Normal,
        score < config.score_info_threshold && level == AnomalyLevel::Info ==> previous
            == AnomalyLevel::Info,
        previous == AnomalyLevel::Normal && level == AnomalyLevel::Normal ==> score
            < config.score_info_threshold,
{
    float::bits_compare_as_numbers(score, config.score_critical_threshold);
    float::bits_compare_as_numbers(score, config.score_warn_threshold);
    float::bits_compare_as_numbers(score, config.score_info_threshold);
}

/// A level that was reached before is held while the score is not below its own
/// threshold times the exit factor, and is left as soon as it is. `exit` is that
/// product, as it is computed.
pub proof fn a_level_is_left_below_its_own_exit(
    previous: AnomalyLevel,
    score: u64,
    config: AnalysisConfig,
    model: spec_fn(FloatOp) -> u64,
    exit: u64,
)
    requires
        previous != AnomalyLevel::Normal,
        previous == AnomalyLevel::Info ==> exit == model(
            FloatOp::ExitThreshold {
                threshold: config.score_info_threshold,
                factor: config.hysteresis_exit_factor,
            },
        ),
        previous == AnomalyLevel::Warn ==> exit == model(
            FloatOp::ExitThreshold {
                threshold: config.score_warn_threshold,
                factor: config.hysteresis_exit_factor,
            },
        ),
        previous == AnomalyLevel::Critical ==> exit == model(
            FloatOp::ExitThreshold {
                threshold: config.score_critical_threshold,
                factor: config.hysteresis_exit_factor,
            },
        ),
        score <= 0x7ff0_0000_0000_0000,
        exit <= 0x7ff0_0000_0000_0000,
    ensures
        ({
            let level = level_after(previous, score, config, model);
            let fresh = level_after(AnomalyLevel::Normal, score, config, model);
            &&& score < exit ==> level == fresh
            &&& score >= exit && fresh == AnomalyLevel::Normal ==> level == previous
            &&& score >= exit && fresh == AnomalyLevel::Info ==> level == previous
            &&& score >= exit && fresh == AnomalyLevel::Warn && previous == AnomalyLevel::Critical
                ==> level == AnomalyLevel::Critical
            &&& score >= exit && fresh == AnomalyLevel::Warn && previous != AnomalyLevel::Critical
                ==> level == AnomalyLevel::Warn
            &&& fresh == AnomalyLevel::Critical ==> level == AnomalyLevel::Critical
        }),
{
    float::bits_compare_as_numbers(score, exit);
}

/// A report says of which event it is, and nothing is reported that scores below every
/// threshold and was on no level before. As long as an engine learns, it reports nothing.
pub proof fn a_report_is_about_its_event<F: Fn(FloatOp) -> u64>(
    before: AnalysisEngine,
    input: AnalysisInput<'_>,
    breakdown: ScoreBreakdown,
    floats: FloatUnit<F>,
    after: AnalysisEngine,
    anomaly: Option<Anomaly>,
)
    requires
        decided_event(before, input, breakdown, floats, after, anomaly),
    ensures
        anomaly matches Some(found) ==> {
            &&& found.timestamp_us == input.timestamp_us
            &&& found.template_id == input.template_id
            &&& match input.unit {
                Some(unit) => found.unit matches Some(name) && name@ == unit@,
                None => found.unit is None,
            }
            &&& found.breakdown == breakdown
            &&& found.level != AnomalyLevel::Normal
            &&& after@.states.contains_key(input.template_id.0)
            &&& after@.states[input.template_id.0].current_level == found.level
            &&& after@.states[input.template_id.0].last_emitted_us == Some(input.timestamp_us)
            &&& after@.states[input.template_id.0].last_emitted_level == found.level
            &&& after@.states[input.template_id.0].suppressed_since_last == 0
            &&& before@.states.contains_key(input.template_id.0) ==> found.suppressed_since_last
                == before@.states[input.template_id.0].suppressed_since_last
            &&& !before@.states.contains_key(input.template_id.0) ==> found.suppressed_since_last
                == 0
        },
        before@.learning(input.timestamp_us) ==> anomaly is None,
        !before@.states.contains_key(input.template_id.0) && breakdown.scores.combined
            < before@.config.score_info_threshold && before@.config.score_info_threshold
            <= before@.config.score_warn_threshold && before@.config.score_warn_threshold
            <= before@.config.score_critical_threshold && before@.config.score_critical_threshold
            <= 0x7ff0_0000_0000_0000 ==> anomaly is None,
        !before@.states.contains_key(input.template_id.0) && !before@.learning(input.timestamp_us)
            && breakdown.scores.combined >= before@.config.score_info_threshold
            && breakdown.scores.combined <= 0x7ff0_0000_0000_0000 ==> anomaly is Some,
        before@.stats.emitted < u64::MAX ==> after@.stats.emitted - before@.stats.emitted == (
        if anomaly is Some {
            1int
        } else {
            0int
        }),
{
    let id = input.template_id.0;
    let score = breakdown.scores.combined;
    let level = choose|level: AnomalyLevel|
        {
            &&& #[trigger] decided_on_level(before, input, breakdown, level, after, anomaly)
            &&& can_follow(before@.state(id).current_level, score, before@.config, level)
            &&& forall|model: spec_fn(FloatOp) -> u64| #[trigger]
                floats.computes(model) ==> level == before@.level(id, score, model)
        };
    assert(decided_on_level(before, input, breakdown, level, after, anomaly));
    float::bits_compare_as_numbers(score, before@.config.score_critical_threshold);
    float::bits_compare_as_numbers(score, before@.config.score_warn_threshold);
    float::bits_compare_as_numbers(score, before@.config.score_info_threshold);
}

/// After a report of a template, its next event outside the learning is held back for
/// exactly as many seconds as are set: one that deviates and comes later is reported,
/// whatever the level of the last report was; one that comes earlier is reported only if
/// it is on a higher level. Two decisions on events of the template follow each other;
/// the first is a report.
pub proof fn cooldown_ends<F: Fn(FloatOp) -> u64>(
    before: AnalysisEngine,
    first: AnalysisInput<'_>,
    first_breakdown: ScoreBreakdown,
    floats: FloatUnit<F>,
    between: AnalysisEngine,
    reported: Anomaly,
    second: AnalysisInput<'_>,
    second_breakdown: ScoreBreakdown,
    after: AnalysisEngine,
    anomaly: Option<Anomaly>,
)
    requires
        decided_event(before, first, first_breakdown, floats, between, Some(reported)),
        decided_event(between, second, second_breakdown, floats, after, anomaly),
        first.template_id == second.template_id,
        first.timestamp_us <= second.timestamp_us,
        !before@.learning(second.timestamp_us),
        second_breakdown.scores.combined <= 0x7ff0_0000_0000_0000,
    ensures
        ({
            let pause = before@.config.cooldown_seconds * 1_000_000;
            let score = second_breakdown.scores.combined;
            &&& second.timestamp_us >= first.timestamp_us + pause && score
                >= before@.config.score_info_threshold ==> anomaly is Some
            &&& second.timestamp_us >= first.timestamp_us + pause
                && after@.states[second.template_id.0].current_level != AnomalyLevel::Normal
                ==> anomaly is Some
            &&& second.timestamp_us < first.timestamp_us + pause && pause <= u64::MAX ==> (
            anomaly matches Some(risen) ==> {
                ||| risen.level == AnomalyLevel::Critical && reported.level
                    != AnomalyLevel::Critical
                ||| risen.level == AnomalyLevel::Warn && reported.level == AnomalyLevel::Info
            })
            &&& reported.level != AnomalyLevel::Critical && score
                >= before@.config.score_critical_threshold ==> anomaly is Some
            &&& anomaly matches Some(next) ==> next.suppressed_since_last == 0
            &&& anomaly is None && after@.states[second.template_id.0].current_level
                != AnomalyLevel::Normal && between@.stats.suppressed < u64::MAX ==> {
                &&& after@.states[second.template_id.0].suppressed_since_last == 1
                &&& after@.stats.suppressed == between@.stats.suppressed + 1
            }
        }),
{
    let id = first.template_id.0;
    let score = second_breakdown.scores.combined;
    let one = choose|level: AnomalyLevel| #[trigger]
        decided_on_level(before, first, first_breakdown, level, between, Some(reported));
    let two = choose|level: AnomalyLevel|
        {
            &&& #[trigger] decided_on_level(between, second, second_breakdown, level, after, anomaly)
            &&& can_follow(between@.state(id).current_level, score, between@.config, level)
            &&& forall|model: spec_fn(FloatOp) -> u64| #[trigger]
                floats.computes(model) ==> level == between@.level(id, score, model)
        };
    assert(decided_on_level(before, first, first_breakdown, one, between, Some(reported)));
    assert(decided_on_level(between, second, second_breakdown, two, after, anomaly));
    float::bits_compare_as_numbers(score, before@.config.score_critical_threshold);
    float::bits_compare_as_numbers(score, before@.config.score_warn_threshold);
    float::bits_compare_as_numbers(score, before@.config.score_info_threshold);
}

/// The cooldown ends whatever was decided on before: an event whose template was reported
/// at some time in the past, and that comes at least as many seconds later as are set, is
/// reported exactly if it is on a level, outside the learning.
pub proof fn cooldown_is_no_longer_than_set(
    engine: EngineView,
    reported_us: u64,
    timestamp_us: u64,
    template_id: u64,
    score: u64,
    model: spec_fn(FloatOp) -> u64,
)
    requires
        engine.states.contains_key(template_id),
        engine.states[template_id].last_emitted_us == Some(reported_us),
        timestamp_us >= reported_us + engine.config.cooldown_seconds * 1_000_000,
    ensures
        engine.reports(timestamp_us, template_id, score, model) <==> !engine.learning(timestamp_us)
            && level_after(
            engine.states[template_id].current_level,
            score,
            engine.config,
            model,
        ) != AnomalyLevel::Normal,
{
}

/// What an event is scored by counts the event itself: it is in the window, in its bucket
/// and among the counts of the templates, which add up to the window.
pub proof fn evidence_counts_the_event<F: Fn(FloatOp) -> u64>(
    before: AnalysisEngine,
    input: AnalysisInput<'_>,
    slot: Slot,
    floats: FloatUnit<F>,
    after: AnalysisEngine,
    evidence: Evidence,
)
    requires
        observed_event(before, input, slot, floats, after, evidence),
        before@.stats.processed < u64::MAX,
    ensures
        after@.stats.processed == before@.stats.processed + 1,
        after@.stats.emitted == before@.stats.emitted,
        after@.states == before@.states,
        before@.first_event_us matches Some(first) ==> after@.first_event_us == Some(first),
        before@.first_event_us is None ==> after@.first_event_us == Some(input.timestamp_us),
        evidence.settings == before@.config,
        evidence.window_len == after@.window.entries.len(),
        evidence.entropy_history@ == after@.entropy_history,
{
}

/// The history of entropies holds no more of them than buckets are kept, and a new one
/// stands last.
pub proof fn entropies_are_kept_in_order(engine: EngineView, entropy: u64)
    requires
        engine.config.rate_history_buckets >= 1,
        engine.entropy_history.len() <= engine.config.rate_history_buckets,
    ensures
        ({
            let history = engine.archived(entropy);
            let kept = history.len() - 1;
            &&& history.len() <= engine.config.rate_history_buckets
            &&& history.last() == entropy
            &&& 0 <= kept <= engine.entropy_history.len()
            &&& engine.entropy_history.len() < engine.config.rate_history_buckets ==> kept
                == engine.entropy_history.len()
            &&& forall|i: int|
                0 <= i < kept ==> #[trigger] history[i] == engine.entropy_history[i
                    + engine.entropy_history.len() - kept]
        }),
{
}

/// An engine that has just been made goes by its settings: a window of so many seconds
/// and events, buckets of so many seconds, and as many buckets and templates as are set.
pub proof fn a_fresh_engine_goes_by_its_settings(engine: EngineView)
    requires
        is_unused(engine),
        engine.config.window_seconds * 1_000_000 <= u64::MAX,
        1 <= engine.config.bucket_seconds,
        engine.config.bucket_seconds * 1_000_000 <= u64::MAX,
        engine.config.max_window_events >= 1,
        engine.config.rate_history_buckets >= 1,
        engine.config.max_templates >= 1,
        engine.config.idle_eviction_buckets >= 1,
    ensures
        engine.window.window_us == engine.config.window_seconds * 1_000_000,
        engine.window.max_entries == engine.config.max_window_events,
        engine.window.entries.len() == 0,
        engine.rates.bucket_us == engine.config.bucket_seconds * 1_000_000,
        engine.rates.history_len == engine.config.rate_history_buckets,
        engine.rates.max_templates == engine.config.max_templates,
        engine.rates.idle_eviction_buckets == engine.config.idle_eviction_buckets,
        engine.rates.templates.dom() =~= Set::<u64>::empty(),
        engine.baselines.bucket_us == engine.config.bucket_seconds * 1_000_000,
        engine.baselines.decay.half_life_hours == engine.baseline_config.half_life_hours,
        engine.baselines.decay.bucket_seconds == engine.config.bucket_seconds,
        engine.baselines.settings == engine.baseline_config,
        engine.bucket_us == engine.config.bucket_seconds * 1_000_000,
        engine.stats.processed == 0 && engine.stats.emitted == 0,
        engine.stats.suppressed == 0 && engine.stats.suppressed_learning == 0,
        engine.first_event_us is None,
{
}

/// The levels rise from normal over info and warn to critical.
pub proof fn levels_rise()
    ensures
        severity(AnomalyLevel::Normal) < severity(AnomalyLevel::Info),
        severity(AnomalyLevel::Info) < severity(AnomalyLevel::Warn),
        severity(AnomalyLevel::Warn) < severity(AnomalyLevel::Critical),
{
}

/// A rate that has a baseline is held against that, with the events of the open bucket;
/// one without is held against its own history.
pub proof fn a_baseline_comes_before_the_history(
    short_term: RateEvidence,
    bucket_count: u32,
    baseline: Option<(BaselineRate, RateSource)>,
)
    ensures
        ({
            let reading = rate_reading(short_term, bucket_count, baseline);
            &&& baseline matches Some((rate, source)) ==> {
                &&& reading.count == bucket_count
                &&& reading.source == source
                &&& reading.usual matches Some(usual) && usual.median_halves == rate.median_halves
                    && usual.deviation_quarters == rate.deviation_quarters
            }
            &&& baseline is None ==> {
                &&& reading.count == short_term.current
                &&& reading.usual == short_term.history
                &&& reading.source == RateSource::ShortTerm
            }
        }),
{
}

/// Taking an event observes it once, scores just what was observed, and reports it or
/// not: it is counted, it is the last one in the window unless it came too late, and a
/// report is about it and carries its score.
pub proof fn an_event_is_observed_scored_and_decided_on<
    F: Fn(FloatOp) -> u64,
    G: Fn(Evidence) -> Scores,
>(
    before: AnalysisEngine,
    input: AnalysisInput<'_>,
    slot: Slot,
    floats: FloatUnit<F>,
    score: G,
    after: AnalysisEngine,
    anomaly: Option<Anomaly>,
)
    requires
        processed(before, input, slot, floats, score, after, anomaly),
        before@.stats.processed < u64::MAX,
        before@.stats.emitted < u64::MAX,
        before@.window.valid(),
    ensures
        after@.stats.processed == before@.stats.processed + 1,
        after@.stats.emitted - before@.stats.emitted == (if anomaly is Some {
            1int
        } else {
            0int
        }),
        after@.config == before@.config,
        after@.learning_skipped == before@.learning_skipped,
        input.timestamp_us + before@.window.window_us >= before@.window.newest_us ==> {
            &&& after@.window.entries.len() > 0
            &&& after@.window.entries.last() == (input.timestamp_us, input.template_id.0)
        },
        anomaly matches Some(found) ==> {
            &&& found.timestamp_us == input.timestamp_us
            &&& found.template_id == input.template_id
            &&& exists|evidence: Evidence| #[trigger]
                call_ensures(score, (evidence,), found.breakdown.scores)
        },
{
    let (observed, evidence, scores) = choose|
        observed: AnalysisEngine,
        evidence: Evidence,
        scores: Scores,
    |
        {
            &&& #[trigger] observed_event(before, input, slot, floats, observed, evidence)
            &&& #[trigger] call_ensures(score, (evidence,), scores)
            &&& decided_event(
                observed,
                input,
                ScoreBreakdown { scores, rate_source: evidence.rate.source },
                floats,
                after,
                anomaly,
            )
        };
    let breakdown = ScoreBreakdown { scores, rate_source: evidence.rate.source };
    evidence_counts_the_event(before, input, slot, floats, observed, evidence);
    a_report_is_about_its_event(observed, input, breakdown, floats, after, anomaly);
    window::push_keeps_the_bounds(before@.window, input.timestamp_us, input.template_id.0);
    let level = choose|level: AnomalyLevel| #[trigger]
        decided_on_level(observed, input, breakdown, level, after, anomaly);
    assert(decided_on_level(observed, input, breakdown, level, after, anomaly));
}

/// What is asked of an engine is what it does: to process an event is to take it in a slot
/// in which its time can be, to observe it is to observe it in that slot, and to decide on
/// it is to decide on what was observed.
pub proof fn an_engine_does_what_is_asked<F: Fn(FloatOp) -> u64, G: Fn(Evidence) -> Scores>(
    engine: &mut AnalysisEngine,
    input: AnalysisInput<'_>,
    floats: &FloatUnit<F>,
    score: &G,
    anomaly: Option<Anomaly>,
    observer: &mut AnalysisEngine,
    slot: Slot,
    evidence: Evidence,
    decider: &mut AnalysisEngine,
    breakdown: ScoreBreakdown,
    decision: Option<Anomaly>,
)
    requires
        call_ensures(AnalysisEngine::process::<F, G>, (engine, input, floats, score), anomaly),
        call_ensures(AnalysisEngine::observe::<F>, (observer, &input, slot, floats), evidence),
        call_ensures(AnalysisEngine::decide::<F>, (decider, &input, breakdown, floats), decision),
    ensures
        exists|own: Slot|
            slot::can_be_slot_of(input.timestamp_us, own.0) && #[trigger] processed(
                *old(engine),
                input,
                own,
                *floats,
                *score,
                *final(engine),
                anomaly,
            ),
        observed_event(*old(observer), input, slot, *floats, *final(observer), evidence),
        decided_event(*old(decider), input, breakdown, *floats, *final(decider), decision),
{
}

/// Once the learning is skipped, an engine is not learning and has none of it left; and
/// it reports its figures as they are.
pub proof fn skipping_ends_the_learning(
    engine: &mut AnalysisEngine,
    later: &AnalysisEngine,
    timestamp_us: u64,
    learning: bool,
    left: Option<u64>,
    stats: AnalysisStats,
    len: usize,
    seconds: u64,
    history: &Vec<u64>,
)
    requires
        call_ensures(AnalysisEngine::skip_learning_phase, (engine,), ()),
        later@ == final(engine)@,
        call_ensures(AnalysisEngine::in_learning_phase, (later, timestamp_us), learning),
        call_ensures(AnalysisEngine::learning_remaining_secs, (later, timestamp_us), left),
        call_ensures(AnalysisEngine::stats, (later,), stats),
        call_ensures(AnalysisEngine::window_len, (later,), len),
        call_ensures(AnalysisEngine::window_seconds, (later,), seconds),
        call_ensures(AnalysisEngine::entropy_history, (later,), history),
    ensures
        !learning,
        left is None,
        stats == old(engine)@.stats,
        later@.states == old(engine)@.states,
        later@.config == old(engine)@.config,
        len == old(engine)@.window.entries.len(),
        seconds == old(engine)@.config.window_seconds,
        history@ == old(engine)@.entropy_history,
{
}

/// Whether an engine is learning, and how much of it is left, is what its settings and its
/// first event say.
pub proof fn an_engine_tells_how_long_it_learns(
    engine: &AnalysisEngine,
    start: u64,
    timestamp_us: u64,
    learning: bool,
    left: Option<u64>,
)
    requires
        engine@.first_event_us == Some(start),
        !engine@.learning_skipped,
        start <= timestamp_us,
        engine@.config.learning_phase_minutes * 60_000_000 <= u64::MAX,
        call_ensures(AnalysisEngine::in_learning_phase, (engine, timestamp_us), learning),
        call_ensures(AnalysisEngine::learning_remaining_secs, (engine, timestamp_us), left),
    ensures
        learning <==> timestamp_us < start + engine@.config.learning_phase_minutes * 60_000_000,
        learning <==> left is Some,
        left matches Some(seconds) ==> seconds * 1_000_000 <= start
            + engine@.config.learning_phase_minutes * 60_000_000 - timestamp_us,
{
    learning_ends_when_it_is_set_to(engine@, start, timestamp_us);
}

/// An engine that is made goes by the settings that it is given.
pub proof fn engines_are_made_as_set(
    config: AnalysisConfig,
    baseline_config: BaselineConfig,
    engine: AnalysisEngine,
    usual: AnalysisEngine,
)
    requires
        call_ensures(AnalysisEngine::with_baseline_config, (config, baseline_config), engine),
        call_ensures(AnalysisEngine::new, (config,), usual),
    ensures
        engine@.config == config,
        engine@.baseline_config == baseline_config,
        is_fresh(engine@),
        usual@.config == config,
        is_fresh(usual@),
        usual@.baseline_config.max_bins == 32,
        engine@.baselines.histograms.dom() =~= Set::<(u64, u64, u8)>::empty(),
        engine@.baselines.profiles.dom() =~= Set::<u64>::empty(),
        !engine@.learning_skipped,
{
}

/// Baselines that are stored by one engine and restored by another are the same, and
/// nothing else of the other changes.
pub proof fn engines_hand_their_baselines_on(
    one: &AnalysisEngine,
    snapshot: BaselineSnapshot,
    two: &mut AnalysisEngine,
)
    requires
        call_ensures(AnalysisEngine::baseline_snapshot, (one,), snapshot),
        call_ensures(AnalysisEngine::restore_baselines, (two, snapshot), ()),
    ensures
        final(two)@.baselines.histograms == one@.baselines.histograms,
        final(two)@.baselines.profiles == one@.baselines.profiles,
        final(two)@.baselines.units.dom() =~= Set::<u64>::empty(),
        final(two)@.baselines.settings == old(two)@.baseline_config,
        final(two)@.window == old(two)@.window,
        final(two)@.rates == old(two)@.rates,
        final(two)@.states == old(two)@.states,
        final(two)@.stats == old(two)@.stats,
        final(two)@.config == old(two)@.config,
        final(two)@.learning_skipped == old(two)@.learning_skipped,
        snapshot.histograms@.len() == one@.baselines.histograms.len(),
        snapshot.profiles@.len() == one@.baselines.profiles.len(),
{
}

/// Cutting the baselines down keeps an engine as it is but for them, and drops none that
/// outranks one that is kept.
pub proof fn limits_cut_the_baselines_down<F: Fn(FloatOp) -> u64>(
    engine: &mut AnalysisEngine,
    floats: &FloatUnit<F>,
    model: spec_fn(FloatOp) -> u64,
    trusted: bool,
    later: &AnalysisEngine,
)
    requires
        call_ensures(AnalysisEngine::enforce_baseline_limits::<F>, (engine, floats), ()),
        floats.computes(model),
        later@ == final(engine)@,
        call_ensures(AnalysisEngine::has_trusted_baselines::<F>, (later, floats), trusted),
    ensures
        final(engine)@.baselines.histograms.len() <= old(engine)@.baselines.settings.max_baselines,
        final(engine)@.baselines.profiles.len() <= old(engine)@.baselines.settings.max_baselines,
        final(engine)@.baselines.units.len() <= old(engine)@.baselines.settings.max_baselines,
        forall|gone: (u64, u64, u8), kept: (u64, u64, u8)|
            #![trigger old(engine)@.baselines.histograms.contains_key(gone), final(engine)@.baselines.histograms.contains_key(kept)]
            old(engine)@.baselines.histograms.contains_key(gone)
                && !final(engine)@.baselines.histograms.contains_key(gone)
                && final(engine)@.baselines.histograms.contains_key(kept)
                && old(engine)@.baselines.histograms[gone].total(model) < 0x8000_0000_0000_0000
                && old(engine)@.baselines.histograms[kept].total(model) < 0x8000_0000_0000_0000
                ==> old(engine)@.baselines.histograms[gone].total(model)
                <= old(engine)@.baselines.histograms[kept].total(model),
        final(engine)@.window == old(engine)@.window,
        final(engine)@.states == old(engine)@.states,
        trusted == later@.baselines.has_trusted(model),
{
    let before = old(engine)@.baselines;
    let after = final(engine)@.baselines;
    assert(store::keeps_the_heaviest(before, *floats, after));
    assert(store::tells_trust(later@.baselines, *floats, trusted));
    assert forall|gone: (u64, u64, u8), kept: (u64, u64, u8)|
        #![trigger before.histograms.contains_key(gone), after.histograms.contains_key(kept)]
        before.histograms.contains_key(gone) && !after.histograms.contains_key(gone)
            && after.histograms.contains_key(kept) && before.histograms[gone].total(model)
            < 0x8000_0000_0000_0000 && before.histograms[kept].total(model)
            < 0x8000_0000_0000_0000 implies before.histograms[gone].total(model)
        <= before.histograms[kept].total(model) by {
        store::the_least_goes_first(before, after, model, gone, kept, 0, 0);
    }
}

/// The entropy of a window is computed from how often each of its templates occurs, and
/// its distance from what is usual from that and from the entropies before.
pub proof fn the_entropy_is_that_of_the_window<F: Fn(FloatOp) -> u64>(
    engine: &AnalysisEngine,
    floats: &FloatUnit<F>,
    model: spec_fn(FloatOp) -> u64,
    entropy: u64,
    z: u64,
)
    requires
        floats.computes(model),
        call_ensures(AnalysisEngine::current_entropy::<F>, (engine, floats), entropy),
        call_ensures(AnalysisEngine::current_entropy_z::<F>, (engine, floats), z),
    ensures
        exists|counts: Vec<u64>, ids: Seq<u64>| #[trigger]
            window::lists_counts(engine@.window, ids, counts@) && entropy == model(
                FloatOp::Entropy { counts },
            ),
        exists|counts: Vec<u64>, ids: Seq<u64>, history: Vec<u64>|
            #[trigger] window::lists_counts(engine@.window, ids, counts@) && #[trigger] history@
                == engine@.entropy_history && z == model(
                FloatOp::EntropyZ { entropy: model(FloatOp::Entropy { counts }), history },
            ),
{
    assert(pipeline::is_window_entropy(*engine, entropy, *floats));
    assert(pipeline::is_window_entropy_z(*engine, z, *floats));
    let one = choose|counts: Vec<u64>|
        {
            &&& #[trigger] counts_window(engine@.window, counts)
            &&& forall|model: spec_fn(FloatOp) -> u64| #[trigger]
                floats.computes(model) ==> entropy == model(FloatOp::Entropy { counts })
        };
    let ids = choose|ids: Seq<u64>| #[trigger] window::lists_counts(engine@.window, ids, one@);
    assert(window::lists_counts(engine@.window, ids, one@) && entropy == model(
        FloatOp::Entropy { counts: one },
    ));
    let (two, past) = choose|counts: Vec<u64>, history: Vec<u64>|
        {
            &&& #[trigger] counts_window(engine@.window, counts)
            &&& #[trigger] history@ == engine@.entropy_history
            &&& forall|model: spec_fn(FloatOp) -> u64| #[trigger]
                floats.computes(model) ==> z == model(
                    FloatOp::EntropyZ { entropy: model(FloatOp::Entropy { counts }), history },
                )
        };
    let others = choose|ids: Seq<u64>| #[trigger] window::lists_counts(engine@.window, ids, two@);
    assert(window::lists_counts(engine@.window, others, two@) && past@ == engine@.entropy_history);
}

/// The rank of a level rises with its severity, and no two levels share a name.
pub proof fn levels_are_told_apart(one: AnomalyLevel, two: AnomalyLevel, rank: u8, name: &'static str)
    requires
        call_ensures(AnomalyLevel::rank, (&one,), rank),
        call_ensures(AnomalyLevel::as_str, (&one,), name),
    ensures
        one == AnomalyLevel::Normal ==> rank == 0 && name@ == "normal"@,
        one == AnomalyLevel::Info ==> rank == 1 && name@ == "info"@,
        one == AnomalyLevel::Warn ==> rank == 2 && name@ == "warn"@,
        one == AnomalyLevel::Critical ==> rank == 3 && name@ == "critical"@,
{
}

/// The level of an event follows from the level of the event of its template before it, and
/// is remembered for the next one; the first event of a template follows none.
pub proof fn levels_follow_each_other<F: Fn(FloatOp) -> u64>(
    before: AnalysisEngine,
    input: AnalysisInput<'_>,
    breakdown: ScoreBreakdown,
    floats: FloatUnit<F>,
    after: AnalysisEngine,
    anomaly: Option<Anomaly>,
    model: spec_fn(FloatOp) -> u64,
    other: u64,
)
    requires
        decided_event(before, input, breakdown, floats, after, anomaly),
        floats.computes(model),
        other != input.template_id.0,
    ensures
        ({
            let id = input.template_id.0;
            let score = breakdown.scores.combined;
            &&& after@.states.contains_key(id)
            &&& before@.states.contains_key(id) ==> after@.states[id].current_level == level_after(
                before@.states[id].current_level,
                score,
                before@.config,
                model,
            )
            &&& !before@.states.contains_key(id) ==> after@.states[id].current_level == level_after(
                AnomalyLevel::Normal,
                score,
                before@.config,
                model,
            )
            &&& after@.states.contains_key(other) == before@.states.contains_key(other)
            &&& before@.states.contains_key(other) ==> after@.states[other] == before@.states[other]
            &&& after@.window == before@.window
            &&& after@.baselines == before@.baselines
            &&& after@.rates == before@.rates
            &&& after@.first_event_us == before@.first_event_us
            &&& after@.config == before@.config
        }),
{
    let id = input.template_id.0;
    let score = breakdown.scores.combined;
    let level = choose|level: AnomalyLevel|
        {
            &&& #[trigger] decided_on_level(before, input, breakdown, level, after, anomaly)
            &&& can_follow(before@.state(id).current_level, score, before@.config, level)
            &&& forall|model: spec_fn(FloatOp) -> u64| #[trigger]
                floats.computes(model) ==> level == before@.level(id, score, model)
        };
    assert(decided_on_level(before, input, breakdown, level, after, anomaly));
}

/// What is not reported leaves the last report as it was. One that deviates is counted as
/// held back: for the template and in all where its cooldown does it, and apart from
/// those while learning. One that is normal is not counted.
pub proof fn what_is_held_back_is_counted<F: Fn(FloatOp) -> u64>(
    before: AnalysisEngine,
    input: AnalysisInput<'_>,
    breakdown: ScoreBreakdown,
    floats: FloatUnit<F>,
    after: AnalysisEngine,
)
    requires
        decided_event(before, input, breakdown, floats, after, None),
        before@.states.contains_key(input.template_id.0),
        before@.states[input.template_id.0].suppressed_since_last < u64::MAX,
        before@.stats.suppressed < u64::MAX,
        before@.stats.suppressed_learning < u64::MAX,
    ensures
        ({
            let id = input.template_id.0;
            let was = before@.states[id];
            let is = after@.states[id];
            let learning = before@.learning(input.timestamp_us);
            &&& after@.states.contains_key(id)
            &&& is.last_emitted_us == was.last_emitted_us
            &&& is.last_emitted_level == was.last_emitted_level
            &&& after@.stats.emitted == before@.stats.emitted
            &&& after@.stats.processed == before@.stats.processed
            &&& is.current_level == AnomalyLevel::Normal ==> after@.stats == before@.stats
                && is.suppressed_since_last == was.suppressed_since_last
            &&& is.current_level != AnomalyLevel::Normal && learning ==> {
                &&& after@.stats.suppressed_learning == before@.stats.suppressed_learning + 1
                &&& after@.stats.suppressed == before@.stats.suppressed
                &&& is.suppressed_since_last == was.suppressed_since_last
            }
            &&& is.current_level != AnomalyLevel::Normal && !learning ==> {
                &&& after@.stats.suppressed == before@.stats.suppressed + 1
                &&& after@.stats.suppressed_learning == before@.stats.suppressed_learning
                &&& is.suppressed_since_last == was.suppressed_since_last + 1
            }
        }),
{
    let id = input.template_id.0;
    let nothing: Option<Anomaly> = None;
    let level = choose|level: AnomalyLevel| #[trigger]
        decided_on_level(before, input, breakdown, level, after, nothing);
    assert(decided_on_level(before, input, breakdown, level, after, nothing));
}

/// An event is scored by what is known of its own template and its own unit, the event
/// itself included: its rate against the baseline that answers for it, and else against
/// its history; its surprisal against the profile of its unit, and else against the
/// window.
pub proof fn events_are_scored_by_their_own_kind<F: Fn(FloatOp) -> u64>(
    before: AnalysisEngine,
    input: AnalysisInput<'_>,
    slot: Slot,
    floats: FloatUnit<F>,
    after: AnalysisEngine,
    evidence: Evidence,
    model: spec_fn(FloatOp) -> u64,
)
    requires
        observed_event(before, input, slot, floats, after, evidence),
        floats.computes(model),
    ensures
        ({
            let id = input.template_id.0;
            let key = match input.unit {
                Some(name) => store::unit_key(Some(name@)),
                None => store::unit_key(None),
            };
            &&& after@.baselines.units.contains_key(key)
            &&& after@.baselines.profiles.contains_key(key)
            &&& evidence.window_count == after@.window.count(id)
            &&& evidence.window_len == after@.window.entries.len()
            &&& exists|ids: Seq<u64>| #[trigger]
                window::lists_counts(after@.window, ids, evidence.window_counts@)
            &&& match after@.baselines.rate_in(slot.0, key, id, model) {
                Some((median, deviation, source)) => {
                    &&& evidence.rate.source == source
                    &&& after@.baselines.units[key].counts.contains_key(id) ==> evidence.rate.count
                        == after@.baselines.units[key].counts[id]
                    &&& evidence.rate.usual matches Some(usual) && usual.median_halves == median
                        && usual.deviation_quarters == deviation
                },
                None => {
                    &&& evidence.rate.source == RateSource::ShortTerm
                    &&& after@.rates.templates.contains_key(id)
                    &&& evidence.rate.count == after@.rates.templates[id].current_count
                    &&& evidence.rate.usual is None <==> after@.rates.templates[id].history.len()
                        == 0
                },
            }
            &&& match after@.baselines.share_of(key, id, model) {
                Some(share) => evidence.surprisal == SurprisalBasis::Profile(share),
                None => evidence.surprisal matches SurprisalBasis::Window { count, total, distinct }
                    && (after@.window.count(id) <= u64::MAX ==> count == after@.window.count(id))
                    && (after@.window.entries.len() <= u64::MAX ==> total
                    == after@.window.entries.len()),
            }
        }),
{
}

/// When an event begins a new bucket, the entropy of the window as it was until then is
/// added to the history, unless the window was empty; within a bucket the history stays.
pub proof fn entropies_are_taken_at_the_ends_of_buckets<F: Fn(FloatOp) -> u64>(
    before: AnalysisEngine,
    input: AnalysisInput<'_>,
    slot: Slot,
    floats: FloatUnit<F>,
    after: AnalysisEngine,
    evidence: Evidence,
    model: spec_fn(FloatOp) -> u64,
)
    requires
        observed_event(before, input, slot, floats, after, evidence),
        floats.computes(model),
        before@.first_event_us is Some,
        before@.bucket_us >= 1,
        before@.config.rate_history_buckets >= 1,
        before@.entropy_history.len() <= before@.config.rate_history_buckets,
    ensures
        ({
            let bucket = input.timestamp_us / before@.bucket_us;
            &&& bucket <= before@.entropy_bucket ==> after@.entropy_history
                == before@.entropy_history && after@.entropy_bucket == before@.entropy_bucket
            &&& bucket > before@.entropy_bucket ==> after@.entropy_bucket == bucket
            &&& bucket > before@.entropy_bucket && before@.window.entries.len() == 0
                ==> after@.entropy_history == before@.entropy_history
            &&& bucket > before@.entropy_bucket && before@.window.entries.len() > 0 ==> {
                &&& after@.entropy_history.len() > 0
                &&& after@.entropy_history.len() <= before@.config.rate_history_buckets
                &&& exists|counts: Vec<u64>| #[trigger]
                    counts_window(before@.window, counts) && after@.entropy_history.last() == model(
                        FloatOp::Entropy { counts },
                    )
            }
        }),
{
    let counts = choose|counts: Vec<u64>|
        {
            &&& #[trigger] counts_window(before@.window, counts)
            &&& forall|model: spec_fn(FloatOp) -> u64| #[trigger]
                floats.computes(model) ==> before@.archives_entropy(
                    input.timestamp_us,
                    counts,
                    after@,
                    model,
                )
        };
    assert(before@.archives_entropy(input.timestamp_us, counts, after@, model));
    entropies_are_kept_in_order(before@, model(FloatOp::Entropy { counts }));
}

/// An event that comes with a time before the first one is taken as one of the first
/// moment: it is learned from, if anything is.
pub proof fn early_times_count_as_the_start(engine: EngineView, start: u64, timestamp_us: u64)
    requires
        engine.first_event_us == Some(start),
        timestamp_us < start,
        engine.config.learning_phase_minutes * 60_000_000 <= u64::MAX,
    ensures
        engine.learning(timestamp_us) <==> !engine.learning_skipped
            && engine.config.learning_phase_minutes > 0,
        engine.learning_left(timestamp_us) matches Some(left) ==> left
            == engine.config.learning_phase_minutes * 60,
{
    let minutes = engine.config.learning_phase_minutes;
    assert(minutes * 60 * 1_000_000 == minutes * 60_000_000) by (nonlinear_arith);
    assert(minutes * 60 <= u64::MAX);
}

/// A cooldown holds whatever the times of the events are: within it, or for an event that
/// comes with an earlier time, nothing is reported that is not on a higher level than the
/// last report.
pub proof fn only_a_higher_level_breaks_the_cooldown(
    engine: EngineView,
    reported_us: u64,
    timestamp_us: u64,
    template_id: u64,
    level: AnomalyLevel,
)
    requires
        engine.states.contains_key(template_id),
        engine.states[template_id].last_emitted_us == Some(reported_us),
        0 < engine.config.cooldown_seconds * 1_000_000 <= u64::MAX,
        timestamp_us < reported_us + engine.config.cooldown_seconds * 1_000_000,
        engine.reports_at(timestamp_us, template_id, level),
    ensures
        level != AnomalyLevel::Normal,
        ({
            let last = engine.states[template_id].last_emitted_level;
            ||| level == AnomalyLevel::Critical && last != AnomalyLevel::Critical
            ||| level == AnomalyLevel::Warn && (last == AnomalyLevel::Info || last
                == AnomalyLevel::Normal)
            ||| level == AnomalyLevel::Info && last == AnomalyLevel::Normal
        }),
{
}

/// An event that is taken in a slot is taken in that one; how many templates occur is told
/// as it is; a product that fits is the product.
pub proof fn small_questions_are_answered<F: Fn(FloatOp) -> u64, G: Fn(Evidence) -> Scores>(
    engine: &mut AnalysisEngine,
    input: AnalysisInput<'_>,
    slot: Slot,
    floats: &FloatUnit<F>,
    score: &G,
    anomaly: Option<Anomaly>,
    later: &AnalysisEngine,
    distinct: usize,
    previous: AnomalyLevel,
    bits: u64,
    level: AnomalyLevel,
    a: u64,
    b: u64,
    product: u64,
)
    requires
        call_ensures(
            AnalysisEngine::process_in_slot::<F, G>,
            (engine, input, slot, floats, score),
            anomaly,
        ),
        call_ensures(AnalysisEngine::distinct_templates, (later,), distinct),
        call_ensures(
            AnalysisEngine::level_with_hysteresis::<F>,
            (later, previous, bits, floats),
            level,
        ),
        call_ensures(saturating_product, (a, b), product),
    ensures
        processed(*old(engine), input, slot, *floats, *score, *final(engine), anomaly),
        distinct == later@.window.distinct().len(),
        can_follow(previous, bits, later@.config, level),
        a * b <= 0xffff_ffff_ffff_ffff ==> product == a * b,
        a * b > 0xffff_ffff_ffff_ffff ==> product == 0xffff_ffff_ffff_ffff,
{
}

} // verus!
