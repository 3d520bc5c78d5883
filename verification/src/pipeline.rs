//! The way of an event through the daemon: to its template, into the ring of lines,
//! past what is to be kept quiet, and through the analysis.

use vstd::prelude::*;

use crate::config::Config;
use crate::engine;
use crate::engine::{AnalysisEngine, AnalysisInput, AnalysisStats, Anomaly, Evidence, Scores};
use crate::float::{FloatOp, FloatUnit};
use crate::journal::JournalEvent;
use crate::mask;
use crate::mask::MaskPatterns;
use crate::persist::PersistedState;
use crate::proto;
use crate::proto::{AnomalyEvent, LearningState, PipelineStats, Snapshot, WindowStats};
use crate::quiet;
use crate::quiet::{QuietFilter, RuleView};
use crate::slot;
use crate::slot::Slot;
use crate::state;
use crate::state::{ContextView, SharedState, StateView};
use crate::store;
use crate::tables;
use crate::template;
use crate::template::{RegistryView, TemplateEngine, TemplateMatch};
use crate::text;
use crate::wire;
use crate::wire::{AnomalyEventContext, ContextEntry};

verus! {

/// The pipeline.
pub struct Pipeline {
    templates: TemplateEngine,
    engine: AnalysisEngine,
    quiet: QuietFilter,
    persist_interval_secs: u64,
    snapshot_interval_ms: u64,
    replay: bool,
    events: u64,
    anomalies: u64,
    self_filtered: u64,
    muted: u64,
    events_at_last_snapshot: u64,
}

/// What a pipeline holds.
pub ghost struct PipelineView {
    /// The templates.
    pub registry: RegistryView,
    /// The analysis.
    pub engine: AnalysisEngine,
    /// The rules for what is kept out of the analysis.
    pub quiet: Seq<RuleView>,
    /// The time between two savings of the baselines, in seconds.
    pub persist_interval_secs: u64,
    /// The time between two snapshots, in milliseconds.
    pub snapshot_interval_ms: u64,
    /// Whether the events come from the past.
    pub replay: bool,
    /// How many events there were.
    pub events: u64,
    /// How many anomalies there were.
    pub anomalies: u64,
    /// How many events followed from an action of the daemon.
    pub self_filtered: u64,
    /// How many events were muted.
    pub muted: u64,
    /// How many events there had been when the last snapshot was taken.
    pub events_at_last_snapshot: u64,
}

/// What a run of the pipeline amounts to.
#[derive(Debug, Clone, Copy, PartialEq, Eq, Structural)]
pub struct PipelineSummary {
    /// How many events there were.
    pub events: u64,
    /// How many anomalies there were.
    pub anomalies: u64,
    /// How many templates are known.
    pub templates: usize,
    /// How many events were dropped because they came too fast.
    pub dropped_overflow: u64,
    /// How many lines could not be read.
    pub parse_errors: u64,
    /// How many reports were held back because the template had just been reported.
    pub suppressed: u64,
    /// How many reports were held back while learning.
    pub suppressed_learning: u64,
    /// How many events followed from an action of the daemon.
    pub self_filtered: u64,
    /// How many events were muted.
    pub muted: u64,
}

impl PipelineView {
    /// Whether all counters have room for an event whose template is known, and the
    /// analysis has too, unless it does not get to see the event.
    pub open spec fn can_analyse(self, event: JournalEvent, shared: StateView) -> bool {
        &&& self.events < u64::MAX
        &&& self.anomalies < u64::MAX
        &&& self.self_filtered < u64::MAX
        &&& self.muted < u64::MAX
        &&& shared.last_anomaly_id < u64::MAX
        &&& !shared.self_filtered(
            text::text_of(event.systemd_unit),
            event.pid,
            event.realtime_timestamp_us,
        ) ==> forall|id: u64|
            (#[trigger] self.engine@.can_process(
                event.realtime_timestamp_us,
                id,
                store::unit_key(text::text_of(event.systemd_unit)),
            )) || shared.muted(
                id,
                text::text_of(event.systemd_unit),
                event.realtime_timestamp_us,
            )
    }

    /// Whether all counters have room for an event.
    pub open spec fn can_handle(self, event: JournalEvent, shared: StateView) -> bool {
        self.can_analyse(event, shared) && self.registry.can_count()
    }
}

/// The shared state after the line of an event was kept.
pub open spec fn with_line(shared: StateView, event: JournalEvent) -> StateView {
    StateView {
        context: ContextView {
            lines: state::pushed(
                shared.context.lines,
                ContextEntry {
                    timestamp_us: event.realtime_timestamp_us,
                    unit: event.systemd_unit,
                    pid: event.pid,
                    priority: event.priority,
                    message: event.message,
                },
                shared.context.capacity,
            ),
            ..shared.context
        },
        ..shared
    }
}

/// Whether the analysis has taken an event of a template, and has made `anomaly` of it.
pub open spec fn analysed<F: Fn(FloatOp) -> u64, G: Fn(Evidence) -> Scores>(
    before: AnalysisEngine,
    event: JournalEvent,
    template_id: u64,
    floats: FloatUnit<F>,
    score: G,
    after: AnalysisEngine,
    anomaly: Option<Anomaly>,
) -> bool {
    exists|input: AnalysisInput<'_>, slot: Slot|
        {
            &&& input.timestamp_us == event.realtime_timestamp_us
            &&& input.template_id.0 == template_id
            &&& text::str_of(input.unit) == text::text_of(event.systemd_unit)
            &&& slot::can_be_slot_of(event.realtime_timestamp_us, slot.0)
            &&& #[trigger] engine::processed(before, input, slot, floats, score, after, anomaly)
        }
}

/// Whether an anomaly was published, or there was none: it gets the next number, and is
/// kept for clients to come.
pub open spec fn published(
    anomaly: Option<Anomaly>,
    event: JournalEvent,
    template_text: Seq<char>,
    shared: StateView,
    after: StateView,
    sent: Option<AnomalyEvent>,
) -> bool {
    match anomaly {
        None => after == shared && sent is None,
        Some(anomaly) => {
            let id = (shared.last_anomaly_id + 1) as u64;
            let numbered = StateView { last_anomaly_id: id, ..shared };
            match sent {
                None => anomaly.level == engine::AnomalyLevel::Normal && after == numbered,
                Some(sent) => {
                    &&& wire::is_anomaly_event(
                        sent,
                        id,
                        anomaly,
                        template_text,
                        event.message@,
                        event.pid,
                        event.priority,
                    )
                    &&& after == (StateView {
                        recent: state::pushed(shared.recent, sent, shared.recent_capacity),
                        ..numbered
                    })
                },
            }
        },
    }
}

/// Whether this is what becomes of an event whose template is known, given whether a rule
/// keeps it out of the analysis. Its line is kept in any case. What follows from an action
/// of the daemon is left out, and so is what is muted, and what a rule keeps out; the rest
/// is analysed.
pub open spec fn handled<F: Fn(FloatOp) -> u64, G: Fn(Evidence) -> Scores>(
    before: PipelineView,
    event: JournalEvent,
    template_id: u64,
    template_text: Seq<char>,
    quiet: bool,
    shared: StateView,
    floats: FloatUnit<F>,
    score: G,
    after: PipelineView,
    shared_after: StateView,
    sent: Option<AnomalyEvent>,
) -> bool {
    let unit = text::text_of(event.systemd_unit);
    let stamp = event.realtime_timestamp_us;
    let kept = with_line(shared, event);
    let counted = PipelineView { events: (before.events + 1) as u64, ..before };
    if kept.self_filtered(unit, event.pid, stamp) {
        &&& after == (PipelineView { self_filtered: (before.self_filtered + 1) as u64, ..counted })
        &&& shared_after == kept
        &&& sent is None
    } else if kept.muted(template_id, unit, stamp) {
        &&& after == (PipelineView { muted: (before.muted + 1) as u64, ..counted })
        &&& shared_after == kept
        &&& sent is None
    } else if quiet {
        &&& after == counted
        &&& shared_after == kept
        &&& sent is None
    } else {
        exists|anomaly: Option<Anomaly>|
            {
                &&& #[trigger] analysed(
                    before.engine,
                    event,
                    template_id,
                    floats,
                    score,
                    after.engine,
                    anomaly,
                )
                &&& published(anomaly, event, template_text, kept, shared_after, sent)
                &&& after == (PipelineView {
                    engine: after.engine,
                    anomalies: if anomaly is Some {
                        (before.anomalies + 1) as u64
                    } else {
                        before.anomalies
                    },
                    ..counted
                })
            }
    }
}

impl View for Pipeline {
    type V = PipelineView;

    closed spec fn view(&self) -> PipelineView {
        PipelineView {
            registry: self.templates@,
            engine: self.engine,
            quiet: self.quiet@,
            persist_interval_secs: self.persist_interval_secs,
            snapshot_interval_ms: self.snapshot_interval_ms,
            replay: self.replay,
            events: self.events,
            anomalies: self.anomalies,
            self_filtered: self.self_filtered,
            muted: self.muted,
            events_at_last_snapshot: self.events_at_last_snapshot,
        }
    }
}

/// A text as a slice, if there is one.
fn slice_of(s: &Option<String>) -> (slice: Option<&str>)
    ensures
        text::str_of(slice) == text::text_of(*s),
{
    match s {
        Some(text) => Some(text.as_str()),
        None => None,
    }
}

impl Pipeline {
    /// Whether the pipeline is in proper order.
    pub open spec fn wf(&self) -> bool {
        &&& self@.registry.valid()
        &&& self@.engine.wf()
        &&& self@.events_at_last_snapshot <= self@.events
    }

    /// A pipeline, with what survived the last run if something did. Where baselines
    /// survived that can be trusted, nothing has to be learned.
    pub fn new<F: Fn(FloatOp) -> u64>(
        config: &Config,
        restored: Option<PersistedState>,
        replay: bool,
        patterns: MaskPatterns,
        floats: &FloatUnit<F>,
    ) -> (pipeline: Pipeline)
        requires
            config.analysis.template_similarity_threshold.whole > 0,
            config.persistence.snapshot_interval_minutes * 60 <= u64::MAX,
            floats.is_total(),
        ensures
            pipeline.wf(),
            pipeline@.persist_interval_secs == 60 * if config.persistence.snapshot_interval_minutes >= 1 {
                config.persistence.snapshot_interval_minutes
            } else {
                1
            },
            pipeline@.snapshot_interval_ms == if config.socket.snapshot_interval_ms >= 50 {
                config.socket.snapshot_interval_ms as u64
            } else {
                50
            },
            pipeline@.quiet == quiet::usable_rules(config.quiet.templates@),
            pipeline@.replay == replay,
            pipeline@.events == 0,
            pipeline@.anomalies == 0,
            pipeline@.self_filtered == 0,
            pipeline@.muted == 0,
            pipeline@.events_at_last_snapshot == 0,
            pipeline@.engine@.config == config.analysis,
            pipeline@.engine@.baseline_config == config.baseline,
            pipeline@.registry.max_templates == config.analysis.max_templates,
            pipeline@.registry.overflow_count == 0,
            pipeline@.registry.threshold.whole == config.analysis.template_similarity_threshold.whole,
            pipeline@.registry.threshold.part
                == if config.analysis.template_similarity_threshold.part
                <= config.analysis.template_similarity_threshold.whole {
                config.analysis.template_similarity_threshold.part
            } else {
                config.analysis.template_similarity_threshold.whole
            },
            match restored {
                None => engine::is_fresh(pipeline@.engine@) && pipeline@.registry.clusters.len() == 0,
                Some(restored) => {
                    &&& engine::is_unused(pipeline@.engine@)
                    &&& pipeline@.engine@.baselines.histograms == tables::map_of(
                        store::stored_histograms(restored.baselines.histograms@),
                    )
                    &&& pipeline@.engine@.baselines.profiles == tables::map_of(
                        store::stored_profiles(restored.baselines.profiles@),
                    )
                    &&& template::restores(
                        template::record_views(restored.templates.clusters@),
                        config.analysis.max_templates as nat,
                        pipeline@.registry.clusters,
                    )
                    &&& forall|model: spec_fn(FloatOp) -> u64| #[trigger]
                        floats.computes(model) ==> pipeline@.engine@.learning_skipped
                            == pipeline@.engine@.baselines.has_trusted(model)
                    &&& store::tells_trust(
                        pipeline@.engine@.baselines,
                        *floats,
                        pipeline@.engine@.learning_skipped,
                    )
                },
            },
    {
        let similarity = config.analysis.template_similarity_threshold;
        let max_templates: usize = config.analysis.max_templates;
        let mut engine = AnalysisEngine::with_baseline_config(config.analysis, config.baseline);
        let templates = match restored {
            Some(restored) => {
                engine.restore_baselines(restored.baselines);
                if engine.has_trusted_baselines(floats) {
                    engine.skip_learning_phase();
                }
                TemplateEngine::restore(patterns, restored.templates, similarity, max_templates)
            },
            None => TemplateEngine::new(patterns, similarity, max_templates),
        };
        let minutes: u64 = if config.persistence.snapshot_interval_minutes >= 1 {
            config.persistence.snapshot_interval_minutes
        } else {
            1
        };
        let interval: u64 = if config.socket.snapshot_interval_ms >= 50 {
            config.socket.snapshot_interval_ms as u64
        } else {
            50
        };
        Pipeline {
            templates,
            engine,
            quiet: QuietFilter::new(&config.quiet),
            persist_interval_secs: minutes * 60,
            snapshot_interval_ms: interval,
            replay,
            events: 0,
            anomalies: 0,
            self_filtered: 0,
            muted: 0,
            events_at_last_snapshot: 0,
        }
    }

    /// The time between two savings of the baselines, in seconds.
    pub fn persist_interval_secs(&self) -> (secs: u64)
        ensures
            secs == self@.persist_interval_secs,
    {
        self.persist_interval_secs
    }

    /// The time between two snapshots, in milliseconds.
    pub fn snapshot_interval_ms(&self) -> (ms: u64)
        ensures
            ms == self@.snapshot_interval_ms,
    {
        self.snapshot_interval_ms
    }

    /// Takes an event through the rest of the way, given its template and whether a rule
    /// keeps it out of the analysis. What it returns is to be sent to those who listen.
    pub fn handle_matched<F: Fn(FloatOp) -> u64, G: Fn(Evidence) -> Scores>(
        &mut self,
        event: &JournalEvent,
        matched: &TemplateMatch,
        quiet: bool,
        shared: &mut SharedState,
        floats: &FloatUnit<F>,
        score: &G,
    ) -> (sent: Option<AnomalyEvent>)
        requires
            old(self).wf(),
            old(shared).wf(),
            floats.is_total(),
            forall|evidence: Evidence| #[trigger] call_requires(*score, (evidence,)),
            old(self)@.can_analyse(*event, old(shared)@),
        ensures
            final(self).wf(),
            final(shared).wf(),
            handled(
                old(self)@,
                *event,
                matched.id.0,
                matched.template@,
                quiet,
                old(shared)@,
                *floats,
                *score,
                final(self)@,
                final(shared)@,
                sent,
            ),
    {
        let ghost before = self@;
        let ghost shared_before = shared@;
        self.events = self.events + 1;
        shared.push_context(
            ContextEntry {
                timestamp_us: event.realtime_timestamp_us,
                unit: proto::copy_text(&event.systemd_unit),
                pid: event.pid,
                priority: event.priority,
                message: event.message.clone(),
            },
        );
        let ghost kept = shared@;
        proof {
            assert(kept == with_line(shared_before, *event));
        }
        let unit: Option<&str> = slice_of(&event.systemd_unit);
        if shared.is_self_filtered(unit, event.pid, event.realtime_timestamp_us) {
            self.self_filtered = self.self_filtered + 1;
            return None;
        }
        if shared.is_muted(matched.id.0, unit, event.realtime_timestamp_us) {
            self.muted = self.muted + 1;
            return None;
        }
        if quiet {
            return None;
        }
        let input = AnalysisInput {
            timestamp_us: event.realtime_timestamp_us,
            template_id: matched.id,
            unit,
        };
        let ghost asked = input;
        proof {
            assert(before.engine@.can_process(
                event.realtime_timestamp_us,
                matched.id.0,
                store::unit_key(text::text_of(event.systemd_unit)),
            ));
        }
        let result = self.engine.process(input, floats, score);
        proof {
            let slot = choose|slot: Slot|
                #![trigger engine::processed(before.engine, asked, slot, *floats, *score, self.engine, result)]
                slot::can_be_slot_of(event.realtime_timestamp_us, slot.0) && engine::processed(
                    before.engine,
                    asked,
                    slot,
                    *floats,
                    *score,
                    self.engine,
                    result,
                );
            assert(engine::processed(before.engine, asked, slot, *floats, *score, self.engine, result));
            assert(analysed(before.engine, *event, matched.id.0, *floats, *score, self.engine, result));
        }
        match result {
            None => {
                proof {
                    let nothing: Option<Anomaly> = None;
                    assert(analysed(
                        before.engine,
                        *event,
                        matched.id.0,
                        *floats,
                        *score,
                        self@.engine,
                        nothing,
                    ));
                    assert(published(nothing, *event, matched.template@, kept, shared@, None));
                    assert(self@ == (PipelineView {
                        engine: self@.engine,
                        events: (before.events + 1) as u64,
                        ..before
                    }));
                }
                None
            },
            Some(anomaly) => {
                self.anomalies = self.anomalies + 1;
                let ctx = AnomalyEventContext {
                    template_text: matched.template.as_str(),
                    raw_message: event.message.as_str(),
                    pid: event.pid,
                    priority: event.priority,
                };
                let id: u64 = shared.next_anomaly_id();
                let built = wire::build_anomaly_event(id, &anomaly, ctx);
                match built {
                    Some(built) => {
                        let sent = built.duplicate();
                        shared.publish_anomaly(built);
                        proof {
                            assert(published(
                                Some(anomaly),
                                *event,
                                matched.template@,
                                kept,
                                shared@,
                                Some(sent),
                            ));
                        }
                        Some(sent)
                    },
                    None => None,
                }
            },
        }
    }

    /// Takes an event all the way, from its message to its template and on. What it
    /// returns is to be sent to those who listen.
    pub fn handle<F: Fn(FloatOp) -> u64, G: Fn(Evidence) -> Scores>(
        &mut self,
        event: &JournalEvent,
        shared: &mut SharedState,
        floats: &FloatUnit<F>,
        score: &G,
    ) -> (sent: Option<AnomalyEvent>)
        requires
            old(self).wf(),
            old(shared).wf(),
            floats.is_total(),
            forall|evidence: Evidence| #[trigger] call_requires(*score, (evidence,)),
            old(self)@.can_handle(*event, old(shared)@),
        ensures
            final(self).wf(),
            final(shared).wf(),
            exists|found: TemplateMatch|
                {
                    &&& #[trigger] old(self)@.registry.processes(
                        mask::masked_message(event.message@),
                        event.realtime_timestamp_us,
                        final(self)@.registry,
                        found,
                    )
                    &&& handled(
                        (PipelineView { registry: final(self)@.registry, ..old(self)@ }),
                        *event,
                        found.id.0,
                        found.template@,
                        quiet::is_covered(
                            old(self)@.quiet,
                            text::text_of(event.systemd_unit),
                            event.message@,
                        ),
                        old(shared)@,
                        *floats,
                        *score,
                        final(self)@,
                        final(shared)@,
                        sent,
                    )
                },
            takes(
                old(self)@,
                *event,
                old(shared)@,
                *floats,
                *score,
                final(self)@,
                final(shared)@,
                sent,
            ),
    {
        let ghost before = self@;
        let matched = self.templates.process(event.message.as_str(), event.realtime_timestamp_us);
        let ghost counted = self@.registry;
        proof {
            assert(before.registry.processes(
                mask::masked_message(event.message@),
                event.realtime_timestamp_us,
                counted,
                matched,
            ));
        }
        let quiet = self.quiet.is_quiet(slice_of(&event.systemd_unit), event.message.as_str());
        self.handle_matched(event, &matched, quiet, shared, floats, score)
    }

    /// The state that is to be saved: the baselines, cut down to their limits, and the
    /// templates.
    pub fn state_to_save<F: Fn(FloatOp) -> u64>(&mut self, floats: &FloatUnit<F>) -> (saved: PersistedState)
        requires
            old(self).wf(),
            floats.is_total(),
        ensures
            final(self).wf(),
            final(self)@ == (PipelineView { engine: final(self)@.engine, ..old(self)@ }),
            final(self)@.engine@ == (engine::EngineView {
                baselines: final(self)@.engine@.baselines,
                ..old(self)@.engine@
            }),
            final(self)@.engine@.baselines == (store::StoreView {
                histograms: final(self)@.engine@.baselines.histograms,
                profiles: final(self)@.engine@.baselines.profiles,
                units: final(self)@.engine@.baselines.units,
                ..old(self)@.engine@.baselines
            }),
            final(self)@.engine@.baselines.histograms.submap_of(
                old(self)@.engine@.baselines.histograms,
            ),
            final(self)@.engine@.baselines.histograms.len()
                <= old(self)@.engine@.baselines.settings.max_baselines,
            forall|model: spec_fn(FloatOp) -> u64| #[trigger]
                floats.computes(model) ==> tables::keeps_highest(
                    old(self)@.engine@.baselines.histograms,
                    final(self)@.engine@.baselines.histograms,
                    old(self)@.engine@.baselines.settings.max_baselines as nat,
                    store::by_weight(model),
                ),
            tables::keeps_highest(
                old(self)@.engine@.baselines.profiles,
                final(self)@.engine@.baselines.profiles,
                old(self)@.engine@.baselines.settings.max_baselines as nat,
                store::by_last_observation(),
            ),
            tables::keeps_highest(
                old(self)@.engine@.baselines.units,
                final(self)@.engine@.baselines.units,
                old(self)@.engine@.baselines.settings.max_baselines as nat,
                store::by_last_event(),
            ),
            tables::map_of(store::stored_histograms(saved.baselines.histograms@))
                == final(self)@.engine@.baselines.histograms,
            tables::map_of(store::stored_profiles(saved.baselines.profiles@))
                == final(self)@.engine@.baselines.profiles,
            saved.baselines.histograms@.len() == final(self)@.engine@.baselines.histograms.len(),
            saved.baselines.profiles@.len() == final(self)@.engine@.baselines.profiles.len(),
            tables::keys_differ(store::stored_histograms(saved.baselines.histograms@)),
            tables::keys_differ(store::stored_profiles(saved.baselines.profiles@)),
            template::record_views(saved.templates.clusters@) == final(self)@.registry.stored(),
    {
        self.engine.enforce_baseline_limits(floats);
        PersistedState {
            baselines: self.engine.baseline_snapshot(),
            templates: self.templates.snapshot(),
        }
    }

    /// Takes a snapshot and publishes it. The rate of events is that since the last one.
    pub fn publish_snapshot<F: Fn(FloatOp) -> u64>(
        &mut self,
        timestamp_us: u64,
        uptime_secs: u64,
        parse_errors: u64,
        dropped_overflow: u64,
        shared: &mut SharedState,
        floats: &FloatUnit<F>,
    )
        requires
            old(self).wf(),
            old(shared).wf(),
            floats.is_total(),
        ensures
            final(self).wf(),
            final(shared).wf(),
            final(self)@ == (PipelineView {
                events_at_last_snapshot: old(self)@.events,
                ..old(self)@
            }),
            final(shared)@ == (StateView { snapshot: final(shared)@.snapshot, ..old(shared)@ }),
            is_snapshot(
                old(self)@,
                timestamp_us,
                uptime_secs,
                parse_errors,
                dropped_overflow,
                old(shared)@,
                *floats,
                final(shared)@.snapshot,
            ),
    {
        let stats: AnalysisStats = self.engine.stats();
        let fresh: u64 = self.events - self.events_at_last_snapshot;
        let events_per_sec: u64 = floats.run(
            FloatOp::PerSecond { events: fresh, interval_ms: self.snapshot_interval_ms },
        );
        let remaining: Option<u64> = self.engine.learning_remaining_secs(timestamp_us);
        let window_secs: u32 = #[verifier::truncate]
        (self.engine.window_seconds() as u32);
        let entropy_bits: u64 = self.engine.current_entropy(floats);
        let entropy_z: u64 = self.engine.current_entropy_z(floats);
        let active = match remaining {
            Some(_) => true,
            None => false,
        };
        let snapshot = Snapshot {
            timestamp_us,
            daemon_uptime_secs: uptime_secs,
            learning: LearningState { active, remaining_secs: remaining },
            stats: PipelineStats {
                events: self.events,
                parse_errors,
                dropped_overflow,
                templates: self.templates.template_count() as u64,
                anomalies_emitted: self.anomalies,
                suppressed: stats.suppressed,
                suppressed_learning: stats.suppressed_learning,
                events_per_sec,
                clients: shared.client_count(),
            },
            window: WindowStats {
                window_secs,
                entropy_bits,
                entropy_z,
                events_in_window: self.engine.window_len() as u64,
                distinct_templates: self.engine.distinct_templates() as u64,
            },
            system: shared.latest_system_snapshot(),
            replay: self.replay,
        };
        self.events_at_last_snapshot = self.events;
        shared.publish_snapshot(snapshot);
    }

    /// What the run amounts to.
    pub fn summary(&self, dropped_overflow: u64, parse_errors: u64) -> (summary: PipelineSummary)
        ensures
            summary.events == self@.events,
            summary.anomalies == self@.anomalies,
            summary.templates == self@.registry.clusters.len(),
            summary.dropped_overflow == dropped_overflow,
            summary.parse_errors == parse_errors,
            summary.suppressed == self@.engine@.stats.suppressed,
            summary.suppressed_learning == self@.engine@.stats.suppressed_learning,
            summary.self_filtered == self@.self_filtered,
            summary.muted == self@.muted,
    {
        let stats: AnalysisStats = self.engine.stats();
        PipelineSummary {
            events: self.events,
            anomalies: self.anomalies,
            templates: self.templates.template_count(),
            dropped_overflow,
            parse_errors,
            suppressed: stats.suppressed,
            suppressed_learning: stats.suppressed_learning,
            self_filtered: self.self_filtered,
            muted: self.muted,
        }
    }
}

/// Whether the entropy of the window is computed from it.
pub open spec fn is_window_entropy<F: Fn(FloatOp) -> u64>(
    engine: AnalysisEngine,
    entropy: u64,
    floats: FloatUnit<F>,
) -> bool {
    exists|counts: Vec<u64>|
        {
            &&& #[trigger] engine::counts_window(engine@.window, counts)
            &&& forall|model: spec_fn(FloatOp) -> u64| #[trigger]
                floats.computes(model) ==> entropy == model(FloatOp::Entropy { counts })
        }
}

/// Whether the distance of the entropy from what is usual is computed from the window.
pub open spec fn is_window_entropy_z<F: Fn(FloatOp) -> u64>(
    engine: AnalysisEngine,
    z: u64,
    floats: FloatUnit<F>,
) -> bool {
    exists|counts: Vec<u64>, history: Vec<u64>|
        {
            &&& #[trigger] engine::counts_window(engine@.window, counts)
            &&& #[trigger] history@ == engine@.entropy_history
            &&& forall|model: spec_fn(FloatOp) -> u64| #[trigger]
                floats.computes(model) ==> z == model(
                    FloatOp::EntropyZ { entropy: model(FloatOp::Entropy { counts }), history },
                )
        }
}

/// Whether `snapshot` says what a pipeline and the shared state hold.
pub open spec fn is_snapshot<F: Fn(FloatOp) -> u64>(
    pipeline: PipelineView,
    timestamp_us: u64,
    uptime_secs: u64,
    parse_errors: u64,
    dropped_overflow: u64,
    shared: StateView,
    floats: FloatUnit<F>,
    snapshot: Snapshot,
) -> bool {
    &&& snapshot.timestamp_us == timestamp_us
    &&& snapshot.daemon_uptime_secs == uptime_secs
    &&& snapshot.learning.remaining_secs == pipeline.engine@.learning_left(timestamp_us)
    &&& snapshot.learning.active == pipeline.engine@.learning(timestamp_us)
    &&& snapshot.stats.events == pipeline.events
    &&& snapshot.stats.parse_errors == parse_errors
    &&& snapshot.stats.dropped_overflow == dropped_overflow
    &&& snapshot.stats.templates == pipeline.registry.clusters.len()
    &&& snapshot.stats.anomalies_emitted == pipeline.anomalies
    &&& snapshot.stats.suppressed == pipeline.engine@.stats.suppressed
    &&& snapshot.stats.suppressed_learning == pipeline.engine@.stats.suppressed_learning
    &&& forall|model: spec_fn(FloatOp) -> u64| #[trigger]
        floats.computes(model) ==> snapshot.stats.events_per_sec == model(
            FloatOp::PerSecond {
                events: (pipeline.events - pipeline.events_at_last_snapshot) as u64,
                interval_ms: pipeline.snapshot_interval_ms,
            },
        )
    &&& snapshot.stats.clients == shared.clients
    &&& snapshot.window.window_secs == (
    #[verifier::truncate]
    (pipeline.engine@.config.window_seconds as u32))
    &&& is_window_entropy(pipeline.engine, snapshot.window.entropy_bits, floats)
    &&& is_window_entropy_z(pipeline.engine, snapshot.window.entropy_z, floats)
    &&& snapshot.window.events_in_window == pipeline.engine@.window.entries.len()
    &&& snapshot.window.distinct_templates == pipeline.engine@.window.distinct().len()
    &&& proto::same_machine(snapshot.system, shared.system)
    &&& snapshot.replay == pipeline.replay
}

/// Every event is counted once, and its line is kept, whatever else becomes of it.
pub proof fn every_event_is_counted<F: Fn(FloatOp) -> u64, G: Fn(Evidence) -> Scores>(
    before: PipelineView,
    event: JournalEvent,
    template_id: u64,
    template_text: Seq<char>,
    quiet: bool,
    shared: StateView,
    floats: FloatUnit<F>,
    score: G,
    after: PipelineView,
    shared_after: StateView,
    sent: Option<AnomalyEvent>,
)
    requires
        before.can_analyse(event, shared),
        handled(
            before,
            event,
            template_id,
            template_text,
            quiet,
            shared,
            floats,
            score,
            after,
            shared_after,
            sent,
        ),
    ensures
        after.events == before.events + 1,
        shared_after.context == with_line(shared, event).context,
        sent is Some ==> after.anomalies == before.anomalies + 1,
{
}

/// Whether the anomalies that are kept are numbered from one on, each higher than those
/// before it, up to the last number given.
pub open spec fn numbers_rise(shared: StateView) -> bool {
    &&& forall|i: int, j: int|
        0 <= i < j < shared.recent.len() ==> (#[trigger] shared.recent[i]).id < (
        #[trigger] shared.recent[j]).id
    &&& forall|i: int|
        0 <= i < shared.recent.len() ==> 1 <= (#[trigger] shared.recent[i]).id
            <= shared.last_anomaly_id
}

/// Anomalies are numbered in the order in which they are found: one that is sent has the
/// number after the last, and the numbers of those that are kept go on rising.
pub proof fn anomalies_are_numbered_in_order<F: Fn(FloatOp) -> u64, G: Fn(Evidence) -> Scores>(
    before: PipelineView,
    event: JournalEvent,
    template_id: u64,
    template_text: Seq<char>,
    quiet: bool,
    shared: StateView,
    floats: FloatUnit<F>,
    score: G,
    after: PipelineView,
    shared_after: StateView,
    sent: Option<AnomalyEvent>,
)
    requires
        numbers_rise(shared),
        shared.recent_capacity >= 1,
        shared.last_anomaly_id < u64::MAX,
        handled(
            before,
            event,
            template_id,
            template_text,
            quiet,
            shared,
            floats,
            score,
            after,
            shared_after,
            sent,
        ),
    ensures
        numbers_rise(shared_after),
        shared_after.last_anomaly_id >= shared.last_anomaly_id,
        sent matches Some(sent) ==> sent.id == shared.last_anomaly_id + 1 && shared_after.last_anomaly_id
            == sent.id,
{
    if let Some(found) = sent {
        let kept = shared.recent;
        let all = shared_after.recent;
        let dropped: int = if kept.len() >= shared.recent_capacity {
            1
        } else {
            0
        };
        assert(all == state::pushed(kept, found, shared.recent_capacity));
        assert forall|i: int| 0 <= i < all.len() implies #[trigger] all[i] == if i < all.len() - 1 {
            kept[i + dropped]
        } else {
            found
        } by {}
    }
}

/// An event that follows from an action of the daemon, or is muted, or is kept out by a
/// rule, leaves the analysis as it was and is not reported.
pub proof fn quiet_events_are_not_analysed<F: Fn(FloatOp) -> u64, G: Fn(Evidence) -> Scores>(
    before: PipelineView,
    event: JournalEvent,
    template_id: u64,
    template_text: Seq<char>,
    quiet: bool,
    shared: StateView,
    floats: FloatUnit<F>,
    score: G,
    after: PipelineView,
    shared_after: StateView,
    sent: Option<AnomalyEvent>,
)
    requires
        handled(
            before,
            event,
            template_id,
            template_text,
            quiet,
            shared,
            floats,
            score,
            after,
            shared_after,
            sent,
        ),
        shared.self_filtered(text::text_of(event.systemd_unit), event.pid, event.realtime_timestamp_us)
            || shared.muted(
            template_id,
            text::text_of(event.systemd_unit),
            event.realtime_timestamp_us,
        ) || quiet,
    ensures
        after.engine == before.engine,
        sent is None,
        shared_after.recent == shared.recent,
{
}

/// The line that is kept of an event says what the event says, and stands last; as many
/// lines are kept as fit.
pub proof fn the_line_of_an_event_is_kept(shared: StateView, event: JournalEvent)
    requires
        shared.context.capacity >= 1,
        shared.context.lines.len() <= shared.context.capacity,
    ensures
        ({
            let lines = with_line(shared, event).context.lines;
            &&& 0 < lines.len() <= shared.context.capacity
            &&& lines.last().timestamp_us == event.realtime_timestamp_us
            &&& lines.last().unit == event.systemd_unit
            &&& lines.last().pid == event.pid
            &&& lines.last().priority == event.priority
            &&& lines.last().message == event.message
            &&& shared.context.lines.len() < shared.context.capacity ==> lines.drop_last()
                == shared.context.lines
            &&& shared.context.lines.len() == shared.context.capacity ==> lines.drop_last()
                == shared.context.lines.skip(1)
            &&& with_line(shared, event).recent == shared.recent
            &&& with_line(shared, event).clients == shared.clients
        }),
{
    let lines = with_line(shared, event).context.lines;
    assert(lines.drop_last() =~= if shared.context.lines.len() < shared.context.capacity {
        shared.context.lines
    } else {
        shared.context.lines.skip(1)
    });
}

/// An event is left out just if it follows from an action of the daemon, is muted, or is
/// kept out by a rule, and is counted as what it is, in this order. Every other one is
/// analysed: the analysis counts it, and what is reported is sent, numbered, about the
/// event, and kept as the last one.
pub proof fn what_nothing_keeps_out_is_analysed<F: Fn(FloatOp) -> u64, G: Fn(Evidence) -> Scores>(
    before: PipelineView,
    event: JournalEvent,
    template_id: u64,
    template_text: Seq<char>,
    quiet: bool,
    shared: StateView,
    floats: FloatUnit<F>,
    score: G,
    after: PipelineView,
    shared_after: StateView,
    sent: Option<AnomalyEvent>,
)
    requires
        handled(
            before,
            event,
            template_id,
            template_text,
            quiet,
            shared,
            floats,
            score,
            after,
            shared_after,
            sent,
        ),
        before.events < u64::MAX,
        before.anomalies < u64::MAX,
        before.self_filtered < u64::MAX,
        before.muted < u64::MAX,
        shared.last_anomaly_id < u64::MAX,
        before.engine@.stats.processed < u64::MAX,
        before.engine@.stats.emitted < u64::MAX,
        before.engine@.window.valid(),
    ensures
        ({
            let unit = text::text_of(event.systemd_unit);
            let own = shared.self_filtered(unit, event.pid, event.realtime_timestamp_us);
            let muted = shared.muted(template_id, unit, event.realtime_timestamp_us);
            &&& after.events == before.events + 1
            &&& own ==> after.self_filtered == before.self_filtered + 1 && after.muted
                == before.muted
            &&& !own && muted ==> after.muted == before.muted + 1 && after.self_filtered
                == before.self_filtered
            &&& !own && !muted ==> after.muted == before.muted && after.self_filtered
                == before.self_filtered
            &&& own || muted || quiet ==> sent is None && after.engine == before.engine
                && after.anomalies == before.anomalies
            &&& !own && !muted && !quiet ==> {
                &&& after.engine@.stats.processed == before.engine@.stats.processed + 1
                &&& after.anomalies - before.anomalies == after.engine@.stats.emitted
                    - before.engine@.stats.emitted
                &&& sent is Some ==> after.anomalies == before.anomalies + 1
                &&& sent is None ==> shared_after.recent == shared.recent
            }
            &&& sent matches Some(sent) ==> {
                &&& sent.id == shared.last_anomaly_id + 1
                &&& sent.timestamp_us == event.realtime_timestamp_us
                &&& sent.template_id == template_id
                &&& sent.template_text@ == template_text
                &&& sent.priority == event.priority
                &&& shared_after.recent.len() > 0
                &&& shared_after.recent.last() == sent
                &&& shared_after.last_anomaly_id == sent.id
            }
        }),
{
    let unit = text::text_of(event.systemd_unit);
    let own = shared.self_filtered(unit, event.pid, event.realtime_timestamp_us);
    let muted = shared.muted(template_id, unit, event.realtime_timestamp_us);
    if !own && !muted && !quiet {
        let anomaly = choose|anomaly: Option<Anomaly>|
            {
                &&& #[trigger] analysed(
                    before.engine,
                    event,
                    template_id,
                    floats,
                    score,
                    after.engine,
                    anomaly,
                )
                &&& published(
                    anomaly,
                    event,
                    template_text,
                    with_line(shared, event),
                    shared_after,
                    sent,
                )
                &&& after == (PipelineView {
                    engine: after.engine,
                    anomalies: if anomaly is Some {
                        (before.anomalies + 1) as u64
                    } else {
                        before.anomalies
                    },
                    events: (before.events + 1) as u64,
                    ..before
                })
            };
        let (input, slot) = choose|input: AnalysisInput<'_>, slot: Slot|
            {
                &&& input.timestamp_us == event.realtime_timestamp_us
                &&& input.template_id.0 == template_id
                &&& text::str_of(input.unit) == text::text_of(event.systemd_unit)
                &&& slot::can_be_slot_of(event.realtime_timestamp_us, slot.0)
                &&& #[trigger] engine::processed(
                    before.engine,
                    input,
                    slot,
                    floats,
                    score,
                    after.engine,
                    anomaly,
                )
            };
        engine::an_event_is_observed_scored_and_decided_on(
            before.engine,
            input,
            slot,
            floats,
            score,
            after.engine,
            anomaly,
        );
    }
}

/// Whether this is what becomes of an event, from its message on: it finds its template
/// among the masked tokens of its message, and goes on as one of that template; whether a
/// rule keeps it out goes by its unit and its message.
pub open spec fn takes<F: Fn(FloatOp) -> u64, G: Fn(Evidence) -> Scores>(
    before: PipelineView,
    event: JournalEvent,
    shared: StateView,
    floats: FloatUnit<F>,
    score: G,
    after: PipelineView,
    shared_after: StateView,
    sent: Option<AnomalyEvent>,
) -> bool {
    exists|found: TemplateMatch|
        {
            &&& #[trigger] before.registry.processes(
                mask::masked_message(event.message@),
                event.realtime_timestamp_us,
                after.registry,
                found,
            )
            &&& handled(
                PipelineView { registry: after.registry, ..before },
                event,
                found.id.0,
                found.template@,
                quiet::is_covered(before.quiet, text::text_of(event.systemd_unit), event.message@),
                shared,
                floats,
                score,
                after,
                shared_after,
                sent,
            )
        }
}

/// An event whose unit and message a rule is about never reaches the analysis, and one
/// that no rule is about, that is not muted anywhere and does not follow from an action,
/// does. Either way its message is taken among the templates.
pub proof fn rules_go_by_unit_and_message<F: Fn(FloatOp) -> u64, G: Fn(Evidence) -> Scores>(
    before: PipelineView,
    event: JournalEvent,
    shared: StateView,
    floats: FloatUnit<F>,
    score: G,
    after: PipelineView,
    shared_after: StateView,
    sent: Option<AnomalyEvent>,
    rule: int,
)
    requires
        takes(before, event, shared, floats, score, after, shared_after, sent),
        before.events < u64::MAX,
        before.anomalies < u64::MAX,
        before.self_filtered < u64::MAX,
        before.muted < u64::MAX,
        shared.last_anomaly_id < u64::MAX,
        before.engine@.stats.processed < u64::MAX,
        before.engine@.stats.emitted < u64::MAX,
        before.engine@.window.valid(),
    ensures
        0 <= rule < before.quiet.len() && crate::pattern::regex_matches(
            before.quiet[rule].pattern,
            event.message@,
        ) && (before.quiet[rule].unit is None || (
            event.systemd_unit matches Some(unit) && before.quiet[rule].unit == Some(unit@))) ==> sent is None && after.engine
            == before.engine,
        before.quiet.len() == 0 && shared.mutes_everywhere.dom() =~= Set::<u64>::empty()
            && shared.mutes_by_unit.dom() =~= Set::<u64>::empty() && shared.quiet_units.dom()
            =~= Set::<Seq<char>>::empty() && shared.quiet_pids.dom() =~= Set::<i32>::empty()
            ==> after.engine@.stats.processed == before.engine@.stats.processed + 1,
        exists|found: TemplateMatch| #[trigger]
            before.registry.processes(
                mask::masked_message(event.message@),
                event.realtime_timestamp_us,
                after.registry,
                found,
            ) && (sent matches Some(sent) ==> sent.template_id == found.id.0
                && sent.template_text@ == found.template@),
        after.events == before.events + 1,
{
    let found = choose|found: TemplateMatch|
        {
            &&& #[trigger] before.registry.processes(
                mask::masked_message(event.message@),
                event.realtime_timestamp_us,
                after.registry,
                found,
            )
            &&& handled(
                PipelineView { registry: after.registry, ..before },
                event,
                found.id.0,
                found.template@,
                quiet::is_covered(before.quiet, text::text_of(event.systemd_unit), event.message@),
                shared,
                floats,
                score,
                after,
                shared_after,
                sent,
            )
        };
    let unit = text::text_of(event.systemd_unit);
    what_nothing_keeps_out_is_analysed(
        PipelineView { registry: after.registry, ..before },
        event,
        found.id.0,
        found.template@,
        quiet::is_covered(before.quiet, unit, event.message@),
        shared,
        floats,
        score,
        after,
        shared_after,
        sent,
    );
    if 0 <= rule < before.quiet.len() && crate::pattern::regex_matches(
        before.quiet[rule].pattern,
        event.message@,
    ) && (before.quiet[rule].unit is None || (
        event.systemd_unit matches Some(unit) && before.quiet[rule].unit == Some(unit@))) {
        assert(quiet::applies(
            before.quiet[rule].unit,
            unit,
            crate::pattern::regex_matches(before.quiet[rule].pattern, event.message@),
        ));
    }
    assert(shared.mutes_everywhere.dom() =~= Set::<u64>::empty() ==> !shared.mutes_everywhere.contains_key(
        found.id.0,
    ));
}

/// A snapshot and the summary of a run tell the same counts, and the learning is active
/// just if some of it is left.
pub proof fn snapshots_and_summaries_agree<F: Fn(FloatOp) -> u64>(
    pipeline: &Pipeline,
    timestamp_us: u64,
    uptime_secs: u64,
    parse_errors: u64,
    dropped_overflow: u64,
    shared: StateView,
    floats: FloatUnit<F>,
    snapshot: Snapshot,
    summary: PipelineSummary,
)
    requires
        is_snapshot(
            pipeline@,
            timestamp_us,
            uptime_secs,
            parse_errors,
            dropped_overflow,
            shared,
            floats,
            snapshot,
        ),
        call_ensures(Pipeline::summary, (pipeline, dropped_overflow, parse_errors), summary),
    ensures
        snapshot.stats.events == summary.events,
        snapshot.stats.anomalies_emitted == summary.anomalies,
        snapshot.stats.templates == summary.templates,
        snapshot.stats.dropped_overflow == summary.dropped_overflow,
        snapshot.stats.dropped_overflow == dropped_overflow,
        snapshot.stats.parse_errors == summary.parse_errors,
        snapshot.stats.parse_errors == parse_errors,
        snapshot.stats.suppressed == summary.suppressed,
        snapshot.stats.suppressed_learning == summary.suppressed_learning,
        snapshot.learning.active <==> snapshot.learning.remaining_secs is Some,
        snapshot.stats.clients == shared.clients,
        snapshot.timestamp_us == timestamp_us,
        snapshot.daemon_uptime_secs == uptime_secs,
        summary.self_filtered == pipeline@.self_filtered,
        summary.muted == pipeline@.muted,
        summary.events == pipeline@.events,
{
}

/// A pipeline that is made goes by its settings: it saves as often as there are minutes
/// set, at least every minute, and takes snapshots no more often than twenty times a
/// second. It has seen nothing, and starts with what survived; where that can be trusted,
/// it need not learn, and only there.
pub proof fn a_new_pipeline_goes_by_its_settings<F: Fn(FloatOp) -> u64>(
    config: &Config,
    restored: Option<PersistedState>,
    replay: bool,
    patterns: MaskPatterns,
    floats: &FloatUnit<F>,
    model: spec_fn(FloatOp) -> u64,
    pipeline: Pipeline,
    secs: u64,
    ms: u64,
)
    requires
        config.persistence.snapshot_interval_minutes * 60 <= u64::MAX,
        call_ensures(Pipeline::new::<F>, (config, restored, replay, patterns, floats), pipeline),
        floats.computes(model),
        call_ensures(Pipeline::persist_interval_secs, (&pipeline,), secs),
        call_ensures(Pipeline::snapshot_interval_ms, (&pipeline,), ms),
    ensures
        config.persistence.snapshot_interval_minutes >= 1 ==> secs
            == config.persistence.snapshot_interval_minutes * 60,
        config.persistence.snapshot_interval_minutes == 0 ==> secs == 60,
        config.socket.snapshot_interval_ms >= 50 ==> ms == config.socket.snapshot_interval_ms,
        config.socket.snapshot_interval_ms < 50 ==> ms == 50,
        pipeline@.events == 0 && pipeline@.anomalies == 0 && pipeline@.muted == 0
            && pipeline@.self_filtered == 0,
        pipeline@.replay == replay,
        pipeline@.engine@.config == config.analysis,
        pipeline@.engine@.baseline_config == config.baseline,
        pipeline@.registry.max_templates == config.analysis.max_templates,
        config.analysis.template_similarity_threshold.part
            <= config.analysis.template_similarity_threshold.whole ==> pipeline@.registry.threshold
            == config.analysis.template_similarity_threshold,
        pipeline@.registry.overflow_count == 0,
        pipeline@.quiet == quiet::usable_rules(config.quiet.templates@),
        restored is None ==> !pipeline@.engine@.learning_skipped
            && pipeline@.registry.clusters.len() == 0,
        restored matches Some(state) ==> {
            &&& pipeline@.engine@.learning_skipped <==> pipeline@.engine@.baselines.has_trusted(
                model,
            )
            &&& pipeline@.engine@.baselines.histograms == tables::map_of(
                store::stored_histograms(state.baselines.histograms@),
            )
            &&& pipeline@.engine@.baselines.profiles == tables::map_of(
                store::stored_profiles(state.baselines.profiles@),
            )
            &&& pipeline@.engine@.stats.processed == 0
        },
{
    if restored is Some {
        assert(store::tells_trust(
            pipeline@.engine@.baselines,
            *floats,
            pipeline@.engine@.learning_skipped,
        ));
    }
}

/// What is saved is what a new pipeline starts with: the templates, as many as fit, and
/// the baselines, as they were cut down to their limits.
pub proof fn a_new_pipeline_starts_with_what_was_saved<F: Fn(FloatOp) -> u64>(
    pipeline: &mut Pipeline,
    floats: &FloatUnit<F>,
    saved: PersistedState,
    config: &Config,
    patterns: MaskPatterns,
    next: Pipeline,
)
    requires
        old(pipeline)@.registry.valid(),
        old(pipeline)@.registry.clusters.len() <= u64::MAX,
        call_ensures(Pipeline::state_to_save::<F>, (pipeline, floats), saved),
        call_ensures(Pipeline::new::<F>, (config, Some(saved), false, patterns, floats), next),
        config.analysis.max_templates >= old(pipeline)@.registry.max_templates,
    ensures
        next@.registry.clusters == old(pipeline)@.registry.clusters,
        next@.engine@.baselines.histograms == final(pipeline)@.engine@.baselines.histograms,
        next@.engine@.baselines.profiles == final(pipeline)@.engine@.baselines.profiles,
        final(pipeline)@.registry == old(pipeline)@.registry,
        final(pipeline)@.events == old(pipeline)@.events,
        final(pipeline)@.engine@.states == old(pipeline)@.engine@.states,
        final(pipeline)@.engine@.baselines.histograms.len()
            <= old(pipeline)@.engine@.baselines.settings.max_baselines,
        old(pipeline)@.engine@.baselines.units.len()
            <= old(pipeline)@.engine@.baselines.settings.max_baselines
            ==> final(pipeline)@.engine@.baselines.units.len()
            == old(pipeline)@.engine@.baselines.units.len(),
{
    let registry = old(pipeline)@.registry;
    let records = template::record_views(saved.templates.clusters@);
    let places = Seq::new(records.len(), |i: int| i);
    assert(records == registry.stored());
    assert(template::rearranges(registry.stored(), records, places));
    template::restoring_undoes_storing(
        registry,
        records,
        config.analysis.max_templates as nat,
        next@.registry.clusters,
    );
}

/// To handle an event is to take it from its message on, and to publish a snapshot is to
/// publish what the pipeline and the shared state hold, and nothing else.
pub proof fn a_pipeline_does_what_is_asked<F: Fn(FloatOp) -> u64, G: Fn(Evidence) -> Scores>(
    pipeline: &mut Pipeline,
    event: &JournalEvent,
    shared: &mut SharedState,
    floats: &FloatUnit<F>,
    score: &G,
    sent: Option<AnomalyEvent>,
    teller: &mut Pipeline,
    timestamp_us: u64,
    uptime_secs: u64,
    parse_errors: u64,
    dropped_overflow: u64,
    told: &mut SharedState,
)
    requires
        call_ensures(Pipeline::handle::<F, G>, (pipeline, event, shared, floats, score), sent),
        call_ensures(
            Pipeline::publish_snapshot::<F>,
            (teller, timestamp_us, uptime_secs, parse_errors, dropped_overflow, told, floats),
            (),
        ),
    ensures
        takes(
            old(pipeline)@,
            *event,
            old(shared)@,
            *floats,
            *score,
            final(pipeline)@,
            final(shared)@,
            sent,
        ),
        is_snapshot(
            old(teller)@,
            timestamp_us,
            uptime_secs,
            parse_errors,
            dropped_overflow,
            old(told)@,
            *floats,
            final(told)@.snapshot,
        ),
        final(told)@.recent == old(told)@.recent,
        final(told)@.clients == old(told)@.clients,
        final(teller)@.events_at_last_snapshot == old(teller)@.events,
        final(teller)@.events == old(teller)@.events,
        final(teller)@.engine == old(teller)@.engine,
{
}

/// The rate of events is that since the last snapshot.
pub proof fn rates_count_from_the_last_snapshot<F: Fn(FloatOp) -> u64>(
    pipeline: PipelineView,
    timestamp_us: u64,
    uptime_secs: u64,
    parse_errors: u64,
    dropped_overflow: u64,
    shared: StateView,
    floats: FloatUnit<F>,
    snapshot: Snapshot,
    model: spec_fn(FloatOp) -> u64,
    fresh: u64,
)
    requires
        is_snapshot(
            pipeline,
            timestamp_us,
            uptime_secs,
            parse_errors,
            dropped_overflow,
            shared,
            floats,
            snapshot,
        ),
        floats.computes(model),
        pipeline.events_at_last_snapshot + fresh == pipeline.events,
    ensures
        snapshot.stats.events_per_sec == model(
            FloatOp::PerSecond { events: fresh, interval_ms: pipeline.snapshot_interval_ms },
        ),
        snapshot.window.events_in_window == pipeline.engine@.window.entries.len(),
        pipeline.engine@.config.window_seconds <= u32::MAX ==> snapshot.window.window_secs
            == pipeline.engine@.config.window_seconds,
        snapshot.replay == pipeline.replay,
{
}

} // verus!
