//! The way of an event from the journal to the clients.

use logsentry::cli::initial_snapshot;
use logsentry::config::Config;
use logsentry::engine::{Evidence, Scores};
use logsentry::float::{FloatOp, FloatUnit};
use logsentry::journal::JournalEvent;
use logsentry::mask::MaskPatterns;
use logsentry::pipeline::Pipeline;
use logsentry::proto::AnomalyLevel;
use logsentry::state::SharedState;
use logsentry::template::TemplateEngine;

/// A floating-point part without decay.
fn floats() -> FloatUnit<impl Fn(FloatOp) -> u64> {
    FloatUnit {
        eval: |op| match op {
            FloatOp::Decay { weight, .. } => u64::from(weight),
            FloatOp::Increment { weight } => (f32::from_bits(weight) + 1.0).to_bits() as u64,
            FloatOp::Accumulate { total, weight } => {
                (f64::from_bits(total) + f64::from(f32::from_bits(weight))).to_bits()
            }
            FloatOp::ReachesHalf { cumulative, total } => {
                let half = f64::from_bits(total) / 2.0;
                if f64::from_bits(cumulative) < half {
                    0
                } else if f64::from_bits(cumulative) == half {
                    1
                } else {
                    2
                }
            }
            FloatOp::ExitThreshold { threshold, factor } => {
                (f64::from_bits(threshold) * f64::from_bits(factor).clamp(0.0, 1.0)).to_bits()
            }
            FloatOp::Entropy { counts } => (counts.len() as f64).to_bits(),
            FloatOp::EntropyZ { .. } => 0.25f64.to_bits(),
            FloatOp::PerSecond { events, interval_ms } => {
                (events as f64 / (interval_ms as f64 / 1000.0).max(0.001)).to_bits()
            }
        },
    }
}

/// Scores every event alike.
fn always(combined: f64) -> impl Fn(Evidence) -> Scores {
    move |_: Evidence| Scores {
        rate_z: 0,
        surprisal_bits: 0,
        entropy_z: 0,
        rate_component: 0,
        surprisal_component: 0,
        entropy_component: 0,
        combined: combined.to_bits(),
    }
}

fn patterns() -> MaskPatterns {
    MaskPatterns::new().expect("patterns compile")
}

fn pipeline_of(config: &Config) -> (Pipeline, SharedState) {
    let shared = SharedState::new(initial_snapshot(config, false, 0), 10, 10, 1);
    (Pipeline::new(config, None, false, patterns(), &floats()), shared)
}

fn test_pipeline() -> (Pipeline, SharedState) {
    pipeline_of(&Config::default())
}

fn event(unit: &str, pid: i32, message: &str, timestamp_us: u64) -> JournalEvent {
    JournalEvent {
        realtime_timestamp_us: timestamp_us,
        systemd_unit: Some(unit.to_string()),
        pid: Some(pid),
        priority: Some(6),
        message: message.to_string(),
        message_was_binary: false,
        hostname: None,
    }
}

/// How many events the analysis has seen, as long as none has left its window.
fn analysed(pipeline: &mut Pipeline, shared: &mut SharedState) -> u64 {
    pipeline.publish_snapshot(2, 0, 0, 0, shared, &floats());
    shared.latest_snapshot().window.events_in_window
}

#[test]
fn selbstgefilterte_unit_wird_gezaehlt_aber_nicht_analysiert() {
    let (mut pipeline, mut shared) = test_pipeline();
    shared.suppress_unit("sshd.service", u64::MAX);
    pipeline.handle(
        &event("sshd.service", 100, "Failed password for root", 1),
        &mut shared,
        &floats(),
        &always(0.0),
    );
    let summary = pipeline.summary(0, 0);
    assert_eq!(summary.self_filtered, 1);
    assert_eq!(summary.events, 1, "Ereignis zählt trotzdem als verarbeitet");
    assert_eq!(
        analysed(&mut pipeline, &mut shared),
        0,
        "Analyse-Engine darf ein selbstgefiltertes Ereignis nie sehen"
    );
    let (lines, _) = shared.query_context(1, 1, 1, None);
    assert_eq!(lines.len(), 1);
}

#[test]
fn gemutetes_template_wird_gezaehlt_aber_nicht_analysiert() {
    let (mut pipeline, mut shared) = test_pipeline();
    let config = Config::default();
    let message = "immer dieselbe Testnachricht";
    let mut templates = TemplateEngine::new(
        patterns(),
        config.analysis.template_similarity_threshold,
        config.analysis.max_templates,
    );
    let template_id = templates.process(message, 0).id.0;
    shared.mute(template_id, None, u64::MAX);
    pipeline.handle(
        &event("cron.service", 200, message, 1),
        &mut shared,
        &floats(),
        &always(0.0),
    );
    assert_eq!(pipeline.summary(0, 0).muted, 1);
    assert_eq!(
        analysed(&mut pipeline, &mut shared),
        0,
        "Analyse-Engine darf ein gemutetes Ereignis nie sehen"
    );
}

#[test]
fn unbeteiligtes_ereignis_wird_normal_analysiert() {
    let (mut pipeline, mut shared) = test_pipeline();
    shared.suppress_unit("anderer.service", u64::MAX);
    shared.mute(999, None, u64::MAX);
    pipeline.handle(
        &event("sshd.service", 100, "eine ganz normale Zeile", 1),
        &mut shared,
        &floats(),
        &always(0.0),
    );
    let summary = pipeline.summary(0, 0);
    assert_eq!(summary.self_filtered, 0);
    assert_eq!(summary.muted, 0);
    assert_eq!(analysed(&mut pipeline, &mut shared), 1);
}

#[test]
fn an_anomaly_is_numbered_kept_and_sent() {
    let mut config = Config::default();
    config.analysis.learning_phase_minutes = 0;
    let (mut pipeline, mut shared) = pipeline_of(&config);
    let sent = pipeline.handle(
        &event("sshd.service", 100, "Failed password for root from 10.0.0.5", 1),
        &mut shared,
        &floats(),
        &always(1.0),
    );
    let sent = sent.expect("the highest score is an anomaly");
    assert_eq!(sent.id, 1);
    assert_eq!(sent.level, AnomalyLevel::Critical);
    assert_eq!(sent.sample_message, "Failed password for root from 10.0.0.5");
    assert!(sent.template_text.contains("<IP"), "{}", sent.template_text);
    assert_eq!(sent.pid, Some(100));
    assert_eq!(shared.recent_anomalies(), vec![sent]);
    let again = pipeline.handle(
        &event("sshd.service", 100, "Failed password for root from 10.0.0.6", 2),
        &mut shared,
        &floats(),
        &always(1.0),
    );
    assert!(again.is_none(), "the same template was reported a moment ago");
    let summary = pipeline.summary(3, 4);
    assert_eq!((summary.events, summary.anomalies, summary.templates), (2, 1, 1));
    assert_eq!((summary.dropped_overflow, summary.parse_errors), (3, 4));
    assert_eq!(summary.suppressed, 1);
}

#[test]
fn snapshots_tell_the_rate_since_the_last_one() {
    let (mut pipeline, mut shared) = test_pipeline();
    assert_eq!(pipeline.snapshot_interval_ms(), 1000);
    assert_eq!(pipeline.persist_interval_secs() % 60, 0);
    for i in 0..5u64 {
        pipeline.handle(
            &event("a.service", 1, "one and the same line", i),
            &mut shared,
            &floats(),
            &always(0.0),
        );
    }
    pipeline.publish_snapshot(10, 7, 1, 2, &mut shared, &floats());
    let first = shared.latest_snapshot();
    assert_eq!((first.timestamp_us, first.daemon_uptime_secs), (10, 7));
    assert_eq!((first.stats.parse_errors, first.stats.dropped_overflow), (1, 2));
    assert_eq!(first.stats.events, 5);
    assert_eq!(f64::from_bits(first.stats.events_per_sec), 5.0);
    assert_eq!(f64::from_bits(first.window.entropy_z), 0.25);
    pipeline.publish_snapshot(11, 8, 1, 2, &mut shared, &floats());
    assert_eq!(f64::from_bits(shared.latest_snapshot().stats.events_per_sec), 0.0);
}

#[test]
fn what_is_saved_can_be_restored() {
    let config = Config::default();
    let (mut pipeline, mut shared) = test_pipeline();
    for i in 0..20u64 {
        pipeline.handle(
            &event("a.service", 1, "one and the same line", i * 6_000_000),
            &mut shared,
            &floats(),
            &always(0.0),
        );
    }
    let saved = pipeline.state_to_save(&floats());
    assert_eq!(saved.templates.clusters.len(), 1);
    assert!(!saved.baselines.profiles.is_empty());
    let restored = Pipeline::new(&config, Some(saved), false, patterns(), &floats());
    assert_eq!(restored.summary(0, 0).templates, 1);
    assert_eq!(restored.summary(0, 0).events, 0);
}

#[test]
fn maintenance_is_kept_out_of_the_analysis() {
    let mut config = Config::default();
    config.analysis.learning_phase_minutes = 0;
    let (mut pipeline, mut shared) = pipeline_of(&config);
    let quiet = event("cron.service", 1, "(root) LIST (root)", 1);
    let sent = pipeline.handle(&quiet, &mut shared, &floats(), &always(1.0));
    assert!(sent.is_none(), "the highest score does not matter");
    assert_eq!(analysed(&mut pipeline, &mut shared), 0);
    let summary = pipeline.summary(0, 0);
    assert_eq!((summary.events, summary.muted, summary.self_filtered), (1, 0, 0));
    let (lines, _) = shared.query_context(1, 1, 1, None);
    assert_eq!(lines.len(), 1);
    config.quiet.templates.clear();
    let (mut pipeline, mut shared) = pipeline_of(&config);
    let sent = pipeline.handle(&quiet, &mut shared, &floats(), &always(1.0));
    assert!(sent.is_some());
}

#[test]
fn learning_is_active_before_the_first_event() {
    let (mut pipeline, mut shared) = test_pipeline();
    pipeline.publish_snapshot(10, 7, 1, 2, &mut shared, &floats());
    let minutes = Config::default().analysis.learning_phase_minutes;
    let learning = shared.latest_snapshot().learning;
    assert!(learning.active);
    assert_eq!(learning.remaining_secs, Some(minutes * 60));
}

#[test]
fn anomalies_are_numbered_from_one_on() {
    let mut config = Config::default();
    config.analysis.learning_phase_minutes = 0;
    config.analysis.cooldown_seconds = 0;
    let (mut pipeline, mut shared) = pipeline_of(&config);
    for i in 0..15u64 {
        let sent = pipeline.handle(
            &event("a.service", 1, "one and the same line", i),
            &mut shared,
            &floats(),
            &always(1.0),
        );
        assert_eq!(sent.expect("an anomaly").id, i + 1);
    }
    let kept: Vec<u64> = shared.recent_anomalies().iter().map(|anomaly| anomaly.id).collect();
    assert_eq!(kept, (6..=15).collect::<Vec<u64>>());
    assert_eq!(pipeline.summary(0, 0).anomalies, 15);
}
