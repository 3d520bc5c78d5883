//! The analysis of events.

use logsentry::config::AnalysisConfig;
use logsentry::engine::{
    AnalysisEngine, AnalysisInput, Anomaly, AnomalyLevel, Evidence, ScoreBreakdown, Scores,
    SurprisalBasis,
};
use logsentry::float::{is_at_least64, FloatOp, FloatUnit};
use logsentry::slot::Slot;
use logsentry::store::RateSource;
use logsentry::template::TemplateId;

const SEC: u64 = 1_000_000;

fn tid(n: u64) -> TemplateId {
    TemplateId(n)
}

fn median(values: &[f64]) -> Option<f64> {
    if values.is_empty() {
        return None;
    }
    let mut sorted = values.to_vec();
    sorted.sort_by(f64::total_cmp);
    let n = sorted.len();
    if n % 2 == 0 {
        Some((sorted[n / 2 - 1] + sorted[n / 2]) / 2.0)
    } else {
        Some(sorted[n / 2])
    }
}

fn robust_z(value: f64, values: &[f64], min_scale: f64) -> f64 {
    let Some(med) = median(values) else {
        return 0.0;
    };
    let deviations: Vec<f64> = values.iter().map(|v| (v - med).abs()).collect();
    let mad = median(&deviations).unwrap_or(0.0);
    ((value - med) / (mad / 0.6745).max(min_scale)).clamp(-50.0, 50.0)
}

fn entropy(counts: &[u64]) -> f64 {
    let total: u64 = counts.iter().sum();
    if total == 0 {
        return 0.0;
    }
    let sum: f64 = counts
        .iter()
        .filter(|&&count| count > 0)
        .map(|&count| {
            let p = count as f64 / total as f64;
            p * p.log2()
        })
        .sum();
    -sum + 0.0
}

fn surprisal(count: f64, total: f64, distinct: usize, alpha: f64) -> f64 {
    let p = (count + alpha) / (total + alpha * (distinct as f64 + 1.0));
    -p.clamp(f64::MIN_POSITIVE, 1.0).log2()
}

fn normalize(value: f64, reference: f64) -> f64 {
    if reference <= 0.0 {
        return 0.0;
    }
    (value / reference).clamp(0.0, 1.0)
}

fn noisy_or(signals: &[(f64, f64)]) -> f64 {
    let complement: f64 = signals
        .iter()
        .map(|(weight, component)| 1.0 - weight.clamp(0.0, 1.0) * component.clamp(0.0, 1.0))
        .product();
    (1.0 - complement).clamp(0.0, 1.0)
}

/// The floating-point part.
fn floats() -> FloatUnit<impl Fn(FloatOp) -> u64> {
    FloatUnit {
        eval: |op| match op {
            FloatOp::Decay { weight, elapsed, decay } => {
                let hours = f64::from_bits(decay.half_life_hours).max(0.0);
                let half_life = (hours * 3600.0 / decay.bucket_seconds as f64).max(1.0);
                let factor = 0.5_f64.powf(elapsed as f64 / half_life) as f32;
                (f32::from_bits(weight) * factor).to_bits() as u64
            }
            FloatOp::Increment { weight } => (f32::from_bits(weight) + 1.0).to_bits() as u64,
            FloatOp::Accumulate { total, weight } => {
                (f64::from_bits(total) + f64::from(f32::from_bits(weight))).to_bits()
            }
            FloatOp::ReachesHalf { cumulative, total } => {
                let half = f64::from_bits(total) / 2.0;
                let sum = f64::from_bits(cumulative);
                if sum < half {
                    0
                } else if (sum - half).abs() < 1e-9 {
                    1
                } else {
                    2
                }
            }
            FloatOp::ExitThreshold { threshold, factor } => {
                (f64::from_bits(threshold) * f64::from_bits(factor).clamp(0.0, 1.0)).to_bits()
            }
            FloatOp::Entropy { counts } => entropy(&counts).to_bits(),
            FloatOp::EntropyZ { entropy, history } => {
                let values: Vec<f64> = history.iter().map(|bits| f64::from_bits(*bits)).collect();
                robust_z(f64::from_bits(entropy), &values, 0.15).to_bits()
            }
            FloatOp::PerSecond { events, interval_ms } => {
                (events as f64 / (interval_ms as f64 / 1000.0).max(0.001)).to_bits()
            }
        },
    }
}

/// Scores evidence with the weights of the settings.
fn scores_of(evidence: &Evidence) -> Scores {
    let config = &evidence.settings;
    let bits = f64::from_bits;
    let rate_z = match evidence.rate.usual {
        None => 0.0,
        Some(usual) => {
            let med = usual.median_halves as f64 / 2.0;
            let mad = usual.deviation_quarters as f64 / 4.0;
            let floor = (med.max(0.0) + 1.0).sqrt().max(1.0);
            ((evidence.rate.count as f64 - med) / (mad / 0.6745).max(floor)).clamp(-50.0, 50.0)
        }
    };
    let alpha = bits(config.surprisal_smoothing_alpha).max(f64::EPSILON);
    let surprisal_bits = match evidence.surprisal {
        SurprisalBasis::Profile(share) => surprisal(
            f64::from(f32::from_bits(share.weight)).round(),
            bits(share.total).round(),
            share.distinct,
            alpha,
        ),
        SurprisalBasis::Window { count, total, distinct } => {
            surprisal(count as f64, total as f64, distinct, alpha)
        }
    };
    let history: Vec<f64> = evidence.entropy_history.iter().map(|e| bits(*e)).collect();
    let entropy_z = robust_z(entropy(&evidence.window_counts), &history, 0.15);
    let share = if evidence.window_len == 0 {
        0.0
    } else {
        evidence.window_count as f64 / evidence.window_len as f64
    };
    let rate_component = normalize(rate_z.max(0.0), bits(config.rate_z_reference));
    let surprisal_component = normalize(surprisal_bits, bits(config.surprisal_reference_bits));
    let entropy_component = normalize(entropy_z.abs(), bits(config.entropy_z_reference)) * share;
    let combined = noisy_or(&[
        (bits(config.weight_rate), rate_component),
        (bits(config.weight_surprisal), surprisal_component),
        (bits(config.weight_entropy), entropy_component),
    ]);
    Scores {
        rate_z: rate_z.to_bits(),
        surprisal_bits: surprisal_bits.to_bits(),
        entropy_z: entropy_z.to_bits(),
        rate_component: rate_component.to_bits(),
        surprisal_component: surprisal_component.to_bits(),
        entropy_component: entropy_component.to_bits(),
        combined: combined.to_bits(),
    }
}

/// An engine together with the floating-point part.
struct Analysis<F: Fn(FloatOp) -> u64, G: Fn(Evidence) -> Scores> {
    engine: AnalysisEngine,
    floats: FloatUnit<F>,
    score: G,
}

impl<F: Fn(FloatOp) -> u64, G: Fn(Evidence) -> Scores> Analysis<F, G> {
    fn event(&mut self, timestamp_us: u64, template: u64) -> Option<Anomaly> {
        self.engine.process(input(timestamp_us, template), &self.floats, &self.score)
    }

    /// Ten minutes in which four templates come once a second each.
    fn quiet_time(&mut self) -> usize {
        let mut anomalies: usize = 0;
        for i in 0..600u64 {
            for t in 0..4u64 {
                if self.event(i * SEC, t).is_some() {
                    anomalies += 1;
                }
            }
        }
        anomalies
    }
}

fn analysis(config: AnalysisConfig) -> Analysis<impl Fn(FloatOp) -> u64, impl Fn(Evidence) -> Scores> {
    Analysis {
        engine: AnalysisEngine::new(config),
        floats: floats(),
        score: |evidence: Evidence| scores_of(&evidence),
    }
}

fn input(timestamp_us: u64, template: u64) -> AnalysisInput<'static> {
    AnalysisInput {
        timestamp_us,
        template_id: tid(template),
        unit: None,
    }
}

fn test_config() -> AnalysisConfig {
    AnalysisConfig {
        learning_phase_minutes: 0,
        cooldown_seconds: 60,
        ..AnalysisConfig::default()
    }
}

fn learning_for(minutes: u64) -> AnalysisConfig {
    AnalysisConfig {
        learning_phase_minutes: minutes,
        ..AnalysisConfig::default()
    }
}

#[test]
fn lernphase_unterdrueckt_meldungen() {
    let mut a = analysis(learning_for(10));
    for i in 0..500u64 {
        let result = a.event(i * 1000, 1);
        assert!(result.is_none(), "während der Lernphase darf nichts gemeldet werden");
    }
    assert!(a.engine.stats().emitted == 0);
}

#[test]
fn lernphase_endet_nach_konfigurierter_dauer() {
    let mut a = analysis(learning_for(1));
    a.event(0, 1);
    assert!(a.engine.in_learning_phase(30 * SEC));
    assert!(!a.engine.in_learning_phase(120 * SEC));
}

#[test]
fn skip_learning_phase_beendet_die_lernphase_sofort() {
    let mut a = analysis(learning_for(60));
    assert!(a.engine.in_learning_phase(0));
    a.engine.skip_learning_phase();
    assert!(!a.engine.in_learning_phase(0));
    a.event(0, 1);
    assert!(!a.engine.in_learning_phase(SEC));
}

#[test]
fn learning_remaining_secs_ist_none_ausserhalb_der_lernphase() {
    let mut a = analysis(learning_for(1));
    a.event(0, 1);
    assert_eq!(a.engine.learning_remaining_secs(120 * SEC), None);
}

#[test]
fn learning_remaining_secs_zaehlt_bis_zum_ende_der_lernphase_herunter() {
    let mut a = analysis(learning_for(1));
    a.event(0, 1);
    assert_eq!(a.engine.learning_remaining_secs(10 * SEC), Some(50));
}

#[test]
fn distinct_templates_und_entropy_z_spiegeln_das_fenster_ohne_ereignis() {
    let mut a = analysis(test_config());
    assert_eq!(a.engine.distinct_templates(), 0);
    a.event(0, 1);
    a.event(1, 2);
    assert_eq!(a.engine.distinct_templates(), 2);
    assert!(f64::from_bits(a.engine.current_entropy_z(&a.floats)).is_finite());
    assert!((f64::from_bits(a.engine.current_entropy(&a.floats)) - 1.0).abs() < 1e-9);
}

#[test]
fn window_seconds_liefert_konfigurierte_fenstergroesse() {
    let a = analysis(AnalysisConfig {
        window_seconds: 42,
        ..AnalysisConfig::default()
    });
    assert_eq!(a.engine.window_seconds(), 42);
}

#[test]
fn ruhiger_normalbetrieb_meldet_nichts() {
    let mut a = analysis(test_config());
    assert_eq!(
        a.quiet_time(),
        0,
        "gleichmäßiger Normalbetrieb darf keine Anomalien erzeugen"
    );
}

#[test]
fn ploetzlicher_burst_eines_neuen_templates_wird_gemeldet() {
    let mut a = analysis(test_config());
    a.quiet_time();
    let mut found = None;
    for i in 0..200u64 {
        if let Some(anomaly) = a.event(600 * SEC + i * 100_000, 7) {
            found = Some(anomaly);
            break;
        }
    }
    let anomaly = found.expect("neues Template im Burst muss eine Anomalie auslösen");
    assert!(anomaly.level >= AnomalyLevel::Info);
    let bits = f64::from_bits(anomaly.breakdown.scores.surprisal_bits);
    assert!(bits > 5.0, "das Surprisal muss der treibende Anteil sein, war {bits}");
}

#[test]
fn cooldown_verhindert_wiederholte_meldungen() {
    let mut a = analysis(AnalysisConfig {
        learning_phase_minutes: 0,
        cooldown_seconds: 3600,
        ..AnalysisConfig::default()
    });
    a.quiet_time();
    let mut level_verlauf: Vec<AnomalyLevel> = Vec::new();
    for i in 0..500u64 {
        if let Some(anomaly) = a.event(600 * SEC + i * 100_000, 7) {
            level_verlauf.push(anomaly.level);
        }
    }
    assert!(
        level_verlauf.len() <= 3,
        "höchstens eine Meldung je Stufe erwartet, war {level_verlauf:?}"
    );
    assert!(
        level_verlauf.windows(2).all(|paar| paar[1] > paar[0]),
        "aufeinanderfolgende Meldungen müssen echte Verschärfungen sein, war {level_verlauf:?}"
    );
    assert!(
        a.engine.stats().suppressed > 0,
        "die übrigen Ereignisse müssen unterdrückt worden sein"
    );
}

#[test]
fn verschaerfung_durchbricht_die_sperrzeit() {
    let mut a = analysis(AnalysisConfig {
        learning_phase_minutes: 0,
        cooldown_seconds: 86_400,
        ..AnalysisConfig::default()
    });
    a.quiet_time();
    let mut level_verlauf: Vec<AnomalyLevel> = Vec::new();
    for i in 0..600u64 {
        if let Some(anomaly) = a.event(600 * SEC + i * 50_000, 7) {
            level_verlauf.push(anomaly.level);
        }
    }
    assert!(
        level_verlauf.len() >= 2,
        "trotz Sperrzeit muss eine Verschärfung durchkommen, war {level_verlauf:?}"
    );
    assert!(
        level_verlauf.last() > level_verlauf.first(),
        "das Level muss sich verschärfen, war {level_verlauf:?}"
    );
    let mut sortiert = level_verlauf.clone();
    sortiert.dedup();
    assert_eq!(
        sortiert.len(),
        level_verlauf.len(),
        "gleiches Level darf innerhalb der Sperrzeit nicht erneut melden"
    );
}

#[test]
fn unterdrueckte_meldungen_werden_gezaehlt_und_weitergereicht() {
    let mut a = analysis(AnalysisConfig {
        learning_phase_minutes: 0,
        cooldown_seconds: 30,
        ..AnalysisConfig::default()
    });
    a.quiet_time();
    let mut anomalies: Vec<Anomaly> = Vec::new();
    for burst in 0..4u64 {
        let base = (600 + burst * 120) * SEC;
        for s in 0..120u64 {
            for t in 0..4u64 {
                a.event(base + s * SEC, t);
            }
        }
        for i in 0..30u64 {
            if let Some(anomaly) = a.event(base + 60 * SEC + i * 100_000, 7) {
                anomalies.push(anomaly);
            }
        }
    }
    assert!(
        anomalies.len() >= 2,
        "nach Ablauf der Sperrzeit sollte erneut gemeldet werden, waren {}",
        anomalies.len()
    );
    assert!(
        anomalies[1].suppressed_since_last > 0,
        "die Zahl der unterdrückten Meldungen muss weitergereicht werden"
    );
    assert!(a.engine.stats().suppressed > 0);
}

fn thresholds() -> AnalysisConfig {
    AnalysisConfig {
        score_info_threshold: 0.3f64.to_bits(),
        score_warn_threshold: 0.5f64.to_bits(),
        score_critical_threshold: 0.8f64.to_bits(),
        ..AnalysisConfig::default()
    }
}

#[test]
fn hysterese_haelt_level_bis_deutlich_unter_die_schwelle() {
    let a = analysis(AnalysisConfig {
        hysteresis_exit_factor: 0.8f64.to_bits(),
        ..thresholds()
    });
    let level = a
        .engine
        .level_with_hysteresis(AnomalyLevel::Normal, 0.55f64.to_bits(), &a.floats);
    assert_eq!(level, AnomalyLevel::Warn);
    let level = a.engine.level_with_hysteresis(level, 0.45f64.to_bits(), &a.floats);
    assert_eq!(level, AnomalyLevel::Warn, "Hysterese muss das Level halten");
    let level = a.engine.level_with_hysteresis(level, 0.1f64.to_bits(), &a.floats);
    assert_eq!(level, AnomalyLevel::Normal);
}

#[test]
fn hoehere_scores_ergeben_hoehere_level() {
    let a = analysis(thresholds());
    let level = |score: f64| {
        a.engine
            .level_with_hysteresis(AnomalyLevel::Normal, score.to_bits(), &a.floats)
    };
    assert_eq!(level(0.1), AnomalyLevel::Normal);
    assert_eq!(level(0.35), AnomalyLevel::Info);
    assert_eq!(level(0.6), AnomalyLevel::Warn);
    assert_eq!(level(0.9), AnomalyLevel::Critical);
}

#[test]
fn score_bleibt_immer_zwischen_null_und_eins() {
    let mut a = analysis(test_config());
    for i in 0..300u64 {
        a.event(i * SEC, i % 5);
    }
    for i in 0..300u64 {
        let evidence = a
            .engine
            .observe(&input(300 * SEC, i % 7), Slot(0), &a.floats);
        let combined = f64::from_bits(scores_of(&evidence).combined);
        assert!((0.0..=1.0).contains(&combined), "Score außerhalb 0..1: {combined}");
    }
}

#[test]
fn engine_paniked_nicht_bei_pathologischen_eingaben() {
    let mut a = analysis(test_config());
    a.event(0, 1);
    a.event(u64::MAX, 1);
    a.event(0, 1);
    a.event(u64::MAX / 2, 999_999);
    assert!(a.engine.stats().processed == 4);
}

#[test]
fn the_decision_follows_the_score_alone() {
    let mut a = analysis(AnalysisConfig {
        learning_phase_minutes: 0,
        ..thresholds()
    });
    let event = input(SEC, 3);
    let evidence = a.engine.observe(&event, Slot(5), &a.floats);
    assert_eq!(evidence.window_len, 1);
    assert_eq!(evidence.window_counts, vec![1]);
    assert_eq!(evidence.rate.source, RateSource::ShortTerm);
    let scored = |combined: f64| ScoreBreakdown {
        scores: Scores {
            rate_z: 0,
            surprisal_bits: 0,
            entropy_z: 0,
            rate_component: 0,
            surprisal_component: 0,
            entropy_component: 0,
            combined: combined.to_bits(),
        },
        rate_source: RateSource::ShortTerm,
    };
    assert_eq!(a.engine.decide(&event, scored(0.2), &a.floats), None);
    let warned = a.engine.decide(&event, scored(0.6), &a.floats).expect("a warning");
    assert_eq!(warned.level, AnomalyLevel::Warn);
    assert_eq!(warned.timestamp_us, SEC);
    assert_eq!(a.engine.decide(&event, scored(0.7), &a.floats), None);
    let critical = a.engine.decide(&event, scored(0.9), &a.floats).expect("it got worse");
    assert_eq!(critical.level, AnomalyLevel::Critical);
    assert_eq!(critical.suppressed_since_last, 1);
    let stats = a.engine.stats();
    assert_eq!((stats.processed, stats.emitted, stats.suppressed), (1, 2, 1));
}

#[test]
fn levels_have_names_and_an_order() {
    let levels = [
        AnomalyLevel::Normal,
        AnomalyLevel::Info,
        AnomalyLevel::Warn,
        AnomalyLevel::Critical,
    ];
    let names: Vec<&str> = levels.iter().map(|level| level.as_str()).collect();
    assert_eq!(names, ["normal", "info", "warn", "critical"]);
    for (place, level) in levels.iter().enumerate() {
        assert_eq!(usize::from(level.rank()), place);
    }
}

#[test]
fn baselines_survive_a_restart() {
    let mut a = analysis(test_config());
    a.quiet_time();
    let snapshot = a.engine.baseline_snapshot();
    assert!(!snapshot.profiles.is_empty());
    let mut b = analysis(test_config());
    b.engine.restore_baselines(snapshot.clone());
    let again = b.engine.baseline_snapshot();
    assert_eq!(again.profiles.len(), snapshot.profiles.len());
    assert_eq!(again.histograms.len(), snapshot.histograms.len());
    assert_eq!(
        a.engine.has_trusted_baselines(&a.floats),
        b.engine.has_trusted_baselines(&b.floats)
    );
}

#[test]
fn bits_are_compared_like_the_numbers() {
    let numbers = [f64::NEG_INFINITY, -2.5, -0.0, 0.0, 1e-300, 0.5, 3.0, f64::INFINITY, f64::NAN];
    for a in numbers {
        for b in numbers {
            assert_eq!(is_at_least64(a.to_bits(), b.to_bits()), a >= b, "{a} and {b}");
        }
    }
}

#[test]
fn the_whole_learning_is_left_before_the_first_event() {
    let mut a = analysis(learning_for(3));
    assert!(a.engine.in_learning_phase(7 * SEC));
    assert_eq!(a.engine.learning_remaining_secs(7 * SEC), Some(180));
    a.event(7 * SEC, 1);
    assert_eq!(a.engine.learning_remaining_secs(7 * SEC), Some(180));
    assert_eq!(a.engine.learning_remaining_secs(8 * SEC + 1), Some(178));
    assert_eq!(a.engine.learning_remaining_secs(187 * SEC), None);
    a.engine.skip_learning_phase();
    assert_eq!(a.engine.learning_remaining_secs(8 * SEC), None);
}

#[test]
fn cooldown_holds_any_number_of_reports_back() {
    let mut a = analysis(test_config());
    let scored = |combined: f64| ScoreBreakdown {
        scores: Scores {
            rate_z: 0,
            surprisal_bits: 0,
            entropy_z: 0,
            rate_component: 0,
            surprisal_component: 0,
            entropy_component: 0,
            combined: combined.to_bits(),
        },
        rate_source: RateSource::Nowhere,
    };
    let quiet = |evidence: Evidence| {
        let _ = evidence;
        scored(0.0).scores
    };
    assert!(a.engine.process(input(0, 1), &a.floats, &quiet).is_none());
    let info = f64::from_bits(AnalysisConfig::default().score_info_threshold);
    let critical = f64::from_bits(AnalysisConfig::default().score_critical_threshold);
    let first = a.engine.decide(&input(SEC, 1), scored(info), &a.floats).expect("reported");
    assert_eq!(first.level, AnomalyLevel::Info);
    for i in 0..25u64 {
        assert!(a.engine.decide(&input((2 + i) * SEC, 1), scored(info), &a.floats).is_none());
        let other = a.engine.decide(&input((2 + i) * SEC, 2), scored(info), &a.floats);
        assert_eq!(other.is_some(), i == 0, "another template has a cooldown of its own");
    }
    let risen = a.engine.decide(&input(30 * SEC, 1), scored(critical), &a.floats).expect("risen");
    assert_eq!(risen.level, AnomalyLevel::Critical);
    assert_eq!(risen.suppressed_since_last, 25);
}

#[test]
fn every_deviation_is_counted_in_one_place() {
    let mut a = analysis(AnalysisConfig { learning_phase_minutes: 1, cooldown_seconds: 60, ..AnalysisConfig::default() });
    let loud = |_: Evidence| Scores {
        rate_z: 0,
        surprisal_bits: 0,
        entropy_z: 0,
        rate_component: 0,
        surprisal_component: 0,
        entropy_component: 0,
        combined: 1.0f64.to_bits(),
    };
    for i in 0..200u64 {
        a.engine.process(input(i * SEC, i % 3), &a.floats, &loud);
    }
    let stats = a.engine.stats();
    assert_eq!(stats.processed, 200);
    assert_eq!(stats.suppressed_learning, 60);
    assert_eq!(stats.emitted + stats.suppressed + stats.suppressed_learning, 200);
    assert!(stats.emitted >= 3 && stats.suppressed > 0);
}

#[test]
fn events_are_scored_by_the_settings_of_the_engine() {
    let config = AnalysisConfig { weight_rate: 0.125f64.to_bits(), ..test_config() };
    let mut a = analysis(config);
    let evidence = a.engine.observe(&input(SEC, 1), Slot(0), &a.floats);
    assert_eq!(evidence.settings.weight_rate, 0.125f64.to_bits());
    assert_eq!(evidence.settings.cooldown_seconds, test_config().cooldown_seconds);
}
