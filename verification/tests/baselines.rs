//! Histograms, profiles, the store of baselines, and what is saved of them.

use std::collections::BTreeMap;

use logsentry::bytes;
use logsentry::config::BaselineConfig;
use logsentry::decay::DecayParams;
use logsentry::float::{FloatOp, FloatUnit};
use logsentry::histogram::{CountHistogram, HistogramConfig};
use logsentry::mask::MaskPatterns;
use logsentry::persist::{
    aside_name, backup_extension, check_hostname, dump_head, fresh_meta, migrate_one, next_migration,
    pack_key, read_schema_version, save_steps, schema_step, state_of, unpack_key, HostnameStep,
    PersistError, PersistedState, SchemaStep, StoredRows, WriteStep, SCHEMA_VERSION,
};
use logsentry::profile::{ProfileConfig, ProfileShare, UnitProfile};
use logsentry::slot::Slot;
use logsentry::store::{
    unit_key_from_name, BaselineKey, BaselineRate, BaselineSnapshot, BaselineStore, RateSource,
};
use logsentry::template::{Share, TemplateEngine, TemplateId, TemplateRecord};

/// The half-life in buckets.
fn half_life(decay: &DecayParams) -> f64 {
    let hours = f64::from_bits(decay.half_life_hours).max(0.0);
    (hours * 3600.0 / decay.bucket_seconds as f64).max(1.0)
}

/// The floating-point part.
fn floats() -> FloatUnit<impl Fn(FloatOp) -> u64> {
    FloatUnit {
        eval: |op| match op {
            FloatOp::Decay { weight, elapsed, decay } => {
                let factor = 0.5_f64.powf(elapsed as f64 / half_life(&decay)) as f32;
                (f32::from_bits(weight) * factor).to_bits() as u64
            }
            FloatOp::Increment { weight } => (f32::from_bits(weight) + 1.0).to_bits() as u64,
            FloatOp::Accumulate { total, weight } => {
                (f64::from_bits(total) + f64::from(f32::from_bits(weight))).to_bits()
            }
            FloatOp::ReachesHalf { cumulative, total } => {
                let half = f64::from_bits(total) / 2.0;
                let sum = f64::from_bits(cumulative);
                if sum < half {
                    0
                } else if (sum - half).abs() < 1e-9 {
                    1
                } else {
                    2
                }
            }
            FloatOp::ExitThreshold { threshold, factor } => {
                (f64::from_bits(threshold) * f64::from_bits(factor).clamp(0.0, 1.0)).to_bits()
            }
            FloatOp::Entropy { .. } => 0,
            FloatOp::EntropyZ { .. } => 0,
            FloatOp::PerSecond { .. } => 0,
        },
    }
}

fn hist_config(half_life_buckets: f64, max_bins: usize) -> HistogramConfig {
    HistogramConfig { decay: DecayParams::from_buckets(half_life_buckets.to_bits()), max_bins }
}

fn profile_config(half_life_buckets: f64, max_templates: usize) -> ProfileConfig {
    ProfileConfig { decay: DecayParams::from_buckets(half_life_buckets.to_bits()), max_templates }
}

fn tid(n: u64) -> TemplateId {
    TemplateId(n)
}

fn weight(histogram: &CountHistogram) -> f64 {
    f64::from_bits(histogram.total_weight(&floats()))
}

/// Median and deviation as numbers.
fn median_mad(histogram: &CountHistogram) -> Option<(f64, f64)> {
    histogram
        .median_mad(&floats())
        .map(|(halves, quarters)| (halves as f64 / 2.0, quarters as f64 / 4.0))
}

fn surprisal(count: u64, total: u64, distinct: usize, alpha: f64) -> f64 {
    let numerator = count as f64 + alpha;
    let denominator = total as f64 + alpha * (distinct as f64 + 1.0);
    -(numerator / denominator).clamp(f64::MIN_POSITIVE, 1.0).log2()
}

fn surprisal_of(share: ProfileShare, alpha: f64) -> f64 {
    let count = f64::from(f32::from_bits(share.weight)).round() as u64;
    let total = f64::from_bits(share.total).round() as u64;
    surprisal(count, total, share.distinct, alpha)
}

#[test]
fn leeres_histogramm_hat_kein_median_mad() {
    let hist = CountHistogram::default();
    assert_eq!(hist.median_mad(&floats()), None);
    assert_eq!(weight(&hist), 0.0);
    assert!(!hist.is_trusted(0.0001f64.to_bits(), &floats()));
}

#[test]
fn median_und_mad_gegen_bekannte_werte() {
    let mut hist = CountHistogram::default();
    for v in [1u32, 1, 1, 1, 1, 2, 3] {
        hist.observe(v, 0, &hist_config(1000.0, 32), &floats());
    }
    let (median, mad) = median_mad(&hist).expect("nicht leer");
    assert!((median - 1.0).abs() < 1e-9, "Median war {median}");
    assert!((mad - 0.0).abs() < 1e-9, "MAD war {mad}");
}

#[test]
fn median_bei_gerader_gewichtssumme_mittelt() {
    let mut hist = CountHistogram::default();
    hist.observe(2, 0, &hist_config(1000.0, 32), &floats());
    hist.observe(4, 0, &hist_config(1000.0, 32), &floats());
    let (median, _) = median_mad(&hist).expect("nicht leer");
    assert!((median - 3.0).abs() < 1e-9, "Median war {median}");
}

#[test]
fn gewicht_steigt_mit_jeder_beobachtung() {
    let mut hist = CountHistogram::default();
    hist.observe(1, 0, &hist_config(1000.0, 32), &floats());
    assert!((weight(&hist) - 1.0).abs() < 1e-6);
    hist.observe(1, 0, &hist_config(1000.0, 32), &floats());
    assert!((weight(&hist) - 2.0).abs() < 1e-6);
}

#[test]
fn zerfall_halbiert_gewicht_nach_einer_halbwertszeit() {
    let mut hist = CountHistogram::default();
    hist.observe(5, 0, &hist_config(10.0, 32), &floats());
    assert!((weight(&hist) - 1.0).abs() < 1e-6);
    hist.observe(5, 10, &hist_config(10.0, 32), &floats());
    assert!((weight(&hist) - 1.5).abs() < 1e-6, "Gesamtgewicht war {}", weight(&hist));
}

#[test]
fn verspaetete_beobachtung_loest_keinen_negativen_zerfall_aus() {
    let mut hist = CountHistogram::default();
    hist.observe(5, 100, &hist_config(10.0, 32), &floats());
    let gewicht_vorher = weight(&hist);
    hist.observe(5, 50, &hist_config(10.0, 32), &floats());
    assert!(weight(&hist) >= gewicht_vorher);
    assert_eq!(hist.last_touched_bucket(), 100);
}

#[test]
fn winzige_gewichte_werden_nach_starkem_zerfall_entfernt() {
    let mut hist = CountHistogram::default();
    hist.observe(7, 0, &hist_config(1.0, 32), &floats());
    hist.observe(9, 1000, &hist_config(1.0, 32), &floats());
    assert!(
        median_mad(&hist).is_some_and(|(m, _)| (m - 9.0).abs() < 1e-9),
        "die uralte Beobachtung darf den Median nicht mehr verfälschen"
    );
}

#[test]
fn sammelbin_erzwingt_die_max_bins_obergrenze() {
    let mut hist = CountHistogram::default();
    for v in [1u32, 2, 3, 4, 5] {
        hist.observe(v, 0, &hist_config(1000.0, 3), &floats());
    }
    assert!(hist.bins().len() <= 3, "Obergrenze verletzt: {} Bins", hist.bins().len());
    assert!((weight(&hist) - 5.0).abs() < 1e-6);
}

#[test]
fn vertrauensschwelle_greift_erst_ab_ausreichendem_gewicht() {
    let mut hist = CountHistogram::default();
    for _ in 0..5u32 {
        hist.observe(2, 0, &hist_config(1000.0, 32), &floats());
    }
    assert!(!hist.is_trusted(10.0f64.to_bits(), &floats()));
    assert!(hist.is_trusted(5.0f64.to_bits(), &floats()));
}

#[test]
fn weighted_median_stimmt_mit_unklassiertem_median_ueberein() {
    let mut hist = CountHistogram::default();
    for v in [7u32, 2, 9, 4, 4] {
        hist.observe(v, 0, &hist_config(1000.0, 32), &floats());
    }
    let (median, _) = median_mad(&hist).expect("nicht leer");
    assert!((median - 4.0).abs() < 1e-9, "war {median}");
}

#[test]
fn weighted_median_leerer_eingabe_ist_none() {
    let hist = CountHistogram::from_bins(Vec::new(), 0);
    assert_eq!(hist.median_mad(&floats()), None);
}

#[test]
fn a_copy_of_a_histogram_is_equal() {
    let mut hist = CountHistogram::default();
    hist.observe(7, 3, &hist_config(1000.0, 32), &floats());
    assert_eq!(hist.duplicate(), hist);
}

#[test]
fn leeres_profil_ist_nicht_vertrauenswuerdig() {
    let profile = UnitProfile::default();
    assert!(!profile.is_trusted(0.0001f64.to_bits(), &floats()));
    assert_eq!(f64::from_bits(profile.total_weight(&floats())), 0.0);
    assert_eq!(profile.distinct_templates(), 0);
}

#[test]
fn gewicht_steigt_mit_wiederholten_beobachtungen() {
    let mut profile = UnitProfile::default();
    for _ in 0..5u32 {
        profile.observe(tid(1), 0, &profile_config(1000.0, 100), &floats());
    }
    assert!((f32::from_bits(profile.weight_of(tid(1))) - 5.0).abs() < 1e-6);
    assert_eq!(profile.distinct_templates(), 1);
}

#[test]
fn zerfall_wirkt_wie_beim_histogramm() {
    let mut profile = UnitProfile::default();
    profile.observe(tid(1), 0, &profile_config(10.0, 100), &floats());
    profile.observe(tid(1), 10, &profile_config(10.0, 100), &floats());
    let got = f32::from_bits(profile.weight_of(tid(1)));
    assert!((got - 1.5).abs() < 1e-6, "war {got}");
}

#[test]
fn obergrenze_verwirft_das_leichteste_template() {
    let mut profile = UnitProfile::default();
    for id in [1u64, 1, 1, 2, 3, 4] {
        profile.observe(tid(id), 0, &profile_config(1000.0, 3), &floats());
    }
    assert!(profile.distinct_templates() <= 3, "Obergrenze verletzt");
    assert!(
        f32::from_bits(profile.weight_of(tid(1))) > 0.0,
        "das schwerste Template darf nicht verworfen werden"
    );
}

#[test]
fn surprisal_ohne_ausreichendes_gewicht_ist_none() {
    let mut profile = UnitProfile::default();
    profile.observe(tid(1), 0, &profile_config(1000.0, 100), &floats());
    assert_eq!(profile.share_of(tid(1), 200.0f64.to_bits(), &floats()), None);
}

#[test]
fn surprisal_haeufigen_templates_ist_niedrig() {
    let mut profile = UnitProfile::default();
    for _ in 0..9000u32 {
        profile.observe(tid(1), 0, &profile_config(1_000_000.0, 1000), &floats());
    }
    for i in 0..50u64 {
        profile.observe(tid(2 + i), 0, &profile_config(1_000_000.0, 1000), &floats());
    }
    let share = profile
        .share_of(tid(1), 200.0f64.to_bits(), &floats())
        .expect("Profil sollte vertrauenswürdig sein");
    let s = surprisal_of(share, 0.5);
    assert!(s < 1.0, "häufiges Template sollte niedriges Surprisal haben, war {s}");
}

#[test]
fn surprisal_stimmt_mit_der_geteilten_formel_ueberein() {
    let mut profile = UnitProfile::default();
    for _ in 0..100u32 {
        profile.observe(tid(1), 0, &profile_config(1_000_000.0, 1000), &floats());
    }
    for _ in 0..900u32 {
        profile.observe(tid(2), 0, &profile_config(1_000_000.0, 1000), &floats());
    }
    let share = profile
        .share_of(tid(1), 10.0f64.to_bits(), &floats())
        .expect("vertrauenswürdig");
    let aus_profil = surprisal_of(share, 0.5);
    let erwartet = surprisal(100, 1000, 2, 0.5);
    assert!(
        (aus_profil - erwartet).abs() < 1e-6,
        "Profil-Surprisal ({aus_profil}) muss der geteilten Formel ({erwartet}) entsprechen"
    );
}

#[test]
fn neues_unbeobachtetes_template_hat_hohes_surprisal() {
    let mut profile = UnitProfile::default();
    for _ in 0..500u32 {
        profile.observe(tid(1), 0, &profile_config(1_000_000.0, 1000), &floats());
    }
    let share = profile
        .share_of(tid(999), 200.0f64.to_bits(), &floats())
        .expect("Profil sollte vertrauenswürdig sein");
    let s = surprisal_of(share, 0.5);
    assert!(s > 5.0, "unbekanntes Template sollte hohes Surprisal haben, war {s}");
}

const BASE_US: u64 = 1_768_478_400_000_000;
const BUCKET_SECONDS: u64 = 5;
const BUCKET_US: u64 = 5_000_000;

fn test_config() -> BaselineConfig {
    BaselineConfig {
        half_life_hours: 1_000_000.0f64.to_bits(),
        min_weight: 3.0f64.to_bits(),
        profile_min_weight: 3.0f64.to_bits(),
        profile_max_templates: 100,
        max_bins: 32,
        max_baselines: 20_000,
    }
}

fn t(bucket: u64) -> u64 {
    BASE_US + bucket * BUCKET_US
}

/// The robust score of a count against a baseline.
fn z_of(count: u32, rate: BaselineRate) -> f64 {
    let median = rate.median_halves as f64 / 2.0;
    let mad = rate.deviation_quarters as f64 / 4.0;
    let floor = (median + 1.0).sqrt().max(1.0);
    ((f64::from(count) - median) / (mad / 0.6745).max(floor)).clamp(-50.0, 50.0)
}

fn histogram_of(store: &BaselineStore, unit_key: u64, template: TemplateId, slot: Slot) -> Option<CountHistogram> {
    let key = BaselineKey { unit_key, template_id: template, slot };
    store
        .snapshot()
        .histograms
        .into_iter()
        .find(|(k, _)| *k == key)
        .map(|(_, hist)| hist)
}

fn weight_in(store: &BaselineStore, unit_key: u64, template: TemplateId, slot: Slot) -> f64 {
    histogram_of(store, unit_key, template, slot).map_or(0.0, |hist| weight(&hist))
}

#[test]
fn frischer_store_hat_keine_vertrauenswuerdigen_baselines() {
    let store = BaselineStore::new(BUCKET_SECONDS, &test_config());
    assert!(!store.has_trusted_baselines(&floats()));
    assert!(store.baseline_rate(t(0), 1, tid(1), &floats()).is_none());
    assert!(store.profile_share(1, tid(1), &floats()).is_none());
}

#[test]
fn ein_einzelnes_ereignis_committet_noch_nichts() {
    let mut store = BaselineStore::new(BUCKET_SECONDS, &test_config());
    store.record(t(0), 1, tid(1), &floats());
    assert_eq!(store.histogram_count(), 0);
}

#[test]
fn zweites_ereignis_in_neuem_bucket_committet_das_erste() {
    let mut store = BaselineStore::new(BUCKET_SECONDS, &test_config());
    store.record(t(0), 1, tid(1), &floats());
    store.record(t(1), 1, tid(1), &floats());
    let slot = Slot::from_timestamp_us(t(0));
    assert!((weight_in(&store, 1, tid(1), slot) - 1.0).abs() < 1e-6);
    assert!((weight_in(&store, 1, tid(1), Slot::any()) - 1.0).abs() < 1e-6);
}

#[test]
fn nullbeobachtung_nur_fuer_bekanntes_template_in_aktivem_bucket() {
    let mut store = BaselineStore::new(BUCKET_SECONDS, &test_config());
    let slot = Slot::from_timestamp_us(t(0));
    store.record(t(0), 1, tid(1), &floats());
    store.record(t(0), 1, tid(2), &floats());
    store.record(t(5), 1, tid(2), &floats());
    store.record(t(10), 1, tid(2), &floats());

    assert!(
        (weight_in(&store, 1, tid(1), slot) - 2.0).abs() < 1e-6,
        "X sollte in Bucket 5 eine Nullbeobachtung bekommen haben"
    );
    let x = histogram_of(&store, 1, tid(1), slot).expect("Histogramm vorhanden");
    let (median_x, _) = median_mad(&x).expect("Histogramm vorhanden");
    assert!(
        (median_x - 0.5).abs() < 1e-6,
        "Median aus {{1,0}} sollte 0.5 sein, war {median_x}"
    );
    let y = histogram_of(&store, 1, tid(2), slot).expect("Histogramm vorhanden");
    let (median_y, mad_y) = median_mad(&y).expect("Histogramm vorhanden");
    assert!((median_y - 1.0).abs() < 1e-6, "Y feuerte immer, Median sollte 1 sein");
    assert!((mad_y - 0.0).abs() < 1e-6);
}

#[test]
fn stille_luecke_ohne_jede_aktivitaet_erzeugt_keine_nullbeobachtung() {
    let mut store = BaselineStore::new(BUCKET_SECONDS, &test_config());
    let slot = Slot::from_timestamp_us(t(0));
    store.record(t(0), 1, tid(1), &floats());
    store.record(t(10_000), 1, tid(1), &floats());
    store.record(t(10_001), 1, tid(1), &floats());
    let got = weight_in(&store, 1, tid(1), slot);
    assert!(
        got <= 2.5,
        "stille Lücke darf keine Nullbeobachtungen erzeugt haben, Gewicht war {got}"
    );
}

#[test]
fn rate_z_nutzt_slot_baseline_wenn_vertrauenswuerdig() {
    let mut store = BaselineStore::new(BUCKET_SECONDS, &test_config());
    for bucket in 0..5u64 {
        store.record(t(bucket * 2), 1, tid(1), &floats());
        store.record(t(bucket * 2), 1, tid(1), &floats());
        store.record(t(bucket * 2 + 1), 1, tid(99), &floats());
    }
    let (rate, source) = store
        .baseline_rate(t(20), 1, tid(1), &floats())
        .expect("sollte trainiert sein");
    let z = z_of(40, rate);
    assert_eq!(source, RateSource::SlotBaseline);
    assert!(z > 3.0, "starker Ausschlag sollte hohen Z-Score liefern, war {z}");
}

#[test]
fn rate_z_faellt_auf_any_slot_zurueck_wenn_slot_selbst_nicht_traegt() {
    let cfg = BaselineConfig {
        min_weight: 5.0f64.to_bits(),
        ..test_config()
    };
    let mut store = BaselineStore::new(BUCKET_SECONDS, &cfg);
    for hour in 0..10u64 {
        let base = BASE_US + hour * 3600 * 1_000_000;
        store.record(base, 1, tid(1), &floats());
        store.record(base + BUCKET_US, 1, tid(2), &floats());
    }
    let (_, source) = store
        .baseline_rate(BASE_US, 1, tid(1), &floats())
        .expect("ANY-Slot sollte tragen");
    assert_eq!(source, RateSource::AnySlotBaseline);
}

#[test]
fn rate_z_ohne_jede_baseline_ist_none() {
    let store = BaselineStore::new(BUCKET_SECONDS, &test_config());
    assert!(store.baseline_rate(t(0), 1, tid(1), &floats()).is_none());
}

#[test]
fn surprisal_konsistent_mit_unit_profile() {
    let mut store = BaselineStore::new(BUCKET_SECONDS, &test_config());
    for _ in 0..10u32 {
        store.record(t(0), 1, tid(1), &floats());
    }
    let share = store.profile_share(1, tid(1), &floats()).expect("sollte trainiert sein");
    let s = surprisal_of(share, 0.5);
    assert!(s.is_finite());
    assert!(s >= 0.0);
}

#[test]
fn enforce_limits_haelt_die_obergrenze_ein() {
    let cfg = BaselineConfig {
        max_baselines: 6,
        ..test_config()
    };
    let mut store = BaselineStore::new(BUCKET_SECONDS, &cfg);
    for unit in 0..10u64 {
        store.record(t(0), unit, tid(1), &floats());
        store.record(t(1), unit, tid(1), &floats());
    }
    assert!(store.histogram_count() > 6);
    store.enforce_limits(&floats());
    assert!(
        store.histogram_count() <= 6,
        "Obergrenze verletzt: {}",
        store.histogram_count()
    );
}

#[test]
fn enforce_limits_deckelt_auch_unit_profile_und_unit_states() {
    let cfg = BaselineConfig {
        max_baselines: 6,
        ..test_config()
    };
    let mut store = BaselineStore::new(BUCKET_SECONDS, &cfg);
    for unit in 0..20u64 {
        store.record(t(unit), unit, tid(1), &floats());
    }
    assert!(store.unit_profile_count() > 6);
    assert!(store.unit_state_count() > 6);
    store.enforce_limits(&floats());
    assert!(
        store.unit_profile_count() <= 6,
        "unit_profiles-Obergrenze verletzt: {}",
        store.unit_profile_count()
    );
    assert!(
        store.unit_state_count() <= 6,
        "unit_states-Obergrenze verletzt: {}",
        store.unit_state_count()
    );
}

#[test]
fn enforce_limits_bevorzugt_schwerere_eintraege() {
    let cfg = BaselineConfig {
        max_baselines: 4,
        ..test_config()
    };
    let mut store = BaselineStore::new(BUCKET_SECONDS, &cfg);
    let slot = Slot::from_timestamp_us(t(0));
    for bucket in 0..10u64 {
        for _ in 0..5u32 {
            store.record(t(bucket * 2), 1, tid(1), &floats());
        }
        store.record(t(bucket * 2 + 1), 1, tid(99), &floats());
    }
    for unit in 2..6u64 {
        store.record(t(0), unit, tid(1), &floats());
        store.record(t(1), unit, tid(1), &floats());
    }
    store.enforce_limits(&floats());
    assert!(
        weight_in(&store, 1, tid(1), slot) > 0.0,
        "das schwerste Histogramm darf nicht verworfen werden"
    );
}

#[test]
fn snapshot_restore_roundtrip() {
    let mut store = BaselineStore::new(BUCKET_SECONDS, &test_config());
    for bucket in 0..5u64 {
        store.record(t(bucket * 2), 1, tid(1), &floats());
        store.record(t(bucket * 2), 1, tid(1), &floats());
        store.record(t(bucket * 2 + 1), 1, tid(99), &floats());
    }
    for _ in 0..10u32 {
        store.record(t(0), 1, tid(7), &floats());
    }
    let vorher_rate = store.baseline_rate(t(20), 1, tid(1), &floats());
    let vorher_share = store.profile_share(1, tid(7), &floats());
    let vorher_count = store.histogram_count();

    let restored = BaselineStore::restore(store.snapshot(), BUCKET_SECONDS, &test_config());
    assert_eq!(restored.histogram_count(), vorher_count);
    assert_eq!(restored.baseline_rate(t(20), 1, tid(1), &floats()), vorher_rate);
    assert_eq!(restored.profile_share(1, tid(7), &floats()), vorher_share);
}

#[test]
fn offener_bucket_zustand_wird_nicht_persistiert() {
    let mut store = BaselineStore::new(BUCKET_SECONDS, &test_config());
    store.record(t(0), 1, tid(1), &floats());
    let snapshot = store.snapshot();
    assert!(snapshot.histograms.is_empty());
}

#[test]
fn units_are_told_apart_by_their_names() {
    assert_eq!(unit_key_from_name(Some("sshd.service")), unit_key_from_name(Some("sshd.service")));
    assert_ne!(unit_key_from_name(Some("sshd.service")), unit_key_from_name(Some("cron.service")));
    assert_ne!(unit_key_from_name(None), unit_key_from_name(Some("sshd.service")));
}

#[test]
fn the_running_bucket_is_counted_per_unit_and_template() {
    let mut store = BaselineStore::new(BUCKET_SECONDS, &test_config());
    for _ in 0..3u32 {
        store.record_in_slot(t(0), 1, tid(1), Slot(3), &floats());
    }
    assert_eq!(store.current_bucket_count(1, tid(1)), 3);
    assert_eq!(store.current_bucket_count(1, tid(2)), 0);
    assert_eq!(store.current_bucket_count(2, tid(1)), 0);
    store.record_in_slot(t(1), 1, tid(1), Slot(3), &floats());
    assert_eq!(store.current_bucket_count(1, tid(1)), 1);
    let rate = store.baseline_rate_in_slot(Slot(3), 1, tid(1), &floats());
    assert!(rate.is_none(), "one observation is not enough");
}

#[test]
fn pack_unpack_roundtrip() {
    let key = BaselineKey {
        unit_key: 0x0123_4567_89ab_cdef,
        template_id: TemplateId(u64::MAX - 5),
        slot: Slot(47),
    };
    assert_eq!(unpack_key(pack_key(&key)), key);
}

#[test]
fn packed_keys_begin_with_the_most_significant_byte() {
    let key = BaselineKey {
        unit_key: 0x0102_0304_0506_0708,
        template_id: TemplateId(0x1112_1314_1516_1718),
        slot: Slot(9),
    };
    let expected: [u8; 17] = [1, 2, 3, 4, 5, 6, 7, 8, 0x11, 0x12, 0x13, 0x14, 0x15, 0x16, 0x17, 0x18, 9];
    assert_eq!(pack_key(&key), expected);
    assert_eq!(bytes::bytes_of(258), [0, 0, 0, 0, 0, 0, 1, 2]);
    assert_eq!(bytes::number_at(&[9, 0, 0, 0, 0, 0, 0, 1, 2], 1), 258);
}

#[test]
fn packed_keys_are_ordered_like_the_keys() {
    let mut keys: Vec<BaselineKey> = Vec::new();
    for unit in [0u64, 255, 256, u64::MAX] {
        for template in [0u64, 1, 65_536] {
            for slot in [0u8, 48] {
                keys.push(BaselineKey {
                    unit_key: unit,
                    template_id: TemplateId(template),
                    slot: Slot(slot),
                });
            }
        }
    }
    for pair in keys.windows(2) {
        assert!(pack_key(&pair[0]) < pack_key(&pair[1]));
    }
}

/// The tables of a database, which lists their rows by their keys.
#[derive(Default)]
struct Tables {
    templates: BTreeMap<u64, TemplateRecord>,
    baselines: BTreeMap<[u8; 17], CountHistogram>,
    profiles: BTreeMap<u64, UnitProfile>,
}

impl Tables {
    fn save(&mut self, state: PersistedState) {
        for step in save_steps(state) {
            match step {
                WriteStep::Clear => *self = Tables::default(),
                WriteStep::Template(id, record) => {
                    self.templates.insert(id, record);
                }
                WriteStep::Histogram(key, histogram) => {
                    self.baselines.insert(key, histogram);
                }
                WriteStep::Profile(unit_key, profile) => {
                    self.profiles.insert(unit_key, profile);
                }
            }
        }
    }

    fn load(&self) -> Option<PersistedState> {
        state_of(StoredRows {
            templates: self.templates.clone().into_iter().collect(),
            baselines: self.baselines.clone().into_iter().collect(),
            profiles: self.profiles.clone().into_iter().collect(),
        })
    }
}

fn befuellter_zustand() -> PersistedState {
    let cfg = BaselineConfig {
        min_weight: 2.0f64.to_bits(),
        profile_min_weight: 2.0f64.to_bits(),
        ..BaselineConfig::default()
    };
    let mut store = BaselineStore::new(5, &cfg);
    for bucket in 0..5u64 {
        store.record(BASE_US + bucket * 2 * 5_000_000, 1, TemplateId(7), &floats());
        store.record(BASE_US + bucket * 2 * 5_000_000, 1, TemplateId(7), &floats());
        store.record(BASE_US + (bucket * 2 + 1) * 5_000_000, 1, TemplateId(99), &floats());
    }
    let patterns = MaskPatterns::new().expect("patterns compile");
    let mut templates = TemplateEngine::new(patterns, Share { part: 7, whole: 10 }, 100);
    templates.process("Started backup job for user alice", BASE_US);
    templates.process("Started backup job for user bob", BASE_US + 1);
    PersistedState {
        baselines: store.snapshot(),
        templates: templates.snapshot(),
    }
}

#[test]
fn frische_datei_hat_schema_version_und_keinen_bestand() {
    assert_eq!(schema_step(None), Ok(SchemaStep::WriteFresh));
    let rows = fresh_meta("testhost", 77);
    let value = |key: &str| rows.iter().find(|(k, _)| *k == key).map(|(_, v)| v.clone());
    assert_eq!(read_schema_version(value("schema_version")), Ok(Some(SCHEMA_VERSION)));
    assert_eq!(value("hostname").as_deref(), Some("testhost"));
    assert_eq!(value("created_us").as_deref(), Some("77"));
    assert!(Tables::default().load().is_none());
}

#[test]
fn save_load_roundtrip_ueber_neu_geoeffnete_datei() {
    let zustand = befuellter_zustand();
    assert!(!zustand.baselines.histograms.is_empty());
    assert!(!zustand.templates.clusters.is_empty());

    let mut db = Tables::default();
    db.save(zustand.clone());
    let geladen = db.load().expect("Bestand vorhanden");

    let mut a = zustand.baselines.histograms.clone();
    let mut b = geladen.baselines.histograms.clone();
    a.sort_by_key(|(k, _)| pack_key(k));
    b.sort_by_key(|(k, _)| pack_key(k));
    assert_eq!(a, b);

    let mut pa = zustand.baselines.profiles.clone();
    let mut pb = geladen.baselines.profiles.clone();
    pa.sort_by_key(|(k, _)| *k);
    pb.sort_by_key(|(k, _)| *k);
    assert_eq!(pa, pb);

    assert_eq!(geladen.templates, zustand.templates);
}

#[test]
fn save_ersetzt_alten_bestand_vollstaendig() {
    let mut db = Tables::default();
    db.save(befuellter_zustand());
    assert!(db.load().is_some());
    db.save(PersistedState::default());
    assert!(db.load().is_none());
}

#[test]
fn neuere_schema_version_wird_verweigert() {
    let err = schema_step(Some(SCHEMA_VERSION + 1)).expect_err("muss verweigern");
    assert!(
        matches!(err, PersistError::NewerSchema { found, supported }
            if found == SCHEMA_VERSION + 1 && supported == SCHEMA_VERSION),
        "war {err:?}"
    );
    assert_eq!(
        err.to_text(),
        "Baseline-Datei hat Schema-Version 2, dieses Programm unterstützt höchstens 1. Lösung: \
         neuere Version verwenden oder mit --reset-baselines neu beginnen (die alte Datei wird \
         dabei gesichert)."
    );
}

#[test]
fn unbekannte_aeltere_version_liefert_klaren_fehler_und_sicherung() {
    assert_eq!(schema_step(Some(0)), Ok(SchemaStep::Migrate(0)));
    assert_eq!(backup_extension(0), "redb.bak-0");
    let err = next_migration(0).expect_err("kein Migrationspfad");
    assert!(matches!(err, PersistError::NoMigrationPath(0)), "war {err:?}");
    assert_eq!(err.to_text(), "keine Migration von Schema-Version 0 bekannt");
    assert_eq!(migrate_one(0), Err(PersistError::NoMigrationPath(0)));
    assert_eq!(next_migration(SCHEMA_VERSION), Ok(None));
    assert_eq!(schema_step(Some(SCHEMA_VERSION)), Ok(SchemaStep::UpToDate));
}

#[test]
fn unreadable_schema_version_is_shown_quoted() {
    let err = read_schema_version(Some("a\"b".to_string())).expect_err("not a number");
    assert_eq!(err, PersistError::InvalidMeta("schema_version = \"a\\\"b\"".to_string()));
    assert_eq!(err.to_text(), "meta-Tabelle unbrauchbar: schema_version = \"a\\\"b\"");
    assert_eq!(read_schema_version(None), Ok(None));
    assert!(read_schema_version(Some("4294967296".to_string())).is_err());
}

#[test]
fn errors_of_the_database_are_passed_on() {
    assert_eq!(PersistError::Db("x".to_string()).to_text(), "Datenbankfehler: x");
    assert_eq!(PersistError::Io("x".to_string()).to_text(), "Dateioperation fehlgeschlagen: x");
    assert_eq!(PersistError::Json("x".to_string()).to_text(), "Serialisierungsfehler: x");
}

#[test]
fn abweichender_hostname_wird_toleriert() {
    assert_eq!(check_hostname(&Some("host-a".to_string()), "host-b"), HostnameStep::Differs);
    assert_eq!(check_hostname(&Some("host-b".to_string()), "host-b"), HostnameStep::Same);
    assert_eq!(check_hostname(&None, "host-b"), HostnameStep::Write);
}

#[test]
fn dump_json_ist_gueltiges_json_mit_meta_und_bestand() {
    let head = dump_head(
        None,
        Some("testhost".to_string()),
        Some("12".to_string()),
        Some("later".to_string()),
    );
    assert_eq!(head.schema_version, SCHEMA_VERSION);
    assert_eq!(head.hostname.as_deref(), Some("testhost"));
    assert_eq!(head.created_us, Some(12));
    assert_eq!(head.last_snapshot_us, None);
}

#[test]
fn move_aside_benennt_um_und_liefert_neuen_pfad() {
    assert_eq!(
        aside_name(Some("baselines.redb"), "bak-manual", 1_768_478_400_123_456),
        "baselines.redb.bak-manual-1768478400"
    );
    assert_eq!(aside_name(None, "corrupt", 999_999), "baselines.redb.corrupt-0");
}

#[test]
fn an_empty_snapshot_restores_an_empty_store() {
    let store = BaselineStore::restore(BaselineSnapshot::default(), 5, &test_config());
    assert_eq!(store.histogram_count(), 0);
    assert_eq!(store.unit_profile_count(), 0);
    assert!(!store.has_trusted_baselines(&floats()));
}

#[test]
fn a_restart_keeps_the_order_of_the_templates() {
    let share = Share { part: 7, whole: 10 };
    let patterns = || MaskPatterns::new().expect("patterns compile");
    let mut templates = TemplateEngine::new(patterns(), share, 100);
    for word in ["alpha", "beta", "gamma", "delta", "epsilon", "zeta"] {
        templates.process(&format!("{word} one two three"), 5);
        templates.process(word, 6);
    }
    let before = templates.snapshot();
    assert!(before.clusters.len() >= 7);

    let mut db = Tables::default();
    db.save(befuellter_zustand());
    db.save(PersistedState {
        baselines: BaselineSnapshot::default(),
        templates: before.clone(),
    });
    let read = db.load().expect("there are templates");
    assert!(read.baselines.histograms.is_empty());
    assert_ne!(read.templates, before, "a table lists its rows by their keys");
    let restored = TemplateEngine::restore(patterns(), read.templates, share, 100);
    assert_eq!(restored.snapshot(), before);
}

#[test]
fn a_closed_bucket_fills_the_slot_and_any_time() {
    let mut store = BaselineStore::new(5, &BaselineConfig::default());
    store.record(1_768_478_400_000_000, 1, tid(1), &floats());
    assert_eq!(store.histogram_count(), 0);
    store.record(1_768_478_405_000_000, 1, tid(1), &floats());
    assert_eq!(store.histogram_count(), 2);
    assert_eq!(store.current_bucket_count(1, tid(1)), 1);
}

#[test]
fn the_baseline_of_any_time_is_always_named_so() {
    let mut store = BaselineStore::new(BUCKET_SECONDS, &test_config());
    for bucket in 0..5u64 {
        store.record(t(bucket), 1, tid(1), &floats());
    }
    store.record(t(9), 1, tid(1), &floats());
    let (_, source) = store.baseline_rate(u64::MAX, 1, tid(1), &floats()).expect("trusted");
    assert_eq!(source, RateSource::AnySlotBaseline);
    let any = store.baseline_rate_in_slot(Slot::any(), 1, tid(1), &floats()).expect("trusted");
    assert_eq!(any.1, RateSource::AnySlotBaseline);
    let own = store.baseline_rate(t(0), 1, tid(1), &floats()).expect("trusted");
    assert_eq!(own.1, RateSource::SlotBaseline);
    assert_eq!(own.0, any.0);
}

#[test]
fn beyond_the_calendar_only_the_histogram_of_any_time_is_filled() {
    let mut store = BaselineStore::new(BUCKET_SECONDS, &test_config());
    store.record(u64::MAX - 20_000_000, 1, tid(1), &floats());
    store.record(u64::MAX, 1, tid(1), &floats());
    assert_eq!(store.histogram_count(), 1);
    assert!((weight_in(&store, 1, tid(1), Slot::any()) - 1.0).abs() < 1e-6);
}

#[test]
fn what_is_read_rises_by_its_keys() {
    let written = befuellter_zustand();
    let mut db = Tables::default();
    db.save(written.clone());
    let read = db.load().expect("not empty");
    assert_eq!(read.baselines.histograms.len(), written.baselines.histograms.len());
    for entry in &written.baselines.histograms {
        assert!(read.baselines.histograms.contains(entry));
    }
    for pair in read.baselines.histograms.windows(2) {
        assert!(pack_key(&pair[0].0) < pack_key(&pair[1].0));
    }
    for pair in read.templates.clusters.windows(2) {
        assert!(pair[0].id.0 < pair[1].id.0);
    }
}

#[test]
fn decay_goes_by_the_half_life_of_the_settings() {
    // Seven days, in buckets of five seconds.
    let decay = DecayParams::from_hours(168.0f64.to_bits(), 5);
    assert_eq!(half_life(&decay), 120_960.0);
    assert_eq!(half_life(&DecayParams::from_hours(0.0f64.to_bits(), 5)), 1.0);
    assert_eq!(DecayParams::from_hours(1.0f64.to_bits(), 0).bucket_seconds, 1);
    assert_eq!(half_life(&DecayParams::from_buckets(10.0f64.to_bits())), 10.0);

    // One hour, in buckets of a minute: after sixty buckets half of a profile is left.
    let config = BaselineConfig { half_life_hours: 1.0f64.to_bits(), ..test_config() };
    let mut store = BaselineStore::new(60, &config);
    let minute = 60_000_000u64;
    store.record(BASE_US, 1, tid(1), &floats());
    store.record(BASE_US + 60 * minute, 1, tid(1), &floats());
    let snapshot = store.snapshot();
    let (_, profile) = &snapshot.profiles[0];
    assert_eq!(f32::from_bits(profile.weight_of(tid(1))), 1.5);
    let (_, histogram) = &snapshot.histograms[0];
    assert_eq!(weight(histogram), 1.0);
}
