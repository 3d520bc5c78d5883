//! Rates, medians and deviations.

use logsentry::rate::{RateEvidence, RateTracker};
use logsentry::stats::spread;
use logsentry::template::TemplateId;

const SEC: u64 = 1_000_000;

fn tid(n: u64) -> TemplateId {
    TemplateId(n)
}

/// The robust score of a rate: zero without a history, and else its distance from the
/// median in units of the scaled deviation, which is at least the root of the median
/// plus one.
fn z_of(evidence: RateEvidence) -> f64 {
    match evidence.history {
        None => 0.0,
        Some(usual) => {
            let median = usual.median_halves as f64 / 2.0;
            let mad = usual.deviation_quarters as f64 / 4.0;
            let floor = (median.max(0.0) + 1.0).sqrt().max(1.0);
            let scale = (mad / 0.6745).max(floor);
            ((evidence.current as f64 - median) / scale).clamp(-50.0, 50.0)
        }
    }
}

#[test]
fn erster_eintrag_ohne_historie_ergibt_z_score_null() {
    let mut tracker = RateTracker::new(5, 60, 100, 1000);
    let z = z_of(tracker.record(0, tid(1)));
    assert!(z.abs() < 1e-9, "ohne Historie darf kein Alarm entstehen, war {z}");
}

#[test]
fn historie_waechst_bei_bucketwechsel() {
    let mut tracker = RateTracker::new(5, 60, 100, 1000);
    tracker.record(0, tid(1));
    assert_eq!(tracker.history_len_of(tid(1)), 0);
    tracker.record(6 * SEC, tid(1));
    assert_eq!(tracker.history_len_of(tid(1)), 1);
}

#[test]
fn historie_ist_beschraenkt() {
    let mut tracker = RateTracker::new(1, 5, 100, 10_000);
    for i in 0..100u64 {
        tracker.record(i * SEC, tid(1));
    }
    assert_eq!(
        tracker.history_len_of(tid(1)),
        5,
        "Historie darf die konfigurierte Länge nicht überschreiten"
    );
}

#[test]
fn burst_gegen_ruhige_historie_ergibt_hohen_z_score() {
    let mut tracker = RateTracker::new(1, 60, 100, 10_000);
    for i in 0..30u64 {
        tracker.record(i * SEC, tid(1));
    }
    let mut last_z = 0.0;
    for _ in 0..50u64 {
        last_z = z_of(tracker.record(30 * SEC, tid(1)));
    }
    assert!(last_z > 5.0, "Burst sollte deutlichen Z-Score liefern, war {last_z}");
}

#[test]
fn gleichmaessige_rate_erzeugt_keinen_hohen_z_score() {
    let mut tracker = RateTracker::new(1, 60, 100, 10_000);
    let mut last_z = 0.0;
    for i in 0..60u64 {
        tracker.record(i * SEC, tid(1));
        last_z = z_of(tracker.record(i * SEC, tid(1)));
    }
    assert!(last_z.abs() < 3.0, "konstante Rate darf keinen Alarm auslösen, war {last_z}");
}

#[test]
fn ruhephasen_werden_als_nullen_in_die_historie_geschrieben() {
    let mut tracker = RateTracker::new(1, 60, 100, 10_000);
    tracker.record(0, tid(1));
    tracker.record(20 * SEC, tid(1));
    assert!(
        tracker.history_len_of(tid(1)) > 1,
        "übersprungene Buckets müssen als Nullen erscheinen"
    );
}

#[test]
fn seltenes_template_mit_burst_wird_erkannt() {
    let mut tracker = RateTracker::new(1, 60, 100, 10_000);
    tracker.record(0, tid(9));
    for i in 1..40u64 {
        tracker.record(i * SEC, tid(1));
    }
    let mut last_z = 0.0;
    for _ in 0..20u64 {
        last_z = z_of(tracker.record(40 * SEC, tid(9)));
    }
    assert!(last_z > 5.0, "Burst eines sonst stillen Templates sollte auffallen, war {last_z}");
}

#[test]
fn neues_template_erhaelt_null_vorgeschichte() {
    let mut tracker = RateTracker::new(1, 60, 100, 10_000);
    for i in 0..30u64 {
        tracker.record(i * SEC, tid(1));
    }
    tracker.record(30 * SEC, tid(9));
    assert_eq!(
        tracker.history_len_of(tid(9)),
        30,
        "die Zeit vor der Erstsichtung muss als Nullen erscheinen"
    );
}

#[test]
fn log_sturm_eines_neuen_templates_erklaert_sich_nicht_selbst_zur_norm() {
    let mut tracker = RateTracker::new(5, 60, 100, 10_000);
    for i in 0..60u64 {
        tracker.record(i * SEC, tid(1));
    }
    let mut z_werte: Vec<f64> = Vec::new();
    for bucket in 0..5u64 {
        let mut last = 0.0;
        for i in 0..100u64 {
            last = z_of(tracker.record(60 * SEC + bucket * 5 * SEC + i * 10_000, tid(9)));
        }
        z_werte.push(last);
    }
    for (bucket, z) in z_werte.iter().enumerate() {
        assert!(
            *z > 5.0,
            "anhaltender Sturm muss in Bucket {bucket} auffällig bleiben, war {z}"
        );
    }
}

#[test]
fn beobachtungsbeginn_begrenzt_die_null_vorgeschichte() {
    let mut tracker = RateTracker::new(1, 60, 100, 10_000);
    let z = z_of(tracker.record(0, tid(1)));
    assert_eq!(tracker.history_len_of(tid(1)), 0);
    assert!(z.abs() < 1e-9, "am Beobachtungsbeginn darf kein Alarm entstehen");
}

#[test]
fn inaktive_templates_werden_vergessen() {
    let mut tracker = RateTracker::new(1, 10, 100, 5);
    tracker.record(0, tid(1));
    assert_eq!(tracker.tracked_templates(), 1);
    tracker.record(100 * SEC, tid(2));
    assert_eq!(
        tracker.tracked_templates(),
        1,
        "das lange inaktive Template sollte entfernt sein"
    );
}

#[test]
fn kapazitaetsgrenze_wird_eingehalten() {
    let mut tracker = RateTracker::new(1, 10, 5, 100_000);
    for i in 0..50u64 {
        tracker.record(i * SEC, tid(i));
    }
    assert!(
        tracker.tracked_templates() <= 5,
        "Kapazitätsgrenze verletzt: {}",
        tracker.tracked_templates()
    );
}

#[test]
fn the_running_bucket_counts_and_the_ended_ones_are_history() {
    let mut tracker = RateTracker::new(1, 60, 100, 10_000);
    for _ in 0..3u64 {
        tracker.record(0, tid(1));
    }
    tracker.record(SEC, tid(1));
    let evidence = tracker.record(SEC, tid(1));
    assert_eq!(evidence.current, 2);
    let usual = evidence.history.expect("one ended bucket");
    assert_eq!(usual.median_halves, 6);
    assert_eq!(usual.deviation_quarters, 0);
}

#[test]
fn median_bei_ungerader_anzahl() {
    assert_eq!(spread(&vec![3, 1, 2]).map(|s| s.median_halves), Some(4));
}

#[test]
fn median_bei_gerader_anzahl_mittelt_die_beiden_mittleren() {
    assert_eq!(spread(&vec![4, 1, 3, 2]).map(|s| s.median_halves), Some(5));
}

#[test]
fn median_leerer_stichprobe_ist_none() {
    assert_eq!(spread(&Vec::new()), None);
}

#[test]
fn mad_einer_konstanten_stichprobe_ist_null() {
    let found = spread(&vec![5, 5, 5, 5]).expect("nicht leer");
    assert_eq!(found.deviation_quarters, 0);
}

#[test]
fn mad_berechnet_median_der_absoluten_abweichungen() {
    let found = spread(&vec![1, 2, 3, 4, 5]).expect("nicht leer");
    assert_eq!(found.deviation_quarters, 4);
}

#[test]
fn the_deviation_is_exact_where_the_median_is_a_half() {
    // The median of one and two is one and a half, and both are half away from it.
    let found = spread(&vec![1, 2]).expect("not empty");
    assert_eq!(found.median_halves, 3);
    assert_eq!(found.deviation_quarters, 2);
}

#[test]
fn a_pause_longer_than_the_history_leaves_only_zeros() {
    let mut tracker = RateTracker::new(1, 2, 100, 10_000);
    for _ in 0..8 {
        tracker.record(0, tid(1));
    }
    let after = tracker.record(3 * SEC, tid(1));
    let usual = after.history.expect("a history");
    assert_eq!((usual.median_halves, usual.deviation_quarters), (0, 0));
    assert_eq!(tracker.history_len_of(tid(1)), 2);

    let mut tracker = RateTracker::new(1, 2, 100, 10_000);
    for _ in 0..8 {
        tracker.record(0, tid(1));
    }
    let after = tracker.record(2 * SEC, tid(1));
    let usual = after.history.expect("a history");
    assert_eq!(usual.median_halves, 8, "eight events and none: four in the middle");
}

#[test]
fn the_order_of_a_sample_does_not_matter() {
    let rising = spread(&vec![1, 2, 2, 5, 9, 40]);
    assert_eq!(spread(&vec![40, 2, 9, 1, 5, 2]), rising);
    assert_eq!(spread(&vec![2, 40, 1, 9, 2, 5]), rising);
}

#[test]
fn histories_hold_what_was_counted_in_each_bucket() {
    let mut tracker = RateTracker::new(10, 4, 10, 100);
    let counts = [3u64, 0, 5, 1, 0, 2];
    for (bucket, count) in counts.iter().enumerate() {
        for i in 0..*count {
            tracker.record((bucket as u64 * 10 + i) * SEC, tid(1));
        }
        tracker.record((bucket as u64 * 10 + 9) * SEC, tid(2));
    }
    let found = tracker.record(60 * SEC, tid(1));
    assert_eq!(found.current, 1);
    assert_eq!(found.history, spread(&vec![5, 1, 0, 2]));
    assert_eq!(tracker.record(60 * SEC, tid(2)).history, spread(&vec![1, 1, 1, 1]));
}
