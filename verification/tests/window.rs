//! The sliding window.

use logsentry::template::TemplateId;
use logsentry::window::SlidingWindow;

const SEC: u64 = 1_000_000;

fn tid(n: u64) -> TemplateId {
    TemplateId(n)
}

fn entropy(window: &SlidingWindow) -> f64 {
    let counts: Vec<u64> = window.template_counts();
    let total: u64 = counts.iter().sum();
    if total == 0 {
        return 0.0;
    }
    let sum: f64 = counts
        .iter()
        .filter(|&&count| count > 0)
        .map(|&count| {
            let p = count as f64 / total as f64;
            p * p.log2()
        })
        .sum();
    -sum + 0.0
}

#[test]
fn neues_fenster_ist_leer() {
    let window = SlidingWindow::new(60, 1000);
    assert!(window.is_empty());
    assert_eq!(window.len(), 0);
    assert_eq!(window.distinct_templates(), 0);
}

#[test]
fn zaehlt_templates_im_fenster() {
    let mut window = SlidingWindow::new(60, 1000);
    window.push(SEC, tid(1));
    window.push(2 * SEC, tid(1));
    window.push(3 * SEC, tid(2));

    assert_eq!(window.len(), 3);
    assert_eq!(window.count_of(tid(1)), 2);
    assert_eq!(window.count_of(tid(2)), 1);
    assert_eq!(window.distinct_templates(), 2);
}

#[test]
fn verdraengt_eintraege_ausserhalb_des_zeitfensters() {
    let mut window = SlidingWindow::new(10, 1000);
    window.push(SEC, tid(1));
    window.push(2 * SEC, tid(1));
    window.push(100 * SEC, tid(2));

    assert_eq!(window.len(), 1);
    assert_eq!(window.count_of(tid(1)), 0);
    assert_eq!(window.count_of(tid(2)), 1);
}

#[test]
fn entfernt_template_aus_der_map_wenn_zaehler_auf_null_faellt() {
    let mut window = SlidingWindow::new(10, 1000);
    window.push(SEC, tid(1));
    window.push(100 * SEC, tid(2));
    assert_eq!(window.distinct_templates(), 1);
}

#[test]
fn harte_kapazitaetsgrenze_greift_auch_innerhalb_des_zeitfensters() {
    let mut window = SlidingWindow::new(3600, 3);
    for i in 0..10u64 {
        window.push(i * SEC, tid(1));
    }
    assert_eq!(window.len(), 3, "Kapazitätsgrenze muss eingehalten werden");
    assert_eq!(window.dropped_by_capacity(), 7);
}

#[test]
fn entropie_ist_null_bei_nur_einem_template() {
    let mut window = SlidingWindow::new(60, 1000);
    for i in 0..10u64 {
        window.push(i * SEC, tid(1));
    }
    assert!(entropy(&window).abs() < 1e-9);
}

#[test]
fn entropie_steigt_mit_der_vielfalt() {
    let mut einheitlich = SlidingWindow::new(60, 1000);
    let mut gemischt = SlidingWindow::new(60, 1000);
    for i in 0..8u64 {
        einheitlich.push(i * SEC, tid(1));
        gemischt.push(i * SEC, tid(i));
    }
    assert!(entropy(&gemischt) > entropy(&einheitlich));
}

#[test]
fn normierte_entropie_liegt_zwischen_null_und_eins() {
    let mut window = SlidingWindow::new(60, 1000);
    for i in 0..8u64 {
        window.push(i * SEC, tid(i % 3));
    }
    let most = (window.distinct_templates() as f64).log2();
    let normalized = if most <= 0.0 { 0.0 } else { (entropy(&window) / most).clamp(0.0, 1.0) };
    assert!((0.0..=1.0).contains(&normalized), "war {normalized}");
}

#[test]
fn ereignisse_ausser_der_reihe_verschieben_das_fenster_nicht_zurueck() {
    let mut window = SlidingWindow::new(10, 1000);
    window.push(100 * SEC, tid(1));
    window.push(SEC, tid(2));
    assert_eq!(window.count_of(tid(1)), 1);
    assert_eq!(window.count_of(tid(2)), 0);
    assert_eq!(window.dropped_late(), 1);
}

#[test]
fn leicht_verspaetete_ereignisse_innerhalb_des_fensters_zaehlen_mit() {
    let mut window = SlidingWindow::new(60, 1000);
    window.push(100 * SEC, tid(1));
    window.push(95 * SEC, tid(2));
    assert_eq!(window.count_of(tid(2)), 1);
    assert_eq!(window.dropped_late(), 0);
}

#[test]
fn counts_of_all_templates_add_up_to_the_window() {
    let mut window = SlidingWindow::new(60, 5);
    for i in 0..9u64 {
        window.push(i * SEC, tid(i % 4));
    }
    let counts: Vec<u64> = window.template_counts();
    assert_eq!(counts.len(), window.distinct_templates());
    assert_eq!(counts.iter().sum::<u64>(), window.len() as u64);
    assert!(counts.iter().all(|count| *count > 0));
}

#[test]
fn events_that_came_out_of_order_leave_with_their_time() {
    let mut window = SlidingWindow::new(10, 1000);
    window.push(100 * SEC, tid(1));
    window.push(95 * SEC, tid(2));
    assert_eq!(window.len(), 2);
    window.push(106 * SEC, tid(3));
    assert_eq!(window.count_of(tid(2)), 0);
    assert_eq!(window.count_of(tid(1)), 1);
    assert_eq!(window.len(), 2);
    assert_eq!(window.distinct_templates(), 2);
    window.push(111 * SEC, tid(3));
    assert_eq!(window.count_of(tid(1)), 0);
    assert_eq!(window.len(), 2);
}

#[test]
fn stragglers_leave_one_by_one() {
    let mut window = SlidingWindow::new(10, 1000);
    for (second, id) in [(100, 1), (93, 2), (99, 3), (91, 4), (100, 5), (98, 6)] {
        window.push(second * SEC, tid(id));
    }
    for (second, left) in [(101, 7), (102, 7), (104, 7), (109, 7), (110, 7)] {
        window.push(second * SEC, tid(9));
        assert_eq!(window.len(), left, "at {second} s");
    }
    for id in 1..7u64 {
        let inside = id == 1 || id == 5;
        assert_eq!(window.count_of(tid(id)), u64::from(inside), "template {id}");
    }
}

#[test]
fn every_event_is_held_as_long_as_it_is_in_the_window() {
    // A simple generator of times that go back now and then.
    let mut window = SlidingWindow::new(20, 10_000);
    let mut times: Vec<(u64, u64)> = Vec::new();
    let mut newest: u64 = 0;
    let mut late: u64 = 0;
    let mut state: u64 = 1;
    for i in 0..500u64 {
        state = state.wrapping_mul(6_364_136_223_846_793_005).wrapping_add(1_442_695_040_888_963_407);
        let time = (i + 30 - (state >> 33) % 30) * SEC;
        newest = newest.max(time);
        let cutoff = newest.saturating_sub(20 * SEC);
        window.push(time, tid(i % 7));
        if time < cutoff {
            late += 1;
        } else {
            times.push((time, i % 7));
            times.retain(|entry| entry.0 >= cutoff);
        }
        assert_eq!(window.len(), times.len());
        assert_eq!(window.dropped_late(), late);
        for id in 0..7u64 {
            let expected = times.iter().filter(|entry| entry.1 == id).count() as u64;
            assert_eq!(window.count_of(tid(id)), expected);
        }
    }
    assert!(late > 0);
}

#[test]
fn the_last_events_in_order_are_held() {
    let mut window = SlidingWindow::new(10, 4);
    for second in 0..=20u64 {
        window.push(second * SEC, tid(second));
    }
    assert_eq!(window.len(), 4);
    for second in 0..=20u64 {
        assert_eq!(window.count_of(tid(second)), u64::from(second > 16));
    }
    let mut roomy = SlidingWindow::new(10, 100);
    for second in 0..=20u64 {
        roomy.push(second * SEC, tid(second));
    }
    assert_eq!(roomy.len(), 11, "an event exactly ten seconds old is still inside");
    assert_eq!(roomy.count_of(tid(10)), 1);
    assert_eq!(roomy.count_of(tid(9)), 0);
    assert_eq!(roomy.dropped_late(), 0);
}

#[test]
fn a_window_is_empty_only_before_the_first_event() {
    let mut window = SlidingWindow::new(0, 0);
    assert!(window.is_empty());
    for second in [50u64, 3, 80, 80, 0] {
        window.push(second * SEC, tid(second));
        assert!(!window.is_empty());
        assert_eq!(window.len(), 1);
    }
}
