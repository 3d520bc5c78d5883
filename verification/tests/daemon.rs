//! The command line, the settings, the shared state, what is sent to clients, the
//! machine, the metrics and the socket.

use logsentry::cli::{
    choose_hostname, find_flag_value, initial_snapshot, parse_args, poll_interval_secs, prevents_start,
    DEFAULT_CONFIG_PATH,
};
use logsentry::config::Config;
use logsentry::engine;
use logsentry::ingestion::IngestionMode;
use logsentry::metrics::{format_prometheus_textfile, temporary_name, MetricValue, Renderer};
use logsentry::persist::PersistError;
use logsentry::proto;
use logsentry::server::{first_name, remove_before_bind, ServerError, SocketProbe};
use logsentry::state::{ContextRing, SharedState};
use logsentry::store;
use logsentry::system;
use logsentry::system::{
    filter_watched_units, known_temperatures, watched_disks, DiskSpace, RawUnitEntry,
};
use logsentry::template::TemplateId;
use logsentry::wire::{
    build_anomaly_event, map_anomaly_level, map_pid, map_rate_source, map_system_snapshot,
    truncate_sample_message, AnomalyEventContext, ContextEntry, SAMPLE_MESSAGE_MAX_BYTES,
    TRUNCATION_MARKER,
};

fn args(list: &[&str]) -> Vec<String> {
    std::iter::once("logsentry-daemon")
        .chain(list.iter().copied())
        .map(str::to_string)
        .collect()
}

#[test]
fn ohne_flags_ist_modus_live_und_nichts_gesetzt() {
    let cli = parse_args(&args(&[]));
    assert_eq!(cli.mode, IngestionMode::Live);
    assert!(!cli.dump_baselines);
    assert!(!cli.reset_baselines);
    assert_eq!(cli.config_path, DEFAULT_CONFIG_PATH);
}

#[test]
fn since_flag_ergibt_replay_ohne_until() {
    let cli = parse_args(&args(&["--since", "2026-01-01 00:00:00"]));
    assert_eq!(
        cli.mode,
        IngestionMode::Replay {
            since: "2026-01-01 00:00:00".to_string(),
            until: None,
        }
    );
}

#[test]
fn since_und_until_flag_ergeben_replay_mit_beiden() {
    let cli = parse_args(&args(&[
        "--since",
        "2026-01-01 00:00:00",
        "--until",
        "2026-01-02 00:00:00",
    ]));
    assert_eq!(
        cli.mode,
        IngestionMode::Replay {
            since: "2026-01-01 00:00:00".to_string(),
            until: Some("2026-01-02 00:00:00".to_string()),
        }
    );
}

#[test]
fn dump_und_reset_flags_werden_erkannt() {
    let cli = parse_args(&args(&["--dump-baselines", "--reset-baselines"]));
    assert!(cli.dump_baselines);
    assert!(cli.reset_baselines);
}

#[test]
fn config_flag_ueberschreibt_den_pfad() {
    let cli = parse_args(&args(&["--config", "/tmp/x.toml"]));
    assert_eq!(cli.config_path, "/tmp/x.toml");
}

#[test]
fn a_flag_without_a_value_counts_for_nothing() {
    assert_eq!(find_flag_value(&args(&["--since"]), "--since"), None);
    let twice = args(&["--config", "a", "--config", "b"]);
    assert_eq!(find_flag_value(&twice, "--config").as_deref(), Some("a"));
    assert_eq!(parse_args(&args(&["--until", "x"])).mode, IngestionMode::Live);
}

#[test]
fn hostname_ist_nie_leer() {
    let some = |words: &str| Some(words.to_string());
    assert_eq!(choose_hostname(some("host\n"), some("other")), "host");
    assert_eq!(choose_hostname(some("  \n"), some("other")), "other");
    assert_eq!(choose_hostname(None, some("")), "unknown");
    assert_eq!(choose_hostname(None, None), "unknown");
}

#[test]
fn only_a_newer_file_keeps_the_daemon_from_starting() {
    assert!(prevents_start(&PersistError::NewerSchema { found: 2, supported: 1 }));
    assert!(!prevents_start(&PersistError::NoMigrationPath(0)));
    assert!(!prevents_start(&PersistError::Io("x".to_string())));
}

#[test]
fn default_config_hat_erwartete_werte() {
    let config = Config::default();
    assert_eq!(config.ingestion.channel_capacity, 1024);
    assert_eq!(config.analysis.window_seconds, 60);
    assert_eq!(config.socket.path, "/run/logsentry/collector.sock");
    assert_eq!(f64::from_bits(config.analysis.score_warn_threshold), 0.6);
    assert_eq!(poll_interval_secs(&config), config.system.poll_interval_seconds);
}

#[test]
fn default_socket_config_hat_erwartete_werte() {
    let config = Config::default();
    assert_eq!(config.socket.group, "logsentry");
    assert_eq!(config.socket.mode, 0o660);
    assert_eq!(config.socket.max_clients, 8);
    assert_eq!(config.socket.snapshot_interval_ms, 1000);
    assert_eq!(config.socket.min_snapshot_interval_ms, 250);
    assert_eq!(config.socket.hello_timeout_ms, 5000);
    assert_eq!(config.socket.recent_anomalies, 200);
    assert_eq!(config.socket.context_lines, 2000);
    assert_eq!(config.socket.context_max_lines, 200);
}

#[test]
fn default_actions_config_ist_fail_safe() {
    let config = Config::default();
    assert!(config.actions.dry_run, "Default muss dry_run=true sein");
    assert!(config.actions.allowed_kinds.is_empty());
    assert!(config.actions.allowed_units.is_empty());
    assert_eq!(config.actions.rate_limit_max_actions, 3);
    assert_eq!(config.actions.rate_limit_window_minutes, 10);
    assert_eq!(config.actions.terminate_max_grace_secs, 60);
    assert_eq!(config.actions.block_ip_max_duration_secs, 604_800);
    assert_eq!(config.actions.self_filter_window_secs, 30);
}

#[test]
fn default_prometheus_config_ist_deaktiviert() {
    let config = Config::default();
    assert!(!config.prometheus.enabled);
}

fn entry(ts: u64, unit: Option<&str>, msg: &str) -> ContextEntry {
    ContextEntry {
        timestamp_us: ts,
        unit: unit.map(|u| u.to_string()),
        pid: Some(1),
        priority: Some(6),
        message: msg.to_string(),
    }
}

fn minimal_snapshot() -> proto::Snapshot {
    let mut snapshot = initial_snapshot(&Config::default(), false, 0);
    snapshot.window.window_secs = 60;
    snapshot
}

fn sample_anomaly_event(id: u64) -> proto::AnomalyEvent {
    proto::AnomalyEvent {
        id,
        timestamp_us: id,
        template_id: 1,
        template_text: "x".to_string(),
        sample_message: "x".to_string(),
        unit: None,
        pid: None,
        priority: None,
        level: proto::AnomalyLevel::Warn,
        breakdown: proto::ScoreBreakdown {
            rate_z: 0,
            surprisal_bits: 0,
            entropy_z: 0,
            rate_component: 0,
            surprisal_component: 0,
            entropy_component: 0,
            combined: 0,
            rate_source: proto::RateSource::Nowhere,
        },
        suppressed_since_last: 0,
    }
}

#[test]
fn snapshot_watch_liefert_immer_nur_den_neuesten_wert() {
    let mut state = SharedState::new(minimal_snapshot(), 10, 10, 1);
    let mut initial = minimal_snapshot();
    initial.timestamp_us = 1;
    state.publish_snapshot(initial);
    let mut second = minimal_snapshot();
    second.timestamp_us = 2;
    state.publish_snapshot(second);
    assert_eq!(state.latest_snapshot().timestamp_us, 2);
}

#[test]
fn anomaly_id_ist_monoton_steigend_ab_eins() {
    let mut state = SharedState::new(minimal_snapshot(), 10, 10, 1);
    assert_eq!(state.next_anomaly_id(), 1);
    assert_eq!(state.next_anomaly_id(), 2);
    assert_eq!(state.next_anomaly_id(), 3);
}

#[test]
fn recent_ring_verdraengt_aeltesten_bei_ueberlauf() {
    let mut state = SharedState::new(minimal_snapshot(), 2, 10, 1);
    state.publish_anomaly(sample_anomaly_event(1));
    state.publish_anomaly(sample_anomaly_event(2));
    state.publish_anomaly(sample_anomaly_event(3));
    let recent = state.recent_anomalies();
    assert_eq!(recent.len(), 2);
    assert_eq!(recent[0].id, 2);
    assert_eq!(recent[1].id, 3);
}

#[test]
fn context_ring_verdraengt_aeltesten_bei_kapazitaet() {
    let mut ring = ContextRing::new(2);
    assert!(ring.is_empty());
    ring.push(entry(1, None, "eins"));
    ring.push(entry(2, None, "zwei"));
    ring.push(entry(3, None, "drei"));
    assert_eq!(ring.len(), 2);
    let (lines, _) = ring.query(2, 5, 5, None);
    assert_eq!(lines.len(), 2);
    assert_eq!(lines[0].message, "zwei");
    assert_eq!(lines[1].message, "drei");
}

fn messages(lines: &[ContextEntry]) -> Vec<&str> {
    lines.iter().map(|line| line.message.as_str()).collect()
}

#[test]
fn context_query_findet_naechstgelegenen_zeitstempel_und_umgebung() {
    let mut ring = ContextRing::new(100);
    for i in 0..10u64 {
        ring.push(entry(i * 10, None, &format!("zeile-{i}")));
    }
    let (lines, truncated) = ring.query(55, 2, 2, None);
    assert_eq!(
        messages(&lines),
        vec!["zeile-3", "zeile-4", "zeile-5", "zeile-6", "zeile-7"]
    );
    assert!(!truncated);
}

#[test]
fn context_query_markiert_truncated_wenn_rand_erreicht_wird() {
    let mut ring = ContextRing::new(100);
    for i in 0..5u64 {
        ring.push(entry(i, None, &format!("zeile-{i}")));
    }
    let (lines, truncated) = ring.query(0, 3, 1, None);
    assert!(truncated);
    assert_eq!(messages(&lines), vec!["zeile-0", "zeile-1"]);
}

#[test]
fn context_query_filtert_nach_unit() {
    let mut ring = ContextRing::new(100);
    ring.push(entry(1, Some("sshd.service"), "ssh-1"));
    ring.push(entry(2, Some("cron.service"), "cron-1"));
    ring.push(entry(3, Some("sshd.service"), "ssh-2"));
    let (lines, _) = ring.query(2, 5, 5, Some("sshd.service"));
    assert_eq!(messages(&lines), vec!["ssh-1", "ssh-2"]);
}

#[test]
fn context_query_auf_leerem_ring_liefert_leere_liste() {
    let ring = ContextRing::new(10);
    let (lines, truncated) = ring.query(0, 5, 5, None);
    assert!(lines.is_empty());
    assert!(truncated);
}

#[test]
fn muted_templates_come_back_in_time() {
    let mut state = SharedState::new(minimal_snapshot(), 10, 10, 7);
    assert_eq!(state.session_id(), 7);
    state.mute(1, Some("a.service".to_string()), 100);
    assert!(state.is_muted(1, Some("a.service"), 99));
    assert!(!state.is_muted(1, Some("a.service"), 100));
    assert!(!state.is_muted(1, Some("b.service"), 99));
    assert!(!state.is_muted(2, Some("a.service"), 99));
    state.mute(1, None, u64::MAX);
    assert!(state.is_muted(1, Some("b.service"), u64::MAX - 1));
}

#[test]
fn own_units_and_processes_are_left_out_for_a_while() {
    let mut state = SharedState::new(minimal_snapshot(), 10, 10, 1);
    state.suppress_unit("a.service", 50);
    state.suppress_pid(12, 60);
    assert!(state.is_self_filtered(Some("a.service"), None, 49));
    assert!(!state.is_self_filtered(Some("a.service"), None, 50));
    assert!(state.is_self_filtered(Some("b.service"), Some(12), 59));
    assert!(!state.is_self_filtered(None, Some(13), 0));
}

#[test]
fn no_more_clients_than_fit_are_admitted() {
    let mut state = SharedState::new(minimal_snapshot(), 10, 10, 1);
    assert!(state.admit_client(2));
    assert!(state.admit_client(2));
    assert!(!state.admit_client(2));
    assert_eq!(state.client_count(), 2);
    state.client_disconnected();
    assert!(state.admit_client(2));
}

#[test]
fn kurze_nachricht_bleibt_unveraendert() {
    assert_eq!(truncate_sample_message("kurz"), "kurz");
}

#[test]
fn nachricht_exakt_an_der_grenze_bleibt_unveraendert() {
    let raw = "a".repeat(SAMPLE_MESSAGE_MAX_BYTES);
    let out = truncate_sample_message(&raw);
    assert_eq!(out, raw);
    assert_eq!(out.len(), SAMPLE_MESSAGE_MAX_BYTES);
}

#[test]
fn zu_lange_nachricht_wird_gekuerzt_und_markiert() {
    let raw = "a".repeat(SAMPLE_MESSAGE_MAX_BYTES + 100);
    let out = truncate_sample_message(&raw);
    assert!(out.len() <= SAMPLE_MESSAGE_MAX_BYTES);
    assert!(out.ends_with(TRUNCATION_MARKER));
}

#[test]
fn kuerzung_schneidet_nie_mitten_in_einem_utf8_zeichen() {
    let raw = "€".repeat(400);
    let out = truncate_sample_message(&raw);
    assert!(out.len() <= SAMPLE_MESSAGE_MAX_BYTES);
    assert!(out.ends_with(TRUNCATION_MARKER));
    let body = &out[..out.len() - TRUNCATION_MARKER.len()];
    assert!(body.chars().all(|c| c == '€'));
    let room = SAMPLE_MESSAGE_MAX_BYTES - TRUNCATION_MARKER.len();
    assert_eq!(body.len(), room - room % 3, "as many characters as fit are kept");
}

#[test]
fn anomaly_level_normal_wird_nicht_abgebildet() {
    assert_eq!(map_anomaly_level(engine::AnomalyLevel::Normal), None);
}

#[test]
fn anomaly_level_info_warn_critical_werden_abgebildet() {
    assert_eq!(
        map_anomaly_level(engine::AnomalyLevel::Info),
        Some(proto::AnomalyLevel::Info)
    );
    assert_eq!(
        map_anomaly_level(engine::AnomalyLevel::Warn),
        Some(proto::AnomalyLevel::Warn)
    );
    assert_eq!(
        map_anomaly_level(engine::AnomalyLevel::Critical),
        Some(proto::AnomalyLevel::Critical)
    );
}

#[test]
fn rate_source_wird_eins_zu_eins_abgebildet() {
    assert_eq!(
        map_rate_source(store::RateSource::SlotBaseline),
        proto::RateSource::SlotBaseline
    );
    assert_eq!(
        map_rate_source(store::RateSource::AnySlotBaseline),
        proto::RateSource::AnySlotBaseline
    );
    assert_eq!(
        map_rate_source(store::RateSource::ShortTerm),
        proto::RateSource::ShortTerm
    );
    assert_eq!(
        map_rate_source(store::RateSource::Nowhere),
        proto::RateSource::Nowhere
    );
}

fn sample_anomaly(level: engine::AnomalyLevel) -> engine::Anomaly {
    engine::Anomaly {
        timestamp_us: 1_726_000_000_000_000,
        template_id: TemplateId(42),
        unit: Some("sshd.service".to_string()),
        level,
        breakdown: engine::ScoreBreakdown {
            scores: engine::Scores {
                rate_z: 4.0f64.to_bits(),
                surprisal_bits: 10.0f64.to_bits(),
                entropy_z: 1.0f64.to_bits(),
                rate_component: 0.5f64.to_bits(),
                surprisal_component: 0.5f64.to_bits(),
                entropy_component: 0.1f64.to_bits(),
                combined: 0.7f64.to_bits(),
            },
            rate_source: store::RateSource::SlotBaseline,
        },
        suppressed_since_last: 3,
    }
}

#[test]
fn build_anomaly_event_liefert_none_fuer_normal() {
    let anomaly = sample_anomaly(engine::AnomalyLevel::Normal);
    let ctx = AnomalyEventContext {
        template_text: "Failed password for <USER>",
        raw_message: "Failed password for root",
        pid: Some(1234),
        priority: Some(4),
    };
    assert!(build_anomaly_event(1, &anomaly, ctx).is_none());
}

#[test]
fn build_anomaly_event_uebernimmt_alle_felder() {
    let anomaly = sample_anomaly(engine::AnomalyLevel::Warn);
    let ctx = AnomalyEventContext {
        template_text: "Failed password for <USER>",
        raw_message: "Failed password for root",
        pid: Some(1234),
        priority: Some(4),
    };
    let event = build_anomaly_event(7, &anomaly, ctx).expect("Warn muss abgebildet werden");
    assert_eq!(event.id, 7);
    assert_eq!(event.template_id, 42);
    assert_eq!(event.template_text, "Failed password for <USER>");
    assert_eq!(event.sample_message, "Failed password for root");
    assert_eq!(event.unit.as_deref(), Some("sshd.service"));
    assert_eq!(event.pid, Some(1234));
    assert_eq!(event.priority, Some(4));
    assert_eq!(event.level, proto::AnomalyLevel::Warn);
    assert_eq!(event.suppressed_since_last, 3);
    assert_eq!(event.breakdown.rate_source, proto::RateSource::SlotBaseline);
    assert_eq!(f64::from_bits(event.breakdown.combined), 0.7);
}

#[test]
fn negative_pid_wird_zu_none_statt_zu_panicken() {
    let anomaly = sample_anomaly(engine::AnomalyLevel::Info);
    let ctx = AnomalyEventContext {
        template_text: "x",
        raw_message: "x",
        pid: Some(-1),
        priority: None,
    };
    let event = build_anomaly_event(1, &anomaly, ctx).unwrap();
    assert_eq!(event.pid, None);
    assert_eq!(map_pid(Some(0)), Some(0));
    assert_eq!(map_pid(None), None);
}

fn half(total: u64, used: u64) -> u32 {
    let percent = if total == 0 {
        0.0
    } else {
        (used as f64 / total as f64 * 100.0).clamp(0.0, 100.0) as f32
    };
    percent.to_bits()
}

#[test]
fn system_snapshot_konvertiert_alle_teile() {
    let measured = system::SystemSnapshot {
        timestamp_us: 1,
        cpu: system::CpuSnapshot {
            global_usage_percent: 12.5f32.to_bits(),
            per_core_usage_percent: vec![10.0f32.to_bits(), 15.0f32.to_bits()],
        },
        memory: system::MemorySnapshot {
            total_bytes: 100,
            used_bytes: 50,
            used_percent: 50.0f32.to_bits(),
        },
        load: system::LoadSnapshot {
            one: 0.1f64.to_bits(),
            five: 0.2f64.to_bits(),
            fifteen: 0.3f64.to_bits(),
        },
        disks: vec![system::DiskSnapshot {
            mount_point: "/".to_string(),
            total_bytes: 1000,
            available_bytes: 500,
            used_percent: 50.0f32.to_bits(),
        }],
        temperatures: vec![system::TemperatureSnapshot {
            label: "CPU".to_string(),
            celsius: 40.0f32.to_bits(),
        }],
        units: vec![system::UnitStatus {
            name: "sshd.service".to_string(),
            active_state: "active".to_string(),
            sub_state: "running".to_string(),
        }],
    };
    let sent = map_system_snapshot(measured);
    assert_eq!(f32::from_bits(sent.cpu.global_usage_percent), 12.5);
    assert_eq!(sent.cpu.per_core_usage_percent.len(), 2);
    assert_eq!(sent.disks[0].mount_point, "/");
    assert_eq!(sent.temperatures[0].label, "CPU");
    assert_eq!(sent.units[0].name, "sshd.service");
}

fn unit(name: &str, active: &str, sub: &str) -> RawUnitEntry {
    RawUnitEntry {
        name: name.to_string(),
        description: format!("{name} description"),
        load_state: "loaded".to_string(),
        active_state: active.to_string(),
        sub_state: sub.to_string(),
    }
}

#[test]
fn nur_beobachtete_units_landen_im_ergebnis() {
    let raw = vec![
        unit("sshd.service", "active", "running"),
        unit("unwichtig.service", "active", "running"),
        unit("cron.service", "inactive", "dead"),
    ];
    let watched = vec!["sshd.service".to_string(), "cron.service".to_string()];
    let result = filter_watched_units(raw, &watched);
    assert_eq!(result.len(), 2);
    assert!(result
        .iter()
        .any(|u| u.name == "sshd.service" && u.active_state == "active"));
    assert!(result
        .iter()
        .any(|u| u.name == "cron.service" && u.sub_state == "dead"));
}

#[test]
fn nicht_existierende_beobachtete_unit_erzeugt_keinen_fehler_nur_eine_luecke() {
    let raw = vec![unit("sshd.service", "active", "running")];
    let watched = vec![
        "sshd.service".to_string(),
        "gibt-es-nicht.service".to_string(),
    ];
    let result = filter_watched_units(raw, &watched);
    assert_eq!(result.len(), 1);
}

#[test]
fn leere_watch_liste_ergibt_leeres_ergebnis() {
    let raw = vec![unit("sshd.service", "active", "running")];
    let result = filter_watched_units(raw, &Vec::new());
    assert!(result.is_empty());
}

fn disks() -> Vec<DiskSpace> {
    vec![
        DiskSpace { mount_point: "/".to_string(), total_bytes: 1000, available_bytes: 250 },
        DiskSpace { mount_point: "/boot".to_string(), total_bytes: 10, available_bytes: 20 },
    ]
}

#[test]
fn watched_mount_points_filtert_wenn_gesetzt() {
    let watched = vec!["/dieser/pfad/existiert/nicht".to_string()];
    let found = watched_disks(disks(), &watched, half);
    assert!(
        found.is_empty(),
        "ein nicht existierender Einhängepunkt darf keine Disks liefern"
    );
}

#[test]
fn without_watched_mount_points_every_disk_is_reported() {
    let found = watched_disks(disks(), &Vec::new(), half);
    assert_eq!(found.len(), 2);
    assert_eq!(f32::from_bits(found[0].used_percent), 75.0);
    assert_eq!(f32::from_bits(found[1].used_percent), 0.0);
    let boot = watched_disks(disks(), &vec!["/boot".to_string()], half);
    assert_eq!(boot.len(), 1);
    assert_eq!(boot[0].mount_point, "/boot");
}

#[test]
fn sensors_without_a_reading_are_left_out() {
    let known = known_temperatures(vec![
        ("a".to_string(), None),
        ("b".to_string(), Some(40.0f32.to_bits())),
    ]);
    assert_eq!(known.len(), 1);
    assert_eq!(known[0].label, "b");
}

fn sample_snapshot() -> proto::Snapshot {
    proto::Snapshot {
        timestamp_us: 1,
        daemon_uptime_secs: 42,
        learning: proto::LearningState {
            active: true,
            remaining_secs: Some(60),
        },
        stats: proto::PipelineStats {
            events: 100,
            parse_errors: 1,
            dropped_overflow: 2,
            templates: 10,
            anomalies_emitted: 3,
            suppressed: 0,
            suppressed_learning: 0,
            events_per_sec: 1.5f64.to_bits(),
            clients: 2,
        },
        window: proto::WindowStats {
            window_secs: 60,
            entropy_bits: 2.5f64.to_bits(),
            entropy_z: 0.3f64.to_bits(),
            events_in_window: 10,
            distinct_templates: 4,
        },
        system: None,
        replay: false,
    }
}

fn renderer() -> Renderer<impl Fn(MetricValue) -> String> {
    Renderer {
        show: |value| match value {
            MetricValue::Count(n) => format!("{}", n as f64),
            MetricValue::Double(bits) => format!("{}", f64::from_bits(bits)),
            MetricValue::Single(bits) => format!("{}", f64::from(f32::from_bits(bits))),
        },
    }
}

#[test]
fn enthaelt_help_type_und_wert_je_metrik() {
    let text = format_prometheus_textfile(&sample_snapshot(), &renderer());
    assert!(text.contains("# HELP logsentry_events_total"));
    assert!(text.contains("# TYPE logsentry_events_total counter"));
    assert!(text.contains("logsentry_events_total 100"));
    assert!(text.contains("logsentry_learning_active 1"));
    assert!(text.contains("logsentry_entropy_bits 2.5"));
}

#[test]
fn ohne_systemzustand_fehlen_dessen_metriken_statt_falscher_nullen() {
    let text = format_prometheus_textfile(&sample_snapshot(), &renderer());
    assert!(!text.contains("logsentry_cpu_usage_percent"));
}

#[test]
fn the_machine_is_shown_once_it_was_measured() {
    let mut snapshot = sample_snapshot();
    snapshot.system = Some(proto::SystemSnapshot {
        timestamp_us: 1,
        cpu: proto::CpuSnapshot {
            global_usage_percent: 12.5f32.to_bits(),
            per_core_usage_percent: Vec::new(),
        },
        memory: proto::MemorySnapshot {
            total_bytes: 4,
            used_bytes: 1,
            used_percent: 25.0f32.to_bits(),
        },
        load: proto::LoadSnapshot { one: 0, five: 0, fifteen: 0 },
        disks: Vec::new(),
        temperatures: Vec::new(),
        units: Vec::new(),
    });
    let text = format_prometheus_textfile(&snapshot, &renderer());
    assert!(text.contains("logsentry_cpu_usage_percent 12.5\n"));
}

#[test]
fn files_are_written_under_another_name_first() {
    assert_eq!(temporary_name(Some("x.prom"), 17), ".x.prom.tmp-17");
    assert_eq!(temporary_name(None, 0), ".logsentry.prom.tmp-0");
    assert_eq!(first_name(Some("c.sock"), 17, 3), ".c.sock.tmp-17-3");
    assert_eq!(first_name(None, 1, 0), ".collector.sock.tmp-1-0");
}

#[test]
fn an_answering_socket_belongs_to_another_daemon() {
    let path = "/run/x.sock";
    assert_eq!(
        remove_before_bind(SocketProbe::Answered, path),
        Err(ServerError::AlreadyRunning(path.to_string()))
    );
    assert_eq!(remove_before_bind(SocketProbe::Refused, path), Ok(true));
    assert_eq!(remove_before_bind(SocketProbe::Unclear, path), Ok(false));
}

#[test]
fn server_errors_in_words() {
    let s = |words: &str| words.to_string();
    assert_eq!(
        ServerError::CreateDir(s("/p"), s("r")).to_text(),
        "Verzeichnis /p konnte nicht angelegt werden: r"
    );
    assert_eq!(ServerError::Bind(s("/p"), s("r")).to_text(), "bind auf /p fehlgeschlagen: r");
    assert_eq!(
        ServerError::RemoveStale(s("/p"), s("r")).to_text(),
        "verwaiste Socket-Datei /p konnte nicht entfernt werden: r"
    );
    assert_eq!(
        ServerError::AlreadyRunning(s("/p")).to_text(),
        "eine weitere Instanz läuft bereits (Socket /p antwortet)"
    );
    assert_eq!(
        ServerError::UnknownGroup(s("g\"h")).to_text(),
        "unbekannte Gruppe \"g\\\"h\" -- siehe `groupadd --system logsentry`"
    );
    assert_eq!(ServerError::Chown(s("/p"), s("r")).to_text(), "chown auf /p fehlgeschlagen: r");
}

#[test]
fn counts_are_shown_whatever_the_renderer_does() {
    let renderer = Renderer { show: |value: MetricValue| format!("<{value:?}>") };
    let text = format_prometheus_textfile(&sample_snapshot(), &renderer);
    assert!(text.contains("\nlogsentry_events_total 100\n"));
    assert!(text.contains("\nlogsentry_learning_active 1\n"));
    assert!(text.contains(&format!("\nlogsentry_entropy_bits <Double({})>\n", 2.5f64.to_bits())));
}
