//! Lines of the journal, quiet rules, the ring channel, and how the journal is read.

use logsentry::config::{QuietConfig, QuietTemplateRule};
use logsentry::ingestion::{
    check_journal_permissions, has_journal_access, is_blank, journalctl_args, permission_from,
    Backoff, IngestionError, IngestionMode,
};
use logsentry::journal::{
    event_from_entry, parse_journal_line, JournalEvent, JournalParseError, RawJournalEntry, RawMessage,
};
use logsentry::quiet::{find_unusable, rule_applies, QuietFilter};
use logsentry::ring::{Received, RingState};

fn decode(line: &str) -> Result<RawJournalEntry, String> {
    let value: serde_json::Value = serde_json::from_str(line).map_err(|err| err.to_string())?;
    let text = |key: &str| value.get(key).and_then(|v| v.as_str()).map(|s| s.to_string());
    let message = value.get("MESSAGE").map(|m| match m.as_str() {
        Some(words) => RawMessage::Text(words.to_string()),
        None => RawMessage::Bytes(
            m.as_array()
                .map(|bytes| bytes.iter().filter_map(|b| b.as_u64()).map(|b| b as u8).collect())
                .unwrap_or_default(),
        ),
    });
    Ok(RawJournalEntry {
        realtime_timestamp: text("__REALTIME_TIMESTAMP"),
        systemd_unit: text("_SYSTEMD_UNIT"),
        pid: text("_PID"),
        priority: text("PRIORITY"),
        message,
        hostname: text("_HOSTNAME"),
    })
}

fn parse(line: &str) -> Result<JournalEvent, JournalParseError> {
    parse_journal_line(decode(line))
}

#[test]
fn parst_normale_textzeile() {
    let event = parse(
        r#"{"__REALTIME_TIMESTAMP":"1735689600000000","_SYSTEMD_UNIT":"sshd.service","_PID":"1234","PRIORITY":"6","MESSAGE":"Accepted publickey for admin from 10.0.0.5","_HOSTNAME":"host"}"#,
    )
    .expect("muss parsbar sein");
    assert_eq!(event.realtime_timestamp_us, 1_735_689_600_000_000);
    assert_eq!(event.systemd_unit.as_deref(), Some("sshd.service"));
    assert_eq!(event.pid, Some(1234));
    assert_eq!(event.priority, Some(6));
    assert_eq!(event.message, "Accepted publickey for admin from 10.0.0.5");
    assert!(!event.message_was_binary);
    assert_eq!(event.hostname.as_deref(), Some("host"));
}

#[test]
fn behandelt_message_als_byte_array() {
    let event = parse(r#"{"__REALTIME_TIMESTAMP":"5","MESSAGE":[72,105,255,33]}"#)
        .expect("muss parsbar sein");
    assert!(event.message_was_binary);
    assert!(event.message.contains('\u{FFFD}'));
    assert_eq!(event.message, "Hi\u{FFFD}!");
}

#[test]
fn kaputtes_json_liefert_fehler_statt_panic() {
    let result = parse("das ist kein json {{{");
    assert!(matches!(result, Err(JournalParseError::InvalidJson(_))));
}

#[test]
fn fehlender_zeitstempel_liefert_fehler() {
    let result = parse(r#"{"MESSAGE": "ohne Zeitstempel"}"#);
    assert_eq!(result, Err(JournalParseError::MissingTimestamp));
}

#[test]
fn fehlende_optionale_felder_sind_kein_fehler() {
    let result = parse(r#"{"__REALTIME_TIMESTAMP": "1000000"}"#);
    let event = result.expect("nur Pflichtfeld gesetzt, muss parsbar sein");
    assert_eq!(event.realtime_timestamp_us, 1_000_000);
    assert_eq!(event.systemd_unit, None);
    assert_eq!(event.message, "");
}

#[test]
fn unreadable_numbers_count_as_none() {
    let raw = |stamp: &str, pid: &str, priority: &str| RawJournalEntry {
        realtime_timestamp: Some(stamp.to_string()),
        systemd_unit: None,
        pid: Some(pid.to_string()),
        priority: Some(priority.to_string()),
        message: None,
        hostname: None,
    };
    let event = event_from_entry(raw("7", "-5", "256"), "m".to_string(), false).expect("an event");
    assert_eq!((event.pid, event.priority), (Some(-5), None));
    let event = event_from_entry(raw("+7", "2147483648", "255"), "m".to_string(), false);
    let event = event.expect("a sign in front of a number is read");
    assert_eq!((event.pid, event.priority), (None, Some(255)));
    let result = event_from_entry(raw("18446744073709551616", "1", "1"), String::new(), false);
    assert_eq!(result, Err(JournalParseError::MissingTimestamp));
}

#[test]
fn journal_errors_in_words() {
    assert_eq!(
        JournalParseError::InvalidJson("why".to_string()).to_text(),
        "Zeile ist kein gültiges JSON: why"
    );
    assert_eq!(
        JournalParseError::MissingTimestamp.to_text(),
        "__REALTIME_TIMESTAMP fehlt oder ist nicht parsbar"
    );
}

fn filter_with(rules: Vec<QuietTemplateRule>) -> QuietFilter {
    QuietFilter::new(&QuietConfig { templates: rules })
}

fn rule(unit: Option<&str>, pattern: &str) -> QuietTemplateRule {
    QuietTemplateRule {
        unit: unit.map(|u| u.to_string()),
        pattern: pattern.to_string(),
    }
}

#[test]
fn leere_konfiguration_maskiert_nichts() {
    let filter = filter_with(Vec::new());
    assert!(!filter.is_quiet(Some("init.scope"), "irgendeine Zeile"));
}

#[test]
fn regel_ohne_unit_greift_unabhaengig_von_der_unit() {
    let filter = filter_with(vec![rule(None, r"^Testmuster$")]);
    assert!(filter.is_quiet(Some("beliebig.service"), "Testmuster"));
    assert!(filter.is_quiet(None, "Testmuster"));
}

#[test]
fn regel_mit_unit_verlangt_exakte_uebereinstimmung() {
    let filter = filter_with(vec![rule(Some("init.scope"), r"^Testmuster$")]);
    assert!(filter.is_quiet(Some("init.scope"), "Testmuster"));
    assert!(!filter.is_quiet(Some("anderes.service"), "Testmuster"));
    assert!(!filter.is_quiet(None, "Testmuster"));
}

#[test]
fn nicht_passendes_muster_maskiert_nicht() {
    let filter = filter_with(vec![rule(None, r"^Testmuster$")]);
    assert!(!filter.is_quiet(None, "voellig andere Zeile"));
}

#[test]
fn ungueltiges_muster_wird_verworfen_statt_zu_paniken() {
    let filter = filter_with(vec![rule(None, r"(unbalanciert")]);
    assert!(!filter.is_quiet(None, "(unbalanciert"));
}

#[test]
fn unusable_patterns_are_listed_in_order() {
    let config = QuietConfig {
        templates: vec![
            rule(None, "[offen"),
            rule(Some("a.service"), "gut"),
            rule(Some("b.service"), "(unbalanciert"),
        ],
    };
    assert_eq!(find_unusable(&config), ["[offen", "(unbalanciert"]);
    let filter = QuietFilter::new(&config);
    assert!(filter.is_quiet(Some("a.service"), "alles gut"));
    assert!(find_unusable(&QuietConfig { templates: vec![rule(None, "gut")] }).is_empty());
    assert!(find_unusable(&QuietConfig::default()).is_empty());
}

#[test]
fn default_regeln_maskieren_die_am_2026_09_21_identifizierten_wartungszeilen() {
    let filter = QuietFilter::new(&QuietConfig::default());
    let faelle = [
        (Some("init.scope"), "run-timeshift-271289-backup.mount: Deactivated successfully."),
        (Some("init.scope"), "Starting dpkg-db-backup.service - Daily dpkg database backup service..."),
        (Some("init.scope"), "dpkg-db-backup.service: Deactivated successfully."),
        (Some("init.scope"), "Starting logrotate.service - Rotate log files..."),
        (Some("init.scope"), "Finished logrotate.service - Rotate log files."),
        (Some("init.scope"), "Starting man-db.service - Daily man-db regeneration..."),
        (Some("init.scope"), "man-db.service: Deactivated successfully."),
        (Some("init.scope"), "flatpak-system-helper.service: Consumed 2.496s CPU time."),
        (Some("init.scope"), "flatpak-system-helper.service: Deactivated successfully."),
        (Some("cron.service"), "(root) CMD (cd / && run-parts --report /etc/cron.hourly)"),
        (Some("cron.service"), "(root) LIST (root)"),
    ];
    for (unit, message) in faelle {
        assert!(filter.is_quiet(unit, message), "muss maskiert werden: {message:?}");
    }
}

#[test]
fn default_regeln_maskieren_keine_echten_anomalien() {
    let filter = QuietFilter::new(&QuietConfig::default());
    let faelle = [
        (Some("sshd.service"), "Failed password for root from 203.0.113.9 port 51422 ssh2"),
        (Some("cups.service"), "cups-browsed.service: State 'stop-sigterm' timed out. Killing."),
        (None, "kernel: Out of memory: Killed process 5321"),
        (Some("cron.service"), "(root) CMD (curl http://example.invalid/x)"),
    ];
    for (unit, message) in faelle {
        assert!(!filter.is_quiet(unit, message), "darf nicht maskiert werden: {message:?}");
    }
}

#[test]
fn one_good_rule_suffices() {
    let filter = filter_with(vec![rule(None, "("), rule(None, "^b"), rule(None, "^a")]);
    assert!(filter.is_quiet(None, "abc"));
    assert!(!filter.is_quiet(None, "cab"));
    assert!(rule_applies(&None, Some("x"), true));
    assert!(!rule_applies(&Some("y".to_string()), Some("x"), true));
    assert!(!rule_applies(&None, None, false));
}

fn item<T>(received: Received<T>) -> Option<T> {
    match received {
        Received::Item(value) => Some(value),
        Received::Closed => None,
        Received::Wait => panic!("nothing is there yet"),
    }
}

#[test]
fn send_und_recv_ohne_ueberlauf() {
    let mut ring: RingState<u32> = RingState::new(4);
    ring.send(1);
    ring.send(2);
    assert_eq!(item(ring.receive()), Some(1));
    assert_eq!(item(ring.receive()), Some(2));
    assert_eq!(ring.dropped_count(), 0);
    assert!(matches!(ring.receive(), Received::Wait));
}

#[test]
fn ueberlauf_verwirft_aeltestes_element() {
    let mut ring: RingState<u32> = RingState::new(2);
    ring.send(1);
    ring.send(2);
    ring.send(3);
    assert_eq!(ring.dropped_count(), 1);
    assert_eq!(item(ring.receive()), Some(2));
    assert_eq!(item(ring.receive()), Some(3));
}

#[test]
fn close_beendet_recv_nach_leerung() {
    let mut ring: RingState<u32> = RingState::new(4);
    ring.send(42);
    ring.close();
    assert_eq!(item(ring.receive()), Some(42));
    assert_eq!(item(ring.receive()), None);
}

#[test]
fn dropped_count_ist_ueber_beide_enden_konsistent() {
    let mut ring: RingState<u32> = RingState::new(1);
    ring.send(1);
    ring.send(2);
    assert_eq!(ring.dropped_count(), 1);
    let _ = ring.receive();
}

#[test]
fn the_last_sender_closes_the_channel() {
    let mut ring: RingState<u32> = RingState::new(1);
    ring.add_sender();
    assert!(!ring.drop_sender());
    assert!(matches!(ring.receive(), Received::Wait));
    assert!(ring.drop_sender());
    assert!(matches!(ring.receive(), Received::Closed));
}

#[test]
fn root_hat_immer_zugriff() {
    assert!(has_journal_access(0, &[]));
}

#[test]
fn systemd_journal_gruppe_gewaehrt_zugriff() {
    let groups = vec!["users".to_string(), "systemd-journal".to_string()];
    assert!(has_journal_access(1000, &groups));
}

#[test]
fn adm_gruppe_gewaehrt_zugriff() {
    let groups = vec!["adm".to_string()];
    assert!(has_journal_access(1000, &groups));
}

#[test]
fn ohne_passende_gruppe_kein_zugriff() {
    let groups = vec!["users".to_string(), "docker".to_string()];
    assert!(!has_journal_access(1000, &groups));
}

#[test]
fn live_args_enthalten_follow_und_no_backlog() {
    let args = journalctl_args(&IngestionMode::Live);
    assert!(args.contains(&"-f".to_string()));
    assert!(args
        .windows(2)
        .any(|w| w == ["-n".to_string(), "0".to_string()]));
    assert!(args.contains(&"json".to_string()));
}

#[test]
fn replay_args_enthalten_since_und_optional_until() {
    let mode = IngestionMode::Replay {
        since: "2026-01-01 00:00:00".to_string(),
        until: Some("2026-01-02 00:00:00".to_string()),
    };
    let args = journalctl_args(&mode);
    assert!(args.contains(&"--since".to_string()));
    assert!(args.contains(&"2026-01-01 00:00:00".to_string()));
    assert!(args.contains(&"--until".to_string()));
    assert!(args.contains(&"2026-01-02 00:00:00".to_string()));
}

#[test]
fn replay_ohne_until_laesst_argument_weg() {
    let mode = IngestionMode::Replay {
        since: "2026-01-01 00:00:00".to_string(),
        until: None,
    };
    let args = journalctl_args(&mode);
    assert!(!args.contains(&"--until".to_string()));
}

#[test]
fn permission_is_read_from_the_outputs_of_id() {
    assert_eq!(permission_from("0\n", "root\n"), Ok(()));
    assert_eq!(permission_from(" 1000\n", "users adm\n"), Ok(()));
    let refused = check_journal_permissions(
        &"1000\n".to_string().into_bytes(),
        &"users \"odd\"\n".to_string().into_bytes(),
    );
    let groups = vec!["users".to_string(), "\"odd\"".to_string()];
    assert_eq!(
        refused,
        Err(IngestionError::MissingJournalPermission { groups })
    );
    let words = refused.expect_err("refused").to_text();
    assert!(words.starts_with(
        "Benutzer ist nicht in einer Journal-lesenden Gruppe (aktuelle Gruppen: [\"users\", \"\\\"odd\\\"\"])."
    ));
}

#[test]
fn an_unreadable_user_id_is_nobody() {
    assert!(permission_from("nobody", "users").is_err());
    assert_eq!(permission_from("nobody", "adm"), Ok(()));
}

#[test]
fn ingestion_errors_in_words() {
    let reason = || "x".to_string();
    assert_eq!(
        IngestionError::PermissionCheckFailed(reason()).to_text(),
        "Rechteprüfung konnte nicht durchgeführt werden: x"
    );
    assert_eq!(
        IngestionError::SpawnFailed(reason()).to_text(),
        "journalctl-Prozess konnte nicht gestartet werden: x"
    );
    assert_eq!(
        IngestionError::StdoutMissing.to_text(),
        "journalctl-Prozess lieferte kein stdout-Handle"
    );
    assert_eq!(
        IngestionError::ReadFailed(reason()).to_text(),
        "Fehler beim Lesen von journalctl-stdout: x"
    );
}

#[test]
fn pauses_double_up_to_half_a_minute() {
    let mut backoff = Backoff::new(1000);
    let pauses: Vec<u64> = (0..7u64).map(|_| backoff.pause_after(10)).collect();
    assert_eq!(pauses, [1000, 2000, 4000, 8000, 16_000, 30_000, 30_000]);
    assert_eq!(backoff.pause_after(60_000), 1000);
    assert_eq!(backoff.pause_after(0), 2000);
    assert_eq!(Backoff::new(0).pause_after(0), 1);
    let mut long = Backoff::new(60_000);
    assert_eq!(long.pause_after(0), 30_000);
    assert_eq!(long.pause_after(60_000), 30_000);
}

#[test]
fn blank_lines_are_told_from_others() {
    assert!(is_blank(""));
    assert!(is_blank(" \t\u{a0}"));
    assert!(!is_blank(" x "));
}

#[test]
fn items_are_received_buffered_or_counted_as_dropped() {
    let mut ring: RingState<u64> = RingState::new(3);
    let mut sent: u64 = 0;
    let mut got: Vec<u64> = Vec::new();
    for step in 0..100u64 {
        if step % 5 < 3 || step % 7 == 0 {
            ring.send(sent);
            sent += 1;
        } else if let Received::Item(item) = ring.receive() {
            got.push(item);
        }
    }
    let dropped = ring.dropped_count();
    let mut left: Vec<u64> = Vec::new();
    while let Received::Item(item) = ring.receive() {
        left.push(item);
    }
    assert!(dropped > 0 && !got.is_empty());
    assert_eq!(sent, got.len() as u64 + dropped + left.len() as u64);
    assert!(got.windows(2).all(|pair| pair[0] < pair[1]));
    assert_eq!(left, (sent - left.len() as u64..sent).collect::<Vec<u64>>());
}
