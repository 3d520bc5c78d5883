//! The conversation with a client.

use logsentry::actions::{ActionExecutor, Decision};
use logsentry::cli::initial_snapshot;
use logsentry::config::{ActionsConfig, Config};
use logsentry::proto::{
    ActionOutcome, ActionRequest, AnomalyEvent, AnomalyLevel, ClientMessage, DenyReason, ErrorCode,
    GoodbyeReason, MuteScope, RateSource, ScoreBreakdown, ServerMessage, Subscription,
    PROTOCOL_VERSION,
};
use logsentry::session::{
    action_result, classify_line, handshake_step, opening, parse_client_message, reject_too_many,
    session_step, snapshot_period_ms, HandshakeEvent, HandshakeStep, ParsedLine, SessionEvent,
    SessionLimits, SessionStep,
};
use logsentry::state::SharedState;
use logsentry::wire::ContextEntry;

fn state(context_lines: usize) -> SharedState {
    SharedState::new(initial_snapshot(&Config::default(), false, 0), 10, context_lines, 99)
}

fn limits() -> SessionLimits {
    SessionLimits {
        min_snapshot_interval_ms: 50,
        context_max_lines: 50,
    }
}

fn everything() -> Subscription {
    Subscription {
        snapshots: true,
        anomalies: true,
        snapshot_interval_ms: 1000,
    }
}

fn hello(protocol_version: u32) -> ClientMessage {
    ClientMessage::Hello {
        protocol_version,
        client_name: "test-client".to_string(),
        client_version: "0.0.0".to_string(),
        subscription: everything(),
    }
}

fn sample_anomaly_event(id: u64) -> AnomalyEvent {
    AnomalyEvent {
        id,
        timestamp_us: id,
        template_id: 1,
        template_text: "x".to_string(),
        sample_message: "x".to_string(),
        unit: None,
        pid: None,
        priority: None,
        level: AnomalyLevel::Warn,
        breakdown: ScoreBreakdown {
            rate_z: 0,
            surprisal_bits: 0,
            entropy_z: 0,
            rate_component: 0,
            surprisal_component: 0,
            entropy_component: 0,
            combined: 0,
            rate_source: RateSource::Nowhere,
        },
        suppressed_since_last: 0,
    }
}

fn line(message: ClientMessage) -> SessionEvent {
    SessionEvent::Line(ParsedLine::Message(message))
}

fn step(event: SessionEvent, shared: &SharedState, subscription: &mut Subscription) -> SessionStep {
    session_step(event, &limits(), shared, subscription).0
}

#[test]
fn handshake_liefert_hello_recent_anomalies_und_snapshot() {
    let shared = state(10);
    let executor = ActionExecutor::new(ActionsConfig::default());
    let subscription = match handshake_step(HandshakeEvent::Line(ParsedLine::Message(hello(PROTOCOL_VERSION)))) {
        HandshakeStep::Ready(subscription) => subscription,
        other => panic!("{other:?}"),
    };
    let messages = opening(&subscription, "0.1.0", "test-host", &executor, &shared);
    assert_eq!(messages.len(), 3);
    match &messages[0] {
        ServerMessage::Hello { protocol_version, session_id, hostname, dry_run, .. } => {
            assert_eq!(*protocol_version, PROTOCOL_VERSION);
            assert_eq!(*session_id, shared.session_id());
            assert_eq!(hostname, "test-host");
            assert!(*dry_run);
        }
        other => panic!("Hello erwartet, bekam {other:?}"),
    }
    match &messages[1] {
        ServerMessage::RecentAnomalies { anomalies } => assert!(anomalies.is_empty()),
        other => panic!("RecentAnomalies erwartet, bekam {other:?}"),
    }
    match &messages[2] {
        ServerMessage::Snapshot(_) => {}
        other => panic!("Snapshot erwartet, bekam {other:?}"),
    }
}

#[test]
fn version_mismatch_fuehrt_zu_goodbye_und_verbindungsende() {
    let event = HandshakeEvent::Line(ParsedLine::Message(hello(PROTOCOL_VERSION + 1)));
    match handshake_step(event) {
        HandshakeStep::Close(Some(ServerMessage::Goodbye {
            reason: GoodbyeReason::VersionMismatch { expected, got },
        })) => {
            assert_eq!(expected, PROTOCOL_VERSION);
            assert_eq!(got, PROTOCOL_VERSION + 1);
        }
        other => panic!("Goodbye(VersionMismatch) erwartet, bekam {other:?}"),
    }
}

#[test]
fn ueberlange_zeile_fuehrt_zu_goodbye_und_close() {
    let shared = state(10);
    let mut wanted = everything();
    match step(SessionEvent::TooLong, &shared, &mut wanted) {
        SessionStep::Close(Some(ServerMessage::Goodbye {
            reason: GoodbyeReason::LineTooLong,
        })) => {}
        other => panic!("Goodbye(LineTooLong) erwartet, bekam {other:?}"),
    }
}

#[test]
fn zweiter_client_bei_max_clients_eins_bekommt_goodbye() {
    let mut shared = state(10);
    assert!(shared.admit_client(1));
    assert!(!shared.admit_client(1));
    match reject_too_many(1) {
        ServerMessage::Goodbye {
            reason: GoodbyeReason::TooManyClients { max },
        } => assert_eq!(max, 1),
        other => panic!("Goodbye(TooManyClients) erwartet, bekam {other:?}"),
    }
}

#[test]
fn langsamer_client_bekommt_lagged_fehler() {
    let shared = state(10);
    let mut wanted = Subscription { snapshots: false, ..everything() };
    match step(SessionEvent::Lagged(144), &shared, &mut wanted) {
        SessionStep::GoOn(Some(ServerMessage::Error {
            code: ErrorCode::Lagged { missed },
            ..
        })) => assert_eq!(missed, 144),
        other => panic!("{other:?}"),
    }
}

/// Decodes a ping; no other message is needed here.
fn decode(words: &str) -> Option<ClientMessage> {
    let value: serde_json::Value = serde_json::from_str(words).ok()?;
    if value.get("type")?.as_str()? == "ping" {
        Some(ClientMessage::Ping {
            nonce: value.get("nonce")?.as_u64()?,
        })
    } else {
        None
    }
}

#[test]
fn parse_erkennt_gueltige_nachricht_unbekannten_typ_und_ungueltiges_json() {
    let valid = r#"{"type":"ping","nonce":1}"#;
    assert!(matches!(
        parse_client_message(valid, decode(valid)),
        ParsedLine::Message(ClientMessage::Ping { nonce: 1 })
    ));
    let unknown = r#"{"type":"does_not_exist"}"#;
    assert!(matches!(
        parse_client_message(unknown, decode(unknown)),
        ParsedLine::UnknownMessage
    ));
    let malformed = "{nicht valides json";
    assert!(matches!(
        parse_client_message(malformed, decode(malformed)),
        ParsedLine::MalformedJson
    ));
    assert!(matches!(classify_line(None, true), ParsedLine::UnknownMessage));
}

#[test]
fn ping_wird_mit_pong_beantwortet() {
    let shared = state(10);
    let mut wanted = everything();
    match step(line(ClientMessage::Ping { nonce: 42 }), &shared, &mut wanted) {
        SessionStep::GoOn(Some(ServerMessage::Pong { nonce })) => assert_eq!(nonce, 42),
        other => panic!("Pong erwartet, bekam {other:?}"),
    }
}

fn mute(template_id: u64, scope: MuteScope) -> ActionRequest {
    ActionRequest::MuteAnomaly {
        template_id,
        unit: None,
        scope,
    }
}

/// Has an action done that a session asks for.
fn perform(step: SessionStep, executor: &mut ActionExecutor, shared: &mut SharedState) -> ServerMessage {
    match step {
        SessionStep::Execute { request_id, action } => {
            let outcome = match executor.decide(&action, 0) {
                Decision::Answer(outcome) => outcome,
                Decision::Perform(_) => executor.finish(&action, Ok(()), 0, shared),
            };
            action_result(request_id, outcome)
        }
        other => panic!("{other:?}"),
    }
}

#[test]
fn action_ohne_konfigurierte_allow_list_wird_abgelehnt() {
    let mut shared = state(10);
    let mut wanted = everything();
    let mut executor = ActionExecutor::new(ActionsConfig::default());
    let message = ClientMessage::Action {
        request_id: 1,
        action: mute(1, MuteScope::OneHour),
    };
    let asked = step(line(message), &shared, &mut wanted);
    match perform(asked, &mut executor, &mut shared) {
        ServerMessage::ActionResult {
            request_id,
            outcome:
                ActionOutcome::Denied {
                    reason: DenyReason::NotAllowed,
                },
        } => assert_eq!(request_id, 1),
        other => panic!("ActionResult(Denied) erwartet, bekam {other:?}"),
    }
}

#[test]
fn erlaubte_action_wird_ausgefuehrt_und_wirkt_im_shared_state() {
    let mut shared = state(10);
    let mut wanted = everything();
    let mut executor = ActionExecutor::new(ActionsConfig {
        dry_run: false,
        allowed_kinds: vec!["mute_anomaly".to_string()],
        ..ActionsConfig::default()
    });
    let message = ClientMessage::Action {
        request_id: 7,
        action: mute(42, MuteScope::Permanent),
    };
    let asked = step(line(message), &shared, &mut wanted);
    match perform(asked, &mut executor, &mut shared) {
        ServerMessage::ActionResult {
            request_id,
            outcome: ActionOutcome::Completed { dry_run, .. },
        } => {
            assert_eq!(request_id, 7);
            assert!(!dry_run);
        }
        other => panic!("ActionResult(Completed) erwartet, bekam {other:?}"),
    }
    assert!(shared.is_muted(42, None, 0));
}

#[test]
fn get_context_liefert_umgebung_um_zeitstempel() {
    let mut shared = state(50);
    for i in 0..5u64 {
        shared.push_context(ContextEntry {
            timestamp_us: i * 10,
            unit: None,
            pid: Some(1),
            priority: Some(6),
            message: format!("zeile-{i}"),
        });
    }
    let mut wanted = everything();
    let message = ClientMessage::GetContext {
        request_id: 7,
        timestamp_us: 20,
        before: 1,
        after: 1,
        unit: None,
    };
    match step(line(message), &shared, &mut wanted) {
        SessionStep::GoOn(Some(ServerMessage::Context(reply))) => {
            assert_eq!(reply.request_id, 7);
            assert_eq!(reply.lines.len(), 3);
            assert_eq!(reply.lines[1].message, "zeile-2");
            assert!(!reply.truncated);
        }
        other => panic!("Context erwartet, bekam {other:?}"),
    }
}

#[test]
fn nachricht_vor_hello_bekommt_error_und_verbindung_bleibt_offen() {
    let early = HandshakeEvent::Line(ParsedLine::Message(ClientMessage::Ping { nonce: 1 }));
    match handshake_step(early) {
        HandshakeStep::GoOn(ServerMessage::Error {
            code: ErrorCode::HelloExpected,
            ..
        }) => {}
        other => panic!("Error(HelloExpected) erwartet, bekam {other:?}"),
    }
    let late = HandshakeEvent::Line(ParsedLine::Message(hello(PROTOCOL_VERSION)));
    assert!(matches!(handshake_step(late), HandshakeStep::Ready(_)));
}

#[test]
fn ohne_hello_innerhalb_der_frist_gibt_es_hello_timeout() {
    match handshake_step(HandshakeEvent::Expired) {
        HandshakeStep::Close(Some(ServerMessage::Goodbye {
            reason: GoodbyeReason::HelloTimeout,
        })) => {}
        other => panic!("{other:?}"),
    }
}

#[test]
fn a_client_gets_only_what_it_wants() {
    let shared = state(10);
    let mut nothing = Subscription {
        snapshots: false,
        anomalies: false,
        snapshot_interval_ms: 1000,
    };
    let silent = |done: SessionStep| matches!(done, SessionStep::GoOn(None));
    assert!(silent(step(SessionEvent::SnapshotTick, &shared, &mut nothing)));
    assert!(silent(step(SessionEvent::Anomaly(sample_anomaly_event(1)), &shared, &mut nothing)));
    let mut all = everything();
    assert!(matches!(
        step(SessionEvent::SnapshotTick, &shared, &mut all),
        SessionStep::GoOn(Some(ServerMessage::Snapshot(_)))
    ));
    match step(SessionEvent::Anomaly(sample_anomaly_event(5)), &shared, &mut all) {
        SessionStep::GoOn(Some(ServerMessage::Anomaly(event))) => assert_eq!(event.id, 5),
        other => panic!("{other:?}"),
    }
    let executor = ActionExecutor::new(ActionsConfig::default());
    assert_eq!(opening(&nothing, "v", "h", &executor, &shared).len(), 2);
}

#[test]
fn the_interval_stays_within_its_bounds() {
    let shared = state(10);
    let mut wanted = everything();
    for (asked, given) in [(1u32, 50u32), (700, 700), (1_000_000, 60_000)] {
        let message = ClientMessage::Subscribe {
            subscription: Subscription { snapshot_interval_ms: asked, ..everything() },
        };
        let (done, restarts) = session_step(line(message), &limits(), &shared, &mut wanted);
        assert!(matches!(done, SessionStep::GoOn(None)));
        assert!(restarts);
        assert_eq!(wanted.snapshot_interval_ms, given);
        assert_eq!(snapshot_period_ms(&wanted, &limits()), given);
    }
    let none = SessionLimits { min_snapshot_interval_ms: 0, context_max_lines: 1 };
    let restless = Subscription { snapshot_interval_ms: 0, ..everything() };
    assert_eq!(snapshot_period_ms(&restless, &none), 1);
}

#[test]
fn the_end_of_the_daemon_ends_the_session() {
    let shared = state(10);
    let mut wanted = everything();
    assert!(matches!(
        step(SessionEvent::ShutdownChanged(true), &shared, &mut wanted),
        SessionStep::Close(Some(ServerMessage::Goodbye { reason: GoodbyeReason::Shutdown }))
    ));
    assert!(matches!(
        step(SessionEvent::ShutdownChanged(false), &shared, &mut wanted),
        SessionStep::GoOn(None)
    ));
    assert!(matches!(
        step(SessionEvent::EndOfStream, &shared, &mut wanted),
        SessionStep::Close(None)
    ));
}

#[test]
fn unreadable_lines_are_answered() {
    let shared = state(10);
    let mut wanted = everything();
    match step(SessionEvent::Line(ParsedLine::UnknownMessage), &shared, &mut wanted) {
        SessionStep::GoOn(Some(ServerMessage::Error { code, .. })) => {
            assert_eq!(code, ErrorCode::UnknownMessage);
        }
        other => panic!("{other:?}"),
    }
    match handshake_step(HandshakeEvent::Unreadable) {
        HandshakeStep::Close(Some(ServerMessage::Error { code, message, .. })) => {
            assert_eq!(code, ErrorCode::MalformedMessage);
            assert_eq!(message, "ungültiges UTF-8");
        }
        other => panic!("{other:?}"),
    }
    assert!(matches!(handshake_step(HandshakeEvent::EndOfStream), HandshakeStep::Close(None)));
}
