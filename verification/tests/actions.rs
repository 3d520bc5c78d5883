//! Actions: what is allowed, how often, and what comes of it.

use logsentry::actions::{
    action_kind_str, action_target, audit_entry, nft_failure, restart_or_stop_unit_name,
    ActionExecutor, Decision, Deed,
};
use logsentry::cli::initial_snapshot;
use logsentry::config::{ActionsConfig, Config};
use logsentry::proto::{ActionOutcome, ActionRequest, DenyReason, IpTarget, MuteScope};
use logsentry::state::SharedState;

fn config(allowed_kinds: &[&str], allowed_units: &[&str]) -> ActionsConfig {
    ActionsConfig {
        allowed_kinds: allowed_kinds.iter().map(|s| s.to_string()).collect(),
        allowed_units: allowed_units.iter().map(|s| s.to_string()).collect(),
        audit_log_path: String::new(),
        ..ActionsConfig::default()
    }
}

fn test_state() -> SharedState {
    SharedState::new(initial_snapshot(&Config::default(), false, 0), 10, 10, 1)
}

/// Decides on an action and, where something has to be done, says that it was.
fn execute(
    executor: &mut ActionExecutor,
    action: &ActionRequest,
    now_us: u64,
    state: &mut SharedState,
) -> ActionOutcome {
    match executor.decide(action, now_us) {
        Decision::Answer(outcome) => outcome,
        Decision::Perform(_) => executor.finish(action, Ok(()), now_us, state),
    }
}

fn restart(unit: &str) -> ActionRequest {
    ActionRequest::RestartUnit {
        unit: unit.to_string(),
    }
}

fn block(ip: &str, duration_secs: u32) -> ActionRequest {
    ActionRequest::BlockIp {
        ip: IpTarget {
            text: ip.to_string(),
            is_v6: ip.contains(':'),
        },
        duration_secs,
    }
}

fn terminate(pid: u32, grace_secs: u16) -> ActionRequest {
    ActionRequest::TerminateProcess { pid, grace_secs }
}

fn not_allowed() -> ActionOutcome {
    ActionOutcome::Denied {
        reason: DenyReason::NotAllowed,
    }
}

#[test]
fn block_ip_bleibt_im_dry_run_ohne_echten_nft_aufruf() {
    let mut state = test_state();
    let mut executor = ActionExecutor::new(config(&["block_ip"], &[]));
    let outcome = execute(&mut executor, &block("203.0.113.5", 300), 0, &mut state);
    match outcome {
        ActionOutcome::Completed { dry_run, message } => {
            assert!(dry_run);
            assert!(message.contains("Dry-Run"));
            assert!(message.contains("300s"));
        }
        other => panic!("erwartete Completed, bekam {other:?}"),
    }
}

#[test]
fn block_ip_ohne_allow_list_wird_abgelehnt() {
    let mut state = test_state();
    let mut executor = ActionExecutor::new(config(&[], &[]));
    let outcome = execute(&mut executor, &block("203.0.113.5", 300), 0, &mut state);
    assert_eq!(outcome, not_allowed());
}

#[test]
fn block_ip_klemmt_dauer_auf_konfigurierte_grenzen() {
    let mut state = test_state();
    let mut cfg = config(&["block_ip"], &[]);
    cfg.block_ip_min_duration_secs = 60;
    cfg.block_ip_max_duration_secs = 120;
    let mut executor = ActionExecutor::new(cfg);
    let outcome = execute(&mut executor, &block("203.0.113.5", 999_999), 0, &mut state);
    match outcome {
        ActionOutcome::Completed { message, .. } => {
            assert!(message.contains("120s"), "Nachricht: {message}");
        }
        other => panic!("erwartete Completed, bekam {other:?}"),
    }
}

#[test]
fn terminate_process_bleibt_im_dry_run_ohne_echtes_signal() {
    let mut state = test_state();
    let mut executor = ActionExecutor::new(config(&["terminate_process"], &[]));
    let decision = executor.decide(&terminate(1, 5), 0);
    assert!(matches!(decision, Decision::Answer(_)), "nothing is to be done");
    let outcome = execute(&mut executor, &terminate(1, 5), 0, &mut state);
    match outcome {
        ActionOutcome::Completed { dry_run, message } => {
            assert!(dry_run);
            assert!(message.contains("Dry-Run"));
        }
        other => panic!("erwartete Completed, bekam {other:?}"),
    }
}

#[test]
fn terminate_process_klemmt_grace_secs_auf_das_konfigurierte_maximum() {
    let mut state = test_state();
    let mut cfg = config(&["terminate_process"], &[]);
    cfg.terminate_max_grace_secs = 10;
    let mut executor = ActionExecutor::new(cfg);
    let outcome = execute(&mut executor, &terminate(1, 999), 0, &mut state);
    match outcome {
        ActionOutcome::Completed { message, .. } => {
            assert!(message.contains("Grace 10s"), "Nachricht: {message}");
        }
        other => panic!("erwartete Completed, bekam {other:?}"),
    }
}

#[test]
fn terminate_process_ohne_allow_list_wird_abgelehnt() {
    let mut state = test_state();
    let mut executor = ActionExecutor::new(config(&[], &[]));
    let outcome = execute(&mut executor, &terminate(1, 5), 0, &mut state);
    assert_eq!(outcome, not_allowed());
}

#[test]
fn unbekannte_aktionsart_wird_abgelehnt() {
    let mut state = test_state();
    let mut executor = ActionExecutor::new(config(&[], &[]));
    let outcome = execute(&mut executor, &restart("sshd.service"), 0, &mut state);
    assert_eq!(outcome, not_allowed());
}

#[test]
fn erlaubte_aktionsart_aber_unit_nicht_in_allow_list_wird_abgelehnt() {
    let mut state = test_state();
    let mut executor = ActionExecutor::new(config(&["restart_unit"], &["cron.service"]));
    let outcome = execute(&mut executor, &restart("sshd.service"), 0, &mut state);
    assert_eq!(outcome, not_allowed());
}

#[test]
fn erlaubte_aktion_mit_erlaubter_unit_wird_als_dry_run_bestaetigt() {
    let mut state = test_state();
    let mut executor = ActionExecutor::new(config(&["restart_unit"], &["sshd.service"]));
    let outcome = execute(&mut executor, &restart("sshd.service"), 0, &mut state);
    match outcome {
        ActionOutcome::Completed { dry_run, .. } => assert!(dry_run),
        other => panic!("erwartete Completed, bekam {other:?}"),
    }
}

#[test]
fn vierter_versuch_innerhalb_des_fensters_wird_rate_limitiert() {
    let mut state = test_state();
    let mut cfg = config(&["restart_unit"], &["sshd.service"]);
    cfg.rate_limit_max_actions = 3;
    cfg.rate_limit_window_minutes = 10;
    let mut executor = ActionExecutor::new(cfg);
    let one_minute_us: u64 = 60 * 1_000_000;

    for i in 0..3u64 {
        let outcome = execute(&mut executor, &restart("sshd.service"), i * one_minute_us, &mut state);
        assert!(matches!(outcome, ActionOutcome::Completed { .. }));
    }

    let outcome = execute(&mut executor, &restart("sshd.service"), 3 * one_minute_us, &mut state);
    assert_eq!(
        outcome,
        ActionOutcome::Denied {
            reason: DenyReason::RateLimited { retry_after_secs: 420 }
        }
    );
    let outcome = execute(&mut executor, &restart("sshd.service"), 10 * one_minute_us, &mut state);
    assert!(matches!(outcome, ActionOutcome::Completed { .. }), "the first attempt is forgotten");
}

#[test]
fn rate_limit_gilt_pro_ziel_nicht_global() {
    let mut state = test_state();
    let mut cfg = config(&["restart_unit"], &["sshd.service", "cron.service"]);
    cfg.rate_limit_max_actions = 1;
    let mut executor = ActionExecutor::new(cfg);
    let first = execute(&mut executor, &restart("sshd.service"), 0, &mut state);
    let second = execute(&mut executor, &restart("cron.service"), 0, &mut state);
    assert!(matches!(first, ActionOutcome::Completed { .. }));
    assert!(matches!(second, ActionOutcome::Completed { .. }));
}

#[test]
fn abgelehnte_versuche_zaehlen_ebenfalls_fuers_rate_limit() {
    let mut state = test_state();
    let mut cfg = config(&["mute_anomaly"], &[]);
    cfg.rate_limit_max_actions = 1;
    let mut executor = ActionExecutor::new(cfg);

    let mute = ActionRequest::MuteAnomaly {
        template_id: 42,
        unit: None,
        scope: MuteScope::OneHour,
    };
    let first = execute(&mut executor, &mute, 0, &mut state);
    let second = execute(&mut executor, &mute, 0, &mut state);
    assert!(matches!(first, ActionOutcome::Completed { .. }));
    assert!(matches!(
        second,
        ActionOutcome::Denied {
            reason: DenyReason::RateLimited { .. }
        }
    ));
}

fn in_earnest(kinds: &[&str], units: &[&str]) -> ActionExecutor {
    ActionExecutor::new(ActionsConfig {
        dry_run: false,
        ..config(kinds, units)
    })
}

#[test]
fn restarting_a_unit_keeps_its_own_messages_out_of_the_analysis() {
    let mut state = test_state();
    let mut executor = in_earnest(&["restart_unit", "stop_unit"], &["sshd.service"]);
    assert!(!executor.dry_run());
    let action = restart("sshd.service");
    match executor.decide(&action, 1_000_000) {
        Decision::Perform(Deed::Unit { unit, stop }) => {
            assert_eq!(unit, "sshd.service");
            assert!(!stop);
        }
        other => panic!("{other:?}"),
    }
    let outcome = executor.finish(&action, Ok(()), 1_000_000, &mut state);
    assert!(matches!(outcome, ActionOutcome::Completed { dry_run: false, .. }));
    assert!(state.is_self_filtered(Some("sshd.service"), None, 30_999_999));
    assert!(!state.is_self_filtered(Some("sshd.service"), None, 31_000_000));

    let stop = ActionRequest::StopUnit { unit: "sshd.service".to_string() };
    assert!(matches!(
        executor.decide(&stop, 2),
        Decision::Perform(Deed::Unit { stop: true, .. })
    ));
    let failed = executor.finish(&stop, Err("no bus".to_string()), 2, &mut state);
    match failed {
        ActionOutcome::Failed { message } => assert!(message.contains("no bus"), "{message}"),
        other => panic!("{other:?}"),
    }
}

#[test]
fn addresses_are_blocked_by_nft() {
    let mut state = test_state();
    let mut executor = in_earnest(&["block_ip"], &[]);
    let action = block("2001:db8::1", 3600);
    match executor.decide(&action, 0) {
        Decision::Perform(Deed::Block { commands }) => {
            assert_eq!(commands[0][0], "add");
            assert_eq!(commands[0][1], "table");
            let last = commands[commands.len() - 1].join(" ");
            assert!(last.contains("2001:db8::1"), "{last}");
            assert!(last.contains("3600s"), "{last}");
        }
        other => panic!("{other:?}"),
    }
    let outcome = executor.finish(&action, Ok(()), 0, &mut state);
    assert!(matches!(outcome, ActionOutcome::Completed { dry_run: false, .. }));
    let args = vec!["add".to_string(), "table".to_string()];
    assert_eq!(nft_failure(&args, " denied\n"), "nft add table fehlgeschlagen: denied");
}

#[test]
fn processes_are_ended_after_the_grace() {
    let mut executor = in_earnest(&["terminate_process"], &[]);
    match executor.decide(&terminate(4711, 7), 0) {
        Decision::Perform(Deed::Terminate { pid, grace_secs }) => {
            assert_eq!((pid, grace_secs), (4711, 7));
        }
        other => panic!("{other:?}"),
    }
}

#[test]
fn muting_lasts_as_long_as_asked() {
    let mut state = test_state();
    let mut executor = in_earnest(&["mute_anomaly"], &[]);
    let mute = |template_id: u64, scope: MuteScope| ActionRequest::MuteAnomaly {
        template_id,
        unit: None,
        scope,
    };
    let hour: u64 = 3_600_000_000;
    execute(&mut executor, &mute(1, MuteScope::OneHour), 5, &mut state);
    execute(&mut executor, &mute(2, MuteScope::OneDay), 5, &mut state);
    execute(&mut executor, &mute(3, MuteScope::Permanent), 5, &mut state);
    assert!(state.is_muted(1, Some("x"), hour + 4));
    assert!(!state.is_muted(1, Some("x"), hour + 5));
    assert!(state.is_muted(2, None, 24 * hour + 4));
    assert!(!state.is_muted(2, None, 24 * hour + 5));
    assert!(state.is_muted(3, None, u64::MAX - 1));
}

#[test]
fn actions_are_named_for_the_audit() {
    let mute = ActionRequest::MuteAnomaly {
        template_id: 42,
        unit: Some("a.service".to_string()),
        scope: MuteScope::OneDay,
    };
    let kinds = [
        action_kind_str(&restart("a")),
        action_kind_str(&terminate(1, 1)),
        action_kind_str(&block("1.2.3.4", 1)),
        action_kind_str(&mute),
    ];
    assert_eq!(kinds, ["restart_unit", "terminate_process", "block_ip", "mute_anomaly"]);
    assert_eq!(action_target(&restart("a")), "a");
    assert_eq!(action_target(&terminate(17, 1)), "17");
    assert_eq!(action_target(&block("1.2.3.4", 1)), "1.2.3.4");
    assert_eq!(restart_or_stop_unit_name(&restart("a")), Some("a"));
    assert_eq!(restart_or_stop_unit_name(&mute), None);
    let outcome = not_allowed();
    let entry = audit_entry(&restart("a"), 1, 2, 3, &outcome);
    assert_eq!((entry.request_id, entry.session_id, entry.timestamp_us), (1, 2, 3));
    assert_eq!((entry.kind, entry.target.as_str()), ("restart_unit", "a"));
}

#[test]
fn allowed_kinds_are_those_of_the_settings() {
    let executor = ActionExecutor::new(config(&["block_ip", "stop_unit"], &[]));
    assert_eq!(executor.allowed_kinds(), ["block_ip", "stop_unit"]);
    assert!(executor.dry_run());
}

#[test]
fn the_limit_holds_at_every_moment() {
    let mut cfg = config(&["block_ip"], &[]);
    cfg.rate_limit_max_actions = 3;
    cfg.rate_limit_window_minutes = 1;
    let mut executor = ActionExecutor::new(cfg);
    let window: u64 = 60_000_000;
    let mut granted: Vec<u64> = Vec::new();
    for step in 0..200u64 {
        let now = step * 7_000_000;
        // Attempts at another address do not count.
        executor.decide(&block("203.0.113.9", 300), now);
        let answer = executor.decide(&block("203.0.113.5", 300), now);
        if matches!(answer, Decision::Answer(ActionOutcome::Completed { .. })) {
            granted.push(now);
        }
        let recent = granted.iter().filter(|time| now - **time < window).count();
        assert!(recent <= 3, "{recent} at {now}");
    }
    assert_eq!(granted[..4], [0, 7_000_000, 14_000_000, 63_000_000]);
}

#[test]
fn a_permanent_mute_is_about_its_unit() {
    let mut state = test_state();
    let mut cfg = config(&["mute_anomaly"], &[]);
    cfg.dry_run = false;
    let mut executor = ActionExecutor::new(cfg);
    let mute = ActionRequest::MuteAnomaly {
        template_id: 7,
        unit: Some("a.service".to_string()),
        scope: MuteScope::Permanent,
    };
    execute(&mut executor, &mute, 5, &mut state);
    assert!(state.is_muted(7, Some("a.service"), u64::MAX - 1));
    assert!(!state.is_muted(7, Some("b.service"), 6));
}

#[test]
fn an_action_is_refused_first_and_goes_on_afterwards() {
    let mut cfg = config(&["block_ip"], &[]);
    cfg.rate_limit_max_actions = 1;
    let mut executor = ActionExecutor::new(cfg);
    let action = block("203.0.113.5", 300);
    assert_eq!(executor.refuse(&restart("a.service"), 0), Some(DenyReason::NotAllowed));
    assert_eq!(executor.refuse(&action, 0), None);
    assert!(matches!(
        executor.go_on_with(&action),
        Decision::Answer(ActionOutcome::Completed { dry_run: true, .. })
    ));
    assert!(matches!(executor.refuse(&action, 1), Some(DenyReason::RateLimited { .. })));
}
