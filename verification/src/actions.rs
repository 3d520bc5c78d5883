//! Actions that clients ask for: whether they are allowed, how often, and what comes
//! of them.

use vstd::prelude::*;

use crate::config::ActionsConfig;
use crate::engine;
use crate::proto;
use crate::proto::{ActionOutcome, ActionRequest, DenyReason, IpTarget, MuteScope};
use crate::state;
use crate::state::{SharedState, StateView};
use crate::text;
use crate::textmap::TextMap;

verus! {

/// What the settings call a kind of action.
pub open spec fn kind_name(action: ActionRequest) -> Seq<char> {
    match action {
        ActionRequest::RestartUnit { .. } => "restart_unit"@,
        ActionRequest::StopUnit { .. } => "stop_unit"@,
        ActionRequest::TerminateProcess { .. } => "terminate_process"@,
        ActionRequest::BlockIp { .. } => "block_ip"@,
        ActionRequest::MuteAnomaly { .. } => "mute_anomaly"@,
    }
}

/// What the settings call a kind of action.
pub fn action_kind_str(action: &ActionRequest) -> (kind: &'static str)
    ensures
        kind@ == kind_name(*action),
{
    match action {
        ActionRequest::RestartUnit { .. } => "restart_unit",
        ActionRequest::StopUnit { .. } => "stop_unit",
        ActionRequest::TerminateProcess { .. } => "terminate_process",
        ActionRequest::BlockIp { .. } => "block_ip",
        ActionRequest::MuteAnomaly { .. } => "mute_anomaly",
    }
}

/// A template, and the unit in which it is muted if it is one.
pub open spec fn mute_target(template_id: u64, unit: Option<String>) -> Seq<char> {
    match unit {
        Some(unit) => text::decimal(template_id as nat) + "@"@ + unit@,
        None => text::decimal(template_id as nat),
    }
}

/// A template, and the unit in which it is muted if it is one.
fn mute_target_text(template_id: u64, unit: &Option<String>) -> (target: String)
    ensures
        target@ == mute_target(template_id, *unit),
{
    let mut target = text::decimal_text(template_id);
    match unit {
        Some(unit) => {
            target.append("@");
            target.append(unit.as_str());
        },
        None => {},
    }
    target
}

/// What an action is about, in words.
pub open spec fn target_text(action: ActionRequest) -> Seq<char> {
    match action {
        ActionRequest::RestartUnit { unit } => unit@,
        ActionRequest::StopUnit { unit } => unit@,
        ActionRequest::TerminateProcess { pid, .. } => text::decimal(pid as nat),
        ActionRequest::BlockIp { ip, .. } => ip.text@,
        ActionRequest::MuteAnomaly { template_id, unit, .. } => mute_target(template_id, unit),
    }
}

/// What an action is about, in words.
pub fn action_target(action: &ActionRequest) -> (target: String)
    ensures
        target@ == target_text(*action),
{
    match action {
        ActionRequest::RestartUnit { unit } => unit.clone(),
        ActionRequest::StopUnit { unit } => unit.clone(),
        ActionRequest::TerminateProcess { pid, .. } => text::decimal_text(*pid as u64),
        ActionRequest::BlockIp { ip, .. } => ip.text.clone(),
        ActionRequest::MuteAnomaly { template_id, unit, .. } => mute_target_text(*template_id, unit),
    }
}

/// The unit that an action restarts or stops.
pub open spec fn touched_unit(action: ActionRequest) -> Option<Seq<char>> {
    match action {
        ActionRequest::RestartUnit { unit } => Some(unit@),
        ActionRequest::StopUnit { unit } => Some(unit@),
        _ => None,
    }
}

/// The unit that an action restarts or stops, if it is such an action.
pub fn restart_or_stop_unit_name(action: &ActionRequest) -> (unit: Option<&str>)
    ensures
        text::str_of(unit) == touched_unit(*action),
{
    match action {
        ActionRequest::RestartUnit { unit } => Some(unit.as_str()),
        ActionRequest::StopUnit { unit } => Some(unit.as_str()),
        _ => None,
    }
}

/// Under what the attempts at an action are counted: its kind and what it is about.
pub open spec fn rate_key(action: ActionRequest) -> Seq<char> {
    kind_name(action) + ":"@ + target_text(action)
}

/// A sum that stops at the largest number.
pub open spec fn capped_sum(a: u64, b: u64) -> u64 {
    if a + b > u64::MAX {
        u64::MAX
    } else {
        (a + b) as u64
    }
}

/// How long ago something was; not at all if it is still to come.
pub open spec fn age(now_us: u64, then_us: u64) -> u64 {
    if now_us >= then_us {
        (now_us - then_us) as u64
    } else {
        0
    }
}

/// The time within which attempts are counted, in microseconds.
pub open spec fn window_of(config: ActionsConfig) -> u64 {
    engine::saturated(engine::saturated(config.rate_limit_window_minutes, 60), 1_000_000)
}

/// The attempts that are not older than the window, in order.
pub open spec fn recent_attempts(attempts: Seq<u64>, now_us: u64, window_us: u64) -> Seq<u64>
    decreases attempts.len(),
{
    if attempts.len() == 0 {
        Seq::empty()
    } else {
        let before = recent_attempts(attempts.drop_last(), now_us, window_us);
        if age(now_us, attempts.last()) < window_us {
            before.push(attempts.last())
        } else {
            before
        }
    }
}

/// When to ask again, in seconds: when the oldest attempt that counts falls out of
/// the window.
pub open spec fn retry_after(kept: Seq<u64>, now_us: u64, window_us: u64) -> u32 {
    let oldest = if kept.len() > 0 {
        kept[0]
    } else {
        now_us
    };
    let elapsed = age(now_us, oldest);
    let left = if elapsed >= window_us {
        0
    } else {
        (window_us - elapsed) as u64
    };
    #[verifier::truncate]
    ((left / 1_000_000) as u32)
}

/// Whether attempts are as many as are allowed.
pub open spec fn at_limit(kept: Seq<u64>, max: u32) -> bool {
    #[verifier::truncate]
    (kept.len() as u32) >= max
}

/// A number, brought between two bounds.
pub open spec fn between(n: int, low: int, high: int) -> int {
    if n < low {
        low
    } else if n > high {
        high
    } else {
        n
    }
}

/// Whether the bounds in the settings for an action leave a number between them.
pub open spec fn has_bounds(config: ActionsConfig, action: ActionRequest) -> bool {
    match action {
        ActionRequest::TerminateProcess { .. } => config.terminate_max_grace_secs >= 1,
        ActionRequest::BlockIp { .. } => config.block_ip_min_duration_secs
            <= config.block_ip_max_duration_secs,
        _ => true,
    }
}

/// How long a process has to end by itself.
pub open spec fn grace_of(config: ActionsConfig, grace_secs: u16) -> nat {
    between(grace_secs as int, 1, config.terminate_max_grace_secs as int) as nat
}

/// For how long an address is blocked.
pub open spec fn duration_of(config: ActionsConfig, duration_secs: u32) -> nat {
    between(
        duration_secs as int,
        config.block_ip_min_duration_secs as int,
        config.block_ip_max_duration_secs as int,
    ) as nat
}

/// What is said of an action that is done for show only.
pub open spec fn dry_text(config: ActionsConfig, action: ActionRequest) -> Seq<char> {
    match action {
        ActionRequest::RestartUnit { unit } => "Dry-Run: restart_unit für "@ + unit@
            + " würde jetzt ausgeführt"@,
        ActionRequest::StopUnit { unit } => "Dry-Run: stop_unit für "@ + unit@
            + " würde jetzt ausgeführt"@,
        ActionRequest::TerminateProcess { pid, grace_secs } =>
            "Dry-Run: terminate_process für PID "@ + text::decimal(pid as nat) + " (Grace "@
                + text::decimal(grace_of(config, grace_secs)) + "s) würde jetzt ausgeführt"@,
        ActionRequest::BlockIp { ip, duration_secs } => "Dry-Run: block_ip für "@ + ip.text@ + " ("@
            + text::decimal(duration_of(config, duration_secs)) + "s) würde jetzt ausgeführt"@,
        ActionRequest::MuteAnomaly { template_id, unit, .. } => "Dry-Run: mute_anomaly für "@
            + mute_target(template_id, unit) + " würde jetzt eingetragen"@,
    }
}

/// The name of a scope.
pub open spec fn scope_name(scope: MuteScope) -> Seq<char> {
    match scope {
        MuteScope::OneHour => "OneHour"@,
        MuteScope::OneDay => "OneDay"@,
        MuteScope::Permanent => "Permanent"@,
    }
}

/// What is said of an action that was done.
pub open spec fn done_text(config: ActionsConfig, action: ActionRequest) -> Seq<char> {
    match action {
        ActionRequest::RestartUnit { unit } => "restart_unit für "@ + unit@ + " ausgeführt"@,
        ActionRequest::StopUnit { unit } => "stop_unit für "@ + unit@ + " ausgeführt"@,
        ActionRequest::TerminateProcess { pid, grace_secs } => "SIGTERM an PID "@ + text::decimal(
            pid as nat,
        ) + " gesendet, SIGKILL nach "@ + text::decimal(grace_of(config, grace_secs))
            + "s falls nötig"@,
        ActionRequest::BlockIp { ip, duration_secs } => ip.text@ + " für "@ + text::decimal(
            duration_of(config, duration_secs),
        ) + "s gesperrt"@,
        ActionRequest::MuteAnomaly { template_id, unit, scope } => mute_target(template_id, unit)
            + " stummgeschaltet ("@ + scope_name(scope) + ")"@,
    }
}

/// What is said of an action that failed.
pub open spec fn failure_text(action: ActionRequest, reason: Seq<char>) -> Seq<char> {
    match action {
        ActionRequest::TerminateProcess { pid, .. } => "SIGTERM an PID "@ + text::decimal(
            pid as nat,
        ) + " fehlgeschlagen: "@ + reason,
        _ => reason,
    }
}

/// Until when lines that follow from an action are left out.
pub open spec fn quiet_until(config: ActionsConfig, now_us: u64) -> u64 {
    capped_sum(now_us, engine::saturated(config.self_filter_window_secs, 1_000_000))
}

/// Until when an anomaly is muted.
pub open spec fn mute_until(scope: MuteScope, now_us: u64) -> u64 {
    match scope {
        MuteScope::OneHour => capped_sum(now_us, 3_600_000_000),
        MuteScope::OneDay => capped_sum(now_us, 86_400_000_000),
        MuteScope::Permanent => u64::MAX,
    }
}

/// What has to be done outside for an action.
#[derive(Debug)]
pub enum Deed {
    /// Restart or stop a unit.
    Unit {
        /// The unit.
        unit: String,
        /// Whether it is to be stopped.
        stop: bool,
    },
    /// Ask a process to end, and make it end after a while.
    Terminate {
        /// The process.
        pid: i32,
        /// How long it has to end by itself, in seconds.
        grace_secs: u16,
    },
    /// Run commands, each a list of arguments for `nft`.
    Block {
        /// The commands, in order.
        commands: Vec<Vec<String>>,
    },
    /// Nothing.
    Nothing,
}

/// What is decided on an action.
#[derive(Debug)]
pub enum Decision {
    /// The answer is known already.
    Answer(ActionOutcome),
    /// Something has to be done first.
    Perform(Deed),
}

/// The commands that block an address for a time: they make the table and the set,
/// if they are missing, and put the address in.
pub open spec fn block_commands(config: ActionsConfig, ip: IpTarget, duration: nat) -> Seq<Seq<Seq<char>>> {
    let set_name = if ip.is_v6 {
        config.nftables_set_v6@
    } else {
        config.nftables_set_v4@
    };
    let set_type = if ip.is_v6 {
        "ipv6_addr"@
    } else {
        "ipv4_addr"@
    };
    let family = config.nftables_family@;
    let table = config.nftables_table@;
    seq![
        seq!["add"@, "table"@, family, table],
        seq![
            "add"@,
            "set"@,
            family,
            table,
            set_name,
            "{"@,
            "type"@,
            set_type,
            ";"@,
            "flags"@,
            "timeout"@,
            ";"@,
            "}"@,
        ],
        seq![
            "add"@,
            "element"@,
            family,
            table,
            set_name,
            "{"@,
            ip.text@,
            "timeout "@ + text::decimal(duration) + "s"@,
            "}"@,
        ],
    ]
}

/// The texts of lists of strings.
pub open spec fn command_texts(commands: Seq<Vec<String>>) -> Seq<Seq<Seq<char>>> {
    Seq::new(commands.len(), |i: int| text::texts(commands[i]@))
}

/// Whether a deed is what an action asks for.
pub open spec fn is_deed(config: ActionsConfig, action: ActionRequest, deed: Deed) -> bool {
    match action {
        ActionRequest::RestartUnit { unit } => deed == (Deed::Unit { unit, stop: false }),
        ActionRequest::StopUnit { unit } => deed == (Deed::Unit { unit, stop: true }),
        ActionRequest::TerminateProcess { pid, grace_secs } => deed == (Deed::Terminate {
            pid: #[verifier::truncate]
            (pid as i32),
            grace_secs: grace_of(config, grace_secs) as u16,
        }),
        ActionRequest::BlockIp { ip, duration_secs } => deed matches Deed::Block { commands }
            && command_texts(commands@) == block_commands(
            config,
            ip,
            duration_of(config, duration_secs),
        ),
        ActionRequest::MuteAnomaly { .. } => deed is Nothing,
    }
}

/// What decides on actions: the settings, and the times of past attempts.
pub struct ActionExecutor {
    config: ActionsConfig,
    rate_limits: TextMap<Vec<u64>>,
}

/// What an executor holds.
pub ghost struct ExecutorView {
    /// The settings.
    pub config: ActionsConfig,
    /// The times of past attempts that counted, by what they are counted under.
    pub attempts: Map<Seq<char>, Seq<u64>>,
}

impl ExecutorView {
    /// The attempts at an action that still count.
    pub open spec fn kept(self, action: ActionRequest, now_us: u64) -> Seq<u64> {
        let attempts = if self.attempts.contains_key(rate_key(action)) {
            self.attempts[rate_key(action)]
        } else {
            Seq::empty()
        };
        recent_attempts(attempts, now_us, window_of(self.config))
    }

    /// Whether the settings allow an action.
    pub open spec fn allows(self, action: ActionRequest) -> bool {
        &&& text::texts(self.config.allowed_kinds@).contains(kind_name(action))
        &&& touched_unit(action) matches Some(unit) ==> text::texts(
            self.config.allowed_units@,
        ).contains(unit)
    }

    /// Why an action is refused, if it is.
    pub open spec fn refusal(self, action: ActionRequest, now_us: u64) -> Option<DenyReason> {
        if !self.allows(action) {
            Some(DenyReason::NotAllowed)
        } else if at_limit(self.kept(action, now_us), self.config.rate_limit_max_actions) {
            Some(
                DenyReason::RateLimited {
                    retry_after_secs: retry_after(
                        self.kept(action, now_us),
                        now_us,
                        window_of(self.config),
                    ),
                },
            )
        } else {
            None
        }
    }

    /// The executor after an attempt. An attempt counts unless the settings do not
    /// allow the action, or it was made too often already.
    pub open spec fn attempted(self, action: ActionRequest, now_us: u64) -> ExecutorView {
        if !self.allows(action) {
            self
        } else if self.refusal(action, now_us) is Some {
            ExecutorView {
                attempts: self.attempts.insert(rate_key(action), self.kept(action, now_us)),
                ..self
            }
        } else {
            ExecutorView {
                attempts: self.attempts.insert(
                    rate_key(action),
                    self.kept(action, now_us).push(now_us),
                ),
                ..self
            }
        }
    }

    /// Whether this is what is decided on an action.
    pub open spec fn decides(self, action: ActionRequest, now_us: u64, decision: Decision) -> bool {
        match self.refusal(action, now_us) {
            Some(reason) => decision == Decision::Answer(ActionOutcome::Denied { reason }),
            None => self.goes_on_with(action, decision),
        }
    }

    /// Whether this is how an action that is not refused goes on: it is answered for
    /// show, or has to be done.
    pub open spec fn goes_on_with(self, action: ActionRequest, decision: Decision) -> bool {
        if self.config.dry_run {
            decision matches Decision::Answer(ActionOutcome::Completed { message, dry_run })
                && message@ == dry_text(self.config, action) && dry_run
        } else {
            decision matches Decision::Perform(deed) && is_deed(self.config, action, deed)
        }
    }

    /// No more attempts count than are allowed.
    pub open spec fn within_limits(self) -> bool {
        forall|key: Seq<char>| #[trigger]
            self.attempts.contains_key(key) ==> self.attempts[key].len()
                <= self.config.rate_limit_max_actions
    }
}

/// The attempts that still count are no more than the attempts.
proof fn recent_attempts_are_no_more(attempts: Seq<u64>, now_us: u64, window_us: u64)
    ensures
        recent_attempts(attempts, now_us, window_us).len() <= attempts.len(),
    decreases attempts.len(),
{
    if attempts.len() > 0 {
        recent_attempts_are_no_more(attempts.drop_last(), now_us, window_us);
    }
}

/// Within the window no more attempts count than are allowed, whatever is asked for.
pub proof fn limits_are_kept(executor: ExecutorView, action: ActionRequest, now_us: u64)
    requires
        executor.within_limits(),
    ensures
        executor.attempted(action, now_us).within_limits(),
{
    let key = rate_key(action);
    let before = if executor.attempts.contains_key(key) {
        executor.attempts[key]
    } else {
        Seq::empty()
    };
    recent_attempts_are_no_more(before, now_us, window_of(executor.config));
    let after = executor.attempted(action, now_us);
    assert forall|k: Seq<char>| #[trigger] after.attempts.contains_key(k) implies after.attempts[k].len()
        <= after.config.rate_limit_max_actions by {
        if k != key {
            assert(executor.attempts.contains_key(k));
        }
    }
}

/// An attempt at an action.
pub ghost struct Attempt {
    /// The action.
    pub action: ActionRequest,
    /// The time.
    pub now_us: u64,
}

impl ExecutorView {
    /// The executor after a number of attempts, one after the other.
    pub open spec fn attempted_all(self, attempts: Seq<Attempt>) -> ExecutorView
        decreases attempts.len(),
    {
        if attempts.len() == 0 {
            self
        } else {
            self.attempted_all(attempts.drop_last()).attempted(
                attempts.last().action,
                attempts.last().now_us,
            )
        }
    }

    /// The times of those of a number of attempts that are counted under a key and were
    /// not refused.
    pub open spec fn granted(self, attempts: Seq<Attempt>, key: Seq<char>) -> Seq<u64>
        decreases attempts.len(),
    {
        if attempts.len() == 0 {
            Seq::empty()
        } else {
            let earlier = attempts.drop_last();
            let last = attempts.last();
            if rate_key(last.action) == key && self.attempted_all(earlier).refusal(
                last.action,
                last.now_us,
            ) is None {
                self.granted(earlier, key).push(last.now_us)
            } else {
                self.granted(earlier, key)
            }
        }
    }

    /// The times of past attempts that are counted under a key.
    pub open spec fn counted(self, key: Seq<char>) -> Seq<u64> {
        if self.attempts.contains_key(key) {
            self.attempts[key]
        } else {
            Seq::empty()
        }
    }
}

/// Whether attempts are in the order of their times.
pub open spec fn in_time_order(attempts: Seq<Attempt>) -> bool {
    forall|i: int, j: int|
        0 <= i <= j < attempts.len() ==> (#[trigger] attempts[i]).now_us <= (
        #[trigger] attempts[j]).now_us
}

/// The limit holds over time: of any number of attempts, with whatever others in
/// between, no more are granted for one kind and target within the window than the
/// settings say. This holds at every attempt, as it holds of those up to it.
pub proof fn limits_hold_over_time(
    executor: ExecutorView,
    attempts: Seq<Attempt>,
    key: Seq<char>,
)
    requires
        executor.attempts == Map::<Seq<char>, Seq<u64>>::empty(),
        attempts.len() > 0,
        in_time_order(attempts),
    ensures
        recent_attempts(
            executor.granted(attempts, key),
            attempts.last().now_us,
            window_of(executor.config),
        ).len() <= executor.config.rate_limit_max_actions,
    decreases attempts.len(),
{
    let earlier = attempts.drop_last();
    let last = attempts.last();
    let window = window_of(executor.config);
    let granted = executor.granted(earlier, key);
    let before = executor.attempted_all(earlier);
    assert(in_time_order(earlier)) by {
        assert forall|i: int, j: int| 0 <= i <= j < earlier.len() implies (
        #[trigger] earlier[i]).now_us <= (#[trigger] earlier[j]).now_us by {
            assert(attempts[i].now_us <= attempts[j].now_us);
        }
    }
    if earlier.len() > 0 {
        assert(earlier.last() == attempts[attempts.len() - 2]);
        assert(earlier.last().now_us <= last.now_us);
        limits_hold_over_time(executor, earlier, key);
        fewer_are_recent_later(granted, earlier.last().now_us, last.now_us, window);
    }
    counted_are_the_granted(executor, earlier, key, last.now_us);
    let kept = recent_attempts(granted, last.now_us, window);
    assert(kept.len() <= executor.config.rate_limit_max_actions);
    let now = executor.granted(attempts, key);
    if now != granted {
        assert(before.kept(last.action, last.now_us) == kept);
        assert(kept.len() < executor.config.rate_limit_max_actions);
        assert(granted.push(last.now_us).drop_last() =~= granted);
    }
}

/// What an executor counts is what was granted, as far as it is recent.
proof fn counted_are_the_granted(
    executor: ExecutorView,
    attempts: Seq<Attempt>,
    key: Seq<char>,
    now_us: u64,
)
    requires
        executor.attempts == Map::<Seq<char>, Seq<u64>>::empty(),
        forall|i: int| 0 <= i < attempts.len() ==> (#[trigger] attempts[i]).now_us <= now_us,
    ensures
        executor.attempted_all(attempts).config == executor.config,
        recent_attempts(
            executor.attempted_all(attempts).counted(key),
            now_us,
            window_of(executor.config),
        ) == recent_attempts(executor.granted(attempts, key), now_us, window_of(executor.config)),
    decreases attempts.len(),
{
    if attempts.len() > 0 {
        let earlier = attempts.drop_last();
        let last = attempts[attempts.len() - 1];
        let window = window_of(executor.config);
        let before = executor.attempted_all(earlier);
        assert forall|i: int| 0 <= i < earlier.len() implies (#[trigger] earlier[i]).now_us
            <= now_us by {
            assert(earlier[i] == attempts[i]);
        }
        counted_are_the_granted(executor, earlier, key, now_us);
        if rate_key(last.action) == key && before.allows(last.action) {
            let kept = before.kept(last.action, last.now_us);
            assert(kept == recent_attempts(before.counted(key), last.now_us, window));
            recent_twice(before.counted(key), last.now_us, now_us, window);
            assert(kept.push(last.now_us).drop_last() =~= kept);
            let granted = executor.granted(earlier, key);
            assert(granted.push(last.now_us).drop_last() =~= granted);
        }
    }
}

/// What is recent later was recent before.
proof fn recent_twice(attempts: Seq<u64>, now_us: u64, later_us: u64, window_us: u64)
    requires
        now_us <= later_us,
    ensures
        recent_attempts(recent_attempts(attempts, now_us, window_us), later_us, window_us)
            == recent_attempts(attempts, later_us, window_us),
    decreases attempts.len(),
{
    if attempts.len() > 0 {
        let fewer = attempts.drop_last();
        recent_twice(fewer, now_us, later_us, window_us);
        let kept = recent_attempts(fewer, now_us, window_us);
        assert(kept.push(attempts.last()).drop_last() =~= kept);
    }
}

/// The later the time, the fewer attempts are recent.
proof fn fewer_are_recent_later(attempts: Seq<u64>, now_us: u64, later_us: u64, window_us: u64)
    requires
        now_us <= later_us,
    ensures
        recent_attempts(attempts, later_us, window_us).len() <= recent_attempts(
            attempts,
            now_us,
            window_us,
        ).len(),
    decreases attempts.len(),
{
    if attempts.len() > 0 {
        fewer_are_recent_later(attempts.drop_last(), now_us, later_us, window_us);
    }
}

/// Attempts at one action are not counted against another.
pub proof fn limits_are_apart(
    executor: ExecutorView,
    action: ActionRequest,
    now_us: u64,
    other: ActionRequest,
    later_us: u64,
)
    requires
        rate_key(action) != rate_key(other),
    ensures
        executor.attempted(action, now_us).refusal(other, later_us) == executor.refusal(
            other,
            later_us,
        ),
{
}

/// Nothing is done that the settings do not allow, and nothing at all while actions
/// are done for show only.
pub proof fn only_what_is_allowed_is_done(
    executor: ExecutorView,
    action: ActionRequest,
    now_us: u64,
    decision: Decision,
)
    requires
        executor.decides(action, now_us, decision),
        decision is Perform,
    ensures
        text::texts(executor.config.allowed_kinds@).contains(kind_name(action)),
        touched_unit(action) matches Some(unit) ==> text::texts(
            executor.config.allowed_units@,
        ).contains(unit),
        !executor.config.dry_run,
{
}

impl View for ActionExecutor {
    type V = ExecutorView;

    closed spec fn view(&self) -> ExecutorView {
        ExecutorView {
            config: self.config,
            attempts: self.rate_limits@.map_values(|attempts: Vec<u64>| attempts@),
        }
    }
}

/// Owned copies of texts.
fn owned(parts: Vec<&str>) -> (out: Vec<String>)
    ensures
        out@.len() == parts@.len(),
        forall|i: int| 0 <= i < out@.len() ==> (#[trigger] out@[i])@ == parts@[i]@,
{
    let mut out: Vec<String> = Vec::new();
    let mut i: usize = 0;
    while i < parts.len()
        invariant
            i <= parts@.len(),
            out@.len() == i,
            forall|k: int| 0 <= k < i ==> (#[trigger] out@[k])@ == parts@[k]@,
        decreases parts@.len() - i,
    {
        out.push(parts[i].to_string());
        i += 1;
    }
    out
}

/// A sum that stops at the largest number.
fn sum_up_to_max(a: u64, b: u64) -> (sum: u64)
    ensures
        sum == capped_sum(a, b),
{
    if a > u64::MAX - b {
        u64::MAX
    } else {
        a + b
    }
}

/// How long ago something was.
fn age_of(now_us: u64, then_us: u64) -> (us: u64)
    ensures
        us == age(now_us, then_us),
{
    if now_us >= then_us {
        now_us - then_us
    } else {
        0
    }
}

/// The commands that block an address for a time.
fn commands_to_block(config: &ActionsConfig, ip: &IpTarget, duration: u32) -> (commands: Vec<Vec<String>>)
    ensures
        command_texts(commands@) == block_commands(*config, *ip, duration as nat),
{
    let set_name: &str = if ip.is_v6 {
        config.nftables_set_v6.as_str()
    } else {
        config.nftables_set_v4.as_str()
    };
    let set_type: &str = if ip.is_v6 {
        "ipv6_addr"
    } else {
        "ipv4_addr"
    };
    let family: &str = config.nftables_family.as_str();
    let table: &str = config.nftables_table.as_str();

    let mut first: Vec<&str> = Vec::new();
    first.push("add");
    first.push("table");
    first.push(family);
    first.push(table);

    let mut second: Vec<&str> = Vec::new();
    second.push("add");
    second.push("set");
    second.push(family);
    second.push(table);
    second.push(set_name);
    second.push("{");
    second.push("type");
    second.push(set_type);
    second.push(";");
    second.push("flags");
    second.push("timeout");
    second.push(";");
    second.push("}");

    let mut timeout = "timeout ".to_string();
    text::push_decimal(&mut timeout, duration as u64);
    timeout.append("s");
    let mut third: Vec<&str> = Vec::new();
    third.push("add");
    third.push("element");
    third.push(family);
    third.push(table);
    third.push(set_name);
    third.push("{");
    third.push(ip.text.as_str());
    third.push(timeout.as_str());
    third.push("}");

    let mut commands: Vec<Vec<String>> = Vec::new();
    commands.push(owned(first));
    commands.push(owned(second));
    commands.push(owned(third));
    proof {
        let expected = block_commands(*config, *ip, duration as nat);
        assert(text::texts(commands@[0]@) =~= expected[0]);
        assert(text::texts(commands@[1]@) =~= expected[1]);
        assert(text::texts(commands@[2]@) =~= expected[2]);
        assert(command_texts(commands@) =~= expected);
    }
    commands
}

/// What is said of an `nft` command that failed.
pub fn nft_failure(args: &Vec<String>, stderr: &str) -> (message: String)
    ensures
        message@ == "nft "@ + text::joined(text::texts(args@), " "@) + " fehlgeschlagen: "@
            + text::trimmed(stderr@),
{
    let mut message = "nft ".to_string();
    let line = text::join(args, " ");
    message.append(line.as_str());
    message.append(" fehlgeschlagen: ");
    let reason = text::trim(stderr);
    message.append(reason.as_str());
    message
}

impl ActionExecutor {
    /// Whether the executor is in proper order.
    pub closed spec fn wf(&self) -> bool {
        self.rate_limits.wf()
    }

    /// An executor that has seen no attempts.
    pub fn new(config: ActionsConfig) -> (executor: ActionExecutor)
        ensures
            executor.wf(),
            executor@.config == config,
            executor@.attempts == Map::<Seq<char>, Seq<u64>>::empty(),
            executor@.within_limits(),
    {
        let executor = ActionExecutor { config, rate_limits: TextMap::new() };
        proof {
            assert(executor@.attempts =~= Map::<Seq<char>, Seq<u64>>::empty());
        }
        executor
    }

    /// The kinds of action that the settings allow.
    pub fn allowed_kinds(&self) -> (kinds: Vec<String>)
        ensures
            text::texts(kinds@) == text::texts(self@.config.allowed_kinds@),
    {
        let mut kinds: Vec<String> = Vec::new();
        let mut i: usize = 0;
        while i < self.config.allowed_kinds.len()
            invariant
                i <= self.config.allowed_kinds@.len(),
                kinds@ == self.config.allowed_kinds@.take(i as int),
            decreases self.config.allowed_kinds@.len() - i,
        {
            kinds.push(self.config.allowed_kinds[i].clone());
            proof {
                assert(self.config.allowed_kinds@.take(i + 1) =~= self.config.allowed_kinds@.take(
                    i as int,
                ).push(self.config.allowed_kinds@[i as int]));
            }
            i += 1;
        }
        proof {
            assert(self.config.allowed_kinds@.take(i as int) =~= self.config.allowed_kinds@);
        }
        kinds
    }

    /// Whether actions are done for show only.
    pub fn dry_run(&self) -> (dry: bool)
        ensures
            dry == self@.config.dry_run,
    {
        self.config.dry_run
    }

    /// Counts an attempt, unless there were too many; then it says when to ask again.
    fn check_rate_limit(&mut self, key: String, now_us: u64) -> (retry: Option<u32>)
        requires
            old(self).wf(),
        ensures
            final(self).wf(),
            ({
                let before = if old(self)@.attempts.contains_key(key@) {
                    old(self)@.attempts[key@]
                } else {
                    Seq::empty()
                };
                let window = window_of(old(self)@.config);
                let kept = recent_attempts(before, now_us, window);
                let limited = at_limit(kept, old(self)@.config.rate_limit_max_actions);
                &&& retry == (if limited {
                    Some(retry_after(kept, now_us, window))
                } else {
                    None
                })
                &&& final(self)@ == (ExecutorView {
                    attempts: old(self)@.attempts.insert(
                        key@,
                        if limited {
                            kept
                        } else {
                            kept.push(now_us)
                        },
                    ),
                    ..old(self)@
                })
            }),
    {
        let ghost before = if self@.attempts.contains_key(key@) {
            self@.attempts[key@]
        } else {
            Seq::empty()
        };
        let minutes: u64 = engine::saturating_product(self.config.rate_limit_window_minutes, 60);
        let window: u64 = engine::saturating_product(minutes, 1_000_000);
        let mut kept: Vec<u64> = Vec::new();
        match self.rate_limits.get(key.as_str()) {
            Some(attempts) => {
                let mut i: usize = 0;
                while i < attempts.len()
                    invariant
                        i <= attempts@.len(),
                        kept@ == recent_attempts(attempts@.take(i as int), now_us, window),
                    decreases attempts@.len() - i,
                {
                    proof {
                        assert(attempts@.take(i + 1).drop_last() =~= attempts@.take(i as int));
                    }
                    if age_of(now_us, attempts[i]) < window {
                        kept.push(attempts[i]);
                    }
                    i += 1;
                }
                proof {
                    assert(attempts@.take(i as int) =~= attempts@);
                }
            },
            None => {},
        }
        let ghost counted = kept@;
        let count: u32 = #[verifier::truncate]
        (kept.len() as u32);
        if count >= self.config.rate_limit_max_actions {
            let oldest: u64 = if kept.len() > 0 {
                kept[0]
            } else {
                now_us
            };
            let elapsed: u64 = age_of(now_us, oldest);
            let left: u64 = if elapsed >= window {
                0
            } else {
                window - elapsed
            };
            self.rate_limits.insert(key, kept);
            proof {
                assert(self@.attempts =~= old(self)@.attempts.insert(key@, counted));
            }
            return Some(
                #[verifier::truncate]
                ((left / 1_000_000) as u32),
            );
        }
        kept.push(now_us);
        self.rate_limits.insert(key, kept);
        proof {
            assert(self@.attempts =~= old(self)@.attempts.insert(key@, counted.push(now_us)));
        }
        None
    }

    /// How long a process has to end by itself.
    fn grace(&self, grace_secs: u16) -> (grace: u16)
        requires
            self@.config.terminate_max_grace_secs >= 1,
        ensures
            grace == grace_of(self@.config, grace_secs),
    {
        if grace_secs < 1 {
            1
        } else if grace_secs > self.config.terminate_max_grace_secs {
            self.config.terminate_max_grace_secs
        } else {
            grace_secs
        }
    }

    /// For how long an address is blocked.
    fn duration(&self, duration_secs: u32) -> (duration: u32)
        requires
            self@.config.block_ip_min_duration_secs <= self@.config.block_ip_max_duration_secs,
        ensures
            duration == duration_of(self@.config, duration_secs),
    {
        if duration_secs < self.config.block_ip_min_duration_secs {
            self.config.block_ip_min_duration_secs
        } else if duration_secs > self.config.block_ip_max_duration_secs {
            self.config.block_ip_max_duration_secs
        } else {
            duration_secs
        }
    }

    /// What is said of an action that is done for show only.
    fn dry_message(&self, action: &ActionRequest) -> (message: String)
        requires
            has_bounds(self@.config, *action),
        ensures
            message@ == dry_text(self@.config, *action),
    {
        match action {
            ActionRequest::RestartUnit { unit } => {
                let mut message = "Dry-Run: restart_unit für ".to_string();
                message.append(unit.as_str());
                message.append(" würde jetzt ausgeführt");
                message
            },
            ActionRequest::StopUnit { unit } => {
                let mut message = "Dry-Run: stop_unit für ".to_string();
                message.append(unit.as_str());
                message.append(" würde jetzt ausgeführt");
                message
            },
            ActionRequest::TerminateProcess { pid, grace_secs } => {
                let grace: u16 = self.grace(*grace_secs);
                let mut message = "Dry-Run: terminate_process für PID ".to_string();
                text::push_decimal(&mut message, *pid as u64);
                message.append(" (Grace ");
                text::push_decimal(&mut message, grace as u64);
                message.append("s) würde jetzt ausgeführt");
                message
            },
            ActionRequest::BlockIp { ip, duration_secs } => {
                let duration: u32 = self.duration(*duration_secs);
                let mut message = "Dry-Run: block_ip für ".to_string();
                message.append(ip.text.as_str());
                message.append(" (");
                text::push_decimal(&mut message, duration as u64);
                message.append("s) würde jetzt ausgeführt");
                message
            },
            ActionRequest::MuteAnomaly { template_id, unit, .. } => {
                let target = mute_target_text(*template_id, unit);
                let mut message = "Dry-Run: mute_anomaly für ".to_string();
                message.append(target.as_str());
                message.append(" würde jetzt eingetragen");
                message
            },
        }
    }

    /// What is said of an action that was done.
    fn done_message(&self, action: &ActionRequest) -> (message: String)
        requires
            has_bounds(self@.config, *action),
        ensures
            message@ == done_text(self@.config, *action),
    {
        match action {
            ActionRequest::RestartUnit { unit } => {
                let mut message = "restart_unit für ".to_string();
                message.append(unit.as_str());
                message.append(" ausgeführt");
                message
            },
            ActionRequest::StopUnit { unit } => {
                let mut message = "stop_unit für ".to_string();
                message.append(unit.as_str());
                message.append(" ausgeführt");
                message
            },
            ActionRequest::TerminateProcess { pid, grace_secs } => {
                let grace: u16 = self.grace(*grace_secs);
                let mut message = "SIGTERM an PID ".to_string();
                text::push_decimal(&mut message, *pid as u64);
                message.append(" gesendet, SIGKILL nach ");
                text::push_decimal(&mut message, grace as u64);
                message.append("s falls nötig");
                message
            },
            ActionRequest::BlockIp { ip, duration_secs } => {
                let duration: u32 = self.duration(*duration_secs);
                let mut message = ip.text.clone();
                message.append(" für ");
                text::push_decimal(&mut message, duration as u64);
                message.append("s gesperrt");
                message
            },
            ActionRequest::MuteAnomaly { template_id, unit, scope } => {
                let mut message = mute_target_text(*template_id, unit);
                message.append(" stummgeschaltet (");
                message.append(
                    match scope {
                        MuteScope::OneHour => "OneHour",
                        MuteScope::OneDay => "OneDay",
                        MuteScope::Permanent => "Permanent",
                    },
                );
                message.append(")");
                message
            },
        }
    }

    /// What has to be done outside for an action.
    fn deed_for(&self, action: &ActionRequest) -> (deed: Deed)
        requires
            has_bounds(self@.config, *action),
        ensures
            is_deed(self@.config, *action, deed),
    {
        match action {
            ActionRequest::RestartUnit { unit } => Deed::Unit { unit: unit.clone(), stop: false },
            ActionRequest::StopUnit { unit } => Deed::Unit { unit: unit.clone(), stop: true },
            ActionRequest::TerminateProcess { pid, grace_secs } => {
                let number: i32 = #[verifier::truncate]
                (*pid as i32);
                Deed::Terminate { pid: number, grace_secs: self.grace(*grace_secs) }
            },
            ActionRequest::BlockIp { ip, duration_secs } => {
                let duration: u32 = self.duration(*duration_secs);
                Deed::Block { commands: commands_to_block(&self.config, ip, duration) }
            },
            ActionRequest::MuteAnomaly { .. } => Deed::Nothing,
        }
    }

    /// Decides on an action: first whether the settings allow its kind and its unit,
    /// then whether it was asked for too often. What is left is answered for show, or
    /// has to be done.
    pub fn decide(&mut self, action: &ActionRequest, now_us: u64) -> (decision: Decision)
        requires
            old(self).wf(),
            old(self)@.refusal(*action, now_us) is None ==> has_bounds(old(self)@.config, *action),
        ensures
            final(self).wf(),
            final(self)@ == old(self)@.attempted(*action, now_us),
            old(self)@.decides(*action, now_us, decision),
    {
        match self.refuse(action, now_us) {
            Some(reason) => Decision::Answer(ActionOutcome::Denied { reason }),
            None => self.go_on_with(action),
        }
    }

    /// Whether an action is refused, and why: first the settings are asked for its kind
    /// and its unit, then how often it was asked for. An attempt that is not refused
    /// counts.
    pub fn refuse(&mut self, action: &ActionRequest, now_us: u64) -> (refusal: Option<DenyReason>)
        requires
            old(self).wf(),
        ensures
            final(self).wf(),
            final(self)@ == old(self)@.attempted(*action, now_us),
            refusal == old(self)@.refusal(*action, now_us),
    {
        if !text::holds_text(&self.config.allowed_kinds, action_kind_str(action)) {
            return Some(DenyReason::NotAllowed);
        }
        match restart_or_stop_unit_name(action) {
            Some(unit) => {
                if !text::holds_text(&self.config.allowed_units, unit) {
                    return Some(DenyReason::NotAllowed);
                }
            },
            None => {},
        }
        let mut key = action_kind_str(action).to_string();
        key.append(":");
        let target = action_target(action);
        key.append(target.as_str());
        match self.check_rate_limit(key, now_us) {
            Some(retry_after_secs) => Some(DenyReason::RateLimited { retry_after_secs }),
            None => None,
        }
    }

    /// How an action that is not refused goes on: it is answered for show, or has to be
    /// done.
    pub fn go_on_with(&self, action: &ActionRequest) -> (decision: Decision)
        requires
            has_bounds(self@.config, *action),
        ensures
            self@.goes_on_with(*action, decision),
    {
        if self.config.dry_run {
            Decision::Answer(
                ActionOutcome::Completed { message: self.dry_message(action), dry_run: true },
            )
        } else {
            Decision::Perform(self.deed_for(action))
        }
    }

    /// What an action that was done leaves behind: lines that follow from it are left
    /// out for a while, and a muted anomaly is muted.
    pub fn finish(
        &self,
        action: &ActionRequest,
        result: Result<(), String>,
        now_us: u64,
        state: &mut SharedState,
    ) -> (outcome: ActionOutcome)
        requires
            old(state).wf(),
            has_bounds(self@.config, *action),
        ensures
            final(state).wf(),
            final(state)@ == (if result is Ok {
                after_deed(self@.config, *action, now_us, old(state)@)
            } else {
                old(state)@
            }),
            match result {
                Ok(_) => outcome matches ActionOutcome::Completed { message, dry_run } && message@
                    == done_text(self@.config, *action) && !dry_run,
                Err(reason) => outcome matches ActionOutcome::Failed { message } && message@
                    == failure_text(*action, reason@),
            },
    {
        match result {
            Err(reason) => {
                let message = match action {
                    ActionRequest::TerminateProcess { pid, .. } => {
                        let mut message = "SIGTERM an PID ".to_string();
                        text::push_decimal(&mut message, *pid as u64);
                        message.append(" fehlgeschlagen: ");
                        message.append(reason.as_str());
                        message
                    },
                    _ => reason,
                };
                ActionOutcome::Failed { message }
            },
            Ok(_) => {
                let quiet: u64 = engine::saturating_product(self.config.self_filter_window_secs, 1_000_000);
                let until: u64 = sum_up_to_max(now_us, quiet);
                match action {
                    ActionRequest::RestartUnit { unit } => {
                        state.suppress_unit(unit.as_str(), until);
                    },
                    ActionRequest::StopUnit { unit } => {
                        state.suppress_unit(unit.as_str(), until);
                    },
                    ActionRequest::TerminateProcess { pid, .. } => {
                        let number: i32 = #[verifier::truncate]
                        (*pid as i32);
                        state.suppress_pid(number, until);
                    },
                    ActionRequest::BlockIp { .. } => {},
                    ActionRequest::MuteAnomaly { template_id, unit, scope } => {
                        let until: u64 = match scope {
                            MuteScope::OneHour => sum_up_to_max(now_us, 3_600_000_000),
                            MuteScope::OneDay => sum_up_to_max(now_us, 86_400_000_000),
                            MuteScope::Permanent => u64::MAX,
                        };
                        state.mute(*template_id, proto::copy_text(unit), until);
                    },
                }
                ActionOutcome::Completed { message: self.done_message(action), dry_run: false }
            },
        }
    }
}

/// The shared state after an action was done.
pub open spec fn after_deed(
    config: ActionsConfig,
    action: ActionRequest,
    now_us: u64,
    shared: StateView,
) -> StateView {
    match action {
        ActionRequest::RestartUnit { unit } => StateView {
            quiet_units: shared.quiet_units.insert(unit@, quiet_until(config, now_us)),
            ..shared
        },
        ActionRequest::StopUnit { unit } => StateView {
            quiet_units: shared.quiet_units.insert(unit@, quiet_until(config, now_us)),
            ..shared
        },
        ActionRequest::TerminateProcess { pid, .. } => StateView {
            quiet_pids: shared.quiet_pids.insert(
                #[verifier::truncate]
                (pid as i32),
                quiet_until(config, now_us),
            ),
            ..shared
        },
        ActionRequest::BlockIp { .. } => shared,
        ActionRequest::MuteAnomaly { template_id, unit, scope } => shared.after_mute(
            template_id,
            text::text_of(unit),
            mute_until(scope, now_us),
        ),
    }
}

/// The lines of a unit that was restarted or stopped are left out while the window for
/// them lasts.
pub proof fn own_actions_are_left_out(
    config: ActionsConfig,
    action: ActionRequest,
    now_us: u64,
    shared: StateView,
    pid: Option<i32>,
    timestamp_us: u64,
)
    requires
        touched_unit(action) is Some,
        timestamp_us < quiet_until(config, now_us),
    ensures
        after_deed(config, action, now_us, shared).self_filtered(
            touched_unit(action),
            pid,
            timestamp_us,
        ),
{
}

/// Muting an anomaly for good mutes it at every time: in the unit given, or in every unit
/// where none was given.
pub proof fn permanent_mutes_hold(
    config: ActionsConfig,
    template_id: u64,
    muted_unit: Option<String>,
    now_us: u64,
    shared: StateView,
    unit: Option<Seq<char>>,
    timestamp_us: u64,
)
    requires
        muted_unit is None || unit == text::text_of(muted_unit),
        timestamp_us < u64::MAX,
    ensures
        after_deed(
            config,
            ActionRequest::MuteAnomaly {
                template_id,
                unit: muted_unit,
                scope: MuteScope::Permanent,
            },
            now_us,
            shared,
        ).muted(template_id, unit, timestamp_us),
{
    state::muting_holds(
        shared,
        template_id,
        text::text_of(muted_unit),
        u64::MAX,
        unit,
        timestamp_us,
    );
}

/// One line of the audit log: every attempt leaves one, whatever comes of it.
#[derive(Debug)]
pub struct AuditEntry<'a> {
    /// When, in microseconds since the epoch.
    pub timestamp_us: u64,
    /// The run of the daemon.
    pub session_id: u64,
    /// The number of the request.
    pub request_id: u64,
    /// The kind of action.
    pub kind: &'static str,
    /// What it was about.
    pub target: String,
    /// What came of it.
    pub outcome: &'a ActionOutcome,
}

/// The line of the audit log for an attempt.
pub fn audit_entry<'a>(
    action: &ActionRequest,
    request_id: u64,
    session_id: u64,
    timestamp_us: u64,
    outcome: &'a ActionOutcome,
) -> (entry: AuditEntry<'a>)
    ensures
        entry.timestamp_us == timestamp_us,
        entry.session_id == session_id,
        entry.request_id == request_id,
        entry.kind@ == kind_name(*action),
        entry.target@ == target_text(*action),
        *entry.outcome == *outcome,
{
    AuditEntry {
        timestamp_us,
        session_id,
        request_id,
        kind: action_kind_str(action),
        target: action_target(action),
        outcome,
    }
}

/// What `nft` keeps: its tables, each a family and a name; its sets, with the type of
/// their elements; and the elements of the sets, with their timeouts.
pub ghost struct Firewall {
    /// The tables.
    pub tables: Set<(Seq<char>, Seq<char>)>,
    /// The sets of the tables, with the type of their elements.
    pub sets: Map<(Seq<char>, Seq<char>, Seq<char>), Seq<char>>,
    /// The elements of the sets, with their timeouts.
    pub elements: Map<((Seq<char>, Seq<char>, Seq<char>), Seq<char>), Seq<char>>,
}

impl Firewall {
    /// What a command of `nft` does: `add` keeps a table or a set that is there and puts
    /// an element in, `delete` takes an element out. Nothing can be added to a table or a
    /// set that is missing.
    pub open spec fn after_command(self, command: Seq<Seq<char>>) -> Firewall {
        if command.len() == 4 && command[0] == "add"@ && command[1] == "table"@ {
            Firewall { tables: self.tables.insert((command[2], command[3])), ..self }
        } else if command.len() == 13 && command[0] == "add"@ && command[1] == "set"@ && command[5]
            == "{"@ && command[6] == "type"@ && command[8] == ";"@ && command[9] == "flags"@
            && command[10] == "timeout"@ && command[11] == ";"@ && command[12] == "}"@
            && self.tables.contains((command[2], command[3])) {
            let key = (command[2], command[3], command[4]);
            if self.sets.contains_key(key) {
                self
            } else {
                Firewall { sets: self.sets.insert(key, command[7]), ..self }
            }
        } else if command.len() == 9 && command[0] == "add"@ && command[1] == "element"@
            && command[5] == "{"@ && command[8] == "}"@ && self.sets.contains_key(
            (command[2], command[3], command[4]),
        ) {
            Firewall {
                elements: self.elements.insert(
                    ((command[2], command[3], command[4]), command[6]),
                    command[7],
                ),
                ..self
            }
        } else if command.len() == 9 && command[0] == "delete"@ && command[1] == "element"@ {
            Firewall {
                elements: self.elements.remove(
                    ((command[2], command[3], command[4]), command[6]),
                ),
                ..self
            }
        } else {
            self
        }
    }

    /// What a number of commands do, one after the other.
    pub open spec fn after_commands(self, commands: Seq<Seq<Seq<char>>>) -> Firewall
        decreases commands.len(),
    {
        if commands.len() == 0 {
            self
        } else {
            self.after_commands(commands.drop_last()).after_command(commands.last())
        }
    }
}

/// Blocking an address blocks it: whatever the firewall held, after the commands the
/// address is in the set for its kind of address, with the time asked for as its timeout,
/// brought between the bounds of the settings. The table and the set are there, a new set
/// is of the right type, and every other element is as it was.
pub proof fn a_blocked_address_is_in_its_set(
    config: ActionsConfig,
    ip: IpTarget,
    duration_secs: u32,
    deed: Deed,
    firewall: Firewall,
    seconds: nat,
)
    requires
        is_deed(config, ActionRequest::BlockIp { ip, duration_secs }, deed),
        config.block_ip_min_duration_secs <= config.block_ip_max_duration_secs,
        config.block_ip_min_duration_secs <= seconds <= config.block_ip_max_duration_secs,
        duration_secs > config.block_ip_max_duration_secs ==> seconds
            == config.block_ip_max_duration_secs,
        duration_secs < config.block_ip_min_duration_secs ==> seconds
            == config.block_ip_min_duration_secs,
        config.block_ip_min_duration_secs <= duration_secs <= config.block_ip_max_duration_secs
            ==> seconds == duration_secs,
    ensures
        deed matches Deed::Block { commands } && ({
            let after = firewall.after_commands(command_texts(commands@));
            let set = if ip.is_v6 {
                (config.nftables_family@, config.nftables_table@, config.nftables_set_v6@)
            } else {
                (config.nftables_family@, config.nftables_table@, config.nftables_set_v4@)
            };
            &&& after.tables == firewall.tables.insert((set.0, set.1))
            &&& after.sets.contains_key(set)
            &&& !firewall.sets.contains_key(set) ==> after.sets[set] == if ip.is_v6 {
                "ipv6_addr"@
            } else {
                "ipv4_addr"@
            }
            &&& after.elements == firewall.elements.insert(
                (set, ip.text@),
                "timeout "@ + text::decimal(seconds) + "s"@,
            )
            &&& forall|other: (Seq<char>, Seq<char>, Seq<char>)|
                other != set ==> (#[trigger] after.sets.contains_key(other)
                    == firewall.sets.contains_key(other))
        }),
{
    reveal_strlit("add");
    reveal_strlit("delete");
    reveal_strlit("table");
    reveal_strlit("set");
    reveal_strlit("element");
    let commands = match deed {
        Deed::Block { commands } => command_texts(commands@),
        _ => Seq::empty(),
    };
    let expected = block_commands(config, ip, seconds);
    assert(commands == expected);
    let first = firewall.after_command(commands[0]);
    let second = first.after_command(commands[1]);
    assert(commands.drop_last().drop_last().drop_last() =~= Seq::<Seq<Seq<char>>>::empty());
    assert(commands.drop_last().drop_last().last() == commands[0]);
    assert(commands.drop_last().last() == commands[1]);
    reveal_with_fuel(Firewall::after_commands, 4);
    assert(firewall.after_commands(commands) == second.after_command(commands[2]));
    assert("table"@.len() == 5 && "set"@.len() == 3 && "element"@.len() == 7);
    assert(commands[0].len() == 4 && commands[1].len() == 13 && commands[2].len() == 9);
}

/// What has to be done for an action is what was asked for, of just the unit or process
/// that it names: a restart restarts, a stop stops, and a process gets as many seconds to
/// end as were asked for, at least one and no more than the settings allow.
pub proof fn deeds_do_what_was_asked_for(config: ActionsConfig, action: ActionRequest, deed: Deed)
    requires
        is_deed(config, action, deed),
    ensures
        match action {
            ActionRequest::RestartUnit { unit } => deed matches Deed::Unit { unit: touched, stop }
                && touched@ == unit@ && !stop,
            ActionRequest::StopUnit { unit } => deed matches Deed::Unit { unit: touched, stop }
                && touched@ == unit@ && stop,
            ActionRequest::TerminateProcess { pid, grace_secs } => deed matches Deed::Terminate {
                pid: number,
                grace_secs: grace,
            } && (pid <= 0x7fff_ffff ==> number == pid) && (config.terminate_max_grace_secs >= 1
                ==> 1 <= grace <= config.terminate_max_grace_secs) && (1 <= grace_secs
                <= config.terminate_max_grace_secs ==> grace == grace_secs) && (grace_secs
                > config.terminate_max_grace_secs && grace_secs >= 1 ==> grace
                == config.terminate_max_grace_secs),
            ActionRequest::BlockIp { .. } => deed is Block,
            ActionRequest::MuteAnomaly { .. } => deed is Nothing,
        },
{
}

/// An action is refused as not allowed exactly if its kind is not on the list, or if it
/// restarts or stops a unit that is not on the list of units.
pub proof fn the_lists_decide_what_is_allowed(
    executor: ExecutorView,
    action: ActionRequest,
    now_us: u64,
)
    ensures
        executor.refusal(action, now_us) == Some(DenyReason::NotAllowed) <==> match action {
            ActionRequest::RestartUnit { unit } => !(text::texts(
                executor.config.allowed_kinds@,
            ).contains("restart_unit"@) && text::texts(executor.config.allowed_units@).contains(
                unit@,
            )),
            ActionRequest::StopUnit { unit } => !(text::texts(
                executor.config.allowed_kinds@,
            ).contains("stop_unit"@) && text::texts(executor.config.allowed_units@).contains(unit@)),
            ActionRequest::TerminateProcess { .. } => !text::texts(
                executor.config.allowed_kinds@,
            ).contains("terminate_process"@),
            ActionRequest::BlockIp { .. } => !text::texts(executor.config.allowed_kinds@).contains(
                "block_ip"@,
            ),
            ActionRequest::MuteAnomaly { .. } => !text::texts(
                executor.config.allowed_kinds@,
            ).contains("mute_anomaly"@),
        },
{
}

/// What is decided on an action that is not refused goes by the settings: for show it is
/// only answered, and said to be so; otherwise it has to be done. What is refused is
/// answered with the reason, and never done.
pub proof fn dry_runs_do_nothing(
    executor: ExecutorView,
    action: ActionRequest,
    now_us: u64,
    decision: Decision,
)
    requires
        executor.decides(action, now_us, decision),
    ensures
        decision is Perform <==> executor.refusal(action, now_us) is None
            && !executor.config.dry_run,
        executor.refusal(action, now_us) matches Some(reason) ==> decision == Decision::Answer(
            ActionOutcome::Denied { reason },
        ),
        executor.refusal(action, now_us) is None && executor.config.dry_run ==> (
        decision matches Decision::Answer(ActionOutcome::Completed { message: _, dry_run })
            && dry_run),
{
}

/// An attempt counts for as many minutes as the window lasts, and not longer.
pub proof fn attempts_count_within_the_window(
    attempts: Seq<u64>,
    attempt: u64,
    now_us: u64,
    config: ActionsConfig,
)
    requires
        config.rate_limit_window_minutes * 60_000_000 <= u64::MAX,
        attempt <= now_us,
    ensures
        ({
            let window = window_of(config);
            let before = recent_attempts(attempts, now_us, window);
            &&& recent_attempts(Seq::empty(), now_us, window).len() == 0
            &&& recent_attempts(attempts.push(attempt), now_us, window) == if now_us < attempt
                + config.rate_limit_window_minutes * 60_000_000 {
                before.push(attempt)
            } else {
                before
            }
        }),
{
    let minutes = config.rate_limit_window_minutes;
    assert(minutes * 60 * 1_000_000 == minutes * 60_000_000) by (nonlinear_arith);
    assert(minutes * 60 <= u64::MAX);
    assert(attempts.push(attempt).drop_last() =~= attempts);
}

/// Once an allowed action was attempted as often as the settings say, all within the
/// window, it is refused until the oldest of these attempts is as old as the window is
/// long, and the answer says in how many whole seconds that is. Then it is granted again.
pub proof fn the_limit_lasts_as_long_as_the_window(
    executor: ExecutorView,
    action: ActionRequest,
    now_us: u64,
)
    requires
        executor.refusal(action, now_us) != Some(DenyReason::NotAllowed),
        executor.config.rate_limit_window_minutes * 60_000_000 <= 0xffff_ffff * 1_000_000,
        executor.config.rate_limit_max_actions >= 1,
        executor.attempts.contains_key(rate_key(action)),
        executor.attempts[rate_key(action)].len() == executor.config.rate_limit_max_actions,
        forall|i: int, j: int|
            0 <= i <= j < executor.attempts[rate_key(action)].len()
                ==> #[trigger] executor.attempts[rate_key(action)][i]
                <= #[trigger] executor.attempts[rate_key(action)][j],
        executor.attempts[rate_key(action)].last() <= now_us,
    ensures
        ({
            let oldest = executor.attempts[rate_key(action)][0];
            let end = oldest + executor.config.rate_limit_window_minutes * 60_000_000;
            &&& now_us >= end ==> executor.refusal(action, now_us) is None
            &&& now_us < end ==> (executor.refusal(action, now_us) matches Some(
                DenyReason::RateLimited { retry_after_secs },
            ) && retry_after_secs * 1_000_000 <= end - now_us && end - now_us < retry_after_secs
                * 1_000_000 + 1_000_000)
        }),
{
    let attempts = executor.attempts[rate_key(action)];
    let window = window_of(executor.config);
    let minutes = executor.config.rate_limit_window_minutes;
    assert(minutes * 60 * 1_000_000 == minutes * 60_000_000) by (nonlinear_arith);
    assert(minutes * 60 <= u64::MAX);
    let kept = recent_attempts(attempts, now_us, window);
    recent_attempts_are_no_more(attempts, now_us, window);
    let oldest = attempts[0];
    let last = attempts.len() - 1;
    assert(attempts[last] == attempts.last());
    assert forall|i: int| 0 <= i < attempts.len() implies oldest <= #[trigger] attempts[i] <= now_us by {
        assert(attempts[0] <= attempts[i] && attempts[i] <= attempts[last]);
    }
    if now_us < oldest + minutes * 60_000_000 {
        all_are_recent(attempts, now_us, window);
        assert(kept == attempts);
    } else {
        the_oldest_is_gone(attempts, now_us, window);
        assert(kept.len() < attempts.len());
    }
}

proof fn all_are_recent(attempts: Seq<u64>, now_us: u64, window_us: u64)
    requires
        forall|i: int| 0 <= i < attempts.len() ==> age(now_us, #[trigger] attempts[i]) < window_us,
    ensures
        recent_attempts(attempts, now_us, window_us) == attempts,
    decreases attempts.len(),
{
    if attempts.len() > 0 {
        let fewer = attempts.drop_last();
        assert forall|i: int| 0 <= i < fewer.len() implies age(now_us, #[trigger] fewer[i])
            < window_us by {
            assert(age(now_us, attempts[i]) < window_us);
        }
        all_are_recent(fewer, now_us, window_us);
        assert(age(now_us, attempts[attempts.len() - 1]) < window_us);
        assert(fewer.push(attempts.last()) =~= attempts);
    } else {
        assert(recent_attempts(attempts, now_us, window_us) =~= attempts);
    }
}

proof fn the_oldest_is_gone(attempts: Seq<u64>, now_us: u64, window_us: u64)
    requires
        attempts.len() > 0,
        age(now_us, attempts[0]) >= window_us,
    ensures
        recent_attempts(attempts, now_us, window_us).len() < attempts.len(),
    decreases attempts.len(),
{
    let fewer = attempts.drop_last();
    if fewer.len() > 0 {
        assert(fewer[0] == attempts[0]);
        the_oldest_is_gone(fewer, now_us, window_us);
    } else {
        recent_attempts_are_no_more(fewer, now_us, window_us);
    }
}

/// An action that was never attempted is granted, if it is allowed and anything is, and
/// the attempt is counted; one that is refused for lack of permission is not.
pub proof fn the_first_attempt_is_granted(executor: ExecutorView, action: ActionRequest, now_us: u64)
    requires
        !executor.attempts.contains_key(rate_key(action)),
    ensures
        executor.refusal(action, now_us) != Some(DenyReason::NotAllowed)
            && executor.config.rate_limit_max_actions >= 1 ==> {
            &&& executor.refusal(action, now_us) is None
            &&& executor.attempted(action, now_us).attempts.contains_key(rate_key(action))
            &&& executor.attempted(action, now_us).attempts[rate_key(action)] == seq![now_us]
        },
        executor.refusal(action, now_us) == Some(DenyReason::NotAllowed) ==> executor.attempted(
            action,
            now_us,
        ) == executor,
{
    assert(executor.kept(action, now_us) =~= Seq::<u64>::empty());
    assert(Seq::<u64>::empty().push(now_us) =~= seq![now_us]);
}

/// Attempts are counted by kind and target: actions of different kinds, or with different
/// targets, do not share a limit.
pub proof fn kinds_and_targets_are_counted_apart(one: ActionRequest, two: ActionRequest)
    ensures
        one is RestartUnit && !(two is RestartUnit) ==> rate_key(one) != rate_key(two),
        one is StopUnit && !(two is StopUnit) ==> rate_key(one) != rate_key(two),
        one is TerminateProcess && !(two is TerminateProcess) ==> rate_key(one) != rate_key(two),
        one is BlockIp && !(two is BlockIp) ==> rate_key(one) != rate_key(two),
        one is MuteAnomaly && !(two is MuteAnomaly) ==> rate_key(one) != rate_key(two),
        one matches ActionRequest::RestartUnit { unit: a } ==> (
        two matches ActionRequest::RestartUnit { unit: b } ==> (rate_key(one) == rate_key(two)
            <==> a@ == b@)),
        one matches ActionRequest::StopUnit { unit: a } ==> (two matches ActionRequest::StopUnit {
            unit: b,
        } ==> (rate_key(one) == rate_key(two) <==> a@ == b@)),
        one matches ActionRequest::TerminateProcess { pid: a, .. } ==> (
        two matches ActionRequest::TerminateProcess { pid: b, .. } ==> (rate_key(one) == rate_key(two)
            <==> a == b)),
        one matches ActionRequest::BlockIp { ip: a, .. } ==> (two matches ActionRequest::BlockIp {
            ip: b,
            ..
        } ==> (rate_key(one) == rate_key(two) <==> a.text@ == b.text@)),
        one matches ActionRequest::MuteAnomaly { template_id: a, unit: None, .. } ==> (
        two matches ActionRequest::MuteAnomaly { template_id: b, unit: None, .. } ==> (rate_key(one)
            == rate_key(two) <==> a == b)),
{
    reveal_strlit("restart_unit");
    reveal_strlit("stop_unit");
    reveal_strlit("terminate_process");
    reveal_strlit("block_ip");
    reveal_strlit("mute_anomaly");
    reveal_strlit(":");
    assert(rate_key(one)[0] == kind_name(one)[0]);
    assert(rate_key(two)[0] == kind_name(two)[0]);
    if kind_name(one) == kind_name(two) {
        let n = kind_name(one).len() + 1;
        assert(rate_key(one).skip(n as int) =~= target_text(one));
        assert(rate_key(two).skip(n as int) =~= target_text(two));
    }
    if let ActionRequest::TerminateProcess { pid: a, .. } = one {
        if let ActionRequest::TerminateProcess { pid: b, .. } = two {
            text::reading_undoes_writing(a as nat);
            text::reading_undoes_writing(b as nat);
        }
    }
    if let ActionRequest::MuteAnomaly { template_id: a, .. } = one {
        if let ActionRequest::MuteAnomaly { template_id: b, .. } = two {
            text::reading_undoes_writing(a as nat);
            text::reading_undoes_writing(b as nat);
        }
    }
}

/// After a unit was restarted or stopped, or a process was told to end, its lines are left
/// out for as many seconds as are set, and from then on no longer. No other unit or
/// process is affected.
pub proof fn own_lines_are_left_out_for_a_while(
    config: ActionsConfig,
    action: ActionRequest,
    now_us: u64,
    shared: StateView,
    timestamp_us: u64,
)
    requires
        now_us + config.self_filter_window_secs * 1_000_000 <= u64::MAX,
    ensures
        ({
            let after = after_deed(config, action, now_us, shared);
            let end = now_us + config.self_filter_window_secs * 1_000_000;
            &&& action matches ActionRequest::RestartUnit { unit } ==> (after.self_filtered(
                Some(unit@),
                None,
                timestamp_us,
            ) <==> timestamp_us < end)
            &&& action matches ActionRequest::StopUnit { unit } ==> (after.self_filtered(
                Some(unit@),
                None,
                timestamp_us,
            ) <==> timestamp_us < end)
            &&& action matches ActionRequest::TerminateProcess { pid, .. } ==> (pid <= 0x7fff_ffff
                ==> (after.self_filtered(None, Some(pid as i32), timestamp_us) <==> timestamp_us
                < end))
            &&& forall|other: Seq<char>|
                !(action matches ActionRequest::RestartUnit { unit } && unit@ == other) && !(
                action matches ActionRequest::StopUnit { unit } && unit@ == other)
                    ==> #[trigger] after.self_filtered(Some(other), None, timestamp_us)
                    == shared.self_filtered(Some(other), None, timestamp_us)
            &&& action is BlockIp ==> after == shared
        }),
{
}

/// A mute holds for an hour or for a day, as was asked for, or for good; and then no
/// longer.
pub proof fn mutes_last_as_long_as_asked_for(
    config: ActionsConfig,
    template_id: u64,
    scope: MuteScope,
    now_us: u64,
    shared: StateView,
    timestamp_us: u64,
)
    requires
        now_us + 86_400_000_000 <= u64::MAX,
        timestamp_us < u64::MAX,
    ensures
        ({
            let action = ActionRequest::MuteAnomaly { template_id, unit: None, scope };
            let after = after_deed(config, action, now_us, shared);
            after.muted(template_id, None, timestamp_us) <==> match scope {
                MuteScope::OneHour => timestamp_us < now_us + 60 * 60 * 1_000_000,
                MuteScope::OneDay => timestamp_us < now_us + 24 * 60 * 60 * 1_000_000,
                MuteScope::Permanent => true,
            }
        }),
{
}

/// What is said of an action names what it is about, whether it was done or done for show.
pub proof fn answers_name_the_target(config: ActionsConfig, action: ActionRequest)
    ensures
        exists|before: Seq<char>, behind: Seq<char>|
            dry_text(config, action) == #[trigger] (before + target_text(action) + behind),
        exists|before: Seq<char>, behind: Seq<char>|
            done_text(config, action) == #[trigger] (before + target_text(action) + behind),
{
    let target = target_text(action);
    let none = Seq::<char>::empty();
    match action {
        ActionRequest::RestartUnit { .. } => {
            assert(dry_text(config, action) =~= "Dry-Run: restart_unit für "@ + target
                + " würde jetzt ausgeführt"@);
            assert(done_text(config, action) =~= "restart_unit für "@ + target + " ausgeführt"@);
        },
        ActionRequest::StopUnit { .. } => {
            assert(dry_text(config, action) =~= "Dry-Run: stop_unit für "@ + target
                + " würde jetzt ausgeführt"@);
            assert(done_text(config, action) =~= "stop_unit für "@ + target + " ausgeführt"@);
        },
        ActionRequest::TerminateProcess { grace_secs, .. } => {
            let grace = text::decimal(grace_of(config, grace_secs));
            let dry = " (Grace "@ + grace + "s) würde jetzt ausgeführt"@;
            let done = " gesendet, SIGKILL nach "@ + grace + "s falls nötig"@;
            assert(dry_text(config, action) =~= "Dry-Run: terminate_process für PID "@ + target
                + dry);
            assert(done_text(config, action) =~= "SIGTERM an PID "@ + target + done);
        },
        ActionRequest::BlockIp { duration_secs, .. } => {
            let duration = text::decimal(duration_of(config, duration_secs));
            let dry = " ("@ + duration + "s) würde jetzt ausgeführt"@;
            let done = " für "@ + duration + "s gesperrt"@;
            assert(dry_text(config, action) =~= "Dry-Run: block_ip für "@ + target + dry);
            assert(done_text(config, action) =~= none + target + done);
        },
        ActionRequest::MuteAnomaly { scope, .. } => {
            let done = " stummgeschaltet ("@ + scope_name(scope) + ")"@;
            assert(dry_text(config, action) =~= "Dry-Run: mute_anomaly für "@ + target
                + " würde jetzt eingetragen"@);
            assert(done_text(config, action) =~= none + target + done);
        },
    }
}

/// An action that failed leaves no trace in the shared state, and the answer gives the
/// reason; one that was done is answered as done, not as done for show.
pub proof fn failures_leave_no_trace(
    executor: &ActionExecutor,
    action: &ActionRequest,
    result: Result<(), String>,
    now_us: u64,
    state: &mut SharedState,
    outcome: ActionOutcome,
)
    requires
        call_ensures(ActionExecutor::finish, (executor, action, result, now_us, state), outcome),
    ensures
        result is Err ==> final(state)@ == old(state)@,
        result is Ok ==> final(state)@ == after_deed(
            executor@.config,
            *action,
            now_us,
            old(state)@,
        ),
        result matches Err(reason) ==> (outcome matches ActionOutcome::Failed { message }
            && message@.len() >= reason@.len() && message@.skip(message@.len() - reason@.len())
            == reason@),
        result is Ok ==> (outcome matches ActionOutcome::Completed { message, dry_run } && !dry_run
            && message@ == done_text(executor@.config, *action)),
{
    if let Err(reason) = result {
        if let ActionOutcome::Failed { message } = outcome {
            assert(message@.skip(message@.len() - reason@.len()) =~= reason@);
        }
    }
}

/// An executor that has just been made has seen no attempts, and says of itself what its
/// settings say.
pub proof fn a_new_executor_goes_by_its_settings(
    config: ActionsConfig,
    executor: ActionExecutor,
    kinds: Vec<String>,
    dry: bool,
)
    requires
        call_ensures(ActionExecutor::new, (config,), executor),
        call_ensures(ActionExecutor::allowed_kinds, (&executor,), kinds),
        call_ensures(ActionExecutor::dry_run, (&executor,), dry),
    ensures
        executor@.config == config,
        executor@.attempts.dom() =~= Set::<Seq<char>>::empty(),
        text::texts(kinds@) == text::texts(config.allowed_kinds@),
        dry == config.dry_run,
{
}

/// To decide on an action is to refuse it or to go on with it, and an attempt counts just
/// as if it had only been asked for.
pub proof fn deciding_is_refusing_or_going_on(
    executor: &mut ActionExecutor,
    action: &ActionRequest,
    now_us: u64,
    decision: Decision,
    other: &mut ActionExecutor,
    refusal: Option<DenyReason>,
)
    requires
        call_ensures(ActionExecutor::decide, (executor, action, now_us), decision),
        old(other)@ == old(executor)@,
        call_ensures(ActionExecutor::refuse, (other, action, now_us), refusal),
    ensures
        final(executor)@ == final(other)@,
        final(other)@ == old(other)@.attempted(*action, now_us),
        refusal == old(other)@.refusal(*action, now_us),
        refusal matches Some(reason) ==> decision == Decision::Answer(
            ActionOutcome::Denied { reason },
        ),
        refusal is None && !old(executor)@.config.dry_run ==> (decision matches Decision::Perform(
            deed,
        ) && is_deed(old(executor)@.config, *action, deed)),
        refusal is None && old(executor)@.config.dry_run ==> decision is Answer,
{
}

/// Every attempt leaves a line that says when, who asked, for what, and what came of it.
pub proof fn the_audit_says_what_was_asked<'a>(
    action: &ActionRequest,
    request_id: u64,
    session_id: u64,
    timestamp_us: u64,
    outcome: &'a ActionOutcome,
    entry: AuditEntry<'a>,
)
    requires
        call_ensures(audit_entry, (action, request_id, session_id, timestamp_us, outcome), entry),
    ensures
        entry.timestamp_us == timestamp_us,
        entry.session_id == session_id,
        entry.request_id == request_id,
        *entry.outcome == *outcome,
        *action matches ActionRequest::RestartUnit { unit } ==> entry.kind@ == "restart_unit"@
            && entry.target@ == unit@,
        *action matches ActionRequest::StopUnit { unit } ==> entry.kind@ == "stop_unit"@
            && entry.target@ == unit@,
        *action matches ActionRequest::TerminateProcess { pid, .. } ==> entry.kind@
            == "terminate_process"@ && entry.target@ == text::decimal(pid as nat),
        *action matches ActionRequest::BlockIp { ip, .. } ==> entry.kind@ == "block_ip"@
            && entry.target@ == ip.text@,
        *action matches ActionRequest::MuteAnomaly { template_id, unit: None, .. } ==> entry.kind@
            == "mute_anomaly"@ && entry.target@ == text::decimal(template_id as nat),
{
}

/// What is said of a failed command shows the command and, last, what it complained of.
pub proof fn failed_commands_are_shown(args: &Vec<String>, stderr: &str, message: String)
    requires
        call_ensures(nft_failure, (args, stderr), message),
    ensures
        exists|before: Seq<char>, between: Seq<char>|
            message@ == #[trigger] (before + text::joined(text::texts(args@), " "@) + between
                + text::trimmed(stderr@)),
{
}

/// An action leaves behind just what it is about. A mute in a unit mutes the template there
/// and nowhere else; a restart, a stop or the end of a process changes no mute; and other
/// processes are not touched.
pub proof fn actions_leave_no_other_traces(
    config: ActionsConfig,
    action: ActionRequest,
    now_us: u64,
    shared: StateView,
    template_id: u64,
    name: String,
    other: Option<Seq<char>>,
    pid: i32,
    timestamp_us: u64,
)
    requires
        other != Some(name@),
        now_us + 86_400_000_000 <= u64::MAX,
        timestamp_us < u64::MAX,
    ensures
        ({
            let after = after_deed(config, action, now_us, shared);
            &&& action matches ActionRequest::MuteAnomaly { template_id: id, unit, scope } ==> (id
                == template_id && unit == Some(name) ==> {
                &&& after.muted(template_id, other, timestamp_us) == shared.muted(
                    template_id,
                    other,
                    timestamp_us,
                )
                &&& scope == MuteScope::OneHour && timestamp_us < now_us + 3_600_000_000
                    ==> after.muted(template_id, Some(name@), timestamp_us)
                &&& scope == MuteScope::OneDay && timestamp_us < now_us + 86_400_000_000
                    ==> after.muted(template_id, Some(name@), timestamp_us)
                &&& scope == MuteScope::Permanent ==> after.muted(
                    template_id,
                    Some(name@),
                    timestamp_us,
                )
            })
            &&& action matches ActionRequest::MuteAnomaly { template_id: id, .. } ==> (id
                != template_id ==> after.muted(template_id, other, timestamp_us) == shared.muted(
                template_id,
                other,
                timestamp_us,
            ))
            &&& !(action is MuteAnomaly) ==> after.mutes_everywhere == shared.mutes_everywhere
                && after.mutes_by_unit == shared.mutes_by_unit
            &&& !(action matches ActionRequest::TerminateProcess { pid: number, .. } && number
                == pid) && pid >= 0 ==> after.self_filtered(None, Some(pid), timestamp_us)
                == shared.self_filtered(None, Some(pid), timestamp_us) || (
            action matches ActionRequest::TerminateProcess { pid: number, .. } && number
                > 0x7fff_ffff)
            &&& after.recent == shared.recent && after.context == shared.context && after.clients
                == shared.clients && after.snapshot == shared.snapshot
        }),
{
}

} // verus!
