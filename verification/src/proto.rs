//! The messages between the daemon and its clients. Each is one line of JSON.
//! Floating-point numbers are held by their bits.

use vstd::prelude::*;

verus! {

/// The version of the protocol. A client has to speak the same one.
pub const PROTOCOL_VERSION: u32 = 1;

/// How many bytes a line of a client may have.
pub const MAX_CLIENT_LINE_BYTES: usize = 65_536;

/// What a client wants to be sent.
#[derive(Debug, Clone, Copy, PartialEq, Eq, Structural)]
pub struct Subscription {
    /// Whether it wants snapshots.
    pub snapshots: bool,
    /// Whether it wants anomalies.
    pub anomalies: bool,
    /// How often it wants snapshots, in milliseconds.
    pub snapshot_interval_ms: u32,
}

impl Default for Subscription {
    fn default() -> (subscription: Subscription)
        ensures
            subscription == (Subscription {
                snapshots: true,
                anomalies: true,
                snapshot_interval_ms: 1000,
            }),
    {
        Subscription { snapshots: true, anomalies: true, snapshot_interval_ms: 1000 }
    }
}

/// How long an anomaly is to be kept quiet.
#[derive(Debug, Clone, Copy, PartialEq, Eq, Structural)]
pub enum MuteScope {
    /// For an hour.
    OneHour,
    /// For a day.
    OneDay,
    /// For good.
    Permanent,
}

/// An address of the internet.
#[derive(Debug, PartialEq, Eq)]
pub struct IpTarget {
    /// The address, as it is written.
    pub text: String,
    /// Whether it is of version six.
    pub is_v6: bool,
}

/// What a client wants to be done.
#[derive(Debug, PartialEq, Eq)]
pub enum ActionRequest {
    /// Restart a unit.
    RestartUnit {
        /// The name of the unit.
        unit: String,
    },
    /// Stop a unit.
    StopUnit {
        /// The name of the unit.
        unit: String,
    },
    /// End a process.
    TerminateProcess {
        /// The process.
        pid: u32,
        /// How long it may take to end by itself, in seconds.
        grace_secs: u16,
    },
    /// Block an address.
    BlockIp {
        /// The address.
        ip: IpTarget,
        /// For how long, in seconds.
        duration_secs: u32,
    },
    /// Keep an anomaly quiet.
    MuteAnomaly {
        /// Its template.
        template_id: u64,
        /// The unit that it is about; all units if there is none.
        unit: Option<String>,
        /// For how long.
        scope: MuteScope,
    },
}

/// A message of a client.
#[derive(Debug, PartialEq, Eq)]
pub enum ClientMessage {
    /// The first message.
    Hello {
        /// The version of the protocol that the client speaks.
        protocol_version: u32,
        /// What the client is called.
        client_name: String,
        /// The version of the client.
        client_version: String,
        /// What it wants to be sent.
        subscription: Subscription,
    },
    /// A change of what it wants to be sent.
    Subscribe {
        /// What it wants now.
        subscription: Subscription,
    },
    /// A request for the lines around a time.
    GetContext {
        /// The number of the request.
        request_id: u64,
        /// The time, in microseconds since the epoch.
        timestamp_us: u64,
        /// How many lines before.
        before: u16,
        /// How many lines after.
        after: u16,
        /// The unit whose lines are wanted; all units if there is none.
        unit: Option<String>,
    },
    /// A request for an action.
    Action {
        /// The number of the request.
        request_id: u64,
        /// What is to be done.
        action: ActionRequest,
    },
    /// A sign of life that asks for another.
    Ping {
        /// What the answer is to repeat.
        nonce: u64,
    },
}

/// Why an action is refused.
#[derive(Debug, Clone, Copy, PartialEq, Eq, Structural)]
pub enum DenyReason {
    /// The settings do not allow it.
    NotAllowed,
    /// It was asked for too often.
    RateLimited {
        /// When to ask again, in seconds.
        retry_after_secs: u32,
    },
}

/// What came of an action.
#[derive(Debug, PartialEq, Eq)]
pub enum ActionOutcome {
    /// It was done.
    Completed {
        /// What was done.
        message: String,
        /// Whether it was done for show only.
        dry_run: bool,
    },
    /// It failed.
    Failed {
        /// Why.
        message: String,
    },
    /// It was refused.
    Denied {
        /// Why.
        reason: DenyReason,
    },
}

/// What is wrong with a message of a client.
#[derive(Debug, Clone, Copy, PartialEq, Eq, Structural)]
pub enum ErrorCode {
    /// It cannot be read.
    MalformedMessage,
    /// Its kind is unknown.
    UnknownMessage,
    /// It comes before the client has said hello.
    HelloExpected,
    /// The client is too slow, and has missed anomalies.
    Lagged {
        /// How many it has missed.
        missed: u64,
    },
}

/// Why a connection ends.
#[derive(Debug, Clone, Copy, PartialEq, Eq, Structural)]
pub enum GoodbyeReason {
    /// The client did not say hello in time.
    HelloTimeout,
    /// A line of the client was too long.
    LineTooLong,
    /// The client speaks another version of the protocol.
    VersionMismatch {
        /// The version of the daemon.
        expected: u32,
        /// The version of the client.
        got: u32,
    },
    /// The daemon ends.
    Shutdown,
    /// There are too many clients.
    TooManyClients {
        /// How many there may be.
        max: u32,
    },
}

/// How serious an anomaly is.
#[derive(Debug, Clone, Copy, PartialEq, Eq, Structural)]
pub enum AnomalyLevel {
    /// Worth knowing.
    Info,
    /// Worth a look.
    Warn,
    /// Urgent.
    Critical,
}

/// What a rate was held against.
#[derive(Debug, Clone, Copy, PartialEq, Eq, Structural)]
pub enum RateSource {
    /// The baseline of the time of day.
    SlotBaseline,
    /// The baseline of all times.
    AnySlotBaseline,
    /// The last minutes.
    ShortTerm,
    /// Nothing.
    Nowhere,
}

/// What an event scores.
#[derive(Debug, Clone, Copy, PartialEq, Eq, Structural)]
pub struct ScoreBreakdown {
    /// How far the rate of the template is from what is usual.
    pub rate_z: u64,
    /// How surprising the template is, in bits.
    pub surprisal_bits: u64,
    /// How far the entropy of the window is from what is usual.
    pub entropy_z: u64,
    /// What the rate adds.
    pub rate_component: u64,
    /// What the surprisal adds.
    pub surprisal_component: u64,
    /// What the entropy adds.
    pub entropy_component: u64,
    /// The combined score.
    pub combined: u64,
    /// What the rate was held against.
    pub rate_source: RateSource,
}

/// An anomaly.
#[derive(Debug, PartialEq, Eq)]
pub struct AnomalyEvent {
    /// Its number, from one on.
    pub id: u64,
    /// When it happened, in microseconds since the epoch.
    pub timestamp_us: u64,
    /// The template of the event.
    pub template_id: u64,
    /// The text of the template.
    pub template_text: String,
    /// The message, cut if it is long.
    pub sample_message: String,
    /// The unit, if the event has one.
    pub unit: Option<String>,
    /// The process, if it is known.
    pub pid: Option<u32>,
    /// The syslog priority, if it is known.
    pub priority: Option<u8>,
    /// How serious it is.
    pub level: AnomalyLevel,
    /// What it scores.
    pub breakdown: ScoreBreakdown,
    /// How many reports have been held back since the last one.
    pub suppressed_since_last: u64,
}

/// A copy of an optional string.
pub fn copy_text(s: &Option<String>) -> (copy: Option<String>)
    ensures
        copy == *s,
{
    match s {
        Some(text) => Some(text.clone()),
        None => None,
    }
}

impl AnomalyEvent {
    /// A copy.
    pub fn duplicate(&self) -> (copy: AnomalyEvent)
        ensures
            copy == *self,
    {
        AnomalyEvent {
            id: self.id,
            timestamp_us: self.timestamp_us,
            template_id: self.template_id,
            template_text: self.template_text.clone(),
            sample_message: self.sample_message.clone(),
            unit: copy_text(&self.unit),
            pid: self.pid,
            priority: self.priority,
            level: self.level,
            breakdown: self.breakdown,
            suppressed_since_last: self.suppressed_since_last,
        }
    }
}

/// A line of the journal.
#[derive(Debug, PartialEq, Eq)]
pub struct ContextLine {
    /// When it was written, in microseconds since the epoch.
    pub timestamp_us: u64,
    /// The unit, if there is one.
    pub unit: Option<String>,
    /// The process, if it is known.
    pub pid: Option<u32>,
    /// The syslog priority, if it is known.
    pub priority: Option<u8>,
    /// The message.
    pub message: String,
}

/// The lines around a time.
#[derive(Debug, PartialEq, Eq)]
pub struct ContextReply {
    /// The number of the request.
    pub request_id: u64,
    /// The lines, the oldest first.
    pub lines: Vec<ContextLine>,
    /// Whether there were fewer than asked for.
    pub truncated: bool,
}

/// How busy the processor is.
#[derive(Debug, PartialEq, Eq)]
pub struct CpuSnapshot {
    /// All cores together, in percent.
    pub global_usage_percent: u32,
    /// Each core, in percent.
    pub per_core_usage_percent: Vec<u32>,
}

/// How much memory is in use.
#[derive(Debug, Clone, Copy, PartialEq, Eq, Structural)]
pub struct MemorySnapshot {
    /// All of it, in bytes.
    pub total_bytes: u64,
    /// What is in use, in bytes.
    pub used_bytes: u64,
    /// What is in use, in percent.
    pub used_percent: u32,
}

/// The load averages.
#[derive(Debug, Clone, Copy, PartialEq, Eq, Structural)]
pub struct LoadSnapshot {
    /// Over one minute.
    pub one: u64,
    /// Over five minutes.
    pub five: u64,
    /// Over a quarter of an hour.
    pub fifteen: u64,
}

/// How full a file system is.
#[derive(Debug, PartialEq, Eq)]
pub struct DiskSnapshot {
    /// Where it is mounted.
    pub mount_point: String,
    /// Its size in bytes.
    pub total_bytes: u64,
    /// What is free, in bytes.
    pub available_bytes: u64,
    /// What is in use, in percent.
    pub used_percent: u32,
}

/// A temperature.
#[derive(Debug, PartialEq, Eq)]
pub struct TemperatureSnapshot {
    /// What the driver calls the sensor.
    pub label: String,
    /// In degrees Celsius.
    pub celsius: u32,
}

/// The state of a systemd unit.
#[derive(Debug, PartialEq, Eq)]
pub struct UnitStatus {
    /// The name of the unit.
    pub name: String,
    /// Its `ActiveState`.
    pub active_state: String,
    /// Its `SubState`.
    pub sub_state: String,
}

/// The state of the machine.
#[derive(Debug, PartialEq, Eq)]
pub struct SystemSnapshot {
    /// When it was taken, in microseconds since the epoch.
    pub timestamp_us: u64,
    /// The processor.
    pub cpu: CpuSnapshot,
    /// The memory.
    pub memory: MemorySnapshot,
    /// The load.
    pub load: LoadSnapshot,
    /// The file systems that are watched.
    pub disks: Vec<DiskSnapshot>,
    /// The temperatures that are known.
    pub temperatures: Vec<TemperatureSnapshot>,
    /// The units that are watched.
    pub units: Vec<UnitStatus>,
}

/// Whether the daemon is still learning what is usual.
#[derive(Debug, Clone, Copy, PartialEq, Eq, Structural)]
pub struct LearningState {
    /// Whether it is.
    pub active: bool,
    /// For how many more seconds.
    pub remaining_secs: Option<u64>,
}

/// What the daemon has done so far.
#[derive(Debug, Clone, Copy, PartialEq, Eq, Structural)]
pub struct PipelineStats {
    /// How many events there were.
    pub events: u64,
    /// How many lines could not be read.
    pub parse_errors: u64,
    /// How many events were dropped because they came too fast.
    pub dropped_overflow: u64,
    /// How many templates are known.
    pub templates: u64,
    /// How many anomalies were reported.
    pub anomalies_emitted: u64,
    /// How many reports were held back because the template had just been reported.
    pub suppressed: u64,
    /// How many reports were held back while learning.
    pub suppressed_learning: u64,
    /// How many events come in a second.
    pub events_per_sec: u64,
    /// How many clients are connected.
    pub clients: u32,
}

/// The sliding window.
#[derive(Debug, Clone, Copy, PartialEq, Eq, Structural)]
pub struct WindowStats {
    /// Its length in seconds.
    pub window_secs: u32,
    /// Its entropy in bits.
    pub entropy_bits: u64,
    /// How far the entropy is from what is usual.
    pub entropy_z: u64,
    /// How many events it holds.
    pub events_in_window: u64,
    /// How many templates it holds.
    pub distinct_templates: u64,
}

/// The state of the daemon and of the machine.
#[derive(Debug, PartialEq, Eq)]
pub struct Snapshot {
    /// When it was taken, in microseconds since the epoch.
    pub timestamp_us: u64,
    /// For how long the daemon has been running.
    pub daemon_uptime_secs: u64,
    /// Whether it is still learning.
    pub learning: LearningState,
    /// What it has done so far.
    pub stats: PipelineStats,
    /// The sliding window.
    pub window: WindowStats,
    /// The machine, once it has been measured.
    pub system: Option<SystemSnapshot>,
    /// Whether the events come from the past.
    pub replay: bool,
}

/// A message of the daemon.
#[derive(Debug, PartialEq, Eq)]
pub enum ServerMessage {
    /// The answer to hello.
    Hello {
        /// The version of the protocol.
        protocol_version: u32,
        /// The version of the daemon.
        daemon_version: String,
        /// The machine.
        hostname: String,
        /// The run of the daemon.
        session_id: u64,
        /// The actions that the settings allow.
        allowed_actions: Vec<String>,
        /// Whether actions are done for show only.
        dry_run: bool,
    },
    /// The last anomalies, the oldest first.
    RecentAnomalies {
        /// The anomalies.
        anomalies: Vec<AnomalyEvent>,
    },
    /// A snapshot.
    Snapshot(Snapshot),
    /// An anomaly.
    Anomaly(AnomalyEvent),
    /// The lines around a time.
    Context(ContextReply),
    /// What came of an action.
    ActionResult {
        /// The number of the request.
        request_id: u64,
        /// What came of it.
        outcome: ActionOutcome,
    },
    /// The answer to a ping.
    Pong {
        /// What the ping held.
        nonce: u64,
    },
    /// Something is wrong with a message.
    Error {
        /// What.
        code: ErrorCode,
        /// The same in words.
        message: String,
        /// The number of the request, if it had one.
        request_id: Option<u64>,
    },
    /// The connection ends.
    Goodbye {
        /// Why.
        reason: GoodbyeReason,
    },
}

/// Whether two snapshots of the machine say the same.
pub open spec fn same_system(a: SystemSnapshot, b: SystemSnapshot) -> bool {
    &&& a.timestamp_us == b.timestamp_us
    &&& a.cpu.global_usage_percent == b.cpu.global_usage_percent
    &&& a.cpu.per_core_usage_percent@ == b.cpu.per_core_usage_percent@
    &&& a.memory == b.memory
    &&& a.load == b.load
    &&& a.disks@ == b.disks@
    &&& a.temperatures@ == b.temperatures@
    &&& a.units@ == b.units@
}

/// Whether two optional snapshots of the machine say the same.
pub open spec fn same_machine(a: Option<SystemSnapshot>, b: Option<SystemSnapshot>) -> bool {
    match (a, b) {
        (Some(a), Some(b)) => same_system(a, b),
        (None, None) => true,
        _ => false,
    }
}

/// Whether two snapshots say the same.
pub open spec fn same_snapshot(a: Snapshot, b: Snapshot) -> bool {
    &&& a.timestamp_us == b.timestamp_us
    &&& a.daemon_uptime_secs == b.daemon_uptime_secs
    &&& a.learning == b.learning
    &&& a.stats == b.stats
    &&& a.window == b.window
    &&& same_machine(a.system, b.system)
    &&& a.replay == b.replay
}

impl SystemSnapshot {
    /// A copy.
    pub fn duplicate(&self) -> (copy: SystemSnapshot)
        ensures
            same_system(copy, *self),
    {
        let mut cores: Vec<u32> = Vec::new();
        let mut i: usize = 0;
        while i < self.cpu.per_core_usage_percent.len()
            invariant
                i <= self.cpu.per_core_usage_percent@.len(),
                cores@ == self.cpu.per_core_usage_percent@.take(i as int),
            decreases self.cpu.per_core_usage_percent@.len() - i,
        {
            cores.push(self.cpu.per_core_usage_percent[i]);
            proof {
                assert(self.cpu.per_core_usage_percent@.take(i + 1)
                    =~= self.cpu.per_core_usage_percent@.take(i as int).push(
                    self.cpu.per_core_usage_percent@[i as int],
                ));
            }
            i += 1;
        }
        let mut disks: Vec<DiskSnapshot> = Vec::new();
        let mut d: usize = 0;
        while d < self.disks.len()
            invariant
                d <= self.disks@.len(),
                disks@ == self.disks@.take(d as int),
            decreases self.disks@.len() - d,
        {
            let disk = &self.disks[d];
            disks.push(
                DiskSnapshot {
                    mount_point: disk.mount_point.clone(),
                    total_bytes: disk.total_bytes,
                    available_bytes: disk.available_bytes,
                    used_percent: disk.used_percent,
                },
            );
            proof {
                assert(self.disks@.take(d + 1) =~= self.disks@.take(d as int).push(*disk));
            }
            d += 1;
        }
        let mut temperatures: Vec<TemperatureSnapshot> = Vec::new();
        let mut t: usize = 0;
        while t < self.temperatures.len()
            invariant
                t <= self.temperatures@.len(),
                temperatures@ == self.temperatures@.take(t as int),
            decreases self.temperatures@.len() - t,
        {
            let reading = &self.temperatures[t];
            temperatures.push(
                TemperatureSnapshot { label: reading.label.clone(), celsius: reading.celsius },
            );
            proof {
                assert(self.temperatures@.take(t + 1) =~= self.temperatures@.take(t as int).push(
                    *reading,
                ));
            }
            t += 1;
        }
        let mut units: Vec<UnitStatus> = Vec::new();
        let mut u: usize = 0;
        while u < self.units.len()
            invariant
                u <= self.units@.len(),
                units@ == self.units@.take(u as int),
            decreases self.units@.len() - u,
        {
            let unit = &self.units[u];
            units.push(
                UnitStatus {
                    name: unit.name.clone(),
                    active_state: unit.active_state.clone(),
                    sub_state: unit.sub_state.clone(),
                },
            );
            proof {
                assert(self.units@.take(u + 1) =~= self.units@.take(u as int).push(*unit));
            }
            u += 1;
        }
        proof {
            assert(self.cpu.per_core_usage_percent@.take(i as int)
                =~= self.cpu.per_core_usage_percent@);
            assert(self.disks@.take(d as int) =~= self.disks@);
            assert(self.temperatures@.take(t as int) =~= self.temperatures@);
            assert(self.units@.take(u as int) =~= self.units@);
        }
        SystemSnapshot {
            timestamp_us: self.timestamp_us,
            cpu: CpuSnapshot {
                global_usage_percent: self.cpu.global_usage_percent,
                per_core_usage_percent: cores,
            },
            memory: self.memory,
            load: self.load,
            disks,
            temperatures,
            units,
        }
    }
}

impl Snapshot {
    /// A copy.
    pub fn duplicate(&self) -> (copy: Snapshot)
        ensures
            same_snapshot(copy, *self),
    {
        let system: Option<SystemSnapshot> = match &self.system {
            Some(system) => Some(system.duplicate()),
            None => None,
        };
        Snapshot {
            timestamp_us: self.timestamp_us,
            daemon_uptime_secs: self.daemon_uptime_secs,
            learning: self.learning,
            stats: self.stats,
            window: self.window,
            system,
            replay: self.replay,
        }
    }
}

/// Snapshots that say the same cannot be told apart by what they say.
pub proof fn same_snapshots_agree(a: Snapshot, b: Snapshot)
    requires
        same_snapshot(a, b),
    ensures
        a.timestamp_us == b.timestamp_us,
        a.daemon_uptime_secs == b.daemon_uptime_secs,
        a.learning == b.learning,
        a.stats == b.stats,
        a.window == b.window,
        a.replay == b.replay,
        a.system is Some <==> b.system is Some,
        a.system matches Some(one) ==> (b.system matches Some(two) ==> {
            &&& one.timestamp_us == two.timestamp_us
            &&& one.cpu.global_usage_percent == two.cpu.global_usage_percent
            &&& one.cpu.per_core_usage_percent@ == two.cpu.per_core_usage_percent@
            &&& one.memory == two.memory
            &&& one.load == two.load
            &&& one.disks@ == two.disks@
            &&& one.temperatures@ == two.temperatures@
            &&& one.units@ == two.units@
        }),
        PROTOCOL_VERSION == 1,
        MAX_CLIENT_LINE_BYTES == 65_536,
{
}

/// A copy says what its original says.
pub proof fn copies_say_the_same(
    event: &AnomalyEvent,
    event_copy: AnomalyEvent,
    snapshot: &Snapshot,
    snapshot_copy: Snapshot,
    usual: Subscription,
)
    requires
        call_ensures(AnomalyEvent::duplicate, (event,), event_copy),
        call_ensures(Snapshot::duplicate, (snapshot,), snapshot_copy),
        call_ensures(Subscription::default, (), usual),
    ensures
        event_copy == *event,
        snapshot_copy.stats == snapshot.stats,
        snapshot_copy.window == snapshot.window,
        snapshot_copy.learning == snapshot.learning,
        snapshot_copy.timestamp_us == snapshot.timestamp_us,
        snapshot_copy.system is Some <==> snapshot.system is Some,
        usual.snapshots && usual.anomalies && usual.snapshot_interval_ms == 1_000,
{
}

} // verus!
