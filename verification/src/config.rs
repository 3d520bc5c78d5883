//! Settings of the daemon, with their default values.

use vstd::prelude::*;

use crate::template::Share;
use crate::text;

verus! {

/// Reading the journal.
#[derive(Debug, Clone, PartialEq)]
pub struct IngestionConfig {
    /// How many events wait between ingestion and analysis at most.
    pub channel_capacity: usize,
    /// How long to wait before `journalctl` is started again, in milliseconds.
    pub restart_backoff_ms: u64,
}

impl Default for IngestionConfig {
    fn default() -> (config: IngestionConfig)
        ensures
            config.channel_capacity == 1024,
            config.restart_backoff_ms == 500,
    {
        IngestionConfig {
            channel_capacity: 1024,
            restart_backoff_ms: 500,
        }
    }
}

/// The analysis.
#[derive(Debug, Clone, Copy, PartialEq)]
pub struct AnalysisConfig {
    /// The length of the sliding window in seconds.
    pub window_seconds: u64,
    /// The length of a bucket in seconds.
    pub bucket_seconds: u64,
    /// How many ended buckets are kept of every template.
    pub rate_history_buckets: usize,
    /// How many events the sliding window holds at most.
    pub max_window_events: usize,
    /// After how many buckets without an event a template is forgotten.
    pub idle_eviction_buckets: u64,
    /// How long events are only observed, in minutes.
    pub learning_phase_minutes: u64,
    /// The smoothing of the surprisal, by the bits of a double-precision number.
    pub surprisal_smoothing_alpha: u64,
    /// The weight of the rate in the combined score, by the bits of a double-precision number.
    pub weight_rate: u64,
    /// The weight of the surprisal in the combined score, by the bits of a double-precision number.
    pub weight_surprisal: u64,
    /// The weight of the entropy in the combined score, by the bits of a double-precision number.
    pub weight_entropy: u64,
    /// The score at which the rate counts in full, by the bits of a double-precision number.
    pub rate_z_reference: u64,
    /// The surprisal, in bits, that counts in full, by the bits of a double-precision number.
    pub surprisal_reference_bits: u64,
    /// The score at which the entropy counts in full, by the bits of a double-precision number.
    pub entropy_z_reference: u64,
    /// The combined score from which on an anomaly is worth a note, by the bits of a double-precision number.
    pub score_info_threshold: u64,
    /// The combined score from which on an anomaly is worth a warning, by the bits of a double-precision number.
    pub score_warn_threshold: u64,
    /// The combined score from which on an anomaly is critical, by the bits of a double-precision number.
    pub score_critical_threshold: u64,
    /// A level is left once the score falls below its threshold times this factor, by the bits of a double-precision number.
    pub hysteresis_exit_factor: u64,
    /// How long a template is not reported again, in seconds.
    pub cooldown_seconds: u64,
    /// The share of agreeing tokens from which on a line joins a template.
    pub template_similarity_threshold: Share,
    /// How many templates there are at most.
    pub max_templates: usize,
}

impl Default for AnalysisConfig {
    fn default() -> (config: AnalysisConfig)
        ensures
            config.window_seconds == 60,
            config.bucket_seconds == 5,
            config.rate_history_buckets == 60,
            config.max_window_events == 50_000,
            config.idle_eviction_buckets == 720,
            config.learning_phase_minutes == 10,
            config.surprisal_smoothing_alpha == 0x3fe0_0000_0000_0000,
            config.weight_rate == 0x3ff0_0000_0000_0000,
            config.weight_surprisal == 0x3fe9_9999_9999_999a,
            config.weight_entropy == 0x3fd9_9999_9999_999a,
            config.rate_z_reference == 0x4020_0000_0000_0000,
            config.surprisal_reference_bits == 0x4028_0000_0000_0000,
            config.entropy_z_reference == 0x4018_0000_0000_0000,
            config.score_info_threshold == 0x3fe0_0000_0000_0000,
            config.score_warn_threshold == 0x3fe3_3333_3333_3333,
            config.score_critical_threshold == 0x3fe9_9999_9999_999a,
            config.hysteresis_exit_factor == 0x3fe9_9999_9999_999a,
            config.cooldown_seconds == 300,
            config.template_similarity_threshold == (Share { part: 7, whole: 10 }),
            config.max_templates == 5000,
    {
        AnalysisConfig {
            window_seconds: 60,
            bucket_seconds: 5,
            rate_history_buckets: 60,
            max_window_events: 50_000,
            idle_eviction_buckets: 720,
            learning_phase_minutes: 10,
            surprisal_smoothing_alpha: 0x3fe0_0000_0000_0000,
            weight_rate: 0x3ff0_0000_0000_0000,
            weight_surprisal: 0x3fe9_9999_9999_999a,
            weight_entropy: 0x3fd9_9999_9999_999a,
            rate_z_reference: 0x4020_0000_0000_0000,
            surprisal_reference_bits: 0x4028_0000_0000_0000,
            entropy_z_reference: 0x4018_0000_0000_0000,
            score_info_threshold: 0x3fe0_0000_0000_0000,
            score_warn_threshold: 0x3fe3_3333_3333_3333,
            score_critical_threshold: 0x3fe9_9999_9999_999a,
            hysteresis_exit_factor: 0x3fe9_9999_9999_999a,
            cooldown_seconds: 300,
            template_similarity_threshold: Share { part: 7, whole: 10 },
            max_templates: 5000,
        }
    }
}

/// Measuring the system.
#[derive(Debug, Clone, PartialEq)]
pub struct SystemConfig {
    /// The time between two measurements in seconds.
    pub poll_interval_seconds: u64,
    /// The units whose state is followed.
    pub watched_units: Vec<String>,
    /// The mount points that are measured; all of them if there is none.
    pub watched_mount_points: Vec<String>,
}

impl Default for SystemConfig {
    fn default() -> (config: SystemConfig)
        ensures
            config.poll_interval_seconds == 5,
            text::texts(config.watched_units@) == seq!["sshd.service"@, "cron.service"@, "docker.service"@, "systemd-journald.service"@, "logsentry-daemon.service"@],
            text::texts(config.watched_mount_points@) == Seq::<Seq<char>>::empty(),
    {
        let mut watched_units: Vec<String> = Vec::new();
        watched_units.push("sshd.service".to_string());
        watched_units.push("cron.service".to_string());
        watched_units.push("docker.service".to_string());
        watched_units.push("systemd-journald.service".to_string());
        watched_units.push("logsentry-daemon.service".to_string());
        proof {
            assert(text::texts(watched_units@) =~= seq!["sshd.service"@, "cron.service"@, "docker.service"@, "systemd-journald.service"@, "logsentry-daemon.service"@]);
        }
        let watched_mount_points: Vec<String> = Vec::new();
        proof {
            assert(text::texts(watched_mount_points@) =~= Seq::<Seq<char>>::empty());
        }
        SystemConfig {
            poll_interval_seconds: 5,
            watched_units,
            watched_mount_points,
        }
    }
}

/// The baselines.
#[derive(Debug, Clone, Copy, PartialEq)]
pub struct BaselineConfig {
    /// The half-life of the weights in hours, by the bits of a double-precision number.
    pub half_life_hours: u64,
    /// The weight from which on the baseline of a slot is trusted, by the bits of a double-precision number.
    pub min_weight: u64,
    /// The weight from which on the profile of a unit is trusted, by the bits of a double-precision number.
    pub profile_min_weight: u64,
    /// How many templates the profile of a unit holds at most.
    pub profile_max_templates: usize,
    /// How many bins a histogram has at most.
    pub max_bins: usize,
    /// How many baselines there are at most.
    pub max_baselines: usize,
}

impl Default for BaselineConfig {
    fn default() -> (config: BaselineConfig)
        ensures
            config.half_life_hours == 0x4065_0000_0000_0000,
            config.min_weight == 0x4086_8000_0000_0000,
            config.profile_min_weight == 0x4069_0000_0000_0000,
            config.profile_max_templates == 512,
            config.max_bins == 32,
            config.max_baselines == 20_000,
    {
        BaselineConfig {
            half_life_hours: 0x4065_0000_0000_0000,
            min_weight: 0x4086_8000_0000_0000,
            profile_min_weight: 0x4069_0000_0000_0000,
            profile_max_templates: 512,
            max_bins: 32,
            max_baselines: 20_000,
        }
    }
}

/// Keeping the baselines across restarts.
#[derive(Debug, Clone, PartialEq)]
pub struct PersistenceConfig {
    /// The path of the database.
    pub path: String,
    /// The time between two snapshots in minutes.
    pub snapshot_interval_minutes: u64,
}

impl Default for PersistenceConfig {
    fn default() -> (config: PersistenceConfig)
        ensures
            config.path@ == "/var/lib/logsentry/baselines.redb"@,
            config.snapshot_interval_minutes == 5,
    {
        PersistenceConfig {
            path: "/var/lib/logsentry/baselines.redb".to_string(),
            snapshot_interval_minutes: 5,
        }
    }
}

/// The socket over which clients connect.
#[derive(Debug, Clone, PartialEq)]
pub struct SocketConfig {
    /// The path of the socket.
    pub path: String,
    /// The group that owns the socket; if empty, the owner is left as it is.
    pub group: String,
    /// The mode of the socket.
    pub mode: u32,
    /// How many clients can be connected at the same time.
    pub max_clients: u32,
    /// The usual time between two snapshots, in milliseconds.
    pub snapshot_interval_ms: u32,
    /// The shortest time between two snapshots that a client can ask for, in milliseconds.
    pub min_snapshot_interval_ms: u32,
    /// How long a client has to say hello, in milliseconds.
    pub hello_timeout_ms: u32,
    /// How many anomalies are kept for clients that connect.
    pub recent_anomalies: usize,
    /// How many lines are kept for context.
    pub context_lines: usize,
    /// How many lines before and after an event a client can ask for.
    pub context_max_lines: u16,
}

impl Default for SocketConfig {
    fn default() -> (config: SocketConfig)
        ensures
            config.path@ == "/run/logsentry/collector.sock"@,
            config.group@ == "logsentry"@,
            config.mode == 0o660,
            config.max_clients == 8,
            config.snapshot_interval_ms == 1000,
            config.min_snapshot_interval_ms == 250,
            config.hello_timeout_ms == 5000,
            config.recent_anomalies == 200,
            config.context_lines == 2000,
            config.context_max_lines == 200,
    {
        SocketConfig {
            path: "/run/logsentry/collector.sock".to_string(),
            group: "logsentry".to_string(),
            mode: 0o660,
            max_clients: 8,
            snapshot_interval_ms: 1000,
            min_snapshot_interval_ms: 250,
            hello_timeout_ms: 5000,
            recent_anomalies: 200,
            context_lines: 2000,
            context_max_lines: 200,
        }
    }
}

/// The actions that clients can ask for.
#[derive(Debug, Clone, PartialEq)]
pub struct ActionsConfig {
    /// Whether actions are only logged.
    pub dry_run: bool,
    /// The kinds of action that are allowed.
    pub allowed_kinds: Vec<String>,
    /// The units that can be restarted and stopped.
    pub allowed_units: Vec<String>,
    /// How many actions of one kind on one target are allowed within the window.
    pub rate_limit_max_actions: u32,
    /// The length of that window in minutes.
    pub rate_limit_window_minutes: u64,
    /// How long the journal lines that an action causes are left out, in seconds.
    pub self_filter_window_secs: u64,
    /// How long a process has to end by itself if nothing else is asked, in seconds.
    pub terminate_default_grace_secs: u16,
    /// How long a process can have to end by itself, in seconds.
    pub terminate_max_grace_secs: u16,
    /// The shortest time for which an address can be blocked, in seconds.
    pub block_ip_min_duration_secs: u32,
    /// The longest time for which an address can be blocked, in seconds.
    pub block_ip_max_duration_secs: u32,
    /// The nftables family.
    pub nftables_family: String,
    /// The nftables table.
    pub nftables_table: String,
    /// The nftables set for IPv4 addresses.
    pub nftables_set_v4: String,
    /// The nftables set for IPv6 addresses.
    pub nftables_set_v6: String,
    /// The path of the audit log.
    pub audit_log_path: String,
}

impl Default for ActionsConfig {
    fn default() -> (config: ActionsConfig)
        ensures
            config.dry_run == true,
            text::texts(config.allowed_kinds@) == Seq::<Seq<char>>::empty(),
            text::texts(config.allowed_units@) == Seq::<Seq<char>>::empty(),
            config.rate_limit_max_actions == 3,
            config.rate_limit_window_minutes == 10,
            config.self_filter_window_secs == 30,
            config.terminate_default_grace_secs == 5,
            config.terminate_max_grace_secs == 60,
            config.block_ip_min_duration_secs == 60,
            config.block_ip_max_duration_secs == 604_800,
            config.nftables_family@ == "inet"@,
            config.nftables_table@ == "filter"@,
            config.nftables_set_v4@ == "logsentry_blocked_v4"@,
            config.nftables_set_v6@ == "logsentry_blocked_v6"@,
            config.audit_log_path@ == "/var/lib/logsentry/audit.jsonl"@,
    {
        let allowed_kinds: Vec<String> = Vec::new();
        proof {
            assert(text::texts(allowed_kinds@) =~= Seq::<Seq<char>>::empty());
        }
        let allowed_units: Vec<String> = Vec::new();
        proof {
            assert(text::texts(allowed_units@) =~= Seq::<Seq<char>>::empty());
        }
        ActionsConfig {
            dry_run: true,
            allowed_kinds,
            allowed_units,
            rate_limit_max_actions: 3,
            rate_limit_window_minutes: 10,
            self_filter_window_secs: 30,
            terminate_default_grace_secs: 5,
            terminate_max_grace_secs: 60,
            block_ip_min_duration_secs: 60,
            block_ip_max_duration_secs: 604_800,
            nftables_family: "inet".to_string(),
            nftables_table: "filter".to_string(),
            nftables_set_v4: "logsentry_blocked_v4".to_string(),
            nftables_set_v6: "logsentry_blocked_v6".to_string(),
            audit_log_path: "/var/lib/logsentry/audit.jsonl".to_string(),
        }
    }
}

/// Writing metrics to a file.
#[derive(Debug, Clone, PartialEq)]
pub struct PrometheusConfig {
    /// Whether the metrics are written.
    pub enabled: bool,
    /// The path of the file.
    pub textfile_path: String,
}

impl Default for PrometheusConfig {
    fn default() -> (config: PrometheusConfig)
        ensures
            config.enabled == false,
            config.textfile_path@ == "/var/lib/logsentry/logsentry.prom"@,
    {
        PrometheusConfig {
            enabled: false,
            textfile_path: "/var/lib/logsentry/logsentry.prom".to_string(),
        }
    }
}

/// A rule for messages that are not analysed.
#[derive(Debug, Clone, PartialEq)]
pub struct QuietTemplateRule {
    /// The unit that the rule is about; all of them if there is none.
    pub unit: Option<String>,
    /// The pattern that the message has to match.
    pub pattern: String,
}

impl Default for QuietTemplateRule {
    fn default() -> (rule: QuietTemplateRule)
        ensures
            rule.unit is None,
            rule.pattern@ == Seq::<char>::empty(),
    {
        QuietTemplateRule { unit: None, pattern: String::new() }
    }
}

/// Messages that are not analysed.
#[derive(Debug, Clone, PartialEq)]
pub struct QuietConfig {
    /// The rules; a message to which one of them applies is left out.
    pub templates: Vec<QuietTemplateRule>,
}

/// The patterns of the rules that hold if nothing else is set.
pub open spec fn maintenance_patterns() -> Seq<Seq<char>> {
    seq![
        r"^run-timeshift-\d+-backup\.mount: Deactivated successfully\.$"@,
        r"\bdpkg-db-backup\.service\b"@,
        r"\blogrotate\.service\b"@,
        r"\bman-db\.service\b"@,
        r"^flatpak-system-helper\.service: (Deactivated successfully\.|Consumed [0-9.]+s CPU time\.)$"@,
        r"^\(root\) CMD \(cd / && run-parts --report /etc/cron\.(hourly|daily|weekly|monthly)\)$"@,
        r"^\(root\) LIST \(root\)$"@,
    ]
}

/// The patterns of rules.
pub open spec fn patterns_of(rules: Seq<QuietTemplateRule>) -> Seq<Seq<char>> {
    Seq::new(rules.len(), |i: int| rules[i].pattern@)
}

impl QuietConfig {
    /// A rule that holds for every unit.
    fn rule(pattern: &str) -> (rule: QuietTemplateRule)
        ensures
            rule.unit is None,
            rule.pattern@ == pattern@,
    {
        QuietTemplateRule { unit: None, pattern: pattern.to_string() }
    }

    /// Rules for the messages of regular maintenance: backups, log rotation and the
    /// jobs of cron. They come too rarely to be learned.
    fn default_maintenance_rules() -> (rules: Vec<QuietTemplateRule>)
        ensures
            patterns_of(rules@) == maintenance_patterns(),
            forall|i: int| 0 <= i < rules@.len() ==> (#[trigger] rules@[i]).unit is None,
    {
        let mut rules: Vec<QuietTemplateRule> = Vec::new();
        rules.push(QuietConfig::rule(r"^run-timeshift-\d+-backup\.mount: Deactivated successfully\.$"));
        rules.push(QuietConfig::rule(r"\bdpkg-db-backup\.service\b"));
        rules.push(QuietConfig::rule(r"\blogrotate\.service\b"));
        rules.push(QuietConfig::rule(r"\bman-db\.service\b"));
        rules.push(QuietConfig::rule(r"^flatpak-system-helper\.service: (Deactivated successfully\.|Consumed [0-9.]+s CPU time\.)$"));
        rules.push(QuietConfig::rule(r"^\(root\) CMD \(cd / && run-parts --report /etc/cron\.(hourly|daily|weekly|monthly)\)$"));
        rules.push(QuietConfig::rule(r"^\(root\) LIST \(root\)$"));
        proof {
            assert(patterns_of(rules@) =~= maintenance_patterns());
        }
        rules
    }
}

impl Default for QuietConfig {
    fn default() -> (config: QuietConfig)
        ensures
            patterns_of(config.templates@) == maintenance_patterns(),
            forall|i: int|
                0 <= i < config.templates@.len() ==> (#[trigger] config.templates@[i]).unit is None,
    {
        QuietConfig { templates: QuietConfig::default_maintenance_rules() }
    }
}

/// All settings.
#[derive(Debug, Clone, PartialEq)]
pub struct Config {
    /// Reading the journal.
    pub ingestion: IngestionConfig,
    /// The analysis.
    pub analysis: AnalysisConfig,
    /// The baselines.
    pub baseline: BaselineConfig,
    /// Keeping the baselines across restarts.
    pub persistence: PersistenceConfig,
    /// Measuring the system.
    pub system: SystemConfig,
    /// The socket over which clients connect.
    pub socket: SocketConfig,
    /// The actions that clients can ask for.
    pub actions: ActionsConfig,
    /// Writing metrics to a file.
    pub prometheus: PrometheusConfig,
    /// Messages that are not analysed.
    pub quiet: QuietConfig,
}

impl Default for Config {
    fn default() -> (config: Config)
        ensures
            call_ensures(IngestionConfig::default, (), config.ingestion),
            call_ensures(AnalysisConfig::default, (), config.analysis),
            call_ensures(BaselineConfig::default, (), config.baseline),
            call_ensures(PersistenceConfig::default, (), config.persistence),
            call_ensures(SystemConfig::default, (), config.system),
            call_ensures(SocketConfig::default, (), config.socket),
            call_ensures(ActionsConfig::default, (), config.actions),
            call_ensures(PrometheusConfig::default, (), config.prometheus),
            call_ensures(QuietConfig::default, (), config.quiet),
    {
        Config {
            ingestion: IngestionConfig::default(),
            analysis: AnalysisConfig::default(),
            baseline: BaselineConfig::default(),
            persistence: PersistenceConfig::default(),
            system: SystemConfig::default(),
            socket: SocketConfig::default(),
            actions: ActionsConfig::default(),
            prometheus: PrometheusConfig::default(),
            quiet: QuietConfig::default(),
        }
    }
}

/// The usual settings of the analysis fit each other: a window of a minute holds twelve
/// buckets of five seconds, five minutes of history are kept, templates that are silent
/// for an hour are forgotten, ten minutes are for learning, and a template is not
/// reported again for five minutes. The thresholds rise from one half over three fifths
/// to four fifths, and a level is left at four fifths of its threshold.
pub proof fn the_usual_analysis(config: AnalysisConfig)
    requires
        call_ensures(AnalysisConfig::default, (), config),
    ensures
        config.window_seconds == 60,
        config.window_seconds == 12 * config.bucket_seconds,
        config.rate_history_buckets * config.bucket_seconds == 5 * 60,
        config.idle_eviction_buckets * config.bucket_seconds == 60 * 60,
        config.learning_phase_minutes == 10,
        config.cooldown_seconds == 5 * 60,
        config.max_window_events == 50_000,
        config.max_templates == 5_000,
        config.template_similarity_threshold.part * 10 == 7
            * config.template_similarity_threshold.whole,
        config.score_info_threshold == 0x3fe0_0000_0000_0000,
        config.score_info_threshold < config.score_warn_threshold,
        config.score_warn_threshold < config.score_critical_threshold,
        config.score_warn_threshold == 0x3fe3_3333_3333_3333,
        config.score_critical_threshold == 0x3fe9_9999_9999_999a,
        config.hysteresis_exit_factor == config.score_critical_threshold,
        config.weight_rate == 0x3ff0_0000_0000_0000,
        config.weight_entropy < config.weight_surprisal < config.weight_rate,
        config.surprisal_smoothing_alpha == config.score_info_threshold,
{
}

/// The usual settings of the baselines: weights halve in a week, a baseline is trusted
/// from 720 observations on, which is an hour of buckets of five seconds, and a profile
/// from 200 events on.
pub proof fn the_usual_baselines(config: BaselineConfig)
    requires
        call_ensures(BaselineConfig::default, (), config),
    ensures
        config.half_life_hours == 0x4065_0000_0000_0000,
        config.min_weight == 0x4086_8000_0000_0000,
        config.profile_min_weight == 0x4069_0000_0000_0000,
        config.profile_max_templates == 512,
        config.max_bins == 32,
        config.max_baselines == 20_000,
{
}

/// Out of the box nothing can be done: no kind of action and no unit is allowed, and what
/// were done would be done for show only.
pub proof fn actions_are_off_at_first(config: ActionsConfig)
    requires
        call_ensures(ActionsConfig::default, (), config),
    ensures
        config.dry_run,
        config.allowed_kinds@.len() == 0,
        config.allowed_units@.len() == 0,
        config.rate_limit_max_actions == 3,
        config.rate_limit_window_minutes == 10,
        config.self_filter_window_secs == 30,
        config.terminate_default_grace_secs <= config.terminate_max_grace_secs,
        1 <= config.terminate_max_grace_secs <= 60,
        config.block_ip_min_duration_secs == 60,
        config.block_ip_max_duration_secs == 7 * 24 * 60 * 60,
{
    assert(text::texts(config.allowed_kinds@).len() == 0);
    assert(text::texts(config.allowed_units@).len() == 0);
}

/// The usual socket is open to its user and its group alone, and lets clients ask for
/// snapshots as often as four times a second.
pub proof fn the_usual_socket(config: SocketConfig)
    requires
        call_ensures(SocketConfig::default, (), config),
    ensures
        config.mode == 6 * 64 + 6 * 8,
        config.max_clients == 8,
        config.snapshot_interval_ms == 1_000,
        4 * config.min_snapshot_interval_ms == 1_000,
        config.min_snapshot_interval_ms <= config.snapshot_interval_ms,
        config.hello_timeout_ms == 5_000,
        config.recent_anomalies == 200,
        config.context_max_lines <= config.context_lines,
        config.context_lines == 2_000,
        config.context_max_lines == 200,
{
}

/// All parts of the usual settings are the usual ones.
pub proof fn the_usual_settings_are_made_of_the_usual_parts(config: Config)
    requires
        call_ensures(Config::default, (), config),
    ensures
        config.ingestion.channel_capacity == 1_024,
        config.ingestion.restart_backoff_ms == 500,
        config.analysis.window_seconds == 60,
        config.analysis.cooldown_seconds == 300,
        config.baseline.max_bins == 32,
        config.persistence.snapshot_interval_minutes == 5,
        config.system.poll_interval_seconds == 5,
        config.socket.max_clients == 8,
        config.actions.dry_run,
        !config.prometheus.enabled,
        config.quiet.templates@.len() > 0,
        forall|i: int|
            0 <= i < config.quiet.templates@.len() ==> (#[trigger] config.quiet.templates@[i]).unit
                is None,
{
    assert(patterns_of(config.quiet.templates@).len() == config.quiet.templates@.len());
}

} // verus!
