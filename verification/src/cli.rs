//! The command line, and what the daemon starts with.

use vstd::prelude::*;

use crate::config::Config;
use crate::ingestion::IngestionMode;
use crate::persist::PersistError;
use crate::proto::{LearningState, PipelineStats, Snapshot, WindowStats};
use crate::text;

verus! {

/// Where the settings are, if nothing else is said.
pub const DEFAULT_CONFIG_PATH: &'static str = "/etc/logsentry/logsentry.toml";

/// What the command line says.
#[derive(Debug, Clone, PartialEq)]
pub struct CliArgs {
    /// What is read.
    pub mode: IngestionMode,
    /// Where the settings are.
    pub config_path: String,
    /// Whether the baselines are to be written out.
    pub dump_baselines: bool,
    /// Whether the baselines are to be put aside.
    pub reset_baselines: bool,
}

/// Where a text first stands in a list, from a position on; the length of the list if it
/// does not.
pub open spec fn first_place(args: Seq<Seq<char>>, flag: Seq<char>, from: int) -> int
    decreases args.len() - from,
{
    if from < 0 || from >= args.len() {
        args.len() as int
    } else if args[from] == flag {
        from
    } else {
        first_place(args, flag, from + 1)
    }
}

/// What follows the first occurrence of a flag, if something does.
pub open spec fn flag_value(args: Seq<Seq<char>>, flag: Seq<char>) -> Option<Seq<char>> {
    let place = first_place(args, flag, 0);
    if place + 1 < args.len() {
        Some(args[place + 1])
    } else {
        None
    }
}

/// What follows the first occurrence of a flag, if something does.
pub fn find_flag_value(args: &Vec<String>, flag: &str) -> (value: Option<String>)
    ensures
        text::text_of(value) == flag_value(text::texts(args@), flag@),
{
    let ghost all = text::texts(args@);
    let mut i: usize = 0;
    while i < args.len()
        invariant
            i <= args@.len(),
            all == text::texts(args@),
            first_place(all, flag@, i as int) == first_place(all, flag@, 0),
        decreases args@.len() - i,
    {
        proof {
            assert(all[i as int] == args@[i as int]@);
        }
        if text::same_text(args[i].as_str(), flag) {
            if i + 1 < args.len() {
                proof {
                    assert(all[i + 1] == args@[i + 1]@);
                }
                return Some(args[i + 1].clone());
            }
            return None;
        }
        i += 1;
    }
    None
}

/// Whether `cli` is what the command line says.
pub open spec fn is_read_from(cli: CliArgs, args: Seq<Seq<char>>) -> bool {
    &&& match flag_value(args, "--since"@) {
        Some(wanted) => cli.mode matches IngestionMode::Replay { since, until } && since@ == wanted
            && text::text_of(until) == flag_value(args, "--until"@),
        None => cli.mode is Live,
    }
    &&& cli.config_path@ == (match flag_value(args, "--config"@) {
        Some(path) => path,
        None => DEFAULT_CONFIG_PATH@,
    })
    &&& cli.dump_baselines == args.contains("--dump-baselines"@)
    &&& cli.reset_baselines == args.contains("--reset-baselines"@)
}

/// Reads the command line. Without a beginning, the journal is followed live.
pub fn parse_args(args: &Vec<String>) -> (cli: CliArgs)
    ensures
        is_read_from(cli, text::texts(args@)),
{
    let since = find_flag_value(args, "--since");
    let until = find_flag_value(args, "--until");
    let mode = match since {
        Some(since) => IngestionMode::Replay { since, until },
        None => IngestionMode::Live,
    };
    let config_path = match find_flag_value(args, "--config") {
        Some(path) => path,
        None => DEFAULT_CONFIG_PATH.to_string(),
    };
    CliArgs {
        mode,
        config_path,
        dump_baselines: text::holds_text(args, "--dump-baselines"),
        reset_baselines: text::holds_text(args, "--reset-baselines"),
    }
}

/// The name of the host: what the file says, else what the environment says, else a
/// stand-in. It is never empty.
pub open spec fn hostname_text(file: Option<Seq<char>>, environment: Option<Seq<char>>) -> Seq<char> {
    if file is Some && text::trimmed(file->0).len() > 0 {
        text::trimmed(file->0)
    } else if environment is Some && (environment->0).len() > 0 {
        environment->0
    } else {
        "unknown"@
    }
}

/// The name of the host, from what the file and the environment say.
pub fn choose_hostname(file: Option<String>, environment: Option<String>) -> (name: String)
    ensures
        name@ == hostname_text(text::text_of(file), text::text_of(environment)),
        name@.len() > 0,
{
    proof {
        reveal_strlit("unknown");
    }
    match file {
        Some(content) => {
            let name = text::trim(content.as_str());
            if !text::is_empty(name.as_str()) {
                return name;
            }
        },
        None => {},
    }
    match environment {
        Some(name) => {
            if !text::is_empty(name.as_str()) {
                return name;
            }
        },
        None => {},
    }
    "unknown".to_string()
}

/// Whether an error with the baselines keeps the daemon from starting: only a file of a
/// newer program does, for the alternative would be to lose it.
pub fn prevents_start(error: &PersistError) -> (prevents: bool)
    ensures
        prevents == (*error is NewerSchema),
{
    match error {
        PersistError::NewerSchema { .. } => true,
        _ => false,
    }
}

/// Whether `snapshot` is what a client sees before the pipeline has published one.
pub open spec fn is_initial(snapshot: Snapshot, config: Config, replay: bool, now_us: u64) -> bool {
    &&& snapshot.timestamp_us == now_us
    &&& snapshot.daemon_uptime_secs == 0
    &&& snapshot.learning == (LearningState { active: true, remaining_secs: None })
    &&& snapshot.stats == (PipelineStats {
        events: 0,
        parse_errors: 0,
        dropped_overflow: 0,
        templates: 0,
        anomalies_emitted: 0,
        suppressed: 0,
        suppressed_learning: 0,
        events_per_sec: 0,
        clients: 0,
    })
    &&& snapshot.window == (WindowStats {
        window_secs: #[verifier::truncate]
        (config.analysis.window_seconds as u32),
        entropy_bits: 0,
        entropy_z: 0,
        events_in_window: 0,
        distinct_templates: 0,
    })
    &&& snapshot.system is None
    &&& snapshot.replay == replay
}

/// What a client sees before the pipeline has published a snapshot.
pub fn initial_snapshot(config: &Config, replay: bool, now_us: u64) -> (snapshot: Snapshot)
    ensures
        is_initial(snapshot, *config, replay, now_us),
{
    let window_secs: u32 = #[verifier::truncate]
    (config.analysis.window_seconds as u32);
    Snapshot {
        timestamp_us: now_us,
        daemon_uptime_secs: 0,
        learning: LearningState { active: true, remaining_secs: None },
        stats: PipelineStats {
            events: 0,
            parse_errors: 0,
            dropped_overflow: 0,
            templates: 0,
            anomalies_emitted: 0,
            suppressed: 0,
            suppressed_learning: 0,
            events_per_sec: 0,
            clients: 0,
        },
        window: WindowStats {
            window_secs,
            entropy_bits: 0,
            entropy_z: 0,
            events_in_window: 0,
            distinct_templates: 0,
        },
        system: None,
        replay,
    }
}

/// The time between two measurements of the machine, in seconds: at least one.
pub fn poll_interval_secs(config: &Config) -> (secs: u64)
    ensures
        secs == (if config.system.poll_interval_seconds >= 1 {
            config.system.poll_interval_seconds
        } else {
            1
        }),
{
    if config.system.poll_interval_seconds >= 1 {
        config.system.poll_interval_seconds
    } else {
        1
    }
}

/// A flag has the value that follows it: where a flag first stands, the argument behind it
/// counts, and a flag that is missing or stands last has none.
pub proof fn flags_have_the_value_behind_them(args: Seq<Seq<char>>, flag: Seq<char>, place: int)
    requires
        0 <= place <= args.len(),
        forall|i: int| 0 <= i < place ==> #[trigger] args[i] != flag,
        place < args.len() ==> args[place] == flag,
    ensures
        place + 1 < args.len() ==> flag_value(args, flag) == Some(args[place + 1]),
        place + 1 >= args.len() ==> flag_value(args, flag) is None,
{
    first_is_there(args, flag, 0, place);
}

proof fn first_is_there(args: Seq<Seq<char>>, flag: Seq<char>, from: int, place: int)
    requires
        0 <= from <= place <= args.len(),
        forall|i: int| from <= i < place ==> #[trigger] args[i] != flag,
        place < args.len() ==> args[place] == flag,
    ensures
        first_place(args, flag, from) == place,
    decreases place - from,
{
    if from < place {
        assert(args[from] != flag);
        first_is_there(args, flag, from + 1, place);
    }
}

/// The command line is read for what it says: a beginning makes it a replay, from there
/// and up to the end that is given; another path of the settings is taken; and the two
/// switches are on just if they are there. Without arguments the journal is followed with
/// the usual settings, and no baselines are touched.
pub proof fn the_command_line_is_followed(cli: CliArgs, args: Seq<Seq<char>>)
    requires
        is_read_from(cli, args),
    ensures
        cli.mode is Replay <==> flag_value(args, "--since"@) is Some,
        cli.mode matches IngestionMode::Replay { since, until } ==> {
            &&& flag_value(args, "--since"@) == Some(since@)
            &&& until matches Some(end) ==> flag_value(args, "--until"@) == Some(end@)
            &&& until is None ==> flag_value(args, "--until"@) is None
        },
        flag_value(args, "--config"@) matches Some(path) ==> cli.config_path@ == path,
        flag_value(args, "--config"@) is None ==> cli.config_path@
            == "/etc/logsentry/logsentry.toml"@,
        cli.dump_baselines <==> args.contains("--dump-baselines"@),
        cli.reset_baselines <==> args.contains("--reset-baselines"@),
        args.len() == 0 ==> cli.mode is Live && !cli.dump_baselines && !cli.reset_baselines,
{
}

/// The name of a host is what its file says, without the white space around it; the
/// environment has a say only where the file has nothing to say.
pub proof fn the_file_names_the_host(
    name: Seq<char>,
    before: Seq<char>,
    behind: Seq<char>,
    environment: Option<Seq<char>>,
)
    requires
        name.len() > 0,
        '!' as u32 <= name[0] as u32 <= '~' as u32,
        '!' as u32 <= name.last() as u32 <= '~' as u32,
        forall|i: int| 0 <= i < before.len() ==> #[trigger] before[i] == ' ' || before[i] == '\n',
        forall|i: int| 0 <= i < behind.len() ==> #[trigger] behind[i] == ' ' || behind[i] == '\n',
    ensures
        hostname_text(Some(before + name + behind), environment) == name,
        environment matches Some(other) ==> (other.len() > 0 ==> hostname_text(None, environment)
            == other && hostname_text(Some(before), environment) == other),
        hostname_text(None, None) == "unknown"@,
{
    text::trimming_takes_the_ends_off(before, name, behind);
}

/// Only a baseline file of a newer program keeps the daemon from starting.
pub proof fn only_newer_files_prevent_the_start(error: &PersistError, prevents: bool)
    requires
        call_ensures(prevents_start, (error,), prevents),
    ensures
        prevents <==> (*error matches PersistError::NewerSchema { .. }),
{
}

/// Before the first snapshot a client is told that the daemon is learning and has seen
/// nothing.
pub proof fn at_first_nothing_was_seen(
    snapshot: Snapshot,
    config: Config,
    replay: bool,
    now_us: u64,
)
    requires
        is_initial(snapshot, config, replay, now_us),
    ensures
        snapshot.timestamp_us == now_us,
        snapshot.learning.active,
        snapshot.stats.events == 0 && snapshot.stats.anomalies_emitted == 0,
        snapshot.stats.templates == 0 && snapshot.stats.clients == 0,
        snapshot.window.events_in_window == 0,
        config.analysis.window_seconds <= u32::MAX ==> snapshot.window.window_secs
            == config.analysis.window_seconds,
        snapshot.replay == replay,
{
}

/// The machine is measured as often as is set, and at least every second counts as one.
pub proof fn measuring_takes_at_least_a_second(config: &Config, secs: u64)
    requires
        call_ensures(poll_interval_secs, (config,), secs),
    ensures
        secs >= 1,
        config.system.poll_interval_seconds >= 1 ==> secs == config.system.poll_interval_seconds,
{
}

/// What the command line says is read from it, and the host is named after what is known of
/// it.
pub proof fn the_daemon_starts_as_asked(
    args: &Vec<String>,
    cli: CliArgs,
    file: Option<String>,
    environment: Option<String>,
    name: String,
    config: &Config,
    replay: bool,
    now_us: u64,
    snapshot: Snapshot,
    flag: &str,
    value: Option<String>,
)
    requires
        call_ensures(parse_args, (args,), cli),
        call_ensures(choose_hostname, (file, environment), name),
        call_ensures(initial_snapshot, (config, replay, now_us), snapshot),
        call_ensures(find_flag_value, (args, flag), value),
    ensures
        is_read_from(cli, text::texts(args@)),
        name@ == hostname_text(text::text_of(file), text::text_of(environment)),
        name@.len() > 0,
        is_initial(snapshot, *config, replay, now_us),
        text::text_of(value) == flag_value(text::texts(args@), flag@),
{
}

} // verus!
