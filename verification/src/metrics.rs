//! The metrics file: a snapshot in the text format of Prometheus.

use vstd::prelude::*;

use crate::proto::Snapshot;
use crate::text;

verus! {

/// What a metric shows. Floating-point numbers are held by their bits.
#[derive(Debug, Clone, Copy, PartialEq, Eq, Structural)]
pub enum MetricValue {
    /// A count.
    Count(u64),
    /// A number of double precision.
    Double(u64),
    /// A number of single precision.
    Single(u32),
}

/// The first count that need not have a double of its own.
pub const FIRST_ROUNDED_COUNT: u64 = 0x20_0000_0000_0000;

/// Shows values as texts. A count is shown as the double that is closest to it.
pub struct Renderer<R: Fn(MetricValue) -> String> {
    /// Shows a value.
    pub show: R,
}

impl<R: Fn(MetricValue) -> String> Renderer<R> {
    /// Whether every value can be shown.
    pub open spec fn is_total(&self) -> bool {
        forall|value: MetricValue| #[trigger] call_requires(self.show, (value,))
    }

    /// Whether values are shown as the model says.
    pub open spec fn shows(&self, model: spec_fn(MetricValue) -> Seq<char>) -> bool {
        forall|value: MetricValue, shown: String| #[trigger]
            call_ensures(self.show, (value,), shown) ==> shown@ == model(value)
    }
}

/// How a value is shown: a count as it is, while every count has a double of its own.
pub open spec fn shown_as(value: MetricValue, model: spec_fn(MetricValue) -> Seq<char>) -> Seq<char> {
    match value {
        MetricValue::Count(n) => if n < FIRST_ROUNDED_COUNT {
            text::decimal(n as nat)
        } else {
            model(value)
        },
        _ => model(value),
    }
}

/// A metric: its name, its kind, what it is, and its value.
pub ghost struct Metric {
    pub name: Seq<char>,
    pub kind: Seq<char>,
    pub help: Seq<char>,
    pub value: MetricValue,
}

/// The three lines of a metric whose value is shown as the given text.
pub open spec fn metric_lines(metric: Metric, shown: Seq<char>) -> Seq<char> {
    "# HELP "@ + metric.name + " "@ + metric.help + "\n"@ + "# TYPE "@ + metric.name + " "@ + metric.kind
        + "\n"@ + metric.name + " "@ + shown + "\n"@
}

/// The lines of metrics, one after the other, whose values are shown as the given
/// texts.
pub open spec fn file_text(metrics: Seq<Metric>, shown: Seq<Seq<char>>) -> Seq<char>
    decreases metrics.len(),
{
    if metrics.len() == 0 {
        Seq::empty()
    } else {
        file_text(metrics.drop_last(), shown.drop_last()) + metric_lines(
            metrics.last(),
            shown.last(),
        )
    }
}

/// How the values of metrics are shown.
pub open spec fn shown_all(
    metrics: Seq<Metric>,
    model: spec_fn(MetricValue) -> Seq<char>,
) -> Seq<Seq<char>> {
    Seq::new(metrics.len(), |i: int| shown_as(metrics[i].value, model))
}

/// Whether a text can show a value: a count as it is, while every count has a double
/// of its own, and anything else as the renderer does.
pub open spec fn can_show<R: Fn(MetricValue) -> String>(
    renderer: Renderer<R>,
    value: MetricValue,
    shown: Seq<char>,
) -> bool {
    match value {
        MetricValue::Count(n) => if n < FIRST_ROUNDED_COUNT {
            shown == text::decimal(n as nat)
        } else {
            renders(renderer, value, shown)
        },
        _ => renders(renderer, value, shown),
    }
}

/// Whether a text is one that the renderer gives for a value.
pub open spec fn renders<R: Fn(MetricValue) -> String>(
    renderer: Renderer<R>,
    value: MetricValue,
    shown: Seq<char>,
) -> bool {
    exists|out: String| #[trigger] call_ensures(renderer.show, (value,), out) && out@ == shown
}

/// A counter.
pub open spec fn counter(name: Seq<char>, help: Seq<char>, value: MetricValue) -> Metric {
    Metric { name, kind: "counter"@, help, value }
}

/// A gauge.
pub open spec fn gauge(name: Seq<char>, help: Seq<char>, value: MetricValue) -> Metric {
    Metric { name, kind: "gauge"@, help, value }
}

/// The metrics of the daemon.
pub open spec fn daemon_metrics(snapshot: Snapshot) -> Seq<Metric> {
    seq![
        counter(
            "logsentry_events_total"@,
            "Verarbeitete Journal-Ereignisse seit Start."@,
            MetricValue::Count(snapshot.stats.events),
        ),
        counter(
            "logsentry_anomalies_total"@,
            "Gemeldete Anomalien seit Start."@,
            MetricValue::Count(snapshot.stats.anomalies_emitted),
        ),
        counter(
            "logsentry_dropped_overflow_total"@,
            "Wegen Kanal-Überlauf verworfene Ereignisse seit Start."@,
            MetricValue::Count(snapshot.stats.dropped_overflow),
        ),
        counter(
            "logsentry_parse_errors_total"@,
            "Nicht parsbare Journal-Zeilen seit Start."@,
            MetricValue::Count(snapshot.stats.parse_errors),
        ),
        gauge(
            "logsentry_events_per_second"@,
            "Aktuelle Ereignisrate."@,
            MetricValue::Double(snapshot.stats.events_per_sec),
        ),
        gauge(
            "logsentry_clients"@,
            "Aktuell verbundene Clients."@,
            MetricValue::Count(snapshot.stats.clients as u64),
        ),
        gauge(
            "logsentry_entropy_bits"@,
            "Aktuelle Fenster-Entropie in Bit."@,
            MetricValue::Double(snapshot.window.entropy_bits),
        ),
        gauge(
            "logsentry_entropy_z"@,
            "Robuster Z-Score der Fenster-Entropie."@,
            MetricValue::Double(snapshot.window.entropy_z),
        ),
        gauge(
            "logsentry_distinct_templates"@,
            "Unterschiedliche Templates im aktuellen Zeitfenster."@,
            MetricValue::Count(snapshot.window.distinct_templates),
        ),
        gauge(
            "logsentry_learning_active"@,
            "Ob die globale Lernphase noch läuft (1) oder nicht (0)."@,
            MetricValue::Count(
                if snapshot.learning.active {
                    1
                } else {
                    0
                },
            ),
        ),
        gauge(
            "logsentry_daemon_uptime_seconds"@,
            "Laufzeit des Daemons seit dem letzten Start."@,
            MetricValue::Count(snapshot.daemon_uptime_secs),
        ),
    ]
}

/// The metrics of the machine; none before it has been measured.
pub open spec fn machine_metrics(snapshot: Snapshot) -> Seq<Metric> {
    match snapshot.system {
        Some(system) => seq![
            gauge(
                "logsentry_cpu_usage_percent"@,
                "Gesamte CPU-Auslastung des Systems."@,
                MetricValue::Single(system.cpu.global_usage_percent),
            ),
            gauge(
                "logsentry_memory_used_percent"@,
                "Belegter Anteil des Arbeitsspeichers."@,
                MetricValue::Single(system.memory.used_percent),
            ),
            gauge(
                "logsentry_load1"@,
                "Systemlast, Mittel der letzten Minute."@,
                MetricValue::Double(system.load.one),
            ),
        ],
        None => Seq::empty(),
    }
}

/// All metrics of a snapshot.
pub open spec fn metrics_of(snapshot: Snapshot) -> Seq<Metric> {
    daemon_metrics(snapshot) + machine_metrics(snapshot)
}

/// Whether a text holds the lines of metrics: their names, kinds and counts, and
/// what the renderer gives for the other values.
pub open spec fn is_file<R: Fn(MetricValue) -> String>(
    out: Seq<char>,
    metrics: Seq<Metric>,
    renderer: Renderer<R>,
) -> bool {
    exists|shown: Seq<Seq<char>>|
        {
            &&& out == #[trigger] file_text(metrics, shown)
            &&& shown.len() == metrics.len()
            &&& forall|i: int|
                0 <= i < metrics.len() ==> can_show(
                    renderer,
                    #[trigger] metrics[i].value,
                    shown[i],
                )
            &&& forall|model: spec_fn(MetricValue) -> Seq<char>| #[trigger]
                renderer.shows(model) ==> shown == shown_all(metrics, model)
        }
}

/// Appends the lines of a metric to those of others.
fn write_metric<R: Fn(MetricValue) -> String>(
    out: &mut String,
    name: &str,
    kind: &str,
    help: &str,
    value: MetricValue,
    renderer: &Renderer<R>,
    Ghost(written): Ghost<Seq<Metric>>,
)
    requires
        renderer.is_total(),
        is_file(old(out)@, written, *renderer),
    ensures
        is_file(
            final(out)@,
            written.push(Metric { name: name@, kind: kind@, help: help@, value }),
            *renderer,
        ),
{
    let ghost metric = Metric { name: name@, kind: kind@, help: help@, value };
    let ghost before = out@;
    let shown = match value {
        MetricValue::Count(n) => if n < FIRST_ROUNDED_COUNT {
            text::decimal_text(n)
        } else {
            (renderer.show)(value)
        },
        _ => (renderer.show)(value),
    };
    let mut lines = "# HELP ".to_string();
    lines.append(name);
    lines.append(" ");
    lines.append(help);
    lines.append("\n");
    lines.append("# TYPE ");
    lines.append(name);
    lines.append(" ");
    lines.append(kind);
    lines.append("\n");
    lines.append(name);
    lines.append(" ");
    lines.append(shown.as_str());
    lines.append("\n");
    out.append(lines.as_str());
    proof {
        let earlier = choose|earlier: Seq<Seq<char>>|
            {
                &&& before == #[trigger] file_text(written, earlier)
                &&& earlier.len() == written.len()
                &&& forall|i: int|
                    0 <= i < written.len() ==> can_show(
                        *renderer,
                        #[trigger] written[i].value,
                        earlier[i],
                    )
                &&& forall|model: spec_fn(MetricValue) -> Seq<char>| #[trigger]
                    renderer.shows(model) ==> earlier == shown_all(written, model)
            };
        let all = written.push(metric);
        let texts = earlier.push(shown@);
        assert(all.drop_last() =~= written);
        assert(texts.drop_last() =~= earlier);
        assert(lines@ == metric_lines(metric, shown@));
        assert(out@ == file_text(all, texts));
        assert(can_show(*renderer, value, shown@));
        assert forall|i: int| 0 <= i < all.len() implies can_show(
            *renderer,
            #[trigger] all[i].value,
            texts[i],
        ) by {
            if i < written.len() {
                assert(all[i] == written[i]);
                assert(can_show(*renderer, written[i].value, earlier[i]));
            }
        }
        assert forall|model: spec_fn(MetricValue) -> Seq<char>| #[trigger]
            renderer.shows(model) implies texts == shown_all(all, model) by {
            assert(earlier == shown_all(written, model));
            assert(shown@ == shown_as(value, model));
            assert(texts =~= shown_all(all, model));
        }
    }
}

/// The metrics file of a snapshot. What has not been measured is left out rather than
/// shown as nothing.
pub fn format_prometheus_textfile<R: Fn(MetricValue) -> String>(
    snapshot: &Snapshot,
    renderer: &Renderer<R>,
) -> (out: String)
    requires
        renderer.is_total(),
    ensures
        is_file(out@, metrics_of(*snapshot), *renderer),
{
    let mut out = String::new();
    let ghost all = daemon_metrics(*snapshot);
    let ghost none: Seq<Metric> = Seq::empty();
    proof {
        let shown: Seq<Seq<char>> = Seq::empty();
        assert(out@ =~= file_text(none, shown));
        assert forall|model: spec_fn(MetricValue) -> Seq<char>| #[trigger]
            renderer.shows(model) implies shown == shown_all(none, model) by {
            assert(shown =~= shown_all(none, model));
        }
    }
    write_metric(
        &mut out,
        "logsentry_events_total",
        "counter",
        "Verarbeitete Journal-Ereignisse seit Start.",
        MetricValue::Count(snapshot.stats.events),
        renderer,
        Ghost(none),
    );
    let ghost written = none.push(all[0]);
    write_metric(
        &mut out,
        "logsentry_anomalies_total",
        "counter",
        "Gemeldete Anomalien seit Start.",
        MetricValue::Count(snapshot.stats.anomalies_emitted),
        renderer,
        Ghost(written),
    );
    let ghost written = written.push(all[1]);
    write_metric(
        &mut out,
        "logsentry_dropped_overflow_total",
        "counter",
        "Wegen Kanal-Überlauf verworfene Ereignisse seit Start.",
        MetricValue::Count(snapshot.stats.dropped_overflow),
        renderer,
        Ghost(written),
    );
    let ghost written = written.push(all[2]);
    write_metric(
        &mut out,
        "logsentry_parse_errors_total",
        "counter",
        "Nicht parsbare Journal-Zeilen seit Start.",
        MetricValue::Count(snapshot.stats.parse_errors),
        renderer,
        Ghost(written),
    );
    let ghost written = written.push(all[3]);
    write_metric(
        &mut out,
        "logsentry_events_per_second",
        "gauge",
        "Aktuelle Ereignisrate.",
        MetricValue::Double(snapshot.stats.events_per_sec),
        renderer,
        Ghost(written),
    );
    let ghost written = written.push(all[4]);
    write_metric(
        &mut out,
        "logsentry_clients",
        "gauge",
        "Aktuell verbundene Clients.",
        MetricValue::Count(snapshot.stats.clients as u64),
        renderer,
        Ghost(written),
    );
    let ghost written = written.push(all[5]);
    write_metric(
        &mut out,
        "logsentry_entropy_bits",
        "gauge",
        "Aktuelle Fenster-Entropie in Bit.",
        MetricValue::Double(snapshot.window.entropy_bits),
        renderer,
        Ghost(written),
    );
    let ghost written = written.push(all[6]);
    write_metric(
        &mut out,
        "logsentry_entropy_z",
        "gauge",
        "Robuster Z-Score der Fenster-Entropie.",
        MetricValue::Double(snapshot.window.entropy_z),
        renderer,
        Ghost(written),
    );
    let ghost written = written.push(all[7]);
    write_metric(
        &mut out,
        "logsentry_distinct_templates",
        "gauge",
        "Unterschiedliche Templates im aktuellen Zeitfenster.",
        MetricValue::Count(snapshot.window.distinct_templates),
        renderer,
        Ghost(written),
    );
    let ghost written = written.push(all[8]);
    let active: u64 = if snapshot.learning.active {
        1
    } else {
        0
    };
    write_metric(
        &mut out,
        "logsentry_learning_active",
        "gauge",
        "Ob die globale Lernphase noch läuft (1) oder nicht (0).",
        MetricValue::Count(active),
        renderer,
        Ghost(written),
    );
    let ghost written = written.push(all[9]);
    write_metric(
        &mut out,
        "logsentry_daemon_uptime_seconds",
        "gauge",
        "Laufzeit des Daemons seit dem letzten Start.",
        MetricValue::Count(snapshot.daemon_uptime_secs),
        renderer,
        Ghost(written),
    );
    let ghost written = written.push(all[10]);
    proof {
        assert(written =~= all);
    }
    match &snapshot.system {
        Some(system) => {
            let ghost more = machine_metrics(*snapshot);
            write_metric(
                &mut out,
                "logsentry_cpu_usage_percent",
                "gauge",
                "Gesamte CPU-Auslastung des Systems.",
                MetricValue::Single(system.cpu.global_usage_percent),
                renderer,
                Ghost(written),
            );
            let ghost written = written.push(more[0]);
            write_metric(
                &mut out,
                "logsentry_memory_used_percent",
                "gauge",
                "Belegter Anteil des Arbeitsspeichers.",
                MetricValue::Single(system.memory.used_percent),
                renderer,
                Ghost(written),
            );
            let ghost written = written.push(more[1]);
            write_metric(
                &mut out,
                "logsentry_load1",
                "gauge",
                "Systemlast, Mittel der letzten Minute.",
                MetricValue::Double(system.load.one),
                renderer,
                Ghost(written),
            );
            proof {
                assert(written.push(more[2]) =~= metrics_of(*snapshot));
            }
        },
        None => {
            proof {
                assert(written =~= metrics_of(*snapshot));
            }
        },
    }
    out
}

/// The name of the file that the metrics are first written to, beside the one that
/// they are for.
pub open spec fn temporary_text(file_name: Option<Seq<char>>, process: u32) -> Seq<char> {
    let name = match file_name {
        Some(name) => name,
        None => "logsentry.prom"@,
    };
    "."@ + name + ".tmp-"@ + text::decimal(process as nat)
}

/// The name of the file that the metrics are first written to.
pub fn temporary_name(file_name: Option<&str>, process: u32) -> (name: String)
    ensures
        name@ == temporary_text(text::str_of(file_name), process),
{
    let mut name = ".".to_string();
    match file_name {
        Some(file) => name.append(file),
        None => name.append("logsentry.prom"),
    }
    name.append(".tmp-");
    text::push_decimal(&mut name, process as u64);
    name
}

/// Every metric stands in the file: a line that says what it is, a line with its kind, and
/// a line with its name and its value. A count is written as it is, as long as a double
/// can hold it exactly.
pub proof fn every_metric_stands_in_the_file<R: Fn(MetricValue) -> String>(
    out: Seq<char>,
    metrics: Seq<Metric>,
    renderer: Renderer<R>,
    i: int,
) -> (shown: Seq<char>)
    requires
        is_file(out, metrics, renderer),
        0 <= i < metrics.len(),
    ensures
        exists|before: Seq<char>, behind: Seq<char>|
            out == #[trigger] (before + ("# HELP "@ + metrics[i].name + " "@ + metrics[i].help
                + "\n"@ + "# TYPE "@ + metrics[i].name + " "@ + metrics[i].kind + "\n"@
                + metrics[i].name + " "@ + shown + "\n"@) + behind),
        metrics[i].value matches MetricValue::Count(n) ==> (n < 9_007_199_254_740_992 ==> shown
            == text::decimal(n as nat)),
{
    let shown = choose|shown: Seq<Seq<char>>|
        {
            &&& out == #[trigger] file_text(metrics, shown)
            &&& shown.len() == metrics.len()
            &&& forall|i: int|
                0 <= i < metrics.len() ==> can_show(
                    renderer,
                    #[trigger] metrics[i].value,
                    shown[i],
                )
            &&& forall|model: spec_fn(MetricValue) -> Seq<char>| #[trigger]
                renderer.shows(model) ==> shown == shown_all(metrics, model)
        };
    metric_is_in_the_text(metrics, shown, i);
    assert(can_show(renderer, metrics[i].value, shown[i]));
    shown[i]
}

proof fn metric_is_in_the_text(metrics: Seq<Metric>, shown: Seq<Seq<char>>, i: int)
    requires
        0 <= i < metrics.len(),
        shown.len() == metrics.len(),
    ensures
        exists|before: Seq<char>, behind: Seq<char>|
            file_text(metrics, shown) == #[trigger] (before + ("# HELP "@ + metrics[i].name + " "@
                + metrics[i].help + "\n"@ + "# TYPE "@ + metrics[i].name + " "@ + metrics[i].kind
                + "\n"@ + metrics[i].name + " "@ + shown[i] + "\n"@) + behind),
    decreases metrics.len(),
{
    let lines = "# HELP "@ + metrics[i].name + " "@ + metrics[i].help + "\n"@ + "# TYPE "@
        + metrics[i].name + " "@ + metrics[i].kind + "\n"@ + metrics[i].name + " "@ + shown[i]
        + "\n"@;
    let last = metrics.len() - 1;
    let head = file_text(metrics.drop_last(), shown.drop_last());
    let tail = metric_lines(metrics.last(), shown.last());
    if i < last {
        metric_is_in_the_text(metrics.drop_last(), shown.drop_last(), i);
        assert(metrics.drop_last()[i] == metrics[i] && shown.drop_last()[i] == shown[i]);
        let (before, behind) = choose|before: Seq<char>, behind: Seq<char>|
            head == #[trigger] (before + lines + behind);
        assert(file_text(metrics, shown) =~= before + lines + (behind + tail));
    } else {
        assert(file_text(metrics, shown) =~= head + lines + Seq::<char>::empty());
    }
}

/// What is exported under a name is what the name says: the counts since the start as
/// counters, what holds now as gauges.
pub proof fn names_say_what_is_exported(snapshot: Snapshot)
    ensures
        ({
            let metrics = metrics_of(snapshot);
            let count = |i: int, name: Seq<char>, kind: Seq<char>, n: u64|
                metrics[i].name == name && metrics[i].kind == kind && metrics[i].value
                    == MetricValue::Count(n);
            let double = |i: int, name: Seq<char>, bits: u64|
                metrics[i].name == name && metrics[i].kind == "gauge"@ && metrics[i].value
                    == MetricValue::Double(bits);
            &&& count(0, "logsentry_events_total"@, "counter"@, snapshot.stats.events)
            &&& count(
                1,
                "logsentry_anomalies_total"@,
                "counter"@,
                snapshot.stats.anomalies_emitted,
            )
            &&& count(
                2,
                "logsentry_dropped_overflow_total"@,
                "counter"@,
                snapshot.stats.dropped_overflow,
            )
            &&& count(3, "logsentry_parse_errors_total"@, "counter"@, snapshot.stats.parse_errors)
            &&& double(4, "logsentry_events_per_second"@, snapshot.stats.events_per_sec)
            &&& count(5, "logsentry_clients"@, "gauge"@, snapshot.stats.clients as u64)
            &&& double(6, "logsentry_entropy_bits"@, snapshot.window.entropy_bits)
            &&& double(7, "logsentry_entropy_z"@, snapshot.window.entropy_z)
            &&& count(
                8,
                "logsentry_distinct_templates"@,
                "gauge"@,
                snapshot.window.distinct_templates,
            )
            &&& snapshot.learning.active ==> count(
                9,
                "logsentry_learning_active"@,
                "gauge"@,
                1,
            )
            &&& !snapshot.learning.active ==> count(
                9,
                "logsentry_learning_active"@,
                "gauge"@,
                0,
            )
            &&& count(
                10,
                "logsentry_daemon_uptime_seconds"@,
                "gauge"@,
                snapshot.daemon_uptime_secs,
            )
            &&& snapshot.system is None ==> metrics.len() == 11
            &&& snapshot.system matches Some(system) ==> {
                &&& metrics.len() == 14
                &&& metrics[11].name == "logsentry_cpu_usage_percent"@ && metrics[11].value
                    == MetricValue::Single(system.cpu.global_usage_percent)
                &&& metrics[12].name == "logsentry_memory_used_percent"@ && metrics[12].value
                    == MetricValue::Single(system.memory.used_percent)
                &&& double(13, "logsentry_load1"@, system.load.one)
            }
        }),
{
}

/// The first name of the file is hidden, holds its own name, and belongs to one process.
pub proof fn temporary_names_do_not_collide(file_name: Seq<char>, one: u32, two: u32)
    ensures
        ({
            let name = temporary_text(Some(file_name), one);
            &&& name[0] == '.'
            &&& name.subrange(1, 1 + file_name.len() as int) == file_name
            &&& one != two ==> name != temporary_text(Some(file_name), two)
        }),
{
    reveal_strlit(".");
    reveal_strlit(".tmp-");
    let name = temporary_text(Some(file_name), one);
    let other = temporary_text(Some(file_name), two);
    let head = "."@ + file_name + ".tmp-"@;
    assert(name.skip(head.len() as int) =~= text::decimal(one as nat));
    assert(other.skip(head.len() as int) =~= text::decimal(two as nat));
    assert(name.subrange(1, 1 + file_name.len() as int) =~= file_name);
    text::reading_undoes_writing(one as nat);
    text::reading_undoes_writing(two as nat);
}

/// The file of metrics holds the count of events, as long as a double can hold it exactly,
/// under its name.
pub proof fn the_file_tells_the_events<R: Fn(MetricValue) -> String>(
    snapshot: &Snapshot,
    renderer: &Renderer<R>,
    out: String,
)
    requires
        call_ensures(format_prometheus_textfile::<R>, (snapshot, renderer), out),
        snapshot.stats.events < 9_007_199_254_740_992,
    ensures
        is_file(out@, metrics_of(*snapshot), *renderer),
        exists|before: Seq<char>, behind: Seq<char>|
            out@ == #[trigger] (before + ("# HELP "@ + "logsentry_events_total"@ + " "@
                + "Verarbeitete Journal-Ereignisse seit Start."@ + "\n"@ + "# TYPE "@
                + "logsentry_events_total"@ + " "@ + "counter"@ + "\n"@
                + "logsentry_events_total"@ + " "@ + text::decimal(snapshot.stats.events as nat)
                + "\n"@) + behind),
{
    let metrics = metrics_of(*snapshot);
    assert(metrics[0] == counter(
        "logsentry_events_total"@,
        "Verarbeitete Journal-Ereignisse seit Start."@,
        MetricValue::Count(snapshot.stats.events),
    ));
    let shown = every_metric_stands_in_the_file(out@, metrics, *renderer, 0);
    assert(shown == text::decimal(snapshot.stats.events as nat));
}

/// What is no count, and a count that a double need not hold exactly, is written as the
/// renderer shows it.
pub proof fn other_values_are_shown_by_the_renderer<R: Fn(MetricValue) -> String>(
    out: Seq<char>,
    metrics: Seq<Metric>,
    renderer: Renderer<R>,
    i: int,
) -> (shown: String)
    requires
        is_file(out, metrics, renderer),
        0 <= i < metrics.len(),
        metrics[i].value matches MetricValue::Count(n) ==> n >= 9_007_199_254_740_992,
    ensures
        call_ensures(renderer.show, (metrics[i].value,), shown),
        exists|before: Seq<char>, behind: Seq<char>|
            out == #[trigger] (before + ("# HELP "@ + metrics[i].name + " "@ + metrics[i].help
                + "\n"@ + "# TYPE "@ + metrics[i].name + " "@ + metrics[i].kind + "\n"@
                + metrics[i].name + " "@ + shown@ + "\n"@) + behind),
{
    let texts = choose|shown: Seq<Seq<char>>|
        {
            &&& out == #[trigger] file_text(metrics, shown)
            &&& shown.len() == metrics.len()
            &&& forall|i: int|
                0 <= i < metrics.len() ==> can_show(
                    renderer,
                    #[trigger] metrics[i].value,
                    shown[i],
                )
            &&& forall|model: spec_fn(MetricValue) -> Seq<char>| #[trigger]
                renderer.shows(model) ==> shown == shown_all(metrics, model)
        };
    metric_is_in_the_text(metrics, texts, i);
    assert(can_show(renderer, metrics[i].value, texts[i]));
    assert(renders(renderer, metrics[i].value, texts[i]));
    choose|out: String| #[trigger]
        call_ensures(renderer.show, (metrics[i].value,), out) && out@ == texts[i]
}

} // verus!
