//! What the daemon knows, put into the messages of the protocol.

use vstd::prelude::*;
use vstd::utf8::*;

use crate::engine;
use crate::engine::Anomaly;
use crate::proto;
use crate::store;
use crate::system;
use crate::text;

verus! {

/// How many bytes a sample message may have.
pub const SAMPLE_MESSAGE_MAX_BYTES: usize = 1024;

/// What stands at the end of a message that was cut.
pub const TRUNCATION_MARKER: &'static str = "[…]";

/// How many bytes are left beside the mark of a cut.
pub const SAMPLE_BUDGET: usize = 1019;

/// How many bytes a text takes.
pub open spec fn byte_len(s: Seq<char>) -> nat {
    encode_utf8(s).len()
}

/// How many bytes a character takes.
pub open spec fn width(c: char) -> nat {
    let u = c as u32;
    if u <= 0x7f {
        1
    } else if u <= 0x7ff {
        2
    } else if u <= 0xffff {
        3
    } else {
        4
    }
}

/// One more character takes its width.
proof fn width_adds(s: Seq<char>, c: char)
    ensures
        byte_len(s.push(c)) == byte_len(s) + width(c),
    decreases s.len(),
{
    if s.len() == 0 {
        char_is_scalar(c);
        assert(s.push(c).drop_first() =~= Seq::<char>::empty());
        assert(encode_utf8(Seq::<char>::empty()).len() == 0);
    } else {
        assert(s.push(c).drop_first() =~= s.drop_first().push(c));
        width_adds(s.drop_first(), c);
    }
}

/// A beginning takes no more than the whole.
proof fn beginning_is_no_longer(s: Seq<char>, n: int, m: int)
    requires
        0 <= n <= m <= s.len(),
    ensures
        byte_len(s.take(n)) <= byte_len(s.take(m)),
    decreases m - n,
{
    if n < m {
        beginning_is_no_longer(s, n, m - 1);
        assert(s.take(m) =~= s.take(m - 1).push(s[m - 1]));
        width_adds(s.take(m - 1), s[m - 1]);
    }
}

/// Whether the first `n` characters are the most that fit into a number of bytes.
pub open spec fn longest_fit(s: Seq<char>, n: int, budget: nat) -> bool {
    &&& 0 <= n <= s.len()
    &&& byte_len(s.take(n)) <= budget
    &&& n < s.len() ==> byte_len(s.take(n + 1)) > budget
}

/// There is only one longest beginning that fits.
pub proof fn longest_fit_is_unique(s: Seq<char>, n: int, m: int, budget: nat)
    requires
        longest_fit(s, n, budget),
        longest_fit(s, m, budget),
    ensures
        n == m,
{
    if n < m {
        beginning_is_no_longer(s, n + 1, m);
    }
    if m < n {
        beginning_is_no_longer(s, m + 1, n);
    }
}

/// Whether `out` is what is shown of a message: all of it if it fits, and else its
/// longest beginning that leaves room for the mark, and the mark.
pub open spec fn is_sample(raw: Seq<char>, out: Seq<char>) -> bool {
    if byte_len(raw) <= SAMPLE_MESSAGE_MAX_BYTES {
        out == raw
    } else {
        exists|n: int| #[trigger]
            longest_fit(raw, n, SAMPLE_BUDGET as nat) && out == raw.take(n) + TRUNCATION_MARKER@
    }
}

/// A sample never has more bytes than it may have.
pub proof fn samples_are_bounded(raw: Seq<char>, out: Seq<char>)
    requires
        is_sample(raw, out),
    ensures
        byte_len(out) <= SAMPLE_MESSAGE_MAX_BYTES,
{
    if byte_len(raw) > SAMPLE_MESSAGE_MAX_BYTES {
        let n = choose|n: int| #[trigger]
            longest_fit(raw, n, SAMPLE_BUDGET as nat) && out == raw.take(n) + TRUNCATION_MARKER@;
        reveal_strlit("[…]");
        let kept = raw.take(n);
        let mark = TRUNCATION_MARKER@;
        assert(mark.len() == 3);
        width_adds(kept, mark[0]);
        width_adds(kept.push(mark[0]), mark[1]);
        width_adds(kept.push(mark[0]).push(mark[1]), mark[2]);
        assert(out =~= kept.push(mark[0]).push(mark[1]).push(mark[2]));
    }
}

/// How many bytes a character takes.
fn width_of(c: char) -> (w: usize)
    ensures
        w == width(c),
{
    let u: u32 = c as u32;
    if u <= 0x7f {
        1
    } else if u <= 0x7ff {
        2
    } else if u <= 0xffff {
        3
    } else {
        4
    }
}

/// Cuts a message that is too long to be sent whole. No character is cut apart.
pub fn truncate_sample_message(raw: &str) -> (out: String)
    ensures
        is_sample(raw@, out@),
        byte_len(out@) <= SAMPLE_MESSAGE_MAX_BYTES,
{
    let chars = text::chars_of(raw);
    let mut total: usize = 0;
    let mut end: usize = 0;
    let mut i: usize = 0;
    proof {
        assert(raw@.take(0) =~= Seq::<char>::empty());
        assert(encode_utf8(Seq::<char>::empty()).len() == 0);
    }
    while i < chars.len() && total <= SAMPLE_MESSAGE_MAX_BYTES
        invariant
            chars@ == raw@,
            end <= i <= chars.len(),
            total <= SAMPLE_MESSAGE_MAX_BYTES + 4,
            total == byte_len(raw@.take(i as int)),
            byte_len(raw@.take(end as int)) <= SAMPLE_BUDGET,
            end < i ==> byte_len(raw@.take(end + 1)) > SAMPLE_BUDGET,
        decreases chars.len() - i,
    {
        let w: usize = width_of(chars[i]);
        proof {
            width_adds(raw@.take(i as int), raw@[i as int]);
            assert(raw@.take(i + 1) =~= raw@.take(i as int).push(raw@[i as int]));
            if end < i {
                beginning_is_no_longer(raw@, end + 1, i as int);
            }
        }
        total = total + w;
        i += 1;
        if total <= SAMPLE_BUDGET {
            end = i;
        }
    }
    if total <= SAMPLE_MESSAGE_MAX_BYTES {
        proof {
            assert(raw@.take(i as int) =~= raw@);
        }
        return raw.to_string();
    }
    proof {
        beginning_is_no_longer(raw@, i as int, raw@.len() as int);
        assert(raw@.take(raw@.len() as int) =~= raw@);
        assert(longest_fit(raw@, end as int, SAMPLE_BUDGET as nat));
    }
    let mut out = String::new();
    let mut k: usize = 0;
    proof {
        assert(raw@.take(0) =~= Seq::<char>::empty());
    }
    while k < end
        invariant
            chars@ == raw@,
            k <= end <= chars.len(),
            out@ == raw@.take(k as int),
        decreases end - k,
    {
        out.push(chars[k]);
        proof {
            assert(raw@.take(k + 1) =~= raw@.take(k as int).push(raw@[k as int]));
        }
        k += 1;
    }
    out.append(TRUNCATION_MARKER);
    proof {
        samples_are_bounded(raw@, out@);
    }
    out
}

/// The processor.
pub fn map_cpu_snapshot(c: system::CpuSnapshot) -> (out: proto::CpuSnapshot)
    ensures
        out.global_usage_percent == c.global_usage_percent,
        out.per_core_usage_percent == c.per_core_usage_percent,
{
    proto::CpuSnapshot {
        global_usage_percent: c.global_usage_percent,
        per_core_usage_percent: c.per_core_usage_percent,
    }
}

/// The memory.
pub fn map_memory_snapshot(m: system::MemorySnapshot) -> (out: proto::MemorySnapshot)
    ensures
        out.total_bytes == m.total_bytes,
        out.used_bytes == m.used_bytes,
        out.used_percent == m.used_percent,
{
    proto::MemorySnapshot {
        total_bytes: m.total_bytes,
        used_bytes: m.used_bytes,
        used_percent: m.used_percent,
    }
}

/// The load.
pub fn map_load_snapshot(l: system::LoadSnapshot) -> (out: proto::LoadSnapshot)
    ensures
        out.one == l.one,
        out.five == l.five,
        out.fifteen == l.fifteen,
{
    proto::LoadSnapshot { one: l.one, five: l.five, fifteen: l.fifteen }
}

/// A file system, as it is sent.
pub open spec fn sent_disk(d: system::DiskSnapshot) -> proto::DiskSnapshot {
    proto::DiskSnapshot {
        mount_point: d.mount_point,
        total_bytes: d.total_bytes,
        available_bytes: d.available_bytes,
        used_percent: d.used_percent,
    }
}

/// A file system.
pub fn map_disk_snapshot(d: system::DiskSnapshot) -> (out: proto::DiskSnapshot)
    ensures
        out == sent_disk(d),
{
    proto::DiskSnapshot {
        mount_point: d.mount_point,
        total_bytes: d.total_bytes,
        available_bytes: d.available_bytes,
        used_percent: d.used_percent,
    }
}

/// A temperature, as it is sent.
pub open spec fn sent_temperature(t: system::TemperatureSnapshot) -> proto::TemperatureSnapshot {
    proto::TemperatureSnapshot { label: t.label, celsius: t.celsius }
}

/// A temperature.
pub fn map_temperature_snapshot(t: system::TemperatureSnapshot) -> (out: proto::TemperatureSnapshot)
    ensures
        out == sent_temperature(t),
{
    proto::TemperatureSnapshot { label: t.label, celsius: t.celsius }
}

/// A unit, as it is sent.
pub open spec fn sent_unit(u: system::UnitStatus) -> proto::UnitStatus {
    proto::UnitStatus { name: u.name, active_state: u.active_state, sub_state: u.sub_state }
}

/// A unit.
pub fn map_unit_status(u: system::UnitStatus) -> (out: proto::UnitStatus)
    ensures
        out == sent_unit(u),
{
    proto::UnitStatus { name: u.name, active_state: u.active_state, sub_state: u.sub_state }
}

/// Whether a message says of the machine what was measured.
pub open spec fn is_sent_as(s: system::SystemSnapshot, out: proto::SystemSnapshot) -> bool {
    &&& out.timestamp_us == s.timestamp_us
    &&& out.cpu.global_usage_percent == s.cpu.global_usage_percent
    &&& out.cpu.per_core_usage_percent == s.cpu.per_core_usage_percent
    &&& out.memory.total_bytes == s.memory.total_bytes
    &&& out.memory.used_bytes == s.memory.used_bytes
    &&& out.memory.used_percent == s.memory.used_percent
    &&& out.load.one == s.load.one
    &&& out.load.five == s.load.five
    &&& out.load.fifteen == s.load.fifteen
    &&& out.disks@ == s.disks@.map_values(|d: system::DiskSnapshot| sent_disk(d))
    &&& out.temperatures@ == s.temperatures@.map_values(
        |t: system::TemperatureSnapshot| sent_temperature(t),
    )
    &&& out.units@ == s.units@.map_values(|u: system::UnitStatus| sent_unit(u))
}

/// The machine.
pub fn map_system_snapshot(s: system::SystemSnapshot) -> (out: proto::SystemSnapshot)
    ensures
        is_sent_as(s, out),
{
    let ghost whole = s;
    let mut disks: Vec<proto::DiskSnapshot> = Vec::new();
    for d in it: s.disks.into_iter()
        invariant
            it.seq() == whole.disks@,
            disks@.len() == it.index(),
            forall|i: int| 0 <= i < disks@.len() ==> #[trigger] disks@[i] == sent_disk(whole.disks@[i]),
    {
        disks.push(map_disk_snapshot(d));
    }
    let mut temperatures: Vec<proto::TemperatureSnapshot> = Vec::new();
    for t in it: s.temperatures.into_iter()
        invariant
            it.seq() == whole.temperatures@,
            temperatures@.len() == it.index(),
            forall|i: int|
                0 <= i < temperatures@.len() ==> #[trigger] temperatures@[i] == sent_temperature(
                    whole.temperatures@[i],
                ),
    {
        temperatures.push(map_temperature_snapshot(t));
    }
    let mut units: Vec<proto::UnitStatus> = Vec::new();
    for u in it: s.units.into_iter()
        invariant
            it.seq() == whole.units@,
            units@.len() == it.index(),
            forall|i: int| 0 <= i < units@.len() ==> #[trigger] units@[i] == sent_unit(whole.units@[i]),
    {
        units.push(map_unit_status(u));
    }
    proof {
        assert(disks@ =~= whole.disks@.map_values(|d: system::DiskSnapshot| sent_disk(d)));
        assert(temperatures@ =~= whole.temperatures@.map_values(
            |t: system::TemperatureSnapshot| sent_temperature(t),
        ));
        assert(units@ =~= whole.units@.map_values(|u: system::UnitStatus| sent_unit(u)));
    }
    proto::SystemSnapshot {
        timestamp_us: s.timestamp_us,
        cpu: map_cpu_snapshot(s.cpu),
        memory: map_memory_snapshot(s.memory),
        load: map_load_snapshot(s.load),
        disks,
        temperatures,
        units,
    }
}

/// What a rate was held against, as it is sent.
pub open spec fn sent_source(source: store::RateSource) -> proto::RateSource {
    match source {
        store::RateSource::SlotBaseline => proto::RateSource::SlotBaseline,
        store::RateSource::AnySlotBaseline => proto::RateSource::AnySlotBaseline,
        store::RateSource::ShortTerm => proto::RateSource::ShortTerm,
        store::RateSource::Nowhere => proto::RateSource::Nowhere,
    }
}

/// What a rate was held against.
pub fn map_rate_source(source: store::RateSource) -> (out: proto::RateSource)
    ensures
        out == sent_source(source),
{
    match source {
        store::RateSource::SlotBaseline => proto::RateSource::SlotBaseline,
        store::RateSource::AnySlotBaseline => proto::RateSource::AnySlotBaseline,
        store::RateSource::ShortTerm => proto::RateSource::ShortTerm,
        store::RateSource::Nowhere => proto::RateSource::Nowhere,
    }
}

/// How serious an anomaly is, as it is sent; what is normal is not sent.
pub open spec fn sent_level(level: engine::AnomalyLevel) -> Option<proto::AnomalyLevel> {
    match level {
        engine::AnomalyLevel::Normal => None,
        engine::AnomalyLevel::Info => Some(proto::AnomalyLevel::Info),
        engine::AnomalyLevel::Warn => Some(proto::AnomalyLevel::Warn),
        engine::AnomalyLevel::Critical => Some(proto::AnomalyLevel::Critical),
    }
}

/// How serious an anomaly is; none for what is normal.
pub fn map_anomaly_level(level: engine::AnomalyLevel) -> (out: Option<proto::AnomalyLevel>)
    ensures
        out == sent_level(level),
{
    match level {
        engine::AnomalyLevel::Normal => None,
        engine::AnomalyLevel::Info => Some(proto::AnomalyLevel::Info),
        engine::AnomalyLevel::Warn => Some(proto::AnomalyLevel::Warn),
        engine::AnomalyLevel::Critical => Some(proto::AnomalyLevel::Critical),
    }
}

/// What an event scores, as it is sent.
pub open spec fn sent_breakdown(b: engine::ScoreBreakdown) -> proto::ScoreBreakdown {
    proto::ScoreBreakdown {
        rate_z: b.scores.rate_z,
        surprisal_bits: b.scores.surprisal_bits,
        entropy_z: b.scores.entropy_z,
        rate_component: b.scores.rate_component,
        surprisal_component: b.scores.surprisal_component,
        entropy_component: b.scores.entropy_component,
        combined: b.scores.combined,
        rate_source: sent_source(b.rate_source),
    }
}

/// What an event scores.
pub fn map_score_breakdown(b: engine::ScoreBreakdown) -> (out: proto::ScoreBreakdown)
    ensures
        out == sent_breakdown(b),
{
    proto::ScoreBreakdown {
        rate_z: b.scores.rate_z,
        surprisal_bits: b.scores.surprisal_bits,
        entropy_z: b.scores.entropy_z,
        rate_component: b.scores.rate_component,
        surprisal_component: b.scores.surprisal_component,
        entropy_component: b.scores.entropy_component,
        combined: b.scores.combined,
        rate_source: map_rate_source(b.rate_source),
    }
}

/// What an anomaly does not say of the event that it comes from.
pub struct AnomalyEventContext<'a> {
    /// The text of the template.
    pub template_text: &'a str,
    /// The message.
    pub raw_message: &'a str,
    /// The process, if it is known.
    pub pid: Option<i32>,
    /// The syslog priority, if it is known.
    pub priority: Option<u8>,
}

/// A process id as it is sent: a negative one is none.
pub open spec fn sent_pid(pid: Option<i32>) -> Option<u32> {
    match pid {
        Some(pid) => if pid >= 0 {
            Some(pid as u32)
        } else {
            None
        },
        None => None,
    }
}

/// A process id as it is sent.
pub fn map_pid(pid: Option<i32>) -> (out: Option<u32>)
    ensures
        out == sent_pid(pid),
{
    match pid {
        Some(pid) => if pid >= 0 {
            Some(pid as u32)
        } else {
            None
        },
        None => None,
    }
}

/// Whether `event` is the message for an anomaly.
pub open spec fn is_anomaly_event(
    event: proto::AnomalyEvent,
    id: u64,
    anomaly: Anomaly,
    template_text: Seq<char>,
    raw_message: Seq<char>,
    pid: Option<i32>,
    priority: Option<u8>,
) -> bool {
    &&& event.id == id
    &&& event.timestamp_us == anomaly.timestamp_us
    &&& event.template_id == anomaly.template_id.0
    &&& event.template_text@ == template_text
    &&& is_sample(raw_message, event.sample_message@)
    &&& event.unit == anomaly.unit
    &&& event.pid == sent_pid(pid)
    &&& event.priority == priority
    &&& Some(event.level) == sent_level(anomaly.level)
    &&& event.breakdown == sent_breakdown(anomaly.breakdown)
    &&& event.suppressed_since_last == anomaly.suppressed_since_last
}

/// The message for an anomaly; none for what is normal.
pub fn build_anomaly_event(id: u64, anomaly: &Anomaly, ctx: AnomalyEventContext<'_>) -> (event: Option<
    proto::AnomalyEvent,
>)
    ensures
        event is None <==> anomaly.level == engine::AnomalyLevel::Normal,
        event matches Some(event) ==> is_anomaly_event(
            event,
            id,
            *anomaly,
            ctx.template_text@,
            ctx.raw_message@,
            ctx.pid,
            ctx.priority,
        ),
{
    match map_anomaly_level(anomaly.level) {
        None => None,
        Some(level) => Some(
            proto::AnomalyEvent {
                id,
                timestamp_us: anomaly.timestamp_us,
                template_id: anomaly.template_id.0,
                template_text: ctx.template_text.to_string(),
                sample_message: truncate_sample_message(ctx.raw_message),
                unit: proto::copy_text(&anomaly.unit),
                pid: map_pid(ctx.pid),
                priority: ctx.priority,
                level,
                breakdown: map_score_breakdown(anomaly.breakdown),
                suppressed_since_last: anomaly.suppressed_since_last,
            },
        ),
    }
}

/// A line of the journal that is kept for those who ask for it.
#[derive(Debug, PartialEq)]
pub struct ContextEntry {
    /// When it was written, in microseconds since the epoch.
    pub timestamp_us: u64,
    /// The unit, if there is one.
    pub unit: Option<String>,
    /// The process, if it is known.
    pub pid: Option<i32>,
    /// The syslog priority, if it is known.
    pub priority: Option<u8>,
    /// The message.
    pub message: String,
}

/// A line, as it is sent.
pub open spec fn sent_line(entry: ContextEntry) -> proto::ContextLine {
    proto::ContextLine {
        timestamp_us: entry.timestamp_us,
        unit: entry.unit,
        pid: sent_pid(entry.pid),
        priority: entry.priority,
        message: entry.message,
    }
}

impl ContextEntry {
    /// A copy.
    pub fn duplicate(&self) -> (copy: ContextEntry)
        ensures
            copy == *self,
    {
        ContextEntry {
            timestamp_us: self.timestamp_us,
            unit: proto::copy_text(&self.unit),
            pid: self.pid,
            priority: self.priority,
            message: self.message.clone(),
        }
    }

    /// The line, as it is sent.
    pub fn to_line(&self) -> (line: proto::ContextLine)
        ensures
            line == sent_line(*self),
    {
        proto::ContextLine {
            timestamp_us: self.timestamp_us,
            unit: proto::copy_text(&self.unit),
            pid: map_pid(self.pid),
            priority: self.priority,
            message: self.message.clone(),
        }
    }
}

/// A message of at most a kilobyte is shown whole. Of a longer one its beginning is shown,
/// with a mark behind it; not a character more of it would fit beside the mark.
pub proof fn samples_show_as_much_as_fits(raw: Seq<char>, out: Seq<char>)
    requires
        is_sample(raw, out),
    ensures
        encode_utf8(raw).len() <= 1_024 ==> out == raw,
        encode_utf8(out).len() <= 1_024,
        encode_utf8(raw).len() > 1_024 ==> exists|n: int|
            {
                &&& 0 <= n < raw.len()
                &&& out == #[trigger] raw.take(n) + "[…]"@
                &&& encode_utf8(raw.take(n + 1)).len() + 5 > 1_024
            },
{
    samples_are_bounded(raw, out);
    if encode_utf8(raw).len() > 1_024 {
        let n = choose|n: int| #[trigger]
            longest_fit(raw, n, SAMPLE_BUDGET as nat) && out == raw.take(n) + TRUNCATION_MARKER@;
        if n == raw.len() {
            assert(raw.take(n) =~= raw);
        }
        assert(out == raw.take(n) + "[…]"@);
    }
}

/// What is sent of an anomaly is what was found: its number, its time, its template, its
/// unit, its scores. Levels and sources keep their meaning, no two of them become one,
/// and what is normal is not sent.
pub proof fn nothing_is_lost_on_the_wire(
    event: proto::AnomalyEvent,
    id: u64,
    anomaly: Anomaly,
    template_text: Seq<char>,
    raw_message: Seq<char>,
    pid: Option<i32>,
    priority: Option<u8>,
)
    requires
        is_anomaly_event(event, id, anomaly, template_text, raw_message, pid, priority),
    ensures
        event.id == id,
        event.timestamp_us == anomaly.timestamp_us,
        event.template_id == anomaly.template_id.0,
        event.template_text@ == template_text,
        event.unit == anomaly.unit,
        event.priority == priority,
        event.suppressed_since_last == anomaly.suppressed_since_last,
        pid matches Some(number) ==> (number >= 0 ==> event.pid == Some(number as u32)),
        pid matches Some(number) ==> (number < 0 ==> event.pid is None),
        pid is None ==> event.pid is None,
        anomaly.level != engine::AnomalyLevel::Normal,
        event.level == proto::AnomalyLevel::Info <==> anomaly.level == engine::AnomalyLevel::Info,
        event.level == proto::AnomalyLevel::Warn <==> anomaly.level == engine::AnomalyLevel::Warn,
        event.level == proto::AnomalyLevel::Critical <==> anomaly.level
            == engine::AnomalyLevel::Critical,
        event.breakdown.combined == anomaly.breakdown.scores.combined,
        event.breakdown.rate_z == anomaly.breakdown.scores.rate_z,
        event.breakdown.surprisal_bits == anomaly.breakdown.scores.surprisal_bits,
        event.breakdown.entropy_z == anomaly.breakdown.scores.entropy_z,
        event.breakdown.rate_component == anomaly.breakdown.scores.rate_component,
        event.breakdown.surprisal_component == anomaly.breakdown.scores.surprisal_component,
        event.breakdown.entropy_component == anomaly.breakdown.scores.entropy_component,
        event.breakdown.rate_source == proto::RateSource::SlotBaseline
            <==> anomaly.breakdown.rate_source == store::RateSource::SlotBaseline,
        event.breakdown.rate_source == proto::RateSource::AnySlotBaseline
            <==> anomaly.breakdown.rate_source == store::RateSource::AnySlotBaseline,
        event.breakdown.rate_source == proto::RateSource::ShortTerm
            <==> anomaly.breakdown.rate_source == store::RateSource::ShortTerm,
{
}

/// What is sent of the machine is what was measured, one for one and in order.
pub proof fn measurements_are_sent_as_they_are(
    s: system::SystemSnapshot,
    out: proto::SystemSnapshot,
    i: int,
)
    requires
        is_sent_as(s, out),
    ensures
        out.timestamp_us == s.timestamp_us,
        out.memory.total_bytes == s.memory.total_bytes,
        out.memory.used_bytes == s.memory.used_bytes,
        out.load.one == s.load.one && out.load.five == s.load.five && out.load.fifteen
            == s.load.fifteen,
        out.disks@.len() == s.disks@.len(),
        out.temperatures@.len() == s.temperatures@.len(),
        out.units@.len() == s.units@.len(),
        0 <= i < s.disks@.len() ==> out.disks@[i].mount_point == s.disks@[i].mount_point
            && out.disks@[i].total_bytes == s.disks@[i].total_bytes && out.disks@[i].available_bytes
            == s.disks@[i].available_bytes && out.disks@[i].used_percent == s.disks@[i].used_percent,
        0 <= i < s.temperatures@.len() ==> out.temperatures@[i].label == s.temperatures@[i].label
            && out.temperatures@[i].celsius == s.temperatures@[i].celsius,
        0 <= i < s.units@.len() ==> out.units@[i].name == s.units@[i].name
            && out.units@[i].active_state == s.units@[i].active_state && out.units@[i].sub_state
            == s.units@[i].sub_state,
{
}

/// A line that is asked for is sent as it was written.
pub proof fn lines_are_sent_as_they_are(entry: ContextEntry)
    ensures
        sent_line(entry).timestamp_us == entry.timestamp_us,
        sent_line(entry).unit == entry.unit,
        sent_line(entry).priority == entry.priority,
        sent_line(entry).message == entry.message,
        entry.pid matches Some(pid) ==> (pid >= 0 ==> sent_line(entry).pid == Some(pid as u32)),
{
}

/// What is normal is not sent; everything else is, as an event about it, with a sample of
/// its message.
pub proof fn only_what_is_normal_is_not_sent(
    id: u64,
    anomaly: &Anomaly,
    ctx: AnomalyEventContext<'_>,
    event: Option<proto::AnomalyEvent>,
    raw: &str,
    out: String,
    measured: system::SystemSnapshot,
    sent: proto::SystemSnapshot,
)
    requires
        call_ensures(build_anomaly_event, (id, anomaly, ctx), event),
        call_ensures(truncate_sample_message, (raw,), out),
        call_ensures(map_system_snapshot, (measured,), sent),
    ensures
        event is None <==> anomaly.level == engine::AnomalyLevel::Normal,
        event matches Some(event) ==> {
            &&& is_anomaly_event(
                event,
                id,
                *anomaly,
                ctx.template_text@,
                ctx.raw_message@,
                ctx.pid,
                ctx.priority,
            )
            &&& event.id == id
            &&& event.template_text@ == ctx.template_text@
            &&& encode_utf8(event.sample_message@).len() <= 1_024
            &&& encode_utf8(ctx.raw_message@).len() <= 1_024 ==> event.sample_message@
                == ctx.raw_message@
        },
        is_sample(raw@, out@),
        is_sent_as(measured, sent),
{
    if let Some(event) = event {
        samples_show_as_much_as_fits(ctx.raw_message@, event.sample_message@);
    }
}

/// Every part of what is sent is taken over as it is.
pub proof fn parts_are_sent_as_they_are(
    cpu: system::CpuSnapshot,
    sent_cpu: proto::CpuSnapshot,
    memory: system::MemorySnapshot,
    sent_memory: proto::MemorySnapshot,
    load: system::LoadSnapshot,
    sent_load: proto::LoadSnapshot,
    entry: &ContextEntry,
    line: proto::ContextLine,
)
    requires
        call_ensures(map_cpu_snapshot, (cpu,), sent_cpu),
        call_ensures(map_memory_snapshot, (memory,), sent_memory),
        call_ensures(map_load_snapshot, (load,), sent_load),
        call_ensures(ContextEntry::to_line, (entry,), line),
    ensures
        sent_cpu.global_usage_percent == cpu.global_usage_percent,
        sent_cpu.per_core_usage_percent == cpu.per_core_usage_percent,
        sent_memory.total_bytes == memory.total_bytes,
        sent_memory.used_bytes == memory.used_bytes,
        sent_memory.used_percent == memory.used_percent,
        sent_load.one == load.one,
        sent_load.five == load.five,
        sent_load.fifteen == load.fifteen,
        line.message == entry.message,
        line.timestamp_us == entry.timestamp_us,
        line.unit == entry.unit,
        line.priority == entry.priority,
{
}

} // verus!
