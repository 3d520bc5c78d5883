//! What the pipeline and the connections share: the last snapshot, the last
//! anomalies, the last lines of the journal, and what is to be kept quiet.

use std::collections::{HashMap, VecDeque};

use vstd::prelude::*;

use crate::proto;
use crate::proto::{AnomalyEvent, ContextLine, ContextReply, ServerMessage, Snapshot};
use crate::text;
use crate::textmap::TextMap;
use crate::wire;
use crate::wire::ContextEntry;

verus! {

/// The last lines of the journal.
pub struct ContextRing {
    entries: VecDeque<ContextEntry>,
    capacity: usize,
}

/// What a ring of lines holds.
#[verifier::ext_equal]
pub ghost struct ContextView {
    /// The lines, the oldest first.
    pub lines: Seq<ContextEntry>,
    /// How many lines fit.
    pub capacity: nat,
}

/// At least one.
pub open spec fn at_least_one(n: usize) -> nat {
    if n >= 1 {
        n as nat
    } else {
        1
    }
}

/// A list with one more item at the end, the oldest one leaving if it is full.
pub open spec fn pushed<T>(items: Seq<T>, item: T, capacity: nat) -> Seq<T> {
    if items.len() >= capacity {
        items.skip(1).push(item)
    } else {
        items.push(item)
    }
}

/// The lines of a unit, or all lines where no unit is given.
pub open spec fn lines_of(lines: Seq<ContextEntry>, unit: Option<Seq<char>>) -> Seq<ContextEntry>
    decreases lines.len(),
{
    if lines.len() == 0 {
        Seq::empty()
    } else {
        let before = lines_of(lines.drop_last(), unit);
        if unit is None || text::text_of(lines.last().unit) == unit {
            before.push(lines.last())
        } else {
            before
        }
    }
}

/// How far apart two times are.
pub open spec fn distance(a: u64, b: u64) -> int {
    if a >= b {
        a - b
    } else {
        b - a
    }
}

/// Whether the line at a place is the one closest to a time, and the first such.
pub open spec fn is_closest(lines: Seq<ContextEntry>, timestamp_us: u64, place: int) -> bool {
    &&& 0 <= place < lines.len()
    &&& forall|i: int|
        0 <= i < lines.len() ==> distance((#[trigger] lines[i]).timestamp_us, timestamp_us)
            >= distance(lines[place].timestamp_us, timestamp_us)
    &&& forall|i: int|
        0 <= i < place ==> distance((#[trigger] lines[i]).timestamp_us, timestamp_us) > distance(
            lines[place].timestamp_us,
            timestamp_us,
        )
}

/// The lines around a place: as many before and after it as asked for, or as many
/// as there are.
pub open spec fn around(lines: Seq<ContextEntry>, place: int, before: u16, after: u16) -> Seq<
    ContextEntry,
> {
    let start = if place < before {
        0
    } else {
        place - before
    };
    let end = if place + after + 1 > lines.len() {
        lines.len() as int
    } else {
        place + after + 1
    };
    lines.subrange(start, end)
}

/// Whether there are fewer lines around a place than asked for.
pub open spec fn falls_short(lines: Seq<ContextEntry>, place: int, before: u16, after: u16) -> bool {
    place < before || lines.len() - place - 1 < after
}

/// Whether `found` answers the question for the lines around a time.
pub open spec fn is_context(
    lines: Seq<ContextEntry>,
    timestamp_us: u64,
    before: u16,
    after: u16,
    found: Seq<ContextEntry>,
    truncated: bool,
) -> bool {
    if lines.len() == 0 {
        found == Seq::<ContextEntry>::empty() && truncated == (before > 0 || after > 0)
    } else {
        exists|place: int| #[trigger]
            is_closest(lines, timestamp_us, place) && found == around(lines, place, before, after)
                && truncated == falls_short(lines, place, before, after)
    }
}

/// Only one line is the first that is closest to a time.
pub proof fn closest_is_unique(lines: Seq<ContextEntry>, timestamp_us: u64, a: int, b: int)
    requires
        is_closest(lines, timestamp_us, a),
        is_closest(lines, timestamp_us, b),
    ensures
        a == b,
{
    if a < b {
        assert(lines[a].timestamp_us == lines[a].timestamp_us);
    }
    if b < a {
        assert(lines[b].timestamp_us == lines[b].timestamp_us);
    }
}

/// An answer holds no more lines than asked for, and all of them when it does not
/// fall short.
pub proof fn context_is_bounded(
    lines: Seq<ContextEntry>,
    timestamp_us: u64,
    before: u16,
    after: u16,
    found: Seq<ContextEntry>,
    truncated: bool,
)
    requires
        is_context(lines, timestamp_us, before, after, found, truncated),
    ensures
        found.len() <= before + after + 1,
        !truncated && lines.len() > 0 ==> found.len() == before + after + 1,
        lines.len() > 0 ==> found.len() >= 1,
{
}

/// The lines of a unit are lines of that unit.
pub proof fn lines_of_a_unit(lines: Seq<ContextEntry>, unit: Option<Seq<char>>, i: int)
    requires
        unit is Some,
        0 <= i < lines_of(lines, unit).len(),
    ensures
        text::text_of(lines_of(lines, unit)[i].unit) == unit,
        lines.contains(lines_of(lines, unit)[i]),
    decreases lines.len(),
{
    let before = lines_of(lines.drop_last(), unit);
    if i < before.len() {
        lines_of_a_unit(lines.drop_last(), unit, i);
        let k = choose|k: int| 0 <= k < lines.len() - 1 && lines.drop_last()[k] == before[i];
        assert(lines[k] == before[i]);
    } else {
        assert(lines[lines.len() - 1] == lines_of(lines, unit)[i]);
    }
}

impl View for ContextRing {
    type V = ContextView;

    closed spec fn view(&self) -> ContextView {
        ContextView { lines: self.entries@, capacity: self.capacity as nat }
    }
}

impl ContextView {
    /// A ring holds no more than fits.
    pub open spec fn valid(self) -> bool {
        self.capacity >= 1 && self.lines.len() <= self.capacity
    }
}

impl ContextRing {
    /// An empty ring for `capacity` lines, or for one if that is none.
    pub fn new(capacity: usize) -> (ring: ContextRing)
        ensures
            ring@.lines == Seq::<ContextEntry>::empty(),
            ring@.capacity == at_least_one(capacity),
            ring@.valid(),
    {
        ContextRing {
            entries: VecDeque::new(),
            capacity: if capacity >= 1 {
                capacity
            } else {
                1
            },
        }
    }

    /// Takes a line in. If the ring is full, its oldest line leaves.
    pub fn push(&mut self, entry: ContextEntry)
        requires
            old(self)@.valid(),
        ensures
            final(self)@ == (ContextView {
                lines: pushed(old(self)@.lines, entry, old(self)@.capacity),
                ..old(self)@
            }),
            final(self)@.valid(),
    {
        let ghost before = self.entries@;
        if self.entries.len() >= self.capacity {
            let _ = self.entries.pop_front();
            proof {
                assert(self.entries@ =~= before.skip(1));
            }
        }
        self.entries.push_back(entry);
    }

    /// How many lines there are.
    pub fn len(&self) -> (len: usize)
        ensures
            len == self@.lines.len(),
    {
        self.entries.len()
    }

    /// Whether there are none.
    pub fn is_empty(&self) -> (empty: bool)
        ensures
            empty == (self@.lines.len() == 0),
    {
        self.entries.len() == 0
    }

    /// The places of the lines of a unit, or of all lines.
    fn places_of(&self, unit: Option<&str>) -> (places: Vec<usize>)
        ensures
            places@.len() == lines_of(self.entries@, text::str_of(unit)).len(),
            forall|i: int|
                0 <= i < places@.len() ==> #[trigger] places@[i] < self.entries@.len()
                    && self.entries@[places@[i] as int] == lines_of(
                    self.entries@,
                    text::str_of(unit),
                )[i],
    {
        let ghost wanted = text::str_of(unit);
        let mut places: Vec<usize> = Vec::new();
        let mut i: usize = 0;
        while i < self.entries.len()
            invariant
                wanted == text::str_of(unit),
                i <= self.entries@.len(),
                places@.len() == lines_of(self.entries@.take(i as int), wanted).len(),
                forall|k: int|
                    0 <= k < places@.len() ==> #[trigger] places@[k] < i
                        && self.entries@[places@[k] as int] == lines_of(
                        self.entries@.take(i as int),
                        wanted,
                    )[k],
            decreases self.entries@.len() - i,
        {
            proof {
                assert(self.entries@.take(i + 1).drop_last() =~= self.entries@.take(i as int));
                assert(self.entries@.take(i + 1).last() == self.entries@[i as int]);
            }
            let matches = match unit {
                None => true,
                Some(wanted_unit) => match &self.entries[i].unit {
                    None => false,
                    Some(name) => text::same_text(name.as_str(), wanted_unit),
                },
            };
            if matches {
                places.push(i);
            }
            i += 1;
        }
        proof {
            assert(self.entries@.take(i as int) =~= self.entries@);
        }
        places
    }

    /// The lines around the one that is closest to a time (the first such), of one
    /// unit or of all, and whether there were fewer than asked for.
    pub fn query(&self, timestamp_us: u64, before: u16, after: u16, unit: Option<&str>) -> (found: (
        Vec<ContextEntry>,
        bool,
    ))
        ensures
            is_context(
                lines_of(self@.lines, text::str_of(unit)),
                timestamp_us,
                before,
                after,
                found.0@,
                found.1,
            ),
    {
        let places = self.places_of(unit);
        let ghost lines = lines_of(self.entries@, text::str_of(unit));
        let mut out: Vec<ContextEntry> = Vec::new();
        if places.len() == 0 {
            return (out, before > 0 || after > 0);
        }
        let mut best: usize = 0;
        let mut best_distance: u64 = self.distance_at(&places, 0, timestamp_us);
        let mut i: usize = 1;
        while i < places.len()
            invariant
                lines == lines_of(self.entries@, text::str_of(unit)),
                places@.len() == lines.len(),
                forall|k: int|
                    0 <= k < places@.len() ==> #[trigger] places@[k] < self.entries@.len()
                        && self.entries@[places@[k] as int] == lines[k],
                best < i <= places@.len(),
                best_distance == distance(lines[best as int].timestamp_us, timestamp_us),
                forall|k: int|
                    0 <= k < i ==> distance((#[trigger] lines[k]).timestamp_us, timestamp_us)
                        >= best_distance,
                forall|k: int|
                    0 <= k < best ==> distance((#[trigger] lines[k]).timestamp_us, timestamp_us)
                        > best_distance,
            decreases places@.len() - i,
        {
            let d: u64 = self.distance_at(&places, i, timestamp_us);
            if d < best_distance {
                best_distance = d;
                best = i;
            }
            i += 1;
        }
        let left: usize = places.len() - best - 1;
        let truncated = best < before as usize || left < after as usize;
        let start: usize = if best < before as usize {
            0
        } else {
            best - before as usize
        };
        let end: usize = if left < after as usize {
            places.len()
        } else {
            best + after as usize + 1
        };
        let mut k: usize = start;
        while k < end
            invariant
                start <= k <= end <= places@.len(),
                places@.len() == lines.len(),
                forall|n: int|
                    0 <= n < places@.len() ==> #[trigger] places@[n] < self.entries@.len()
                        && self.entries@[places@[n] as int] == lines[n],
                out@ == lines.subrange(start as int, k as int),
            decreases end - k,
        {
            let at: usize = places[k];
            out.push(self.entries[at].duplicate());
            proof {
                assert(lines.subrange(start as int, k + 1) =~= lines.subrange(start as int, k as int).push(
                    lines[k as int],
                ));
            }
            k += 1;
        }
        proof {
            assert(is_closest(lines, timestamp_us, best as int));
            assert(out@ =~= around(lines, best as int, before, after));
        }
        (out, truncated)
    }

    /// How far the line at a place is from a time.
    fn distance_at(&self, places: &Vec<usize>, i: usize, timestamp_us: u64) -> (d: u64)
        requires
            i < places@.len(),
            places@[i as int] < self.entries@.len(),
        ensures
            d == distance(self.entries@[places@[i as int] as int].timestamp_us, timestamp_us),
    {
        let at: usize = places[i];
        let stamp: u64 = self.entries[at].timestamp_us;
        if stamp >= timestamp_us {
            stamp - timestamp_us
        } else {
            timestamp_us - stamp
        }
    }
}

/// The state that the pipeline and the connections share during a run of the daemon.
pub struct SharedState {
    snapshot: Snapshot,
    recent: VecDeque<AnomalyEvent>,
    recent_capacity: usize,
    context: ContextRing,
    last_anomaly_id: u64,
    session_id: u64,
    mutes_everywhere: HashMap<u64, u64>,
    mutes_by_unit: HashMap<u64, TextMap<u64>>,
    quiet_units: TextMap<u64>,
    quiet_pids: HashMap<i32, u64>,
    clients: u32,
    system: Option<proto::SystemSnapshot>,
}

/// What the shared state holds.
pub ghost struct StateView {
    /// The last snapshot.
    pub snapshot: Snapshot,
    /// The last anomalies, the oldest first.
    pub recent: Seq<AnomalyEvent>,
    /// How many anomalies are kept.
    pub recent_capacity: nat,
    /// The last lines.
    pub context: ContextView,
    /// The number of the last anomaly.
    pub last_anomaly_id: u64,
    /// The number of this run.
    pub session_id: u64,
    /// Until when a template is muted in all units.
    pub mutes_everywhere: Map<u64, u64>,
    /// Until when a template is muted in a unit.
    pub mutes_by_unit: Map<u64, Map<Seq<char>, u64>>,
    /// Until when the lines of a unit follow from an action of the daemon.
    pub quiet_units: Map<Seq<char>, u64>,
    /// Until when the lines of a process follow from an action of the daemon.
    pub quiet_pids: Map<i32, u64>,
    /// How many clients are connected.
    pub clients: u32,
    /// The machine, as it was measured last.
    pub system: Option<proto::SystemSnapshot>,
}

impl StateView {
    /// What holds of every state.
    pub open spec fn valid(self) -> bool {
        &&& self.recent_capacity >= 1
        &&& self.recent.len() <= self.recent_capacity
        &&& self.context.valid()
    }

    /// Whether a template is muted in a unit at a time.
    pub open spec fn muted(self, template_id: u64, unit: Option<Seq<char>>, timestamp_us: u64) -> bool {
        ||| self.mutes_everywhere.contains_key(template_id) && timestamp_us
            < self.mutes_everywhere[template_id]
        ||| unit matches Some(unit) && self.mutes_by_unit.contains_key(template_id)
            && self.mutes_by_unit[template_id].contains_key(unit) && timestamp_us
            < self.mutes_by_unit[template_id][unit]
    }

    /// Whether a line follows from an action of the daemon.
    pub open spec fn self_filtered(
        self,
        unit: Option<Seq<char>>,
        pid: Option<i32>,
        timestamp_us: u64,
    ) -> bool {
        ||| unit matches Some(unit) && self.quiet_units.contains_key(unit) && timestamp_us
            < self.quiet_units[unit]
        ||| pid matches Some(pid) && self.quiet_pids.contains_key(pid) && timestamp_us
            < self.quiet_pids[pid]
    }

    /// The state after a template was muted, in a unit or in all of them.
    pub open spec fn after_mute(self, template_id: u64, unit: Option<Seq<char>>, until_us: u64) -> StateView {
        match unit {
            None => StateView {
                mutes_everywhere: self.mutes_everywhere.insert(template_id, until_us),
                ..self
            },
            Some(unit) => {
                let before = if self.mutes_by_unit.contains_key(template_id) {
                    self.mutes_by_unit[template_id]
                } else {
                    Map::empty()
                };
                StateView {
                    mutes_by_unit: self.mutes_by_unit.insert(
                        template_id,
                        before.insert(unit, until_us),
                    ),
                    ..self
                }
            },
        }
    }
}

impl View for SharedState {
    type V = StateView;

    closed spec fn view(&self) -> StateView {
        StateView {
            snapshot: self.snapshot,
            recent: self.recent@,
            recent_capacity: self.recent_capacity as nat,
            context: self.context@,
            last_anomaly_id: self.last_anomaly_id,
            session_id: self.session_id,
            mutes_everywhere: self.mutes_everywhere@,
            mutes_by_unit: self.mutes_by_unit@.map_values(|units: TextMap<u64>| units@),
            quiet_units: self.quiet_units@,
            quiet_pids: self.quiet_pids@,
            clients: self.clients,
            system: self.system,
        }
    }
}

impl SharedState {
    /// Whether the state is in proper order.
    pub closed spec fn wf(&self) -> bool {
        &&& self@.valid()
        &&& self.quiet_units.wf()
        &&& forall|id: u64| #[trigger]
            self.mutes_by_unit@.contains_key(id) ==> self.mutes_by_unit@[id].wf()
    }

    /// A fresh state. The snapshot is what clients see before there is another.
    pub fn new(
        initial_snapshot: Snapshot,
        recent_capacity: usize,
        context_capacity: usize,
        session_id: u64,
    ) -> (state: SharedState)
        ensures
            state.wf(),
            state@.snapshot == initial_snapshot,
            state@.recent == Seq::<AnomalyEvent>::empty(),
            state@.recent_capacity == at_least_one(recent_capacity),
            state@.context.lines == Seq::<ContextEntry>::empty(),
            state@.context.capacity == at_least_one(context_capacity),
            state@.last_anomaly_id == 0,
            state@.session_id == session_id,
            state@.mutes_everywhere == Map::<u64, u64>::empty(),
            state@.mutes_by_unit == Map::<u64, Map<Seq<char>, u64>>::empty(),
            state@.quiet_units == Map::<Seq<char>, u64>::empty(),
            state@.quiet_pids == Map::<i32, u64>::empty(),
            state@.clients == 0,
            state@.system is None,
    {
        broadcast use vstd::std_specs::hash::group_hash_axioms;

        let state = SharedState {
            snapshot: initial_snapshot,
            recent: VecDeque::new(),
            recent_capacity: if recent_capacity >= 1 {
                recent_capacity
            } else {
                1
            },
            context: ContextRing::new(context_capacity),
            last_anomaly_id: 0,
            session_id,
            mutes_everywhere: HashMap::new(),
            mutes_by_unit: HashMap::new(),
            quiet_units: TextMap::new(),
            quiet_pids: HashMap::new(),
            clients: 0,
            system: None,
        };
        proof {
            assert(state@.mutes_by_unit =~= Map::<u64, Map<Seq<char>, u64>>::empty());
        }
        state
    }

    /// The number of this run of the daemon.
    pub fn session_id(&self) -> (id: u64)
        ensures
            id == self@.session_id,
    {
        self.session_id
    }

    /// Puts a new snapshot in the place of the last one.
    pub fn publish_snapshot(&mut self, snapshot: Snapshot)
        requires
            old(self).wf(),
        ensures
            final(self).wf(),
            final(self)@ == (StateView { snapshot, ..old(self)@ }),
    {
        self.snapshot = snapshot;
    }

    /// The last snapshot.
    pub fn latest_snapshot(&self) -> (snapshot: &Snapshot)
        ensures
            *snapshot == self@.snapshot,
    {
        &self.snapshot
    }

    /// Puts a new measurement of the machine in the place of the last one.
    pub fn set_system_snapshot(&mut self, system: proto::SystemSnapshot)
        requires
            old(self).wf(),
        ensures
            final(self).wf(),
            final(self)@ == (StateView { system: Some(system), ..old(self)@ }),
    {
        self.system = Some(system);
    }

    /// The machine, as it was measured last.
    pub fn latest_system_snapshot(&self) -> (system: Option<proto::SystemSnapshot>)
        ensures
            proto::same_machine(system, self@.system),
    {
        match &self.system {
            Some(system) => Some(system.duplicate()),
            None => None,
        }
    }

    /// The next number of an anomaly: one, two, and so on.
    pub fn next_anomaly_id(&mut self) -> (id: u64)
        requires
            old(self).wf(),
            old(self)@.last_anomaly_id < u64::MAX,
        ensures
            final(self).wf(),
            id == old(self)@.last_anomaly_id + 1,
            final(self)@ == (StateView { last_anomaly_id: id, ..old(self)@ }),
    {
        self.last_anomaly_id = self.last_anomaly_id + 1;
        self.last_anomaly_id
    }

    /// Keeps an anomaly for clients to come. If there are as many as are kept, the
    /// oldest leaves.
    pub fn publish_anomaly(&mut self, event: AnomalyEvent)
        requires
            old(self).wf(),
        ensures
            final(self).wf(),
            final(self)@ == (StateView {
                recent: pushed(old(self)@.recent, event, old(self)@.recent_capacity),
                ..old(self)@
            }),
    {
        let ghost before = self.recent@;
        if self.recent.len() >= self.recent_capacity {
            let _ = self.recent.pop_front();
            proof {
                assert(self.recent@ =~= before.skip(1));
            }
        }
        self.recent.push_back(event);
    }

    /// The last anomalies, the oldest first.
    pub fn recent_anomalies(&self) -> (events: Vec<AnomalyEvent>)
        ensures
            events@ == self@.recent,
    {
        let mut events: Vec<AnomalyEvent> = Vec::new();
        let mut i: usize = 0;
        while i < self.recent.len()
            invariant
                i <= self.recent@.len(),
                events@ == self.recent@.take(i as int),
            decreases self.recent@.len() - i,
        {
            events.push(self.recent[i].duplicate());
            proof {
                assert(self.recent@.take(i + 1) =~= self.recent@.take(i as int).push(
                    self.recent@[i as int],
                ));
            }
            i += 1;
        }
        proof {
            assert(self.recent@.take(i as int) =~= self.recent@);
        }
        events
    }

    /// Keeps a line for those who ask for it.
    pub fn push_context(&mut self, entry: ContextEntry)
        requires
            old(self).wf(),
        ensures
            final(self).wf(),
            final(self)@ == (StateView {
                context: ContextView {
                    lines: pushed(old(self)@.context.lines, entry, old(self)@.context.capacity),
                    ..old(self)@.context
                },
                ..old(self)@
            }),
    {
        self.context.push(entry);
    }

    /// The lines around a time.
    pub fn query_context(&self, timestamp_us: u64, before: u16, after: u16, unit: Option<&str>) -> (found:
        (Vec<ContextEntry>, bool))
        ensures
            is_context(
                lines_of(self@.context.lines, text::str_of(unit)),
                timestamp_us,
                before,
                after,
                found.0@,
                found.1,
            ),
    {
        self.context.query(timestamp_us, before, after, unit)
    }

    /// Keeps the anomalies of a template quiet until a time, in one unit or in all.
    pub fn mute(&mut self, template_id: u64, unit: Option<String>, until_us: u64)
        requires
            old(self).wf(),
        ensures
            final(self).wf(),
            final(self)@ == old(self)@.after_mute(template_id, text::text_of(unit), until_us),
    {
        broadcast use vstd::std_specs::hash::group_hash_axioms;

        let ghost before = self@;
        let ghost after = self@.after_mute(template_id, text::text_of(unit), until_us);
        match unit {
            None => {
                self.mutes_everywhere.insert(template_id, until_us);
            },
            Some(unit) => {
                let ghost held = self.mutes_by_unit@;
                let mut units: TextMap<u64> = match self.mutes_by_unit.remove(&template_id) {
                    Some(units) => units,
                    None => TextMap::new(),
                };
                units.insert(unit, until_us);
                let ghost filed = units;
                self.mutes_by_unit.insert(template_id, units);
                proof {
                    assert(self.mutes_by_unit@ =~= held.insert(template_id, filed));
                    assert(self@.mutes_by_unit =~= after.mutes_by_unit);
                }
            },
        }
    }

    /// Whether a template is muted in a unit at a time.
    pub fn is_muted(&self, template_id: u64, unit: Option<&str>, timestamp_us: u64) -> (muted: bool)
        requires
            self.wf(),
        ensures
            muted == self@.muted(template_id, text::str_of(unit), timestamp_us),
    {
        broadcast use vstd::std_specs::hash::group_hash_axioms;

        match self.mutes_everywhere.get(&template_id) {
            Some(until) => {
                if timestamp_us < *until {
                    return true;
                }
            },
            None => {},
        }
        match unit {
            None => false,
            Some(unit) => match self.mutes_by_unit.get(&template_id) {
                None => false,
                Some(units) => match units.get(unit) {
                    Some(until) => timestamp_us < *until,
                    None => false,
                },
            },
        }
    }

    /// Takes note that the lines of a unit follow from an action until a time.
    pub fn suppress_unit(&mut self, unit: &str, until_us: u64)
        requires
            old(self).wf(),
        ensures
            final(self).wf(),
            final(self)@ == (StateView {
                quiet_units: old(self)@.quiet_units.insert(unit@, until_us),
                ..old(self)@
            }),
    {
        self.quiet_units.insert(unit.to_string(), until_us);
    }

    /// Takes note that the lines of a process follow from an action until a time.
    pub fn suppress_pid(&mut self, pid: i32, until_us: u64)
        requires
            old(self).wf(),
        ensures
            final(self).wf(),
            final(self)@ == (StateView {
                quiet_pids: old(self)@.quiet_pids.insert(pid, until_us),
                ..old(self)@
            }),
    {
        broadcast use vstd::std_specs::hash::group_hash_axioms;

        self.quiet_pids.insert(pid, until_us);
    }

    /// Whether a line follows from an action of the daemon.
    pub fn is_self_filtered(&self, unit: Option<&str>, pid: Option<i32>, timestamp_us: u64) -> (filtered:
        bool)
        requires
            self.wf(),
        ensures
            filtered == self@.self_filtered(text::str_of(unit), pid, timestamp_us),
    {
        broadcast use vstd::std_specs::hash::group_hash_axioms;

        match unit {
            Some(unit) => match self.quiet_units.get(unit) {
                Some(until) => {
                    if timestamp_us < *until {
                        return true;
                    }
                },
                None => {},
            },
            None => {},
        }
        match pid {
            None => false,
            Some(pid) => match self.quiet_pids.get(&pid) {
                Some(until) => timestamp_us < *until,
                None => false,
            },
        }
    }

    /// How many clients are connected.
    pub fn client_count(&self) -> (count: u32)
        ensures
            count == self@.clients,
    {
        self.clients
    }

    /// Lets a client in, unless there are `max_clients` already.
    pub fn admit_client(&mut self, max_clients: u32) -> (admitted: bool)
        requires
            old(self).wf(),
        ensures
            final(self).wf(),
            admitted == (old(self)@.clients < max_clients),
            final(self)@ == (StateView {
                clients: if admitted {
                    (old(self)@.clients + 1) as u32
                } else {
                    old(self)@.clients
                },
                ..old(self)@
            }),
            (admitted, final(self)@) == old(self)@.after_knock(max_clients),
    {
        if self.clients < max_clients {
            self.clients = self.clients + 1;
            true
        } else {
            false
        }
    }

    /// Lets a client go.
    pub fn client_disconnected(&mut self)
        requires
            old(self).wf(),
            old(self)@.clients > 0,
        ensures
            final(self).wf(),
            final(self)@ == (StateView { clients: (old(self)@.clients - 1) as u32, ..old(self)@ }),
            final(self)@ == old(self)@.after_leaving(),
    {
        self.clients = self.clients - 1;
    }

    /// The answer to a request for the lines around a time. No more than `max_lines`
    /// are sent before it and after it.
    pub fn context_reply(
        &self,
        request_id: u64,
        timestamp_us: u64,
        before: u16,
        after: u16,
        unit: &Option<String>,
        max_lines: u16,
    ) -> (message: ServerMessage)
        ensures
            message matches ServerMessage::Context(reply) && reply.request_id == request_id
                && is_reply(
                lines_of(self@.context.lines, text::text_of(*unit)),
                timestamp_us,
                lower(before, max_lines),
                lower(after, max_lines),
                reply,
            ),
    {
        let before: u16 = if before < max_lines {
            before
        } else {
            max_lines
        };
        let after: u16 = if after < max_lines {
            after
        } else {
            max_lines
        };
        let wanted: Option<&str> = match unit {
            Some(unit) => Some(unit.as_str()),
            None => None,
        };
        let (entries, truncated) = self.query_context(timestamp_us, before, after, wanted);
        let mut lines: Vec<ContextLine> = Vec::new();
        let mut i: usize = 0;
        while i < entries.len()
            invariant
                i <= entries@.len(),
                lines@.len() == i,
                forall|k: int| 0 <= k < i ==> #[trigger] lines@[k] == wire::sent_line(entries@[k]),
            decreases entries@.len() - i,
        {
            lines.push(entries[i].to_line());
            i += 1;
        }
        let reply = ContextReply { request_id, lines, truncated };
        proof {
            assert(reply.lines@ =~= sent_lines(entries@));
            assert(text::str_of(wanted) == text::text_of(*unit));
            assert(is_context(
                lines_of(self@.context.lines, text::text_of(*unit)),
                timestamp_us,
                before,
                after,
                entries@,
                reply.truncated,
            ));
        }
        ServerMessage::Context(reply)
    }
}

/// The lower of two numbers.
pub open spec fn lower(a: u16, b: u16) -> u16 {
    if a < b {
        a
    } else {
        b
    }
}

/// Lines, as they are sent.
pub open spec fn sent_lines(entries: Seq<ContextEntry>) -> Seq<ContextLine> {
    Seq::new(entries.len(), |i: int| wire::sent_line(entries[i]))
}

/// Whether a reply holds the lines around a time.
pub open spec fn is_reply(
    lines: Seq<ContextEntry>,
    timestamp_us: u64,
    before: u16,
    after: u16,
    reply: ContextReply,
) -> bool {
    exists|found: Seq<ContextEntry>| #[trigger]
        is_context(lines, timestamp_us, before, after, found, reply.truncated) && reply.lines@
            == sent_lines(found)
}

/// A template that was muted is muted until the time given: in the unit given, or in
/// every unit where none was given.
pub proof fn muting_holds(
    state: StateView,
    template_id: u64,
    unit: Option<Seq<char>>,
    until_us: u64,
    other: Option<Seq<char>>,
    timestamp_us: u64,
)
    requires
        unit is None || other == unit,
        timestamp_us < until_us,
    ensures
        state.after_mute(template_id, unit, until_us).muted(template_id, other, timestamp_us),
{
}

/// Muting a template changes nothing for another template.
pub proof fn muting_keeps_other_templates(
    state: StateView,
    template_id: u64,
    unit: Option<Seq<char>>,
    until_us: u64,
    other: u64,
    any_unit: Option<Seq<char>>,
    timestamp_us: u64,
)
    requires
        other != template_id,
    ensures
        state.after_mute(template_id, unit, until_us).muted(other, any_unit, timestamp_us)
            == state.muted(other, any_unit, timestamp_us),
{
}

/// Muting a template in one unit changes nothing for other units.
pub proof fn muting_keeps_other_units(
    state: StateView,
    template_id: u64,
    unit: Seq<char>,
    until_us: u64,
    other: Option<Seq<char>>,
    timestamp_us: u64,
)
    requires
        other != Some(unit),
    ensures
        state.after_mute(template_id, Some(unit), until_us).muted(template_id, other, timestamp_us)
            == state.muted(template_id, other, timestamp_us),
{
}

/// A list after a number of items were pushed onto it, one after the other.
pub open spec fn pushed_all<T>(items: Seq<T>, more: Seq<T>, capacity: nat) -> Seq<T>
    decreases more.len(),
{
    if more.len() == 0 {
        items
    } else {
        pushed(pushed_all(items, more.drop_last(), capacity), more.last(), capacity)
    }
}

/// However many items are pushed onto a list that holds `capacity` of them, it holds
/// the newest ones in order.
pub proof fn the_newest_are_kept<T>(items: Seq<T>, more: Seq<T>, capacity: nat)
    requires
        1 <= capacity,
        items.len() <= capacity,
    ensures
        pushed_all(items, more, capacity) == (items + more).skip(
            if items.len() + more.len() >= capacity {
                items.len() + more.len() - capacity
            } else {
                0
            },
        ),
        pushed_all(items, more, capacity).len() <= capacity,
    decreases more.len(),
{
    let all = items + more;
    if more.len() == 0 {
        assert(all.skip(0) =~= items);
    } else {
        let fewer = more.drop_last();
        the_newest_are_kept(items, fewer, capacity);
        assert((items + fewer).push(more.last()) =~= all);
        let before = pushed_all(items, fewer, capacity);
        if before.len() >= capacity {
            assert(before.skip(1).push(more.last()) =~= all.skip(all.len() - capacity));
        } else {
            assert(before.push(more.last()) =~= all.skip(0));
        }
    }
}

impl StateView {
    /// The state after a client has asked to be let in, and whether it was.
    pub open spec fn after_knock(self, max_clients: u32) -> (bool, StateView) {
        if self.clients < max_clients {
            (true, StateView { clients: (self.clients + 1) as u32, ..self })
        } else {
            (false, self)
        }
    }

    /// The state after a client has left.
    pub open spec fn after_leaving(self) -> StateView {
        StateView { clients: (self.clients - 1) as u32, ..self }
    }
}

/// There are never more clients than may be: one is let in just while there are fewer, and
/// then counts; one that leaves makes room for another. Nothing else changes.
pub proof fn clients_are_counted(state: StateView, max_clients: u32)
    ensures
        ({
            let (admitted, after) = state.after_knock(max_clients);
            &&& state.clients <= max_clients ==> after.clients <= max_clients
            &&& admitted <==> state.clients < max_clients
            &&& admitted ==> after.clients == state.clients + 1 && after.after_leaving() == state
            &&& !admitted ==> after == state
            &&& state.clients > 0 && state.clients == max_clients
                ==> state.after_leaving().after_knock(max_clients) == (true, state)
        }),
{
}

/// The lines around a time are a run of the lines, in their order. One of them is as close
/// to the time as any line is, and closer than all before it; as many as asked for stand
/// before it and after it, or as many as there are; and the answer is marked as cut just if it is shorter than asked
/// for.
pub proof fn an_answer_is_a_run_around_the_time(
    lines: Seq<ContextEntry>,
    timestamp_us: u64,
    before: u16,
    after: u16,
    found: Seq<ContextEntry>,
    truncated: bool,
) -> (place: int)
    requires
        lines.len() > 0,
        is_context(lines, timestamp_us, before, after, found, truncated),
    ensures
        0 <= place < lines.len(),
        forall|i: int|
            0 <= i < lines.len() ==> {
                let here = lines[place].timestamp_us - timestamp_us;
                let there = (#[trigger] lines[i]).timestamp_us - timestamp_us;
                here * here <= there * there && (i < place ==> here * here < there * there)
            },
        ({
            let start = if place >= before {
                place - before
            } else {
                0
            };
            let end = if place + after < lines.len() {
                place + after + 1
            } else {
                lines.len() as int
            };
            &&& found.len() == end - start
            &&& forall|i: int| 0 <= i < found.len() ==> #[trigger] found[i] == lines[start + i]
        }),
        truncated <==> found.len() < before + after + 1,
{
    let place = choose|place: int| #[trigger]
        is_closest(lines, timestamp_us, place) && found == around(lines, place, before, after)
            && truncated == falls_short(lines, place, before, after);
    assert forall|i: int| 0 <= i < lines.len() implies ({
        let here = lines[place].timestamp_us - timestamp_us;
        let there = (#[trigger] lines[i]).timestamp_us - timestamp_us;
        here * here <= there * there && (i < place ==> here * here < there * there)
    }) by {
        let here = lines[place].timestamp_us - timestamp_us;
        let there = lines[i].timestamp_us - timestamp_us;
        let near = distance(lines[place].timestamp_us, timestamp_us);
        let far = distance(lines[i].timestamp_us, timestamp_us);
        assert(far >= near);
        assert(here * here == near * near) by (nonlinear_arith)
            requires
                here == near || here == -near,
        ;
        assert(there * there == far * far) by (nonlinear_arith)
            requires
                there == far || there == -far,
        ;
        assert(near * near <= far * far) by (nonlinear_arith)
            requires
                0 <= near <= far,
        ;
        if i < place {
            assert(near * near < far * far) by (nonlinear_arith)
                requires
                    0 <= near < far,
            ;
        }
    }
    place
}

/// Without lines nothing is found, and that is short of what was asked for unless nothing
/// was.
pub proof fn without_lines_nothing_is_found(
    timestamp_us: u64,
    before: u16,
    after: u16,
    found: Seq<ContextEntry>,
    truncated: bool,
)
    requires
        is_context(Seq::empty(), timestamp_us, before, after, found, truncated),
    ensures
        found.len() == 0,
        truncated <==> before + after > 0,
{
}

/// The lines of a unit are those that name it, in their order; where no unit is given,
/// they are all lines.
pub proof fn the_lines_of_a_unit_are_those_that_name_it(
    lines: Seq<ContextEntry>,
    line: ContextEntry,
    unit: Seq<char>,
)
    ensures
        lines_of(lines, None) == lines,
        lines_of(Seq::empty(), Some(unit)).len() == 0,
        lines_of(lines.push(line), Some(unit)) == if line.unit matches Some(name) && name@ == unit {
            lines_of(lines, Some(unit)).push(line)
        } else {
            lines_of(lines, Some(unit))
        },
    decreases lines.len(),
{
    assert(lines.push(line).drop_last() =~= lines);
    if lines.len() > 0 {
        the_lines_of_a_unit_are_those_that_name_it(lines.drop_last(), lines.last(), unit);
        assert(lines.drop_last().push(lines.last()) =~= lines);
    } else {
        assert(lines_of(lines, None) =~= lines);
    }
}

/// A mute ends at the time given: from then on only what was muted otherwise is.
pub proof fn mutes_end(
    state: StateView,
    template_id: u64,
    unit: Seq<char>,
    until_us: u64,
    timestamp_us: u64,
)
    ensures
        ({
            let after = state.after_mute(template_id, Some(unit), until_us);
            &&& timestamp_us < until_us ==> after.muted(template_id, Some(unit), timestamp_us)
            &&& timestamp_us >= until_us ==> (after.muted(template_id, Some(unit), timestamp_us)
                <==> state.muted(template_id, None, timestamp_us))
        }),
        ({
            let after = state.after_mute(template_id, None, until_us);
            after.muted(template_id, None, timestamp_us) <==> timestamp_us < until_us
        }),
{
}

/// No more lines are asked for than a client may have, before the time and after it: the
/// reply holds at most twice as many and one more, each as it was written.
pub proof fn replies_are_bounded(
    lines: Seq<ContextEntry>,
    timestamp_us: u64,
    before: u16,
    after: u16,
    max_lines: u16,
    reply: ContextReply,
)
    requires
        is_reply(lines, timestamp_us, lower(before, max_lines), lower(after, max_lines), reply),
    ensures
        reply.lines@.len() <= 2 * max_lines + 1,
        reply.lines@.len() <= before + after + 1,
        before <= max_lines ==> lower(before, max_lines) == before,
        forall|i: int|
            0 <= i < reply.lines@.len() ==> exists|k: int|
                0 <= k < lines.len() && (#[trigger] lines[k]).timestamp_us == (
                #[trigger] reply.lines@[i]).timestamp_us && lines[k].message
                    == reply.lines@[i].message && lines[k].unit == reply.lines@[i].unit,
{
    let b = lower(before, max_lines);
    let a = lower(after, max_lines);
    let found = choose|found: Seq<ContextEntry>| #[trigger]
        is_context(lines, timestamp_us, b, a, found, reply.truncated) && reply.lines@
            == sent_lines(found);
    if lines.len() > 0 {
        let place = an_answer_is_a_run_around_the_time(
            lines,
            timestamp_us,
            b,
            a,
            found,
            reply.truncated,
        );
        let start = if place >= b {
            place - b
        } else {
            0
        };
        assert forall|i: int| 0 <= i < reply.lines@.len() implies exists|k: int|
            0 <= k < lines.len() && (#[trigger] lines[k]).timestamp_us == (
            #[trigger] reply.lines@[i]).timestamp_us && lines[k].message == reply.lines@[i].message
                && lines[k].unit == reply.lines@[i].unit by {
            assert(found[i] == lines[start + i]);
            assert(lines[start + i].timestamp_us == reply.lines@[i].timestamp_us);
        }
    }
}

/// What is published is what is read next: the last snapshot, the last measurement, and
/// the last anomaly, which is kept with as many before it as fit.
pub proof fn readers_see_what_was_published(
    state: &mut SharedState,
    snapshot: Snapshot,
    measured: &mut SharedState,
    system: proto::SystemSnapshot,
    later: &SharedState,
    latest: &Snapshot,
    machine: Option<proto::SystemSnapshot>,
)
    requires
        call_ensures(SharedState::publish_snapshot, (state, snapshot), ()),
        old(measured)@ == final(state)@,
        call_ensures(SharedState::set_system_snapshot, (measured, system), ()),
        later@ == final(measured)@,
        call_ensures(SharedState::latest_snapshot, (later,), latest),
        call_ensures(SharedState::latest_system_snapshot, (later,), machine),
    ensures
        *latest == snapshot,
        machine matches Some(found) && found.timestamp_us == system.timestamp_us && found.memory
            == system.memory && found.load == system.load && found.disks@ == system.disks@,
        later@.recent == old(state)@.recent,
        later@.clients == old(state)@.clients,
        later@.context == old(state)@.context,
{
}

/// Anomalies are numbered from one on, and are kept in the order in which they come: the
/// last one stands last, and the first one leaves when there are too many.
pub proof fn anomalies_are_kept_in_order(
    state: &mut SharedState,
    id: u64,
    next: &mut SharedState,
    event: AnomalyEvent,
    later: &SharedState,
    events: Vec<AnomalyEvent>,
)
    requires
        old(state)@.last_anomaly_id < u64::MAX,
        call_ensures(SharedState::next_anomaly_id, (state,), id),
        old(next)@ == final(state)@,
        old(next)@.recent_capacity >= 1,
        old(next)@.recent.len() <= old(next)@.recent_capacity,
        call_ensures(SharedState::publish_anomaly, (next, event), ()),
        later@ == final(next)@,
        call_ensures(SharedState::recent_anomalies, (later,), events),
    ensures
        id == old(state)@.last_anomaly_id + 1,
        later@.last_anomaly_id == id,
        events@.len() > 0,
        events@.last() == event,
        events@.len() <= old(next)@.recent_capacity,
        old(next)@.recent.len() < old(next)@.recent_capacity ==> events@.drop_last()
            == old(next)@.recent,
        old(next)@.recent.len() == old(next)@.recent_capacity ==> events@.drop_last()
            == old(next)@.recent.skip(1),
{
    let before = old(next)@.recent;
    assert(events@.drop_last() =~= if before.len() < old(next)@.recent_capacity {
        before
    } else {
        before.skip(1)
    });
}

/// A state that has just been made has nothing to tell but its first snapshot, and as much
/// room as was asked for.
pub proof fn a_new_state_is_empty(
    snapshot: Snapshot,
    recent_capacity: usize,
    context_capacity: usize,
    session_id: u64,
    state: SharedState,
    count: u32,
    id: u64,
)
    requires
        call_ensures(
            SharedState::new,
            (snapshot, recent_capacity, context_capacity, session_id),
            state,
        ),
        call_ensures(SharedState::client_count, (&state,), count),
        call_ensures(SharedState::session_id, (&state,), id),
    ensures
        count == 0,
        id == session_id,
        state@.snapshot == snapshot,
        state@.recent.len() == 0,
        state@.context.lines.len() == 0,
        state@.last_anomaly_id == 0,
        recent_capacity >= 1 ==> state@.recent_capacity == recent_capacity,
        context_capacity >= 1 ==> state@.context.capacity == context_capacity,
        recent_capacity == 0 ==> state@.recent_capacity == 1,
        state@.mutes_everywhere.dom() =~= Set::<u64>::empty(),
        state@.mutes_by_unit.dom() =~= Set::<u64>::empty(),
        state@.quiet_units.dom() =~= Set::<Seq<char>>::empty(),
        state@.quiet_pids.dom() =~= Set::<i32>::empty(),
        state@.system is None,
{
}

/// Clients are let in up to the limit, and each that was let in and leaves is forgotten.
pub proof fn clients_come_and_go(
    state: &mut SharedState,
    max_clients: u32,
    admitted: bool,
    next: &mut SharedState,
)
    requires
        call_ensures(SharedState::admit_client, (state, max_clients), admitted),
        old(next)@ == final(state)@,
        call_ensures(SharedState::client_disconnected, (next,), ()),
    ensures
        admitted <==> old(state)@.clients < max_clients,
        admitted ==> final(state)@.clients == old(state)@.clients + 1,
        admitted ==> final(next)@ == old(state)@,
        !admitted ==> final(state)@ == old(state)@,
        old(state)@.clients <= max_clients ==> final(state)@.clients <= max_clients,
{
}

/// What is muted is found to be muted, and what follows from an action is found to follow
/// from it, up to the time given and not from then on; what is about another unit or
/// process is not touched.
pub proof fn quiet_times_are_kept(
    state: &mut SharedState,
    unit: &str,
    until_us: u64,
    next: &mut SharedState,
    pid: i32,
    until_pid_us: u64,
    last: &mut SharedState,
    template_id: u64,
    until_mute_us: u64,
    later: &SharedState,
    timestamp_us: u64,
    by_unit: bool,
    by_pid: bool,
    muted: bool,
)
    requires
        old(state)@.quiet_pids.dom() =~= Set::<i32>::empty(),
        call_ensures(SharedState::suppress_unit, (state, unit, until_us), ()),
        old(next)@ == final(state)@,
        call_ensures(SharedState::suppress_pid, (next, pid, until_pid_us), ()),
        old(last)@ == final(next)@,
        call_ensures(SharedState::mute, (last, template_id, None, until_mute_us), ()),
        later@ == final(last)@,
        call_ensures(SharedState::is_self_filtered, (later, Some(unit), None, timestamp_us), by_unit),
        call_ensures(SharedState::is_self_filtered, (later, None, Some(pid), timestamp_us), by_pid),
        call_ensures(SharedState::is_muted, (later, template_id, None, timestamp_us), muted),
    ensures
        by_unit <==> timestamp_us < until_us,
        by_pid <==> timestamp_us < until_pid_us,
        muted <==> timestamp_us < until_mute_us,
        later@.recent == old(state)@.recent,
        later@.context == old(state)@.context,
{
}

/// A line that is kept is found by those who ask for its time and its unit.
pub proof fn a_kept_line_is_found(
    state: &mut SharedState,
    entry: ContextEntry,
    later: &SharedState,
    unit: Option<&str>,
    found: (Vec<ContextEntry>, bool),
)
    requires
        old(state)@.context.capacity >= 1,
        old(state)@.context.lines.len() == 0,
        call_ensures(SharedState::push_context, (state, entry), ()),
        later@ == final(state)@,
        entry.unit matches Some(name) && text::str_of(unit) == Some(name@),
        call_ensures(SharedState::query_context, (later, entry.timestamp_us, 0u16, 0u16, unit), found),
    ensures
        found.0@ == seq![entry],
        !found.1,
{
    let lines = later@.context.lines;
    assert(lines =~= seq![entry]);
    let name = match entry.unit {
        Some(name) => name@,
        None => Seq::empty(),
    };
    the_lines_of_a_unit_are_those_that_name_it(Seq::empty(), entry, name);
    assert(Seq::<ContextEntry>::empty().push(entry) =~= lines);
    let own = lines_of(lines, Some(name));
    assert(own =~= seq![entry]);
    let place = an_answer_is_a_run_around_the_time(
        own,
        entry.timestamp_us,
        0,
        0,
        found.0@,
        found.1,
    );
    assert(place == 0);
    assert(found.0@ =~= seq![entry]);
}

/// A ring of lines holds the last ones, as many as fit, and tells how many they are.
pub proof fn a_ring_holds_the_last_lines(
    capacity: usize,
    fresh: ContextRing,
    ring: &mut ContextRing,
    entry: ContextEntry,
    later: &ContextRing,
    len: usize,
    empty: bool,
    timestamp_us: u64,
    before: u16,
    after: u16,
    unit: Option<&str>,
    found: (Vec<ContextEntry>, bool),
)
    requires
        call_ensures(ContextRing::new, (capacity,), fresh),
        old(ring)@.capacity >= 1,
        old(ring)@.lines.len() <= old(ring)@.capacity,
        call_ensures(ContextRing::push, (ring, entry), ()),
        later@ == final(ring)@,
        call_ensures(ContextRing::len, (later,), len),
        call_ensures(ContextRing::is_empty, (later,), empty),
        call_ensures(ContextRing::query, (later, timestamp_us, before, after, unit), found),
    ensures
        fresh@.lines.len() == 0,
        capacity >= 1 ==> fresh@.capacity == capacity,
        capacity == 0 ==> fresh@.capacity == 1,
        final(ring)@.lines.last() == entry,
        old(ring)@.lines.len() < old(ring)@.capacity ==> final(ring)@.lines
            == old(ring)@.lines.push(entry),
        old(ring)@.lines.len() == old(ring)@.capacity ==> final(ring)@.lines
            == old(ring)@.lines.skip(1).push(entry),
        final(ring)@.capacity == old(ring)@.capacity,
        len == later@.lines.len(),
        empty <==> len == 0,
        is_context(
            lines_of(later@.lines, text::str_of(unit)),
            timestamp_us,
            before,
            after,
            found.0@,
            found.1,
        ),
{
}

} // verus!
