//! The state of the machine: load, memory, file systems, temperatures and units.
//! Floating-point numbers are held by their bits.

use vstd::prelude::*;

use crate::text;

verus! {

/// How busy the processor is.
#[derive(Debug, PartialEq)]
pub struct CpuSnapshot {
    /// All cores together, in percent.
    pub global_usage_percent: u32,
    /// Each core, in percent.
    pub per_core_usage_percent: Vec<u32>,
}

/// How much memory is in use.
#[derive(Debug, Clone, Copy, PartialEq, Eq, Structural)]
pub struct MemorySnapshot {
    /// All of it, in bytes.
    pub total_bytes: u64,
    /// What is in use, in bytes.
    pub used_bytes: u64,
    /// What is in use, in percent.
    pub used_percent: u32,
}

/// The load averages.
#[derive(Debug, Clone, Copy, PartialEq, Eq, Structural)]
pub struct LoadSnapshot {
    /// Over one minute.
    pub one: u64,
    /// Over five minutes.
    pub five: u64,
    /// Over a quarter of an hour.
    pub fifteen: u64,
}

/// How full a file system is.
#[derive(Debug, PartialEq)]
pub struct DiskSnapshot {
    /// Where it is mounted.
    pub mount_point: String,
    /// Its size in bytes.
    pub total_bytes: u64,
    /// What is free, in bytes.
    pub available_bytes: u64,
    /// What is in use, in percent.
    pub used_percent: u32,
}

/// A temperature.
#[derive(Debug, PartialEq)]
pub struct TemperatureSnapshot {
    /// What the driver calls the sensor.
    pub label: String,
    /// In degrees Celsius.
    pub celsius: u32,
}

/// The state of a systemd unit.
#[derive(Debug, PartialEq)]
pub struct UnitStatus {
    /// The name of the unit.
    pub name: String,
    /// Its `ActiveState`.
    pub active_state: String,
    /// Its `SubState`.
    pub sub_state: String,
}

/// The state of the machine at one time.
#[derive(Debug, PartialEq)]
pub struct SystemSnapshot {
    /// When it was taken, in microseconds since the epoch.
    pub timestamp_us: u64,
    /// The processor.
    pub cpu: CpuSnapshot,
    /// The memory.
    pub memory: MemorySnapshot,
    /// The load.
    pub load: LoadSnapshot,
    /// The file systems that are watched.
    pub disks: Vec<DiskSnapshot>,
    /// The temperatures that are known.
    pub temperatures: Vec<TemperatureSnapshot>,
    /// The units that are watched.
    pub units: Vec<UnitStatus>,
}

/// A file system as it was measured.
#[derive(Debug)]
pub struct DiskSpace {
    /// Where it is mounted.
    pub mount_point: String,
    /// Its size in bytes.
    pub total_bytes: u64,
    /// What is free, in bytes.
    pub available_bytes: u64,
}

/// What is in use of a file system, in bytes. The two figures need not come from
/// the same moment.
pub open spec fn used_bytes(total: u64, available: u64) -> u64 {
    if available >= total {
        0
    } else {
        (total - available) as u64
    }
}

/// Whether a file system is watched: where no mount point is given, all are.
pub open spec fn is_watched(mount_point: Seq<char>, watched: Seq<Seq<char>>) -> bool {
    watched.len() == 0 || watched.contains(mount_point)
}

/// The file systems that are watched, in order.
pub open spec fn watched_of(disks: Seq<DiskSpace>, watched: Seq<Seq<char>>) -> Seq<DiskSpace>
    decreases disks.len(),
{
    if disks.len() == 0 {
        Seq::empty()
    } else {
        let before = watched_of(disks.drop_last(), watched);
        if is_watched(disks.last().mount_point@, watched) {
            before.push(disks.last())
        } else {
            before
        }
    }
}

/// Whether a snapshot says of a file system what was measured, given what the
/// share in percent is computed with.
pub open spec fn is_disk_snapshot<F: Fn(u64, u64) -> u32>(
    snapshot: DiskSnapshot,
    disk: DiskSpace,
    percent: F,
) -> bool {
    &&& snapshot.mount_point == disk.mount_point
    &&& snapshot.total_bytes == disk.total_bytes
    &&& snapshot.available_bytes == disk.available_bytes
    &&& call_ensures(
        percent,
        (disk.total_bytes, used_bytes(disk.total_bytes, disk.available_bytes)),
        snapshot.used_percent,
    )
}

/// The snapshots of the file systems that are watched. `percent` computes the share
/// in percent of what is in use.
pub fn watched_disks<F: Fn(u64, u64) -> u32>(
    disks: Vec<DiskSpace>,
    watched: &Vec<String>,
    percent: F,
) -> (snapshots: Vec<DiskSnapshot>)
    requires
        forall|total: u64, used: u64| #[trigger] call_requires(percent, (total, used)),
    ensures
        snapshots@.len() == watched_of(disks@, text::texts(watched@)).len(),
        forall|i: int|
            0 <= i < snapshots@.len() ==> is_disk_snapshot(
                #[trigger] snapshots@[i],
                watched_of(disks@, text::texts(watched@))[i],
                percent,
            ),
{
    let ghost all = disks@;
    let mut snapshots: Vec<DiskSnapshot> = Vec::new();
    for disk in it: disks.into_iter()
        invariant
            it.seq() == all,
            forall|total: u64, used: u64| #[trigger] call_requires(percent, (total, used)),
            snapshots@.len() == watched_of(all.take(it.index()), text::texts(watched@)).len(),
            forall|i: int|
                0 <= i < snapshots@.len() ==> is_disk_snapshot(
                    #[trigger] snapshots@[i],
                    watched_of(all.take(it.index()), text::texts(watched@))[i],
                    percent,
                ),
    {
        proof {
            assert(all.take(it.index() + 1).drop_last() =~= all.take(it.index()));
        }
        if watched.len() == 0 || text::holds_text(watched, disk.mount_point.as_str()) {
            let used: u64 = if disk.available_bytes >= disk.total_bytes {
                0
            } else {
                disk.total_bytes - disk.available_bytes
            };
            let used_percent: u32 = percent(disk.total_bytes, used);
            snapshots.push(
                DiskSnapshot {
                    mount_point: disk.mount_point,
                    total_bytes: disk.total_bytes,
                    available_bytes: disk.available_bytes,
                    used_percent,
                },
            );
        }
    }
    proof {
        assert(all.take(all.len() as int) =~= all);
    }
    snapshots
}

/// The sensors that give a temperature, with it, in order.
pub open spec fn known_of(readings: Seq<(String, Option<u32>)>) -> Seq<TemperatureSnapshot>
    decreases readings.len(),
{
    if readings.len() == 0 {
        Seq::empty()
    } else {
        let before = known_of(readings.drop_last());
        match readings.last().1 {
            Some(celsius) => before.push(
                TemperatureSnapshot { label: readings.last().0, celsius },
            ),
            None => before,
        }
    }
}

/// The temperatures that are known. A sensor that gives none is left out.
pub fn known_temperatures(readings: Vec<(String, Option<u32>)>) -> (known: Vec<TemperatureSnapshot>)
    ensures
        known@ == known_of(readings@),
{
    let ghost all = readings@;
    let mut known: Vec<TemperatureSnapshot> = Vec::new();
    for reading in it: readings.into_iter()
        invariant
            it.seq() == all,
            known@ == known_of(all.take(it.index())),
    {
        proof {
            assert(all.take(it.index() + 1).drop_last() =~= all.take(it.index()));
        }
        match reading.1 {
            Some(celsius) => {
                known.push(TemperatureSnapshot { label: reading.0, celsius });
            },
            None => {},
        }
    }
    proof {
        assert(all.take(all.len() as int) =~= all);
    }
    known
}

/// A unit as systemd lists it.
#[derive(Debug)]
pub struct RawUnitEntry {
    /// The name of the unit.
    pub name: String,
    /// What it is for.
    pub description: String,
    /// Its `LoadState`.
    pub load_state: String,
    /// Its `ActiveState`.
    pub active_state: String,
    /// Its `SubState`.
    pub sub_state: String,
}

/// The states of the units that are watched, in the order in which systemd lists
/// them.
pub open spec fn watched_units_of(raw: Seq<RawUnitEntry>, watched: Seq<Seq<char>>) -> Seq<UnitStatus>
    decreases raw.len(),
{
    if raw.len() == 0 {
        Seq::empty()
    } else {
        let before = watched_units_of(raw.drop_last(), watched);
        let entry = raw.last();
        if watched.contains(entry.name@) {
            before.push(
                UnitStatus {
                    name: entry.name,
                    active_state: entry.active_state,
                    sub_state: entry.sub_state,
                },
            )
        } else {
            before
        }
    }
}

/// The states of the units that are watched. A unit that systemd does not list is
/// left out.
pub fn filter_watched_units(raw: Vec<RawUnitEntry>, watched: &Vec<String>) -> (units: Vec<UnitStatus>)
    ensures
        units@ == watched_units_of(raw@, text::texts(watched@)),
{
    let ghost all = raw@;
    let mut units: Vec<UnitStatus> = Vec::new();
    for entry in it: raw.into_iter()
        invariant
            it.seq() == all,
            units@ == watched_units_of(all.take(it.index()), text::texts(watched@)),
    {
        proof {
            assert(all.take(it.index() + 1).drop_last() =~= all.take(it.index()));
        }
        if text::holds_text(watched, entry.name.as_str()) {
            units.push(
                UnitStatus {
                    name: entry.name,
                    active_state: entry.active_state,
                    sub_state: entry.sub_state,
                },
            );
        }
    }
    proof {
        assert(all.take(all.len() as int) =~= all);
    }
    units
}

/// Every unit that is reported is watched, and is one that systemd listed.
pub proof fn reported_units_are_watched(raw: Seq<RawUnitEntry>, watched: Seq<Seq<char>>, i: int)
    requires
        0 <= i < watched_units_of(raw, watched).len(),
    ensures
        watched.contains(watched_units_of(raw, watched)[i].name@),
        exists|k: int| 0 <= k < raw.len() && (#[trigger] raw[k]).name == watched_units_of(raw, watched)[i].name,
    decreases raw.len(),
{
    let before = watched_units_of(raw.drop_last(), watched);
    if i < before.len() {
        reported_units_are_watched(raw.drop_last(), watched, i);
        let k = choose|k: int| 0 <= k < raw.len() - 1 && (#[trigger] raw.drop_last()[k]).name == before[i].name;
        assert(raw[k] == raw.drop_last()[k]);
    } else {
        assert(raw[raw.len() - 1].name == watched_units_of(raw, watched)[i].name);
    }
}

/// What is in use of a file system and what is free make up its size; where more is said
/// to be free than there is, nothing is in use.
pub proof fn used_and_free_make_up_the_size(total: u64, available: u64)
    ensures
        available <= total ==> used_bytes(total, available) + available == total,
        available > total ==> used_bytes(total, available) == 0,
{
}

/// Of the file systems those are reported that are on the list, in their order, and all
/// where there is no list.
pub proof fn the_watched_disks_are_reported(
    disks: Seq<DiskSpace>,
    disk: DiskSpace,
    watched: Seq<Seq<char>>,
)
    ensures
        watched_of(Seq::empty(), watched).len() == 0,
        watched.len() == 0 || watched.contains(disk.mount_point@) ==> watched_of(
            disks.push(disk),
            watched,
        ) == watched_of(disks, watched).push(disk),
        watched.len() > 0 && !watched.contains(disk.mount_point@) ==> watched_of(
            disks.push(disk),
            watched,
        ) == watched_of(disks, watched),
{
    assert(disks.push(disk).drop_last() =~= disks);
}

/// A report of a file system names it and its figures, and its share in percent is
/// computed from its size and what is in use of it.
pub proof fn a_disk_is_reported_with_its_figures<F: Fn(u64, u64) -> u32>(
    snapshot: DiskSnapshot,
    disk: DiskSpace,
    percent: F,
)
    requires
        is_disk_snapshot(snapshot, disk, percent),
        disk.available_bytes <= disk.total_bytes,
    ensures
        snapshot.mount_point == disk.mount_point,
        snapshot.total_bytes == disk.total_bytes,
        snapshot.available_bytes == disk.available_bytes,
        call_ensures(
            percent,
            (disk.total_bytes, (disk.total_bytes - disk.available_bytes) as u64),
            snapshot.used_percent,
        ),
{
}

/// Every sensor that gives a temperature is reported with it, in order, and no other.
pub proof fn sensors_with_a_temperature_are_reported(
    readings: Seq<(String, Option<u32>)>,
    label: String,
    celsius: u32,
)
    ensures
        known_of(Seq::empty()).len() == 0,
        known_of(readings.push((label, None))) == known_of(readings),
        known_of(readings.push((label, Some(celsius)))) == known_of(readings).push(
            TemperatureSnapshot { label, celsius },
        ),
{
    assert(readings.push((label, None)).drop_last() =~= readings);
    assert(readings.push((label, Some(celsius))).drop_last() =~= readings);
}

/// Every unit that is listed and watched is reported with its states, in order, and no
/// other.
pub proof fn listed_units_that_are_watched_are_reported(
    raw: Seq<RawUnitEntry>,
    entry: RawUnitEntry,
    watched: Seq<Seq<char>>,
)
    ensures
        watched_units_of(Seq::empty(), watched).len() == 0,
        !watched.contains(entry.name@) ==> watched_units_of(raw.push(entry), watched)
            == watched_units_of(raw, watched),
        watched.contains(entry.name@) ==> watched_units_of(raw.push(entry), watched).len()
            == watched_units_of(raw, watched).len() + 1,
        watched.contains(entry.name@) ==> ({
            let reported = watched_units_of(raw.push(entry), watched).last();
            reported.name == entry.name && reported.active_state == entry.active_state
                && reported.sub_state == entry.sub_state
        }),
{
    assert(raw.push(entry).drop_last() =~= raw);
}

/// What is reported of the machine is what was measured of what is watched.
pub proof fn reports_are_of_what_is_watched<F: Fn(u64, u64) -> u32>(
    disks: Vec<DiskSpace>,
    watched: &Vec<String>,
    percent: F,
    snapshots: Vec<DiskSnapshot>,
    readings: Vec<(String, Option<u32>)>,
    known: Vec<TemperatureSnapshot>,
    raw: Vec<RawUnitEntry>,
    units: Vec<UnitStatus>,
)
    requires
        call_ensures(watched_disks::<F>, (disks, watched, percent), snapshots),
        call_ensures(known_temperatures, (readings,), known),
        call_ensures(filter_watched_units, (raw, watched), units),
    ensures
        snapshots@.len() == watched_of(disks@, text::texts(watched@)).len(),
        known@ == known_of(readings@),
        units@ == watched_units_of(raw@, text::texts(watched@)),
{
}

} // verus!
