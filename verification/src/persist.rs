//! What is written to the baseline database and read from it: the rows of its
//! tables, its schema version, and the names of the files beside it.

use vstd::prelude::*;

use crate::bytes;
use crate::histogram::{CountHistogram, HistogramView};
use crate::profile::{ProfileView, UnitProfile};
use crate::slot::Slot;
use crate::store;
use crate::store::{BaselineKey, BaselineSnapshot};
use crate::tables;
use crate::template;
use crate::template::{ClusterView, RecordView, RegistryView, TemplateId, TemplateRecord, TemplateSnapshot};
use crate::text;

verus! {

/// The schema version of the files that this program writes.
pub const SCHEMA_VERSION: u32 = 1;

/// The key of the schema version in the table of facts about the file.
pub const META_SCHEMA_VERSION: &'static str = "schema_version";

/// The key of the host name.
pub const META_HOSTNAME: &'static str = "hostname";

/// The key of the time at which the file was made.
pub const META_CREATED_US: &'static str = "created_us";

/// The key of the time at which the file was last written.
pub const META_LAST_SNAPSHOT_US: &'static str = "last_snapshot_us";

/// Why a baseline file cannot be used.
#[derive(Debug, PartialEq)]
pub enum PersistError {
    /// The database failed.
    Db(String),
    /// A file operation beside the database failed.
    Io(String),
    /// A stored value cannot be encoded or decoded.
    Json(String),
    /// The file comes from a newer program.
    NewerSchema {
        /// The version of the file.
        found: u32,
        /// The newest version that is understood.
        supported: u32,
    },
    /// There is no way from this version to the current one.
    NoMigrationPath(u32),
    /// The facts about the file make no sense.
    InvalidMeta(String),
}

impl PersistError {
    /// The error in words.
    pub open spec fn words(self) -> Seq<char> {
        match self {
            PersistError::Db(reason) => "Datenbankfehler: "@ + reason@,
            PersistError::Io(reason) => "Dateioperation fehlgeschlagen: "@ + reason@,
            PersistError::Json(reason) => "Serialisierungsfehler: "@ + reason@,
            PersistError::NewerSchema { found, supported } =>
                "Baseline-Datei hat Schema-Version "@ + text::decimal(found as nat)
                    + ", dieses Programm unterstützt höchstens "@ + text::decimal(supported as nat)
                    + ". Lösung: neuere Version verwenden oder mit --reset-baselines neu beginnen (die alte Datei wird dabei gesichert)."@,
            PersistError::NoMigrationPath(version) =>
                "keine Migration von Schema-Version "@ + text::decimal(version as nat)
                    + " bekannt"@,
            PersistError::InvalidMeta(reason) => "meta-Tabelle unbrauchbar: "@ + reason@,
        }
    }

    /// The error in words.
    pub fn to_text(&self) -> (out: String)
        ensures
            out@ == self.words(),
    {
        match self {
            PersistError::Db(reason) => text::concat("Datenbankfehler: ", reason.as_str()),
            PersistError::Io(reason) => text::concat(
                "Dateioperation fehlgeschlagen: ",
                reason.as_str(),
            ),
            PersistError::Json(reason) => text::concat("Serialisierungsfehler: ", reason.as_str()),
            PersistError::NewerSchema { found, supported } => {
                let mut out = "Baseline-Datei hat Schema-Version ".to_string();
                text::push_decimal(&mut out, *found as u64);
                out.append(", dieses Programm unterstützt höchstens ");
                text::push_decimal(&mut out, *supported as u64);
                out.append(
                    ". Lösung: neuere Version verwenden oder mit --reset-baselines neu beginnen (die alte Datei wird dabei gesichert).",
                );
                out
            },
            PersistError::NoMigrationPath(version) => {
                let mut out = "keine Migration von Schema-Version ".to_string();
                text::push_decimal(&mut out, *version as u64);
                out.append(" bekannt");
                out
            },
            PersistError::InvalidMeta(reason) => text::concat(
                "meta-Tabelle unbrauchbar: ",
                reason.as_str(),
            ),
        }
    }
}

/// What survives a restart.
#[derive(Debug, Clone, PartialEq)]
pub struct PersistedState {
    /// The histograms and the profiles.
    pub baselines: BaselineSnapshot,
    /// The templates.
    pub templates: TemplateSnapshot,
}

impl Default for PersistedState {
    fn default() -> (state: PersistedState)
        ensures
            state.baselines.histograms@.len() == 0,
            state.baselines.profiles@.len() == 0,
            state.templates.clusters@.len() == 0,
    {
        PersistedState {
            baselines: BaselineSnapshot::default(),
            templates: TemplateSnapshot::default(),
        }
    }
}

/// The row of bytes under which the database files a histogram: the key of the
/// unit and the id of the template, eight bytes each, and the slot.
pub open spec fn packed(parts: (u64, u64, u8)) -> Seq<u8> {
    bytes::big_endian(parts.0 as nat, 8) + bytes::big_endian(parts.1 as nat, 8) + seq![parts.2]
}

/// The parts of the key that a row of bytes stands for.
pub open spec fn unpacked(raw: Seq<u8>) -> (u64, u64, u8) {
    (
        bytes::number_of(raw.subrange(0, 8)) as u64,
        bytes::number_of(raw.subrange(8, 16)) as u64,
        raw[16],
    )
}

/// Packs a key. The rows of one unit lie side by side in the order of their keys.
pub fn pack_key(key: &BaselineKey) -> (raw: [u8; 17])
    ensures
        raw@ == packed(key.parts()),
{
    let unit: [u8; 8] = bytes::bytes_of(key.unit_key);
    let template: [u8; 8] = bytes::bytes_of(key.template_id.0);
    proof {
        bytes::width_is_kept(key.unit_key as nat, 8);
        bytes::width_is_kept(key.template_id.0 as nat, 8);
    }
    let raw = [
        unit[0],
        unit[1],
        unit[2],
        unit[3],
        unit[4],
        unit[5],
        unit[6],
        unit[7],
        template[0],
        template[1],
        template[2],
        template[3],
        template[4],
        template[5],
        template[6],
        template[7],
        key.slot.0,
    ];
    proof {
        assert(raw@ =~= packed(key.parts()));
    }
    raw
}

/// Unpacks a key.
pub fn unpack_key(raw: [u8; 17]) -> (key: BaselineKey)
    ensures
        key.parts() == unpacked(raw@),
{
    let row: &[u8] = &raw;
    BaselineKey {
        unit_key: bytes::number_at(row, 0),
        template_id: TemplateId(bytes::number_at(row, 8)),
        slot: Slot(raw[16]),
    }
}

/// Unpacking undoes packing.
pub proof fn unpacking_undoes_packing(parts: (u64, u64, u8))
    ensures
        packed(parts).len() == 17,
        unpacked(packed(parts)) == parts,
{
    bytes::eight_bytes_hold_64_bits();
    bytes::reading_undoes_writing(parts.0 as nat, 8);
    bytes::reading_undoes_writing(parts.1 as nat, 8);
    let raw = packed(parts);
    assert(raw.subrange(0, 8) =~= bytes::big_endian(parts.0 as nat, 8));
    assert(raw.subrange(8, 16) =~= bytes::big_endian(parts.1 as nat, 8));
}

/// Packing undoes unpacking: every row of 17 bytes is the row of one key.
pub proof fn packing_undoes_unpacking(raw: Seq<u8>)
    requires
        raw.len() == 17,
    ensures
        packed(unpacked(raw)) == raw,
{
    bytes::eight_bytes_hold_64_bits();
    bytes::writing_undoes_reading(raw.subrange(0, 8));
    bytes::writing_undoes_reading(raw.subrange(8, 16));
    bytes::eight_bytes_are_bounded(raw.subrange(0, 8));
    bytes::eight_bytes_are_bounded(raw.subrange(8, 16));
    assert(packed(unpacked(raw)) =~= raw);
}

/// Whether one key comes before another: by unit, then by template, then by slot.
pub open spec fn key_before(a: (u64, u64, u8), b: (u64, u64, u8)) -> bool {
    ||| a.0 < b.0
    ||| a.0 == b.0 && a.1 < b.1
    ||| a.0 == b.0 && a.1 == b.1 && a.2 < b.2
}

/// Packing keeps the order of keys: a scan of the rows meets the units one after
/// the other.
pub proof fn packing_keeps_the_order(a: (u64, u64, u8), b: (u64, u64, u8))
    requires
        key_before(a, b),
    ensures
        bytes::comes_first(packed(a), packed(b)),
{
    bytes::eight_bytes_hold_64_bits();
    let a0 = bytes::big_endian(a.0 as nat, 8);
    let a1 = bytes::big_endian(a.1 as nat, 8);
    let b0 = bytes::big_endian(b.0 as nat, 8);
    let b1 = bytes::big_endian(b.1 as nat, 8);
    let a2 = seq![a.2];
    let b2 = seq![b.2];
    assert(packed(a) =~= a0 + (a1 + a2));
    assert(packed(b) =~= b0 + (b1 + b2));
    if a.0 < b.0 {
        bytes::smaller_comes_first(a.0 as nat, b.0 as nat, 8);
        bytes::first_whatever_follows(a0, b0, a1 + a2, b1 + b2);
    } else if a.1 < b.1 {
        bytes::smaller_comes_first(a.1 as nat, b.1 as nat, 8);
        bytes::first_whatever_follows(a1, b1, a2, b2);
        bytes::first_after_the_same(a0, a1 + a2, b1 + b2);
    } else {
        assert(a2.take(0) =~= b2.take(0));
        assert(bytes::differs_at(a2, b2, 0));
        bytes::first_after_the_same(a1, a2, b2);
        bytes::first_after_the_same(a0, a1 + a2, b1 + b2);
    }
}

/// What has to be done with a file, given its schema version.
#[derive(Debug, Clone, Copy, PartialEq, Eq, Structural)]
pub enum SchemaStep {
    /// The file is new: write the facts about it.
    WriteFresh,
    /// The file is up to date.
    UpToDate,
    /// The file is older: migrate it.
    Migrate(u32),
}

/// The schema version in the facts about a file: none where none is written, and
/// an error where it is not a number.
pub fn read_schema_version(raw: Option<String>) -> (version: Result<Option<u32>, PersistError>)
    ensures
        match raw {
            None => version == Ok::<Option<u32>, PersistError>(None),
            Some(raw) => match text::unsigned_up_to(raw@, u32::MAX as nat) {
                Some(n) => version == Ok::<Option<u32>, PersistError>(Some(n as u32)),
                None => version matches Err(PersistError::InvalidMeta(reason)) && reason@
                    == "schema_version = "@ + text::debug_quoted(raw@),
            },
        },
{
    match raw {
        None => Ok(None),
        Some(raw) => match text::parse_unsigned(raw.as_str(), u32::MAX as u64) {
            Some(n) => Ok(Some(n as u32)),
            None => {
                let shown = text::quoted(raw.as_str());
                Err(PersistError::InvalidMeta(text::concat("schema_version = ", shown.as_str())))
            },
        },
    }
}

/// What the schema version of a file asks for. A file of a newer program is
/// refused, so that nothing of it is lost.
pub fn schema_step(found: Option<u32>) -> (step: Result<SchemaStep, PersistError>)
    ensures
        step == (match found {
            None => Ok::<SchemaStep, PersistError>(SchemaStep::WriteFresh),
            Some(found) => if found == SCHEMA_VERSION {
                Ok(SchemaStep::UpToDate)
            } else if found > SCHEMA_VERSION {
                Err(PersistError::NewerSchema { found, supported: SCHEMA_VERSION })
            } else {
                Ok(SchemaStep::Migrate(found))
            },
        }),
{
    match found {
        None => Ok(SchemaStep::WriteFresh),
        Some(found) => if found == SCHEMA_VERSION {
            Ok(SchemaStep::UpToDate)
        } else if found > SCHEMA_VERSION {
            Err(PersistError::NewerSchema { found, supported: SCHEMA_VERSION })
        } else {
            Ok(SchemaStep::Migrate(found))
        },
    }
}

/// One step of a migration, to the next version. There is none yet.
pub fn migrate_one(version: u32) -> (next: Result<u32, PersistError>)
    ensures
        next == Err::<u32, PersistError>(PersistError::NoMigrationPath(version)),
{
    Err(PersistError::NoMigrationPath(version))
}

/// The version that the next step of a migration leads to; none once the current
/// version is reached.
pub fn next_migration(version: u32) -> (next: Result<Option<u32>, PersistError>)
    ensures
        next == (if version < SCHEMA_VERSION {
            Err::<Option<u32>, PersistError>(PersistError::NoMigrationPath(version))
        } else {
            Ok(None)
        }),
{
    if version < SCHEMA_VERSION {
        match migrate_one(version) {
            Ok(next) => Ok(Some(next)),
            Err(error) => Err(error),
        }
    } else {
        Ok(None)
    }
}

/// The facts that a new file begins with.
pub fn fresh_meta(hostname: &str, now_us: u64) -> (rows: Vec<(&'static str, String)>)
    ensures
        rows@.len() == 3,
        rows@[0].0 == META_SCHEMA_VERSION,
        rows@[0].1@ == text::decimal(SCHEMA_VERSION as nat),
        rows@[1].0 == META_HOSTNAME,
        rows@[1].1@ == hostname@,
        rows@[2].0 == META_CREATED_US,
        rows@[2].1@ == text::decimal(now_us as nat),
{
    let mut rows: Vec<(&'static str, String)> = Vec::new();
    rows.push((META_SCHEMA_VERSION, text::decimal_text(SCHEMA_VERSION as u64)));
    rows.push((META_HOSTNAME, hostname.to_string()));
    rows.push((META_CREATED_US, text::decimal_text(now_us)));
    rows
}

/// What the host name in a file asks for.
#[derive(Debug, Clone, Copy, PartialEq, Eq, Structural)]
pub enum HostnameStep {
    /// It is the expected one.
    Same,
    /// It is another one: the file is still used, with a warning.
    Differs,
    /// There is none: write the expected one.
    Write,
}

/// Holds the host name in a file against the expected one.
pub fn check_hostname(stored: &Option<String>, expected: &str) -> (step: HostnameStep)
    ensures
        step == (match text::text_of(*stored) {
            None => HostnameStep::Write,
            Some(name) => if name == expected@ {
                HostnameStep::Same
            } else {
                HostnameStep::Differs
            },
        }),
{
    match stored {
        None => HostnameStep::Write,
        Some(name) => if text::same_text(name.as_str(), expected) {
            HostnameStep::Same
        } else {
            HostnameStep::Differs
        },
    }
}

/// The name of a file that is put aside: its own name, the reason, and the time in
/// seconds.
pub open spec fn aside_text(file_name: Option<Seq<char>>, reason: Seq<char>, now_us: u64) -> Seq<char> {
    let name = match file_name {
        Some(name) => name,
        None => "baselines.redb"@,
    };
    name + "."@ + reason + "-"@ + text::decimal((now_us / 1_000_000) as nat)
}

/// The name under which a file is put aside.
pub fn aside_name(file_name: Option<&str>, reason: &str, now_us: u64) -> (name: String)
    ensures
        name@ == aside_text(text::str_of(file_name), reason@, now_us),
{
    let mut name = match file_name {
        Some(name) => name.to_string(),
        None => "baselines.redb".to_string(),
    };
    name.append(".");
    name.append(reason);
    name.append("-");
    text::push_decimal(&mut name, now_us / 1_000_000);
    name
}

/// The extension of the copy that is made before a migration.
pub fn backup_extension(from: u32) -> (extension: String)
    ensures
        extension@ == "redb.bak-"@ + text::decimal(from as nat),
{
    let mut extension = "redb.bak-".to_string();
    text::push_decimal(&mut extension, from as u64);
    extension
}

/// The facts that head a dump of the database.
#[derive(Debug, PartialEq)]
pub struct DumpHead {
    /// The schema version.
    pub schema_version: u32,
    /// The host name, where one is written.
    pub hostname: Option<String>,
    /// When the file was made.
    pub created_us: Option<u64>,
    /// When the file was last written.
    pub last_snapshot_us: Option<u64>,
}

/// The time in a fact, if it is one.
pub open spec fn time_of(raw: Option<String>) -> Option<nat> {
    match raw {
        Some(raw) => text::unsigned_up_to(raw@, u64::MAX as nat),
        None => None,
    }
}

/// Reads a time.
fn read_time(raw: &Option<String>) -> (time: Option<u64>)
    ensures
        time_of(*raw) == (match time {
            Some(n) => Some(n as nat),
            None => None::<nat>,
        }),
{
    match raw {
        Some(raw) => text::parse_unsigned(raw.as_str(), u64::MAX),
        None => None,
    }
}

/// The head of a dump. A file without a version counts as current, and a time
/// that cannot be read as none.
pub fn dump_head(
    version: Option<u32>,
    hostname: Option<String>,
    created: Option<String>,
    last_snapshot: Option<String>,
) -> (head: DumpHead)
    ensures
        head.schema_version == (match version {
            Some(version) => version,
            None => SCHEMA_VERSION,
        }),
        head.hostname == hostname,
        time_of(created) == (match head.created_us {
            Some(n) => Some(n as nat),
            None => None::<nat>,
        }),
        time_of(last_snapshot) == (match head.last_snapshot_us {
            Some(n) => Some(n as nat),
            None => None::<nat>,
        }),
{
    DumpHead {
        schema_version: match version {
            Some(version) => version,
            None => SCHEMA_VERSION,
        },
        hostname,
        created_us: read_time(&created),
        last_snapshot_us: read_time(&last_snapshot),
    }
}

/// The rows of the three tables that hold the state, as they are listed.
pub struct StoredRows {
    /// Templates, by their ids.
    pub templates: Vec<(u64, TemplateRecord)>,
    /// Histograms, by their packed keys.
    pub baselines: Vec<([u8; 17], CountHistogram)>,
    /// Profiles, by the keys of their units.
    pub profiles: Vec<(u64, UnitProfile)>,
}

/// The histogram rows, as keys and contents.
pub open spec fn packed_rows(rows: Seq<([u8; 17], CountHistogram)>) -> Seq<(Seq<u8>, HistogramView)> {
    Seq::new(rows.len(), |i: int| (rows[i].0@, rows[i].1@))
}

/// The template rows, as keys and contents.
pub open spec fn template_rows(rows: Seq<(u64, TemplateRecord)>) -> Seq<(u64, RecordView)> {
    Seq::new(rows.len(), |i: int| (rows[i].0, rows[i].1@))
}

/// Templates, each under its id.
pub open spec fn by_id(records: Seq<TemplateRecord>) -> Seq<(u64, RecordView)> {
    Seq::new(records.len(), |i: int| (records[i].id.0, records[i]@))
}

/// Histograms, each under its packed key.
pub open spec fn filed(entries: Seq<((u64, u64, u8), HistogramView)>) -> Seq<
    (Seq<u8>, HistogramView),
> {
    Seq::new(entries.len(), |i: int| (packed(entries[i].0), entries[i].1))
}

/// What the three tables hold.
pub ghost struct TablesView {
    /// Templates, by their ids.
    pub templates: Map<u64, RecordView>,
    /// Histograms, by their packed keys.
    pub baselines: Map<Seq<u8>, HistogramView>,
    /// Profiles, by the keys of their units.
    pub profiles: Map<u64, ProfileView>,
}

/// One step of a save.
pub enum WriteStep {
    /// Empty all three tables.
    Clear,
    /// Put a template under its id.
    Template(u64, TemplateRecord),
    /// Put a histogram under its packed key.
    Histogram([u8; 17], CountHistogram),
    /// Put a profile under the key of its unit.
    Profile(u64, UnitProfile),
}

impl TablesView {
    /// The tables after a step. What stood under the key of a row is replaced.
    pub open spec fn after_step(self, step: WriteStep) -> TablesView {
        match step {
            WriteStep::Clear => TablesView {
                templates: Map::empty(),
                baselines: Map::empty(),
                profiles: Map::empty(),
            },
            WriteStep::Template(id, record) => TablesView {
                templates: self.templates.insert(id, record@),
                ..self
            },
            WriteStep::Histogram(key, histogram) => TablesView {
                baselines: self.baselines.insert(key@, histogram@),
                ..self
            },
            WriteStep::Profile(unit_key, profile) => TablesView {
                profiles: self.profiles.insert(unit_key, profile@),
                ..self
            },
        }
    }

    /// The tables after a number of steps, one after the other.
    pub open spec fn after_steps(self, steps: Seq<WriteStep>) -> TablesView
        decreases steps.len(),
    {
        if steps.len() == 0 {
            self
        } else {
            self.after_steps(steps.drop_last()).after_step(steps.last())
        }
    }
}

/// The tables that hold parts of a state and nothing else.
pub open spec fn tables_with(
    clusters: Seq<TemplateRecord>,
    histograms: Seq<(BaselineKey, CountHistogram)>,
    profiles: Seq<(u64, UnitProfile)>,
) -> TablesView {
    TablesView {
        templates: tables::map_of(by_id(clusters)),
        baselines: tables::map_of(filed(store::stored_histograms(histograms))),
        profiles: tables::map_of(store::stored_profiles(profiles)),
    }
}

/// The tables that hold a state and nothing else.
pub open spec fn saved_tables(state: PersistedState) -> TablesView {
    tables_with(
        state.templates.clusters@,
        state.baselines.histograms@,
        state.baselines.profiles@,
    )
}

/// Whether steps save a state: whatever the tables held before, afterwards they hold the
/// state and nothing else.
pub open spec fn saves(state: PersistedState, steps: Seq<WriteStep>) -> bool {
    forall|before: TablesView| #[trigger] before.after_steps(steps) == saved_tables(state)
}

/// The tables that hold rows and nothing else.
pub open spec fn tables_of(rows: StoredRows) -> TablesView {
    TablesView {
        templates: tables::map_of(template_rows(rows.templates@)),
        baselines: tables::map_of(packed_rows(rows.baselines@)),
        profiles: tables::map_of(store::stored_profiles(rows.profiles@)),
    }
}

/// Whether `state` is what rows are read as, in the order in which they come.
pub open spec fn is_read_as(rows: StoredRows, state: PersistedState) -> bool {
    &&& state.templates.clusters@ == Seq::new(rows.templates@.len(), |i: int| rows.templates@[i].1)
    &&& state.baselines.histograms@.len() == rows.baselines@.len()
    &&& forall|i: int|
        0 <= i < rows.baselines@.len() ==> (#[trigger] state.baselines.histograms@[i]).0.parts()
            == unpacked(rows.baselines@[i].0@) && state.baselines.histograms@[i].1
            == rows.baselines@[i].1
    &&& state.baselines.profiles == rows.profiles
}

/// Whether rows are read as a state: as none where there are no rows at all.
pub open spec fn is_found_in(rows: StoredRows, state: Option<PersistedState>) -> bool {
    &&& state is None <==> rows.templates@.len() == 0 && rows.baselines@.len() == 0
        && rows.profiles@.len() == 0
    &&& state matches Some(state) ==> is_read_as(rows, state)
}

/// One more step after others.
proof fn one_more_step(steps: Seq<WriteStep>, step: WriteStep, before: TablesView)
    ensures
        before.after_steps(steps.push(step)) == before.after_steps(steps).after_step(step),
{
    assert(steps.push(step).drop_last() =~= steps);
}

/// The steps that save a state. The tables are emptied first, so that nothing is left of
/// an earlier state.
pub fn save_steps(state: PersistedState) -> (steps: Vec<WriteStep>)
    ensures
        saves(state, steps@),
{
    let ghost clusters = state.templates.clusters@;
    let ghost histograms = state.baselines.histograms@;
    let ghost profiles = state.baselines.profiles@;
    let mut steps: Vec<WriteStep> = Vec::new();
    let ghost mut done: Seq<WriteStep> = steps@;
    steps.push(WriteStep::Clear);
    proof {
        assert forall|before: TablesView| #[trigger] before.after_steps(steps@) == tables_with(
            clusters.take(0),
            histograms.take(0),
            profiles.take(0),
        ) by {
            one_more_step(done, WriteStep::Clear, before);
            assert(before.after_steps(steps@) =~= tables_with(
                clusters.take(0),
                histograms.take(0),
                profiles.take(0),
            ));
        }
    }
    for record in it: state.templates.clusters.into_iter()
        invariant
            it.seq() == clusters,
            forall|before: TablesView| #[trigger]
                before.after_steps(steps@) == tables_with(
                    clusters.take(it.index() as int),
                    histograms.take(0),
                    profiles.take(0),
                ),
    {
        let ghost i = it.index() as int;
        let ghost step = WriteStep::Template(record.id.0, record);
        proof {
            done = steps@;
            assert(by_id(clusters.take(i + 1)).drop_last() =~= by_id(clusters.take(i)));
        }
        steps.push(WriteStep::Template(record.id.0, record));
        proof {
            assert forall|before: TablesView| #[trigger] before.after_steps(steps@) == tables_with(
                clusters.take(i + 1),
                histograms.take(0),
                profiles.take(0),
            ) by {
                one_more_step(done, step, before);
            }
        }
    }
    proof {
        assert(clusters.take(clusters.len() as int) =~= clusters);
    }
    for entry in it: state.baselines.histograms.into_iter()
        invariant
            it.seq() == histograms,
            forall|before: TablesView| #[trigger]
                before.after_steps(steps@) == tables_with(
                    clusters,
                    histograms.take(it.index() as int),
                    profiles.take(0),
                ),
    {
        let ghost i = it.index() as int;
        let key: [u8; 17] = pack_key(&entry.0);
        let ghost step = WriteStep::Histogram(key, entry.1);
        proof {
            done = steps@;
            assert(filed(store::stored_histograms(histograms.take(i + 1))).drop_last() =~= filed(
                store::stored_histograms(histograms.take(i)),
            ));
        }
        steps.push(WriteStep::Histogram(key, entry.1));
        proof {
            assert forall|before: TablesView| #[trigger] before.after_steps(steps@) == tables_with(
                clusters,
                histograms.take(i + 1),
                profiles.take(0),
            ) by {
                one_more_step(done, step, before);
            }
        }
    }
    proof {
        assert(histograms.take(histograms.len() as int) =~= histograms);
    }
    for entry in it: state.baselines.profiles.into_iter()
        invariant
            it.seq() == profiles,
            forall|before: TablesView| #[trigger]
                before.after_steps(steps@) == tables_with(
                    clusters,
                    histograms,
                    profiles.take(it.index() as int),
                ),
    {
        let ghost i = it.index() as int;
        let ghost step = WriteStep::Profile(entry.0, entry.1);
        proof {
            done = steps@;
            assert(store::stored_profiles(profiles.take(i + 1)).drop_last()
                =~= store::stored_profiles(profiles.take(i)));
        }
        steps.push(WriteStep::Profile(entry.0, entry.1));
        proof {
            assert forall|before: TablesView| #[trigger] before.after_steps(steps@) == tables_with(
                clusters,
                histograms,
                profiles.take(i + 1),
            ) by {
                one_more_step(done, step, before);
            }
        }
    }
    proof {
        assert(profiles.take(profiles.len() as int) =~= profiles);
    }
    steps
}

/// The state that rows are read as; none where there are no rows at all.
pub fn state_of(rows: StoredRows) -> (state: Option<PersistedState>)
    ensures
        is_found_in(rows, state),
{
    let ghost whole = rows;
    let any = rows.templates.len() > 0 || rows.baselines.len() > 0 || rows.profiles.len() > 0;
    let mut clusters: Vec<TemplateRecord> = Vec::new();
    for row in it: rows.templates.into_iter()
        invariant
            it.seq() == whole.templates@,
            clusters@ == Seq::new(it.index() as nat, |i: int| whole.templates@[i].1),
    {
        clusters.push(row.1);
        proof {
            assert(clusters@ =~= Seq::new((it.index() + 1) as nat, |i: int| whole.templates@[i].1));
        }
    }
    let mut histograms: Vec<(BaselineKey, CountHistogram)> = Vec::new();
    for row in it: rows.baselines.into_iter()
        invariant
            it.seq() == whole.baselines@,
            histograms@.len() == it.index(),
            forall|i: int|
                0 <= i < histograms@.len() ==> (#[trigger] histograms@[i]).0.parts() == unpacked(
                    whole.baselines@[i].0@,
                ) && histograms@[i].1 == whole.baselines@[i].1,
    {
        histograms.push((unpack_key(row.0), row.1));
    }
    if any {
        Some(
            PersistedState {
                baselines: BaselineSnapshot { histograms, profiles: rows.profiles },
                templates: TemplateSnapshot { clusters },
            },
        )
    } else {
        None
    }
}

/// Whether `listed` is what a database lists whose tables hold `held`: every row of
/// them, and no id of a template twice.
pub open spec fn lists(listed: StoredRows, held: TablesView) -> bool {
    &&& tables::keys_differ(template_rows(listed.templates@))
    &&& tables_of(listed) == held
}

/// Whether entries are filed under the packed keys of other entries.
pub open spec fn files(
    rows: Seq<(Seq<u8>, HistogramView)>,
    entries: Seq<((u64, u64, u8), HistogramView)>,
) -> bool {
    &&& rows.len() == entries.len()
    &&& forall|i: int|
        0 <= i < rows.len() ==> (#[trigger] rows[i]).0 == packed(entries[i].0) && rows[i].1
            == entries[i].1
}

/// Filing entries under packed keys keeps what is found under a key.
proof fn filing_keeps_entries(
    rows: Seq<(Seq<u8>, HistogramView)>,
    entries: Seq<((u64, u64, u8), HistogramView)>,
    key: (u64, u64, u8),
)
    requires
        files(rows, entries),
    ensures
        tables::map_of(rows).contains_key(packed(key)) <==> tables::map_of(entries).contains_key(
            key,
        ),
        tables::map_of(entries).contains_key(key) ==> tables::map_of(rows)[packed(key)]
            == tables::map_of(entries)[key],
    decreases rows.len(),
{
    if rows.len() > 0 {
        assert(files(rows.drop_last(), entries.drop_last()));
        filing_keeps_entries(rows.drop_last(), entries.drop_last(), key);
        unpacking_undoes_packing(key);
        unpacking_undoes_packing(entries.last().0);
        assert(rows.last().0 == packed(entries.last().0));
    }
}

/// Reading gives back what was saved: whatever the tables held before, and in whatever
/// order a database lists their rows, the state that is read holds the histograms, the
/// profiles and the templates of the state that was saved.
pub proof fn reading_gives_back_what_was_saved(
    before: TablesView,
    state: PersistedState,
    steps: Seq<WriteStep>,
    listed: StoredRows,
    again: PersistedState,
)
    requires
        saves(state, steps),
        lists(listed, before.after_steps(steps)),
        is_read_as(listed, again),
    ensures
        tables::map_of(store::stored_histograms(again.baselines.histograms@)) == tables::map_of(
            store::stored_histograms(state.baselines.histograms@),
        ),
        tables::map_of(store::stored_profiles(again.baselines.profiles@)) == tables::map_of(
            store::stored_profiles(state.baselines.profiles@),
        ),
        tables::map_of(by_id(again.templates.clusters@)) == tables::map_of(
            by_id(state.templates.clusters@),
        ),
{
    let old_entries = store::stored_histograms(state.baselines.histograms@);
    let old_rows = filed(old_entries);
    let new_entries = store::stored_histograms(again.baselines.histograms@);
    let new_rows = packed_rows(listed.baselines@);
    assert(files(old_rows, old_entries));
    assert(files(new_rows, new_entries)) by {
        assert forall|i: int| 0 <= i < new_rows.len() implies (#[trigger] new_rows[i]).0 == packed(
            new_entries[i].0,
        ) && new_rows[i].1 == new_entries[i].1 by {
            packing_undoes_unpacking(listed.baselines@[i].0@);
            assert(again.baselines.histograms@[i].0.parts() == unpacked(listed.baselines@[i].0@));
        }
    }
    assert forall|key: (u64, u64, u8)|
        #![trigger tables::map_of(new_entries).contains_key(key)]
        (tables::map_of(new_entries).contains_key(key) <==> tables::map_of(
            old_entries,
        ).contains_key(key)) && (tables::map_of(new_entries).contains_key(key) ==> tables::map_of(
            new_entries,
        )[key] == tables::map_of(old_entries)[key]) by {
        filing_keeps_entries(old_rows, old_entries, key);
        filing_keeps_entries(new_rows, new_entries, key);
    }
    assert(tables::map_of(new_entries) =~= tables::map_of(old_entries));

    let old_templates = by_id(state.templates.clusters@);
    let new_templates = template_rows(listed.templates@);
    assert forall|i: int| 0 <= i < new_templates.len() implies #[trigger] new_templates[i] == by_id(
        again.templates.clusters@,
    )[i] by {
        tables::entry_is_found(new_templates, i);
        let k = tables::found_entry(old_templates, new_templates[i].0);
        assert(old_templates[k].1 == new_templates[i].1);
        assert(old_templates[k].0 == old_templates[k].1.cluster.id);
    }
    assert(new_templates =~= by_id(again.templates.clusters@));
}

/// A restart keeps the templates: a registry that is saved to a database and restored
/// from what that lists has its clusters again, in their order; under a lower limit,
/// those that were opened first. Clusters with the same id share a row, so this holds
/// where no two have the same.
pub proof fn a_restart_keeps_the_templates(
    registry: RegistryView,
    before: TablesView,
    state: PersistedState,
    steps: Seq<WriteStep>,
    listed: StoredRows,
    again: PersistedState,
    limit: nat,
    clusters: Seq<ClusterView>,
)
    requires
        registry.valid(),
        registry.clusters.len() <= u64::MAX,
        template::record_views(state.templates.clusters@) == registry.stored(),
        tables::keys_differ(by_id(state.templates.clusters@)),
        saves(state, steps),
        lists(listed, before.after_steps(steps)),
        is_read_as(listed, again),
        template::restores(
            template::record_views(again.templates.clusters@),
            limit,
            clusters,
        ),
    ensures
        clusters == registry.clusters.take(
            if registry.clusters.len() <= limit {
                registry.clusters.len() as int
            } else {
                limit as int
            },
        ),
        limit >= registry.max_templates ==> clusters == registry.clusters,
{
    let saved = by_id(state.templates.clusters@);
    let after = template_rows(listed.templates@);
    let stored = registry.stored();
    let read = template::record_views(again.templates.clusters@);
    tables::same_map_same_entries(saved, after);
    let stood = choose|stood: Seq<int>| #[trigger] tables::moves_entries(saved, after, stood);
    assert forall|i: int| 0 <= i < stood.len() implies 0 <= #[trigger] stood[i] < stored.len()
        && read[i] == stored[stood[i]] by {
        assert(saved[stood[i]] == after[i]);
        assert(stored[stood[i]] == template::record_views(state.templates.clusters@)[stood[i]]);
        assert(saved[stood[i]].1 == state.templates.clusters@[stood[i]]@);
        assert(after[i].1 == again.templates.clusters@[i]@);
    }
    assert(template::rearranges(stored, read, stood));
    template::restoring_undoes_storing(registry, read, limit, clusters);
}

/// Whether a database whose tables hold `held` lists their rows by their keys, each key
/// once.
pub open spec fn lists_by_key(listed: StoredRows, held: TablesView) -> bool {
    &&& lists(listed, held)
    &&& forall|i: int, j: int|
        0 <= i < j < listed.templates@.len() ==> (#[trigger] listed.templates@[i]).0 < (
        #[trigger] listed.templates@[j]).0
    &&& forall|i: int, j: int|
        0 <= i < j < listed.baselines@.len() ==> bytes::comes_first(
            (#[trigger] listed.baselines@[i]).0@,
            (#[trigger] listed.baselines@[j]).0@,
        )
    &&& forall|i: int, j: int|
        0 <= i < j < listed.profiles@.len() ==> (#[trigger] listed.profiles@[i]).0 < (
        #[trigger] listed.profiles@[j]).0
}

/// Whether nothing of a state is stored under the same key twice.
pub open spec fn has_distinct_keys(state: PersistedState) -> bool {
    &&& tables::keys_differ(by_id(state.templates.clusters@))
    &&& tables::keys_differ(store::stored_histograms(state.baselines.histograms@))
    &&& tables::keys_differ(store::stored_profiles(state.baselines.profiles@))
}

/// Whether the parts of a state rise by their ids and keys.
pub open spec fn rises_by_key(state: PersistedState) -> bool {
    &&& forall|i: int, j: int|
        0 <= i < j < state.templates.clusters@.len() ==> (
        #[trigger] state.templates.clusters@[i]).id.0 < (
        #[trigger] state.templates.clusters@[j]).id.0
    &&& forall|i: int, j: int|
        0 <= i < j < state.baselines.histograms@.len() ==> bytes::comes_first(
            packed((#[trigger] state.baselines.histograms@[i]).0.parts()),
            packed((#[trigger] state.baselines.histograms@[j]).0.parts()),
        )
    &&& forall|i: int, j: int|
        0 <= i < j < state.baselines.profiles@.len() ==> (
        #[trigger] state.baselines.profiles@[i]).0 < (
        #[trigger] state.baselines.profiles@[j]).0
}

/// A state that was saved is read exactly: none if it was empty, and otherwise its
/// templates by their ids, its histograms by their packed keys and its profiles by
/// the keys of their units. Of what the tables held before the save nothing is left.
pub proof fn reading_lists_exactly_what_was_saved(
    before: TablesView,
    state: PersistedState,
    steps: Seq<WriteStep>,
    listed: StoredRows,
    again: Option<PersistedState>,
)
    requires
        has_distinct_keys(state),
        saves(state, steps),
        lists_by_key(listed, before.after_steps(steps)),
        is_found_in(listed, again),
    ensures
        again is None <==> state.templates.clusters@.len() == 0
            && state.baselines.histograms@.len() == 0 && state.baselines.profiles@.len() == 0,
        again matches Some(again) ==> {
            &&& rises_by_key(again)
            &&& tables::same_entries(
                by_id(state.templates.clusters@),
                by_id(again.templates.clusters@),
            )
            &&& tables::same_entries(
                store::stored_histograms(state.baselines.histograms@),
                store::stored_histograms(again.baselines.histograms@),
            )
            &&& tables::same_entries(
                store::stored_profiles(state.baselines.profiles@),
                store::stored_profiles(again.baselines.profiles@),
            )
        },
{
    match again {
        Some(again) => {
            reading_gives_back_what_was_saved(before, state, steps, listed, again);
            let old_templates = by_id(state.templates.clusters@);
            let new_templates = by_id(again.templates.clusters@);
            assert forall|i: int| 0 <= i < new_templates.len() implies
                #[trigger] again.templates.clusters@[i].id.0 == listed.templates@[i].0 by {
                let rows = template_rows(listed.templates@);
                tables::entry_is_found(rows, i);
                let k = tables::found_entry(old_templates, rows[i].0);
                assert(old_templates[k].1 == rows[i].1);
                assert(old_templates[k].0 == old_templates[k].1.cluster.id);
            }
            assert forall|i: int, j: int|
                0 <= i < j < again.templates.clusters@.len() implies (
            #[trigger] again.templates.clusters@[i]).id.0 < (
            #[trigger] again.templates.clusters@[j]).id.0 by {
                assert(again.templates.clusters@[i].id.0 == listed.templates@[i].0);
                assert(again.templates.clusters@[j].id.0 == listed.templates@[j].0);
            }
            assert(tables::keys_differ(new_templates)) by {
                assert forall|i: int, j: int| 0 <= i < j < new_templates.len() implies (
                #[trigger] new_templates[i]).0 != (#[trigger] new_templates[j]).0 by {
                    assert(again.templates.clusters@[i].id.0 < again.templates.clusters@[j].id.0);
                }
            }
            tables::same_map_same_entries(old_templates, new_templates);
            let old_histograms = store::stored_histograms(state.baselines.histograms@);
            let new_histograms = store::stored_histograms(again.baselines.histograms@);
            assert forall|i: int, j: int|
                0 <= i < j < again.baselines.histograms@.len() implies bytes::comes_first(
                packed((#[trigger] again.baselines.histograms@[i]).0.parts()),
                packed((#[trigger] again.baselines.histograms@[j]).0.parts()),
            ) by {
                packing_undoes_unpacking(listed.baselines@[i].0@);
                packing_undoes_unpacking(listed.baselines@[j].0@);
                assert(bytes::comes_first(listed.baselines@[i].0@, listed.baselines@[j].0@));
            }
            assert(tables::keys_differ(new_histograms)) by {
                assert forall|i: int, j: int| 0 <= i < j < new_histograms.len() implies (
                #[trigger] new_histograms[i]).0 != (#[trigger] new_histograms[j]).0 by {
                    assert(bytes::comes_first(
                        packed(again.baselines.histograms@[i].0.parts()),
                        packed(again.baselines.histograms@[j].0.parts()),
                    ));
                }
            }
            tables::same_map_same_entries(old_histograms, new_histograms);
            let old_profiles = store::stored_profiles(state.baselines.profiles@);
            let new_profiles = store::stored_profiles(again.baselines.profiles@);
            assert(tables::keys_differ(new_profiles)) by {
                assert forall|i: int, j: int| 0 <= i < j < new_profiles.len() implies (
                #[trigger] new_profiles[i]).0 != (#[trigger] new_profiles[j]).0 by {
                    assert(listed.profiles@[i].0 < listed.profiles@[j].0);
                }
            }
            tables::same_map_same_entries(old_profiles, new_profiles);
            let places = choose|places: Seq<int>| #[trigger]
                tables::moves_entries(old_templates, new_templates, places);
            assert(new_templates.len() == old_templates.len());
            let places = choose|places: Seq<int>| #[trigger]
                tables::moves_entries(old_histograms, new_histograms, places);
            assert(new_histograms.len() == old_histograms.len());
            let places = choose|places: Seq<int>| #[trigger]
                tables::moves_entries(old_profiles, new_profiles, places);
            assert(new_profiles.len() == old_profiles.len());
        },
        None => {
            tables::empty_map_has_no_entries(by_id(state.templates.clusters@));
            tables::empty_map_has_no_entries(
                filed(store::stored_histograms(state.baselines.histograms@)),
            );
            tables::empty_map_has_no_entries(
                store::stored_profiles(state.baselines.profiles@),
            );
        },
    }
}

/// Saving an empty state leaves nothing to read, whatever the tables held before.
pub proof fn nothing_saved_nothing_read(
    before: TablesView,
    state: PersistedState,
    steps: Seq<WriteStep>,
    listed: StoredRows,
)
    requires
        state.templates.clusters@.len() == 0,
        state.baselines.histograms@.len() == 0,
        state.baselines.profiles@.len() == 0,
        saves(state, steps),
        lists(listed, before.after_steps(steps)),
    ensures
        listed.templates@.len() == 0,
        listed.baselines@.len() == 0,
        listed.profiles@.len() == 0,
{
    tables::empty_map_has_no_entries(template_rows(listed.templates@));
    tables::empty_map_has_no_entries(packed_rows(listed.baselines@));
    tables::empty_map_has_no_entries(store::stored_profiles(listed.profiles@));
}

/// A file that has just been made is found to be up to date, of the right host, and as old
/// as it is: what its first facts say is read back.
pub proof fn a_new_file_is_up_to_date(
    hostname: &str,
    now_us: u64,
    rows: Vec<(&'static str, String)>,
    version: Result<Option<u32>, PersistError>,
    step: Result<SchemaStep, PersistError>,
    host: HostnameStep,
    stored: Option<String>,
    head: DumpHead,
)
    requires
        call_ensures(fresh_meta, (hostname, now_us), rows),
        call_ensures(read_schema_version, (Some(rows@[0].1),), version),
        call_ensures(schema_step, (Some(1u32),), step),
        stored == Some(rows@[1].1),
        call_ensures(check_hostname, (&stored, hostname), host),
        call_ensures(dump_head, (Some(1u32), stored, Some(rows@[2].1), None), head),
    ensures
        rows@.len() == 3,
        rows@[0].0@ == "schema_version"@,
        rows@[1].0@ == "hostname"@,
        rows@[2].0@ == "created_us"@,
        version == Ok::<Option<u32>, PersistError>(Some(1)),
        step == Ok::<SchemaStep, PersistError>(SchemaStep::UpToDate),
        host == HostnameStep::Same,
        head.schema_version == 1,
        head.created_us == Some(now_us),
        head.last_snapshot_us is None,
{
    text::reading_a_number_gives_it_back(1, u32::MAX as nat, seq!['x', 'x'], 1);
    text::reading_a_number_gives_it_back(now_us as nat, u64::MAX as nat, seq!['x', 'x'], 1);
}

/// A file of a newer program is refused, and says so; one without a version is new; and
/// one of an older program is migrated, which never skips a version in silence.
pub proof fn files_of_newer_programs_are_refused(
    found: u32,
    step: Result<SchemaStep, PersistError>,
    fresh: Result<SchemaStep, PersistError>,
    next: Result<Option<u32>, PersistError>,
)
    requires
        call_ensures(schema_step, (Some(found),), step),
        call_ensures(schema_step, (None,), fresh),
        call_ensures(next_migration, (found,), next),
    ensures
        found > 1 ==> step == Err::<SchemaStep, PersistError>(
            PersistError::NewerSchema { found, supported: 1 },
        ),
        found < 1 ==> step == Ok::<SchemaStep, PersistError>(SchemaStep::Migrate(found)) && next
            == Err::<Option<u32>, PersistError>(PersistError::NoMigrationPath(found)),
        found >= 1 ==> next == Ok::<Option<u32>, PersistError>(None),
        fresh == Ok::<SchemaStep, PersistError>(SchemaStep::WriteFresh),
{
}

/// A version that is no number is an error that shows what stands there, and a file with
/// another host is told apart from one without.
pub proof fn unreadable_facts_are_told(
    raw: String,
    version: Result<Option<u32>, PersistError>,
    none: Result<Option<u32>, PersistError>,
    stored: Option<String>,
    expected: &str,
    host: HostnameStep,
    place: int,
)
    requires
        1 <= place < raw@.len(),
        (raw@[place] as u32) < ('0' as u32) || raw@[place] as u32 > '9' as u32,
        call_ensures(read_schema_version, (Some(raw),), version),
        call_ensures(read_schema_version, (None,), none),
        call_ensures(check_hostname, (&stored, expected), host),
    ensures
        version is Err,
        none == Ok::<Option<u32>, PersistError>(None),
        stored is None ==> host == HostnameStep::Write,
        stored matches Some(name) ==> (host == HostnameStep::Same <==> name@ == expected@),
        stored matches Some(name) ==> host != HostnameStep::Write,
{
    text::reading_a_number_gives_it_back(0, u32::MAX as nat, raw@, place);
}

/// The name of a file that is put aside begins with its own name, and two files that are
/// put aside in different seconds have different names.
pub proof fn files_put_aside_do_not_collide(
    file_name: Seq<char>,
    reason: Seq<char>,
    now_us: u64,
    later_us: u64,
)
    ensures
        ({
            let name = aside_text(Some(file_name), reason, now_us);
            let later = aside_text(Some(file_name), reason, later_us);
            &&& name.len() > file_name.len()
            &&& name.take(file_name.len() as int) == file_name
            &&& now_us / 1_000_000 != later_us / 1_000_000 ==> name != later
            &&& now_us / 1_000_000 == later_us / 1_000_000 ==> name == later
        }),
{
    reveal_strlit(".");
    reveal_strlit("-");
    let name = aside_text(Some(file_name), reason, now_us);
    let later = aside_text(Some(file_name), reason, later_us);
    let a = (now_us / 1_000_000) as nat;
    let b = (later_us / 1_000_000) as nat;
    let head = file_name + "."@ + reason + "-"@;
    assert(name.take(file_name.len() as int) =~= file_name);
    assert(name.skip(head.len() as int) =~= text::decimal(a));
    assert(later.skip(head.len() as int) =~= text::decimal(b));
    text::reading_undoes_writing(a);
    text::reading_undoes_writing(b);
}

/// A key is unpacked as it was packed.
pub proof fn keys_survive_packing(key: BaselineKey, raw: [u8; 17], again: BaselineKey)
    requires
        call_ensures(pack_key, (&key,), raw),
        call_ensures(unpack_key, (raw,), again),
    ensures
        again.unit_key == key.unit_key,
        again.template_id == key.template_id,
        again.slot == key.slot,
{
    unpacking_undoes_packing(key.parts());
}

/// Performing the steps of a save and reading the tables gives back just what was saved,
/// whatever the tables held before; saving nothing leaves nothing.
pub proof fn a_save_is_read_back(
    before: TablesView,
    state: PersistedState,
    steps: Vec<WriteStep>,
    listed: StoredRows,
    again: Option<PersistedState>,
)
    requires
        has_distinct_keys(state),
        call_ensures(save_steps, (state,), steps),
        lists_by_key(listed, before.after_steps(steps@)),
        call_ensures(state_of, (listed,), again),
    ensures
        again is None <==> state.templates.clusters@.len() == 0
            && state.baselines.histograms@.len() == 0 && state.baselines.profiles@.len() == 0,
        again matches Some(again) ==> {
            &&& again.templates.clusters@.len() == state.templates.clusters@.len()
            &&& again.baselines.histograms@.len() == state.baselines.histograms@.len()
            &&& again.baselines.profiles@.len() == state.baselines.profiles@.len()
            &&& tables::map_of(store::stored_histograms(again.baselines.histograms@))
                == tables::map_of(store::stored_histograms(state.baselines.histograms@))
            &&& tables::map_of(store::stored_profiles(again.baselines.profiles@))
                == tables::map_of(store::stored_profiles(state.baselines.profiles@))
            &&& tables::map_of(by_id(again.templates.clusters@)) == tables::map_of(
                by_id(state.templates.clusters@),
            )
        },
{
    reading_lists_exactly_what_was_saved(before, state, steps@, listed, again);
    if let Some(found) = again {
        reading_gives_back_what_was_saved(before, state, steps@, listed, found);
        let places = choose|places: Seq<int>| #[trigger]
            tables::moves_entries(
                by_id(state.templates.clusters@),
                by_id(found.templates.clusters@),
                places,
            );
        assert(by_id(found.templates.clusters@).len() == by_id(state.templates.clusters@).len());
        let places = choose|places: Seq<int>| #[trigger]
            tables::moves_entries(
                store::stored_histograms(state.baselines.histograms@),
                store::stored_histograms(found.baselines.histograms@),
                places,
            );
        assert(store::stored_histograms(found.baselines.histograms@).len()
            == store::stored_histograms(state.baselines.histograms@).len());
        let places = choose|places: Seq<int>| #[trigger]
            tables::moves_entries(
                store::stored_profiles(state.baselines.profiles@),
                store::stored_profiles(found.baselines.profiles@),
                places,
            );
        assert(store::stored_profiles(found.baselines.profiles@).len() == store::stored_profiles(
            state.baselines.profiles@,
        ).len());
    }
}

/// A step puts a row under its key and leaves all others, and only clearing empties the
/// tables.
pub proof fn steps_touch_their_own_row(
    tables: TablesView,
    id: u64,
    record: TemplateRecord,
    other: u64,
    unit_key: u64,
    profile: UnitProfile,
    key: [u8; 17],
    histogram: CountHistogram,
)
    requires
        other != id,
        other != unit_key,
    ensures
        ({
            let after = tables.after_step(WriteStep::Template(id, record));
            &&& after.templates.contains_key(id) && after.templates[id] == record@
            &&& after.templates.contains_key(other) == tables.templates.contains_key(other)
            &&& after.baselines == tables.baselines && after.profiles == tables.profiles
        }),
        ({
            let after = tables.after_step(WriteStep::Profile(unit_key, profile));
            &&& after.profiles.contains_key(unit_key) && after.profiles[unit_key] == profile@
            &&& after.profiles.contains_key(other) == tables.profiles.contains_key(other)
            &&& after.baselines == tables.baselines && after.templates == tables.templates
        }),
        ({
            let after = tables.after_step(WriteStep::Histogram(key, histogram));
            &&& after.baselines.contains_key(key@) && after.baselines[key@] == histogram@
            &&& after.templates == tables.templates && after.profiles == tables.profiles
        }),
        ({
            let after = tables.after_step(WriteStep::Clear);
            &&& after.templates.dom() =~= Set::<u64>::empty()
            &&& after.baselines.dom() =~= Set::<Seq<u8>>::empty()
            &&& after.profiles.dom() =~= Set::<u64>::empty()
        }),
{
}

/// An error says what it is about: its words end with the reason, or name the versions.
pub proof fn errors_give_their_reasons(reason: String, found: u32, supported: u32)
    ensures
        ends_with(PersistError::Db(reason).words(), reason@),
        ends_with(PersistError::Io(reason).words(), reason@),
        ends_with(PersistError::Json(reason).words(), reason@),
        ends_with(PersistError::InvalidMeta(reason).words(), reason@),
{
    assert(ends_with(PersistError::Db(reason).words(), reason@)) by {
        assert(PersistError::Db(reason).words().skip("Datenbankfehler: "@.len() as int) =~= reason@);
    }
    assert(ends_with(PersistError::Io(reason).words(), reason@)) by {
        assert(PersistError::Io(reason).words().skip(
            "Dateioperation fehlgeschlagen: "@.len() as int,
        ) =~= reason@);
    }
    assert(ends_with(PersistError::Json(reason).words(), reason@)) by {
        assert(PersistError::Json(reason).words().skip("Serialisierungsfehler: "@.len() as int)
            =~= reason@);
    }
    assert(ends_with(PersistError::InvalidMeta(reason).words(), reason@)) by {
        assert(PersistError::InvalidMeta(reason).words().skip(
            "meta-Tabelle unbrauchbar: "@.len() as int,
        ) =~= reason@);
    }
}

/// Whether a text ends with another.
pub open spec fn ends_with(s: Seq<char>, end: Seq<char>) -> bool {
    s.len() >= end.len() && s.skip(s.len() - end.len()) == end
}

/// A copy that is made before a migration says from which version, and a file that is put
/// aside is named after itself.
pub proof fn backups_say_where_they_come_from(
    one: u32,
    two: u32,
    first: String,
    second: String,
    file_name: &str,
    reason: &str,
    now_us: u64,
    aside: String,
)
    requires
        call_ensures(backup_extension, (one,), first),
        call_ensures(backup_extension, (two,), second),
        call_ensures(aside_name, (Some(file_name), reason, now_us), aside),
    ensures
        first@ == second@ <==> one == two,
        exists|before: Seq<char>| first@ == #[trigger] (before + text::decimal(one as nat)),
        aside@ == aside_text(Some(file_name@), reason@, now_us),
        aside@.take(file_name@.len() as int) == file_name@,
{
    let head = "redb.bak-"@;
    assert(first@.skip(head.len() as int) =~= text::decimal(one as nat));
    assert(second@.skip(head.len() as int) =~= text::decimal(two as nat));
    text::reading_undoes_writing(one as nat);
    text::reading_undoes_writing(two as nat);
    files_put_aside_do_not_collide(file_name@, reason@, now_us, now_us);
}

} // verus!
