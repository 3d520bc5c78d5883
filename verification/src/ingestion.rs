//! Reading the journal: who may, with which arguments, and how long to wait before
//! trying again.

use vstd::prelude::*;

use crate::text;

verus! {

/// The longest pause before `journalctl` is started again, in milliseconds.
pub const MAX_BACKOFF_MS: u64 = 30_000;

/// How long a run has to last to count as stable, in milliseconds.
pub const MIN_STABLE_RUN_MS: u64 = 60_000;

/// What is read.
#[derive(Debug, Clone, PartialEq)]
pub enum IngestionMode {
    /// What is written from now on.
    Live,
    /// What was written in a time that is past.
    Replay {
        /// From when, in the notation of `journalctl`.
        since: String,
        /// Until when, if there is an end.
        until: Option<String>,
    },
}

/// Why the journal cannot be read.
#[derive(Debug, PartialEq)]
pub enum IngestionError {
    /// Whether it may be read cannot be found out.
    PermissionCheckFailed(String),
    /// It may not be read.
    MissingJournalPermission {
        /// The groups of the user.
        groups: Vec<String>,
    },
    /// `journalctl` cannot be started.
    SpawnFailed(String),
    /// `journalctl` has no output.
    StdoutMissing,
    /// The output of `journalctl` cannot be read.
    ReadFailed(String),
}

/// Texts, quoted.
pub open spec fn all_quoted(items: Seq<Seq<char>>) -> Seq<Seq<char>> {
    Seq::new(items.len(), |i: int| text::debug_quoted(items[i]))
}

/// A list as it is shown to a programmer.
pub open spec fn list_text(items: Seq<Seq<char>>) -> Seq<char> {
    "["@ + text::joined(all_quoted(items), ", "@) + "]"@
}

impl IngestionError {
    /// The error in words.
    pub open spec fn words(self) -> Seq<char> {
        match self {
            IngestionError::PermissionCheckFailed(reason) =>
                "Rechteprüfung konnte nicht durchgeführt werden: "@ + reason@,
            IngestionError::MissingJournalPermission { groups } =>
                "Benutzer ist nicht in einer Journal-lesenden Gruppe (aktuelle Gruppen: "@
                    + list_text(text::texts(groups@))
                    + "). Lösung: `sudo usermod -aG systemd-journal $USER` ausführen, danach neu anmelden (oder die Gruppe `adm`, je nach Distribution)."@,
            IngestionError::SpawnFailed(reason) =>
                "journalctl-Prozess konnte nicht gestartet werden: "@ + reason@,
            IngestionError::StdoutMissing => "journalctl-Prozess lieferte kein stdout-Handle"@,
            IngestionError::ReadFailed(reason) => "Fehler beim Lesen von journalctl-stdout: "@
                + reason@,
        }
    }

    /// The error in words.
    pub fn to_text(&self) -> (out: String)
        ensures
            out@ == self.words(),
    {
        match self {
            IngestionError::PermissionCheckFailed(reason) => text::concat(
                "Rechteprüfung konnte nicht durchgeführt werden: ",
                reason.as_str(),
            ),
            IngestionError::MissingJournalPermission { groups } => {
                let mut shown: Vec<String> = Vec::new();
                let mut i: usize = 0;
                while i < groups.len()
                    invariant
                        i <= groups@.len(),
                        shown@.len() == i,
                        forall|k: int|
                            0 <= k < i ==> (#[trigger] shown@[k])@ == text::debug_quoted(
                                groups@[k]@,
                            ),
                    decreases groups@.len() - i,
                {
                    shown.push(text::quoted(groups[i].as_str()));
                    i += 1;
                }
                proof {
                    assert(text::texts(shown@) =~= all_quoted(text::texts(groups@)));
                }
                let list = text::join(&shown, ", ");
                let mut inner = "[".to_string();
                inner.append(list.as_str());
                inner.append("]");
                let mut out =
                    "Benutzer ist nicht in einer Journal-lesenden Gruppe (aktuelle Gruppen: ".to_string();
                out.append(inner.as_str());
                out.append(
                    "). Lösung: `sudo usermod -aG systemd-journal $USER` ausführen, danach neu anmelden (oder die Gruppe `adm`, je nach Distribution).",
                );
                out
            },
            IngestionError::SpawnFailed(reason) => text::concat(
                "journalctl-Prozess konnte nicht gestartet werden: ",
                reason.as_str(),
            ),
            IngestionError::StdoutMissing =>
                "journalctl-Prozess lieferte kein stdout-Handle".to_string(),
            IngestionError::ReadFailed(reason) => text::concat(
                "Fehler beim Lesen von journalctl-stdout: ",
                reason.as_str(),
            ),
        }
    }
}

/// Whether a user may read the journal: the superuser may, and who is in one of two
/// groups.
pub open spec fn may_read(uid: u32, groups: Seq<Seq<char>>) -> bool {
    uid == 0 || groups.contains("systemd-journal"@) || groups.contains("adm"@)
}

/// Whether a user may read the journal.
pub fn has_journal_access(uid: u32, groups: &[String]) -> (access: bool)
    ensures
        access == may_read(uid, text::texts(groups@)),
{
    if uid == 0 {
        return true;
    }
    let mut i: usize = 0;
    while i < groups.len()
        invariant
            i <= groups@.len(),
            forall|k: int|
                0 <= k < i ==> #[trigger] text::texts(groups@)[k] != "systemd-journal"@
                    && text::texts(groups@)[k] != "adm"@,
        decreases groups@.len() - i,
    {
        if text::same_text(groups[i].as_str(), "systemd-journal") || text::same_text(
            groups[i].as_str(),
            "adm",
        ) {
            proof {
                assert(text::texts(groups@)[i as int] == groups@[i as int]@);
            }
            return true;
        }
        i += 1;
    }
    false
}

/// The user that `id -u` names; what is no number names nobody.
pub open spec fn uid_of(output: Seq<char>) -> u32 {
    match text::unsigned_up_to(text::trimmed(output), u32::MAX as nat) {
        Some(uid) => uid as u32,
        None => u32::MAX,
    }
}

/// Whether the journal may be read, going by what `id -u` and `id -nG` have written.
pub fn permission_from(uid_output: &str, groups_output: &str) -> (result: Result<(), IngestionError>)
    ensures
        match result {
            Ok(_) => may_read(uid_of(uid_output@), text::words(groups_output@)),
            Err(error) => !may_read(uid_of(uid_output@), text::words(groups_output@)) && (
            error matches IngestionError::MissingJournalPermission { groups } && text::texts(groups@)
                == text::words(groups_output@)),
        },
{
    let number = text::trim(uid_output);
    let uid: u32 = match text::parse_unsigned(number.as_str(), u32::MAX as u64) {
        Some(uid) => uid as u32,
        None => u32::MAX,
    };
    let groups = text::split_words(groups_output);
    if has_journal_access(uid, groups.as_slice()) {
        Ok(())
    } else {
        Err(IngestionError::MissingJournalPermission { groups })
    }
}

/// Whether the journal may be read, going by what `id -u` and `id -nG` have written, as
/// bytes.
pub fn check_journal_permissions(uid_output: &Vec<u8>, groups_output: &Vec<u8>) -> (result: Result<
    (),
    IngestionError,
>)
    ensures
        ({
            let uid = uid_of(text::utf8_lossy(uid_output@));
            let words = text::words(text::utf8_lossy(groups_output@));
            match result {
                Ok(_) => may_read(uid, words),
                Err(error) => !may_read(uid, words) && (
                error matches IngestionError::MissingJournalPermission { groups } && text::texts(
                    groups@,
                ) == words),
            }
        }),
{
    let uid = text::decode_lossy(uid_output);
    let groups = text::decode_lossy(groups_output);
    permission_from(uid.as_str(), groups.as_str())
}

/// The arguments for `journalctl`.
pub open spec fn arguments_of(mode: IngestionMode) -> Seq<Seq<char>> {
    let base = seq!["-o"@, "json"@, "--no-pager"@];
    match mode {
        IngestionMode::Live => base + seq!["-f"@, "-n"@, "0"@],
        IngestionMode::Replay { since, until } => match until {
            Some(until) => base + seq!["--since"@, since@, "--until"@, until@],
            None => base + seq!["--since"@, since@],
        },
    }
}

/// The arguments for `journalctl`.
pub fn journalctl_args(mode: &IngestionMode) -> (args: Vec<String>)
    ensures
        text::texts(args@) == arguments_of(*mode),
{
    let mut args: Vec<String> = Vec::new();
    args.push("-o".to_string());
    args.push("json".to_string());
    args.push("--no-pager".to_string());
    match mode {
        IngestionMode::Live => {
            args.push("-f".to_string());
            args.push("-n".to_string());
            args.push("0".to_string());
        },
        IngestionMode::Replay { since, until } => {
            args.push("--since".to_string());
            args.push(since.clone());
            match until {
                Some(until) => {
                    args.push("--until".to_string());
                    args.push(until.clone());
                },
                None => {},
            }
        },
    }
    proof {
        assert(text::texts(args@) =~= arguments_of(*mode));
    }
    args
}

/// Whether a line holds nothing but white space. Such a line is passed over.
pub fn is_blank(line: &str) -> (blank: bool)
    ensures
        blank == (text::trimmed(line@).len() == 0),
{
    let rest = text::trim(line);
    text::is_empty(rest.as_str())
}

/// How long to wait before `journalctl` is started again.
pub struct Backoff {
    base_ms: u64,
    next_ms: u64,
}

/// What a backoff holds.
pub ghost struct BackoffView {
    /// The pause after a stable run.
    pub base_ms: int,
    /// The pause after the next run that is not stable.
    pub next_ms: int,
}

/// The pause after a run, and what the backoff holds then: a stable run begins anew,
/// and every pause is twice as long as the last, up to the longest.
pub open spec fn paused(backoff: BackoffView, ran_ms: u64) -> (int, BackoffView) {
    let pause = if ran_ms >= MIN_STABLE_RUN_MS {
        backoff.base_ms
    } else {
        backoff.next_ms
    };
    (
        pause,
        BackoffView {
            base_ms: backoff.base_ms,
            next_ms: if 2 * pause > MAX_BACKOFF_MS {
                MAX_BACKOFF_MS as int
            } else {
                2 * pause
            },
        },
    )
}

impl View for Backoff {
    type V = BackoffView;

    closed spec fn view(&self) -> BackoffView {
        BackoffView { base_ms: self.base_ms as int, next_ms: self.next_ms as int }
    }
}

impl Backoff {
    /// A backoff that begins with a pause, of at least a millisecond and at most the
    /// longest.
    pub fn new(restart_backoff_ms: u64) -> (backoff: Backoff)
        ensures
            backoff@.base_ms == (if restart_backoff_ms < 1 {
                1
            } else if restart_backoff_ms <= MAX_BACKOFF_MS {
                restart_backoff_ms as int
            } else {
                MAX_BACKOFF_MS as int
            }),
            backoff@.next_ms == backoff@.base_ms,
    {
        let base_ms: u64 = if restart_backoff_ms < 1 {
            1
        } else if restart_backoff_ms <= MAX_BACKOFF_MS {
            restart_backoff_ms
        } else {
            MAX_BACKOFF_MS
        };
        Backoff { base_ms, next_ms: base_ms }
    }

    /// The pause after a run that lasted so long, in milliseconds.
    pub fn pause_after(&mut self, ran_ms: u64) -> (pause_ms: u64)
        ensures
            (pause_ms as int, final(self)@) == paused(old(self)@, ran_ms),
    {
        if ran_ms >= MIN_STABLE_RUN_MS {
            self.next_ms = self.base_ms;
        }
        let pause_ms: u64 = self.next_ms;
        self.next_ms =
        if pause_ms > MAX_BACKOFF_MS / 2 {
            MAX_BACKOFF_MS
        } else {
            pause_ms * 2
        };
        pause_ms
    }
}

/// The backoff after so many runs that were not stable.
pub open spec fn after_failures(backoff: BackoffView, n: nat) -> BackoffView
    decreases n,
{
    if n == 0 {
        backoff
    } else {
        paused(after_failures(backoff, (n - 1) as nat), 0).1
    }
}

/// However often `journalctl` fails, the pauses are never longer than the longest, never
/// shorter than the first, and never get shorter.
pub proof fn pauses_are_bounded(backoff: BackoffView, n: nat)
    requires
        1 <= backoff.base_ms <= MAX_BACKOFF_MS,
        backoff.next_ms == backoff.base_ms,
    ensures
        backoff.base_ms <= after_failures(backoff, n).next_ms <= MAX_BACKOFF_MS,
        after_failures(backoff, n).base_ms == backoff.base_ms,
        after_failures(backoff, n).next_ms <= after_failures(backoff, n + 1).next_ms,
    decreases n,
{
    if n > 0 {
        pauses_are_bounded(backoff, (n - 1) as nat);
    }
    assert(after_failures(backoff, n + 1) == paused(after_failures(backoff, n), 0).1);
}

/// A stable run brings the pause back to the first one, however long it had become.
pub proof fn stable_runs_begin_anew(backoff: BackoffView, n: nat, ran_ms: u64)
    requires
        ran_ms >= MIN_STABLE_RUN_MS,
    ensures
        paused(after_failures(backoff, n), ran_ms).0 == backoff.base_ms,
    decreases n,
{
    if n > 0 {
        stable_runs_begin_anew(backoff, (n - 1) as nat, ran_ms);
    }
}

/// Who may read the journal: the superuser, and who is in the group `systemd-journal` or
/// in the group `adm`; nobody else. A user whose number cannot be read is not the
/// superuser.
pub proof fn groups_open_the_journal(
    uid_output: &str,
    groups_output: &str,
    result: Result<(), IngestionError>,
    uid: nat,
    place: int,
)
    requires
        call_ensures(permission_from, (uid_output, groups_output), result),
        uid_output@ == text::decimal(uid) + seq!['\n'],
        uid <= u32::MAX,
    ensures
        uid == 0 ==> result is Ok,
        uid != 0 ==> (result is Ok <==> text::words(groups_output@).contains("systemd-journal"@)
            || text::words(groups_output@).contains("adm"@)),
        result matches Err(IngestionError::MissingJournalPermission { groups }) ==> text::texts(
            groups@,
        ) == text::words(groups_output@),
        result is Err ==> (result matches Err(IngestionError::MissingJournalPermission { .. })),
{
    text::reading_a_number_gives_it_back(uid, u32::MAX as nat, seq!['x', 'x'], 1);
    text::reading_undoes_writing(uid);
    let digits = text::decimal(uid);
    assert(text::is_digit(digits[0]));
    assert(text::is_digit(digits[digits.len() - 1]));
    text::trimming_takes_the_ends_off(Seq::empty(), digits, seq!['\n']);
    assert(Seq::<char>::empty() + digits + seq!['\n'] =~= uid_output@);
}

/// `journalctl` is asked for JSON without a pager: for what comes from now on, or for just
/// the time that was asked for.
pub proof fn the_journal_is_asked_for_what_is_wanted(mode: IngestionMode)
    ensures
        ({
            let args = arguments_of(mode);
            &&& args.len() >= 5
            &&& args[0] == "-o"@ && args[1] == "json"@ && args[2] == "--no-pager"@
            &&& mode is Live ==> args.len() == 6 && args[3] == "-f"@ && args[4] == "-n"@ && args[5]
                == "0"@
            &&& mode matches IngestionMode::Replay { since, until } ==> {
                &&& args[3] == "--since"@ && args[4] == since@
                &&& until is None ==> args.len() == 5
                &&& until matches Some(end) ==> args.len() == 7 && args[5] == "--until"@ && args[6]
                    == end@
            }
        }),
{
}

/// After a run that ended early the next pause is twice as long, up to half a minute; a
/// run of at least a minute brings the first pause back.
pub proof fn pauses_double(backoff: BackoffView, ran_ms: u64)
    requires
        1 <= backoff.base_ms <= backoff.next_ms <= 30_000,
    ensures
        ({
            let (pause, after) = paused(backoff, ran_ms);
            &&& ran_ms < 60_000 ==> pause == backoff.next_ms
            &&& ran_ms >= 60_000 ==> pause == backoff.base_ms
            &&& after.base_ms == backoff.base_ms
            &&& after.next_ms == 2 * pause || after.next_ms == 30_000 && 2 * pause > 30_000
            &&& after.next_ms <= 30_000
        }),
{
}

/// The first pause is the one that is set, if it is between a millisecond and half a
/// minute.
pub proof fn the_first_pause_is_the_one_set(restart_backoff_ms: u64, backoff: Backoff)
    requires
        call_ensures(Backoff::new, (restart_backoff_ms,), backoff),
    ensures
        1 <= restart_backoff_ms <= 30_000 ==> backoff@.base_ms == restart_backoff_ms,
        restart_backoff_ms == 0 ==> backoff@.base_ms == 1,
        restart_backoff_ms > 30_000 ==> backoff@.base_ms == 30_000,
        backoff@.next_ms == backoff@.base_ms,
{
}

/// Only a line of nothing but white space is passed over.
pub proof fn only_blank_lines_are_passed_over(line: &str, blank: bool, before: Seq<char>, s: Seq<char>)
    requires
        call_ensures(is_blank, (line,), blank),
        forall|i: int|
            0 <= i < before.len() ==> #[trigger] before[i] == ' ' || before[i] == '\t' || before[i]
                == '\n' || before[i] == '\r',
        s.len() > 0,
        '!' as u32 <= s[0] as u32 <= '~' as u32,
        '!' as u32 <= s.last() as u32 <= '~' as u32,
    ensures
        line@ == before ==> blank,
        line@ == before + s ==> !blank,
{
    text::trimming_takes_the_ends_off(before, s, Seq::empty());
    assert(before + s + Seq::<char>::empty() =~= before + s);
}

/// The arguments for `journalctl` are those of what is wanted, and a pause goes by how long
/// the last run was.
pub proof fn the_journal_is_read_as_asked(
    mode: &IngestionMode,
    args: Vec<String>,
    backoff: &mut Backoff,
    ran_ms: u64,
    pause_ms: u64,
)
    requires
        call_ensures(journalctl_args, (mode,), args),
        call_ensures(Backoff::pause_after, (backoff, ran_ms), pause_ms),
        1 <= old(backoff)@.base_ms <= old(backoff)@.next_ms <= 30_000,
    ensures
        text::texts(args@) == arguments_of(*mode),
        ran_ms < 60_000 ==> pause_ms == old(backoff)@.next_ms,
        ran_ms >= 60_000 ==> pause_ms == old(backoff)@.base_ms,
        final(backoff)@.base_ms == old(backoff)@.base_ms,
        2 * pause_ms <= 30_000 ==> final(backoff)@.next_ms == 2 * pause_ms,
        2 * pause_ms > 30_000 ==> final(backoff)@.next_ms == 30_000,
{
}

/// The numbers of a user and the names of groups are what decides, also where they come as
/// bytes.
pub proof fn bytes_are_read_as_text(
    uid_output: &Vec<u8>,
    groups_output: &Vec<u8>,
    result: Result<(), IngestionError>,
    uid: u32,
    groups: &[String],
    access: bool,
)
    requires
        call_ensures(check_journal_permissions, (uid_output, groups_output), result),
        call_ensures(has_journal_access, (uid, groups), access),
    ensures
        result is Ok <==> uid_of(text::utf8_lossy(uid_output@)) == 0 || text::words(
            text::utf8_lossy(groups_output@),
        ).contains("systemd-journal"@) || text::words(text::utf8_lossy(groups_output@)).contains(
            "adm"@,
        ),
        access <==> uid == 0 || text::texts(groups@).contains("systemd-journal"@) || text::texts(
            groups@,
        ).contains("adm"@),
{
}

/// Every error that has a reason gives it last.
pub proof fn errors_end_with_their_reason(reason: String)
    ensures
        exists|before: Seq<char>|
            IngestionError::PermissionCheckFailed(reason).words() == #[trigger] (before + reason@),
        exists|before: Seq<char>|
            IngestionError::SpawnFailed(reason).words() == #[trigger] (before + reason@),
        exists|before: Seq<char>|
            IngestionError::ReadFailed(reason).words() == #[trigger] (before + reason@),
{
    assert(IngestionError::PermissionCheckFailed(reason).words()
        == "Rechteprüfung konnte nicht durchgeführt werden: "@ + reason@);
    assert(IngestionError::SpawnFailed(reason).words()
        == "journalctl-Prozess konnte nicht gestartet werden: "@ + reason@);
    assert(IngestionError::ReadFailed(reason).words()
        == "Fehler beim Lesen von journalctl-stdout: "@ + reason@);
}

/// The list of groups in the error for those who may not read the journal names each of
/// them, quoted, with commas between.
pub proof fn all_groups_are_named(groups: Seq<Seq<char>>, group: Seq<char>)
    ensures
        list_text(Seq::empty()) == "["@ + "]"@,
        list_text(seq![group]) == "["@ + text::debug_quoted(group) + "]"@,
        groups.len() > 0 ==> list_text(groups.push(group)) == "["@ + (text::joined(
            all_quoted(groups),
            ", "@,
        ) + ", "@ + text::debug_quoted(group)) + "]"@,
{
    let none = Seq::<Seq<char>>::empty();
    assert(all_quoted(none) =~= none);
    assert(list_text(none) =~= "["@ + "]"@);
    assert(all_quoted(seq![group]) =~= seq![text::debug_quoted(group)]);
    assert(all_quoted(groups.push(group)) =~= all_quoted(groups).push(text::debug_quoted(group)));
    text::joining_puts_the_separator_between(
        all_quoted(groups),
        text::debug_quoted(group),
        ", "@,
    );
}

} // verus!
