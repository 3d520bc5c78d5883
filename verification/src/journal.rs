//! Journal entries, as `journalctl -o json` writes them.
//!
//! The journal writes its numbers as texts. `MESSAGE` is a text, or an array of
//! bytes where it is not valid UTF-8.

use vstd::prelude::*;

use crate::text;
use crate::text::{parse_signed_32, parse_unsigned};

verus! {

/// An event of the journal.
#[derive(Debug, PartialEq)]
pub struct JournalEvent {
    /// Microseconds since the Unix epoch.
    pub realtime_timestamp_us: u64,
    /// The systemd unit, where the journal names one.
    pub systemd_unit: Option<String>,
    /// The process that wrote the message.
    pub pid: Option<i32>,
    /// The syslog priority, from 0 (emergency) to 7 (debug).
    pub priority: Option<u8>,
    /// The message. What is not UTF-8 in it has been replaced.
    pub message: String,
    /// Whether the message came as bytes.
    pub message_was_binary: bool,
    /// The host, where the journal names one.
    pub hostname: Option<String>,
}

/// Why a line of the journal is not an event.
#[derive(Debug, PartialEq)]
pub enum JournalParseError {
    /// The line is not JSON of the expected shape.
    InvalidJson(String),
    /// `__REALTIME_TIMESTAMP` is missing or not a number.
    MissingTimestamp,
}

impl JournalParseError {
    /// The error in words.
    pub fn to_text(&self) -> (words: String)
        ensures
            words@ == (match *self {
                JournalParseError::InvalidJson(reason) => "Zeile ist kein gültiges JSON: "@ + reason@,
                JournalParseError::MissingTimestamp =>
                    "__REALTIME_TIMESTAMP fehlt oder ist nicht parsbar"@,
            }),
    {
        match self {
            JournalParseError::InvalidJson(reason) => text::concat(
                "Zeile ist kein gültiges JSON: ",
                reason.as_str(),
            ),
            JournalParseError::MissingTimestamp =>
                "__REALTIME_TIMESTAMP fehlt oder ist nicht parsbar".to_string(),
        }
    }
}

/// The fields of a journal line that are read, as they stand in it.
#[derive(Debug)]
pub struct RawJournalEntry {
    /// `__REALTIME_TIMESTAMP`.
    pub realtime_timestamp: Option<String>,
    /// `_SYSTEMD_UNIT`.
    pub systemd_unit: Option<String>,
    /// `_PID`.
    pub pid: Option<String>,
    /// `PRIORITY`.
    pub priority: Option<String>,
    /// `MESSAGE`.
    pub message: Option<RawMessage>,
    /// `_HOSTNAME`.
    pub hostname: Option<String>,
}

/// The message of a journal line.
#[derive(Debug)]
pub enum RawMessage {
    /// A text.
    Text(String),
    /// Bytes that need not be UTF-8.
    Bytes(Vec<u8>),
}

/// The unsigned number in a field, if there is one of at most `max`.
pub open spec fn field_number(field: Option<String>, max: nat) -> Option<nat> {
    match field {
        Some(value) => text::unsigned_up_to(value@, max),
        None => None,
    }
}

/// The process id in a field, if it holds one.
pub open spec fn field_pid(field: Option<String>) -> Option<int> {
    match field {
        Some(value) => text::signed_32(value@),
        None => None,
    }
}

/// The message of an entry, decoded.
pub open spec fn message_of(raw: Option<RawMessage>) -> Seq<char> {
    match raw {
        Some(RawMessage::Text(message)) => message@,
        Some(RawMessage::Bytes(bytes)) => text::utf8_lossy(bytes@),
        None => Seq::empty(),
    }
}

/// Whether `event` is what an entry says, with the given message. An unreadable
/// process id or priority counts as none.
pub open spec fn is_event_of(
    event: JournalEvent,
    raw: RawJournalEntry,
    message: Seq<char>,
    binary: bool,
) -> bool {
    &&& field_number(raw.realtime_timestamp, u64::MAX as nat) == Some(
        event.realtime_timestamp_us as nat,
    )
    &&& event.systemd_unit == raw.systemd_unit
    &&& event.hostname == raw.hostname
    &&& field_pid(raw.pid) == (match event.pid {
        Some(pid) => Some(pid as int),
        None => None::<int>,
    })
    &&& field_number(raw.priority, u8::MAX as nat) == (match event.priority {
        Some(priority) => Some(priority as nat),
        None => None::<nat>,
    })
    &&& event.message@ == message
    &&& event.message_was_binary == binary
}

/// The event that an entry describes, its message being decoded already.
pub fn event_from_entry(raw: RawJournalEntry, message: String, message_was_binary: bool) -> (result:
    Result<JournalEvent, JournalParseError>)
    ensures
        match result {
            Ok(event) => is_event_of(event, raw, message@, message_was_binary),
            Err(error) => error is MissingTimestamp && field_number(
                raw.realtime_timestamp,
                u64::MAX as nat,
            ) is None,
        },
{
    let stamp: Option<u64> = match &raw.realtime_timestamp {
        Some(value) => parse_unsigned(value.as_str(), u64::MAX),
        None => None,
    };
    let pid: Option<i32> = match &raw.pid {
        Some(value) => parse_signed_32(value.as_str()),
        None => None,
    };
    let priority: Option<u8> = match &raw.priority {
        Some(value) => match parse_unsigned(value.as_str(), 255) {
            Some(n) => Some(n as u8),
            None => None,
        },
        None => None,
    };
    match stamp {
        Some(realtime_timestamp_us) => Ok(
            JournalEvent {
                realtime_timestamp_us,
                systemd_unit: raw.systemd_unit,
                pid,
                priority,
                message,
                message_was_binary,
                hostname: raw.hostname,
            },
        ),
        None => Err(JournalParseError::MissingTimestamp),
    }
}

/// Makes an event of a line of the journal, given what came of decoding its
/// JSON. A line that is no JSON and a line without a time stamp are errors.
pub fn parse_journal_line(decoded: Result<RawJournalEntry, String>) -> (result: Result<
    JournalEvent,
    JournalParseError,
>)
    ensures
        match decoded {
            Err(reason) => result == Err::<JournalEvent, JournalParseError>(
                JournalParseError::InvalidJson(reason),
            ),
            Ok(raw) => match result {
                Ok(event) => is_event_of(
                    event,
                    raw,
                    message_of(raw.message),
                    raw.message matches Some(RawMessage::Bytes(_)),
                ),
                Err(error) => error is MissingTimestamp && field_number(
                    raw.realtime_timestamp,
                    u64::MAX as nat,
                ) is None,
            },
        },
{
    match decoded {
        Err(reason) => Err(JournalParseError::InvalidJson(reason)),
        Ok(raw) => {
            let (message, binary) = match &raw.message {
                Some(RawMessage::Text(message)) => (message.clone(), false),
                Some(RawMessage::Bytes(bytes)) => (text::decode_lossy(bytes), true),
                None => (String::new(), false),
            };
            event_from_entry(raw, message, binary)
        },
    }
}

/// An event says what its entry says: the time, the process and the priority are the
/// numbers that stand there, the unit, the host and the message are as they were. A
/// process or a priority that is missing, unreadable or too large counts as none; a time
/// that is makes the entry no event.
pub proof fn an_event_says_what_its_entry_says(
    event: JournalEvent,
    raw: RawJournalEntry,
    message: Seq<char>,
    binary: bool,
    n: nat,
)
    requires
        is_event_of(event, raw, message, binary),
    ensures
        raw.realtime_timestamp is Some,
        raw.realtime_timestamp matches Some(stamp) ==> (stamp@ == text::decimal(n)
            ==> event.realtime_timestamp_us == n),
        raw.pid matches Some(pid) ==> (pid@ == text::decimal(n) && n <= 2_147_483_647 ==> event.pid
            == Some(n as i32)),
        raw.pid matches Some(pid) ==> (pid@ == text::decimal(n) && n > 2_147_483_647 ==> event.pid
            is None),
        raw.pid matches Some(pid) ==> (pid@ == seq!['-'] + text::decimal(n) && n <= 2_147_483_648
            ==> event.pid == Some((-n) as i32)),
        raw.pid is None ==> event.pid is None,
        raw.priority matches Some(priority) ==> (priority@ == text::decimal(n) && n <= 255
            ==> event.priority == Some(n as u8)),
        raw.priority matches Some(priority) ==> (priority@ == text::decimal(n) && n > 255
            ==> event.priority is None),
        raw.priority is None ==> event.priority is None,
        event.systemd_unit == raw.systemd_unit,
        event.hostname == raw.hostname,
        event.message@ == message,
        event.message_was_binary == binary,
{
    text::reading_a_number_gives_it_back(n, u64::MAX as nat, seq!['x', 'x'], 1);
    text::reading_a_number_gives_it_back(n, 255, seq!['x', 'x'], 1);
}

/// The message of an entry is its text, or nothing where it has none.
pub proof fn messages_are_kept(message: String)
    ensures
        message_of(Some(RawMessage::Text(message))) == message@,
        message_of(None).len() == 0,
{
}

/// A line of the journal becomes an event just if it is JSON and has a time. The message
/// is the text that it has, or nothing; it counts as binary just if it came as bytes.
pub proof fn lines_become_events(
    decoded: Result<RawJournalEntry, String>,
    result: Result<JournalEvent, JournalParseError>,
    n: nat,
)
    requires
        call_ensures(parse_journal_line, (decoded,), result),
    ensures
        decoded matches Err(reason) ==> result == Err::<JournalEvent, JournalParseError>(
            JournalParseError::InvalidJson(reason),
        ),
        decoded matches Ok(raw) ==> {
            &&& raw.realtime_timestamp is None ==> (result matches Err(
                JournalParseError::MissingTimestamp,
            ))
            &&& raw.realtime_timestamp matches Some(stamp) ==> (stamp@ == text::decimal(n) && n
                <= u64::MAX ==> (result matches Ok(event) && event.realtime_timestamp_us == n))
            &&& result matches Ok(event) ==> {
                &&& event.systemd_unit == raw.systemd_unit
                &&& event.hostname == raw.hostname
                &&& raw.message is None ==> event.message@.len() == 0
                    && !event.message_was_binary
                &&& raw.message matches Some(RawMessage::Text(message)) ==> event.message@
                    == message@ && !event.message_was_binary
                &&& raw.message matches Some(RawMessage::Bytes(bytes)) ==> event.message@
                    == text::utf8_lossy(bytes@) && event.message_was_binary
            }
        },
{
    text::reading_a_number_gives_it_back(n, u64::MAX as nat, seq!['x', 'x'], 1);
}

/// An error about a line gives the reason of the decoder last.
pub proof fn errors_give_the_reason(reason: String, words: String)
    requires
        call_ensures(
            JournalParseError::to_text,
            (&JournalParseError::InvalidJson(reason),),
            words,
        ),
    ensures
        exists|before: Seq<char>| words@ == #[trigger] (before + reason@),
{
}

} // verus!
