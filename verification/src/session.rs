//! A connection of a client, step by step: what the daemon answers to what comes in.
//! First the client has to say hello; then both sides talk until one of them ends.

use vstd::prelude::*;

use crate::actions::ActionExecutor;
use crate::proto;
use crate::proto::{
    ActionOutcome, ActionRequest, AnomalyEvent, ClientMessage, ErrorCode, GoodbyeReason, ServerMessage,
    Subscription, PROTOCOL_VERSION,
};
use crate::state;
use crate::state::{SharedState, StateView};
use crate::text;

verus! {

/// The longest time between two snapshots that a client can ask for, in milliseconds.
pub const MAX_SNAPSHOT_INTERVAL_MS: u32 = 60_000;

/// What a line of a client is.
#[derive(Debug)]
pub enum ParsedLine {
    /// A message.
    Message(ClientMessage),
    /// JSON, but no message that is known.
    UnknownMessage,
    /// No JSON.
    MalformedJson,
}

/// Whether `serde_json` reads a text as a JSON value.
pub uninterp spec fn json_parses(line: Seq<char>) -> bool;

/// `serde_json::from_str` into a `Value`: whether a text is JSON.
#[verifier::external_body]
fn is_json(line: &str) -> (json: bool)
    ensures
        json == json_parses(line@),
{
    serde_json::from_str::<serde_json::Value>(line).is_ok()
}

/// What a line is, given the message that it was decoded to, if it was, and whether
/// it is JSON.
pub open spec fn line_is(decoded: Option<ClientMessage>, json: bool) -> ParsedLine {
    match decoded {
        Some(message) => ParsedLine::Message(message),
        None => if json {
            ParsedLine::UnknownMessage
        } else {
            ParsedLine::MalformedJson
        },
    }
}

/// What a line is, given the message that it was decoded to, if it was, and whether
/// it is JSON.
pub fn classify_line(decoded: Option<ClientMessage>, json: bool) -> (parsed: ParsedLine)
    ensures
        parsed == line_is(decoded, json),
{
    match decoded {
        Some(message) => ParsedLine::Message(message),
        None => if json {
            ParsedLine::UnknownMessage
        } else {
            ParsedLine::MalformedJson
        },
    }
}

/// What a line of a client is, given the message that it was decoded to, if it was.
/// A message of an unknown kind is told apart from what is no JSON at all, so that a
/// newer client does not lose its connection.
pub fn parse_client_message(line: &str, decoded: Option<ClientMessage>) -> (parsed: ParsedLine)
    ensures
        parsed == line_is(decoded, json_parses(line@)),
{
    match decoded {
        Some(message) => ParsedLine::Message(message),
        None => classify_line(None, is_json(line)),
    }
}

/// Whether a message says that something is wrong.
pub open spec fn is_error(message: ServerMessage, code: ErrorCode, words: Seq<char>) -> bool {
    message matches ServerMessage::Error { code: said, message: said_words, request_id } && said == code
        && said_words@ == words && request_id is None
}

/// The message that something is wrong.
fn error_message(code: ErrorCode, words: &str) -> (message: ServerMessage)
    ensures
        is_error(message, code, words@),
{
    ServerMessage::Error { code, message: words.to_string(), request_id: None }
}

/// What can happen while the client is to say hello.
#[derive(Debug)]
pub enum HandshakeEvent {
    /// The time is up.
    Expired,
    /// A line came.
    Line(ParsedLine),
    /// The client is gone.
    EndOfStream,
    /// A line was too long.
    TooLong,
    /// A line was not UTF-8, or could not be read.
    Unreadable,
}

/// What is done about it.
#[derive(Debug)]
pub enum HandshakeStep {
    /// Send this, and wait on.
    GoOn(ServerMessage),
    /// Send this, if there is something to send, and end.
    Close(Option<ServerMessage>),
    /// The client has said hello, and wants this.
    Ready(Subscription),
}

/// Whether a step ends the connection with a goodbye.
pub open spec fn says_goodbye(step: HandshakeStep, reason: GoodbyeReason) -> bool {
    step == HandshakeStep::Close(Some(ServerMessage::Goodbye { reason }))
}

/// Whether a step is what is done about an event.
pub open spec fn is_handshake_step(event: HandshakeEvent, step: HandshakeStep) -> bool {
    match event {
        HandshakeEvent::Expired => says_goodbye(step, GoodbyeReason::HelloTimeout),
        HandshakeEvent::EndOfStream => step == HandshakeStep::Close(None),
        HandshakeEvent::TooLong => says_goodbye(step, GoodbyeReason::LineTooLong),
        HandshakeEvent::Unreadable => step matches HandshakeStep::Close(Some(message)) && is_error(
            message,
            ErrorCode::MalformedMessage,
            "ungültiges UTF-8"@,
        ),
        HandshakeEvent::Line(ParsedLine::Message(message)) => match message {
            ClientMessage::Hello { protocol_version, subscription, .. } => if protocol_version
                != PROTOCOL_VERSION {
                says_goodbye(
                    step,
                    GoodbyeReason::VersionMismatch {
                        expected: PROTOCOL_VERSION,
                        got: protocol_version,
                    },
                )
            } else {
                step == HandshakeStep::Ready(subscription)
            },
            _ => step matches HandshakeStep::GoOn(answer) && is_error(
                answer,
                ErrorCode::HelloExpected,
                "erwarte Hello als erste Nachricht"@,
            ),
        },
        HandshakeEvent::Line(ParsedLine::UnknownMessage) => step matches HandshakeStep::GoOn(answer)
            && is_error(
            answer,
            ErrorCode::UnknownMessage,
            "unbekannter Nachrichtentyp vor Hello"@,
        ),
        HandshakeEvent::Line(ParsedLine::MalformedJson) => step matches HandshakeStep::Close(
            Some(answer),
        ) && is_error(answer, ErrorCode::MalformedMessage, "ungültiges JSON"@),
    }
}

/// What is done about an event while the client is to say hello.
pub fn handshake_step(event: HandshakeEvent) -> (step: HandshakeStep)
    ensures
        is_handshake_step(event, step),
{
    match event {
        HandshakeEvent::Expired => HandshakeStep::Close(
            Some(ServerMessage::Goodbye { reason: GoodbyeReason::HelloTimeout }),
        ),
        HandshakeEvent::EndOfStream => HandshakeStep::Close(None),
        HandshakeEvent::TooLong => HandshakeStep::Close(
            Some(ServerMessage::Goodbye { reason: GoodbyeReason::LineTooLong }),
        ),
        HandshakeEvent::Unreadable => HandshakeStep::Close(
            Some(error_message(ErrorCode::MalformedMessage, "ungültiges UTF-8")),
        ),
        HandshakeEvent::Line(ParsedLine::Message(message)) => match message {
            ClientMessage::Hello { protocol_version, subscription, .. } => if protocol_version
                != PROTOCOL_VERSION {
                HandshakeStep::Close(
                    Some(
                        ServerMessage::Goodbye {
                            reason: GoodbyeReason::VersionMismatch {
                                expected: PROTOCOL_VERSION,
                                got: protocol_version,
                            },
                        },
                    ),
                )
            } else {
                HandshakeStep::Ready(subscription)
            },
            _ => HandshakeStep::GoOn(
                error_message(ErrorCode::HelloExpected, "erwarte Hello als erste Nachricht"),
            ),
        },
        HandshakeEvent::Line(ParsedLine::UnknownMessage) => HandshakeStep::GoOn(
            error_message(ErrorCode::UnknownMessage, "unbekannter Nachrichtentyp vor Hello"),
        ),
        HandshakeEvent::Line(ParsedLine::MalformedJson) => HandshakeStep::Close(
            Some(error_message(ErrorCode::MalformedMessage, "ungültiges JSON")),
        ),
    }
}

/// Whether an event is a hello in the version of the protocol that is spoken.
pub open spec fn is_proper_hello(event: HandshakeEvent, subscription: Subscription) -> bool {
    event matches HandshakeEvent::Line(
        ParsedLine::Message(ClientMessage::Hello { protocol_version, subscription: wanted, .. }),
    ) && protocol_version == PROTOCOL_VERSION && wanted == subscription
}

/// Only a hello in the right version opens a session, with what the client wants.
pub proof fn only_hello_opens_a_session(event: HandshakeEvent, step: HandshakeStep, subscription: Subscription)
    requires
        is_handshake_step(event, step),
    ensures
        step == HandshakeStep::Ready(subscription) <==> is_proper_hello(event, subscription),
{
}

/// A message that comes too early, or of an unknown kind, does not cost the client its
/// connection.
pub proof fn early_messages_are_forgiven(message: ClientMessage, step: HandshakeStep)
    requires
        !(message is Hello),
    ensures
        is_handshake_step(HandshakeEvent::Line(ParsedLine::Message(message)), step) ==> step is GoOn,
        is_handshake_step(HandshakeEvent::Line(ParsedLine::UnknownMessage), step) ==> step is GoOn,
{
}

/// What a connection gets that is refused because there are too many.
pub fn reject_too_many(max: u32) -> (message: ServerMessage)
    ensures
        message == (ServerMessage::Goodbye { reason: GoodbyeReason::TooManyClients { max } }),
{
    ServerMessage::Goodbye { reason: GoodbyeReason::TooManyClients { max } }
}

/// Whether these are the messages that a session opens with: the hello of the daemon,
/// the last anomalies, and a snapshot if the client wants snapshots.
pub open spec fn opens_with(
    messages: Seq<ServerMessage>,
    subscription: Subscription,
    daemon_version: Seq<char>,
    hostname: Seq<char>,
    allowed: Seq<Seq<char>>,
    dry: bool,
    shared: StateView,
) -> bool {
    &&& messages.len() == if subscription.snapshots {
        3int
    } else {
        2int
    }
    &&& messages[0] matches ServerMessage::Hello {
        protocol_version,
        daemon_version: said_version,
        hostname: said_hostname,
        session_id,
        allowed_actions,
        dry_run,
    } && protocol_version == PROTOCOL_VERSION && said_version@ == daemon_version && said_hostname@
        == hostname && session_id == shared.session_id && text::texts(allowed_actions@) == allowed
        && dry_run == dry
    &&& messages[1] matches ServerMessage::RecentAnomalies { anomalies } && anomalies@ == shared.recent
    &&& subscription.snapshots ==> (messages[2] matches ServerMessage::Snapshot(snapshot)
        && proto::same_snapshot(snapshot, shared.snapshot))
}

/// The messages that a session opens with.
pub fn opening(
    subscription: &Subscription,
    daemon_version: &str,
    hostname: &str,
    actions: &ActionExecutor,
    shared: &SharedState,
) -> (messages: Vec<ServerMessage>)
    ensures
        opens_with(
            messages@,
            *subscription,
            daemon_version@,
            hostname@,
            text::texts(actions@.config.allowed_kinds@),
            actions@.config.dry_run,
            shared@,
        ),
{
    let mut messages: Vec<ServerMessage> = Vec::new();
    messages.push(
        ServerMessage::Hello {
            protocol_version: PROTOCOL_VERSION,
            daemon_version: daemon_version.to_string(),
            hostname: hostname.to_string(),
            session_id: shared.session_id(),
            allowed_actions: actions.allowed_kinds(),
            dry_run: actions.dry_run(),
        },
    );
    messages.push(ServerMessage::RecentAnomalies { anomalies: shared.recent_anomalies() });
    if subscription.snapshots {
        messages.push(ServerMessage::Snapshot(shared.latest_snapshot().duplicate()));
    }
    messages
}

/// What the settings allow a client.
#[derive(Debug, Clone, Copy)]
pub struct SessionLimits {
    /// The shortest time between two snapshots, in milliseconds.
    pub min_snapshot_interval_ms: u32,
    /// How many lines before and after a time are sent.
    pub context_max_lines: u16,
}

/// The time between two snapshots that a client gets if it asks for another.
pub open spec fn allowed_interval(wanted_ms: u32, limits: SessionLimits) -> u32 {
    if wanted_ms < limits.min_snapshot_interval_ms {
        limits.min_snapshot_interval_ms
    } else if wanted_ms > MAX_SNAPSHOT_INTERVAL_MS {
        MAX_SNAPSHOT_INTERVAL_MS
    } else {
        wanted_ms
    }
}

/// The time between two snapshots that a client gets.
fn clamp_interval(wanted_ms: u32, limits: &SessionLimits) -> (ms: u32)
    requires
        limits.min_snapshot_interval_ms <= MAX_SNAPSHOT_INTERVAL_MS,
    ensures
        ms == allowed_interval(wanted_ms, *limits),
{
    if wanted_ms < limits.min_snapshot_interval_ms {
        limits.min_snapshot_interval_ms
    } else if wanted_ms > MAX_SNAPSHOT_INTERVAL_MS {
        MAX_SNAPSHOT_INTERVAL_MS
    } else {
        wanted_ms
    }
}

/// The time between two snapshots of a session, in milliseconds: at least one.
pub fn snapshot_period_ms(subscription: &Subscription, limits: &SessionLimits) -> (ms: u32)
    requires
        limits.min_snapshot_interval_ms <= MAX_SNAPSHOT_INTERVAL_MS,
    ensures
        ms == (if allowed_interval(subscription.snapshot_interval_ms, *limits) == 0 {
            1
        } else {
            allowed_interval(subscription.snapshot_interval_ms, *limits)
        }),
        1 <= ms <= MAX_SNAPSHOT_INTERVAL_MS,
{
    let ms: u32 = clamp_interval(subscription.snapshot_interval_ms, limits);
    if ms == 0 {
        1
    } else {
        ms
    }
}

/// What can happen during a session.
#[derive(Debug)]
pub enum SessionEvent {
    /// The sign that the daemon ends has changed; it says so, or its sender is gone.
    ShutdownChanged(bool),
    /// It is time for a snapshot.
    SnapshotTick,
    /// An anomaly was reported.
    Anomaly(AnomalyEvent),
    /// So many anomalies were missed.
    Lagged(u64),
    /// No more anomalies will come.
    AnomaliesClosed,
    /// A line came.
    Line(ParsedLine),
    /// The client is gone.
    EndOfStream,
    /// A line was too long.
    TooLong,
    /// A line was not UTF-8, or could not be read.
    Unreadable,
}

/// What is done about it.
#[derive(Debug)]
pub enum SessionStep {
    /// Send this, if there is something to send, and go on.
    GoOn(Option<ServerMessage>),
    /// Send this, if there is something to send, and end.
    Close(Option<ServerMessage>),
    /// Do this, and send what came of it.
    Execute {
        /// The number of the request.
        request_id: u64,
        /// What is to be done.
        action: ActionRequest,
    },
}

/// Whether a step goes on without a word.
pub open spec fn is_silent(step: SessionStep) -> bool {
    step == SessionStep::GoOn(None)
}

/// Whether a step answers a message of a client.
pub open spec fn answers(
    message: ClientMessage,
    limits: SessionLimits,
    shared: StateView,
    step: SessionStep,
) -> bool {
    match message {
        ClientMessage::Hello { .. } => is_silent(step),
        ClientMessage::Subscribe { .. } => is_silent(step),
        ClientMessage::GetContext { request_id, timestamp_us, before, after, unit } =>
            step matches SessionStep::GoOn(Some(ServerMessage::Context(reply))) && reply.request_id
                == request_id && state::is_reply(
                state::lines_of(shared.context.lines, text::text_of(unit)),
                timestamp_us,
                state::lower(before, limits.context_max_lines),
                state::lower(after, limits.context_max_lines),
                reply,
            ),
        ClientMessage::Action { request_id, action } => step == (SessionStep::Execute {
            request_id,
            action,
        }),
        ClientMessage::Ping { nonce } => step == SessionStep::GoOn(
            Some(ServerMessage::Pong { nonce }),
        ),
    }
}

/// What a client wants after it has sent a message.
pub open spec fn wants_after(
    message: ClientMessage,
    limits: SessionLimits,
    before: Subscription,
) -> Subscription {
    match message {
        ClientMessage::Subscribe { subscription } => Subscription {
            snapshot_interval_ms: allowed_interval(subscription.snapshot_interval_ms, limits),
            ..subscription
        },
        _ => before,
    }
}

/// Answers a message of a client, and takes note of what it wants.
pub fn handle_client_message(
    message: ClientMessage,
    limits: &SessionLimits,
    shared: &SharedState,
    subscription: &mut Subscription,
) -> (step: SessionStep)
    requires
        message is Subscribe ==> limits.min_snapshot_interval_ms <= MAX_SNAPSHOT_INTERVAL_MS,
    ensures
        answers(message, *limits, shared@, step),
        *final(subscription) == wants_after(message, *limits, *old(subscription)),
{
    match message {
        ClientMessage::Hello { .. } => SessionStep::GoOn(None),
        ClientMessage::Subscribe { subscription: requested } => {
            *subscription =
            Subscription {
                snapshots: requested.snapshots,
                anomalies: requested.anomalies,
                snapshot_interval_ms: clamp_interval(requested.snapshot_interval_ms, limits),
            };
            SessionStep::GoOn(None)
        },
        ClientMessage::GetContext { request_id, timestamp_us, before, after, unit } => SessionStep::GoOn(
            Some(
                shared.context_reply(
                    request_id,
                    timestamp_us,
                    before,
                    after,
                    &unit,
                    limits.context_max_lines,
                ),
            ),
        ),
        ClientMessage::Action { request_id, action } => SessionStep::Execute { request_id, action },
        ClientMessage::Ping { nonce } => SessionStep::GoOn(Some(ServerMessage::Pong { nonce })),
    }
}

/// Whether a step is what is done about an event of a session.
pub open spec fn is_session_step(
    event: SessionEvent,
    limits: SessionLimits,
    shared: StateView,
    subscription: Subscription,
    step: SessionStep,
) -> bool {
    match event {
        SessionEvent::ShutdownChanged(ends) => if ends {
            step == SessionStep::Close(
                Some(ServerMessage::Goodbye { reason: GoodbyeReason::Shutdown }),
            )
        } else {
            is_silent(step)
        },
        SessionEvent::SnapshotTick => if subscription.snapshots {
            step matches SessionStep::GoOn(Some(ServerMessage::Snapshot(snapshot)))
                && proto::same_snapshot(snapshot, shared.snapshot)
        } else {
            is_silent(step)
        },
        SessionEvent::Anomaly(event) => if subscription.anomalies {
            step == SessionStep::GoOn(Some(ServerMessage::Anomaly(event)))
        } else {
            is_silent(step)
        },
        SessionEvent::Lagged(missed) => step matches SessionStep::GoOn(Some(message)) && is_error(
            message,
            ErrorCode::Lagged { missed },
            "Anomalien wurden verpasst, der Client hinkt hinterher"@,
        ),
        SessionEvent::AnomaliesClosed => step == SessionStep::Close(None),
        SessionEvent::Line(ParsedLine::Message(message)) => answers(message, limits, shared, step),
        SessionEvent::Line(ParsedLine::UnknownMessage) => step matches SessionStep::GoOn(
            Some(message),
        ) && is_error(message, ErrorCode::UnknownMessage, "unbekannter Nachrichtentyp"@),
        SessionEvent::Line(ParsedLine::MalformedJson) => step matches SessionStep::Close(
            Some(message),
        ) && is_error(message, ErrorCode::MalformedMessage, "ungültiges JSON"@),
        SessionEvent::EndOfStream => step == SessionStep::Close(None),
        SessionEvent::TooLong => step == SessionStep::Close(
            Some(ServerMessage::Goodbye { reason: GoodbyeReason::LineTooLong }),
        ),
        SessionEvent::Unreadable => step == SessionStep::Close(None),
    }
}

/// What a client wants after an event.
pub open spec fn wants_then(
    event: SessionEvent,
    limits: SessionLimits,
    before: Subscription,
) -> Subscription {
    match event {
        SessionEvent::Line(ParsedLine::Message(message)) => wants_after(message, limits, before),
        _ => before,
    }
}

/// What is done about an event of a session, and whether the time to the next snapshot
/// starts anew: it does with every message of the client.
pub fn session_step(
    event: SessionEvent,
    limits: &SessionLimits,
    shared: &SharedState,
    subscription: &mut Subscription,
) -> (done: (SessionStep, bool))
    requires
        event matches SessionEvent::Line(ParsedLine::Message(ClientMessage::Subscribe { .. }))
            ==> limits.min_snapshot_interval_ms <= MAX_SNAPSHOT_INTERVAL_MS,
    ensures
        is_session_step(event, *limits, shared@, *old(subscription), done.0),
        *final(subscription) == wants_then(event, *limits, *old(subscription)),
        done.1 == (event matches SessionEvent::Line(ParsedLine::Message(_))),
{
    match event {
        SessionEvent::ShutdownChanged(ends) => if ends {
            (
                SessionStep::Close(Some(ServerMessage::Goodbye { reason: GoodbyeReason::Shutdown })),
                false,
            )
        } else {
            (SessionStep::GoOn(None), false)
        },
        SessionEvent::SnapshotTick => if subscription.snapshots {
            (
                SessionStep::GoOn(
                    Some(ServerMessage::Snapshot(shared.latest_snapshot().duplicate())),
                ),
                false,
            )
        } else {
            (SessionStep::GoOn(None), false)
        },
        SessionEvent::Anomaly(event) => if subscription.anomalies {
            (SessionStep::GoOn(Some(ServerMessage::Anomaly(event))), false)
        } else {
            (SessionStep::GoOn(None), false)
        },
        SessionEvent::Lagged(missed) => (
            SessionStep::GoOn(
                Some(
                    error_message(
                        ErrorCode::Lagged { missed },
                        "Anomalien wurden verpasst, der Client hinkt hinterher",
                    ),
                ),
            ),
            false,
        ),
        SessionEvent::AnomaliesClosed => (SessionStep::Close(None), false),
        SessionEvent::Line(ParsedLine::Message(message)) => (
            handle_client_message(message, limits, shared, subscription),
            true,
        ),
        SessionEvent::Line(ParsedLine::UnknownMessage) => (
            SessionStep::GoOn(
                Some(error_message(ErrorCode::UnknownMessage, "unbekannter Nachrichtentyp")),
            ),
            false,
        ),
        SessionEvent::Line(ParsedLine::MalformedJson) => (
            SessionStep::Close(
                Some(error_message(ErrorCode::MalformedMessage, "ungültiges JSON")),
            ),
            false,
        ),
        SessionEvent::EndOfStream => (SessionStep::Close(None), false),
        SessionEvent::TooLong => (
            SessionStep::Close(Some(ServerMessage::Goodbye { reason: GoodbyeReason::LineTooLong })),
            false,
        ),
        SessionEvent::Unreadable => (SessionStep::Close(None), false),
    }
}

/// The message with what came of an action.
pub fn action_result(request_id: u64, outcome: ActionOutcome) -> (message: ServerMessage)
    ensures
        message == (ServerMessage::ActionResult { request_id, outcome }),
{
    ServerMessage::ActionResult { request_id, outcome }
}

/// Whatever a client sends, the time between its snapshots stays between the bounds
/// once it was.
pub proof fn intervals_stay_bounded(event: SessionEvent, limits: SessionLimits, before: Subscription)
    requires
        limits.min_snapshot_interval_ms <= MAX_SNAPSHOT_INTERVAL_MS,
        limits.min_snapshot_interval_ms <= before.snapshot_interval_ms <= MAX_SNAPSHOT_INTERVAL_MS,
    ensures
        limits.min_snapshot_interval_ms <= wants_then(event, limits, before).snapshot_interval_ms
            <= MAX_SNAPSHOT_INTERVAL_MS,
{
}

/// A client that does not want anomalies gets none, and one that does not want
/// snapshots gets none.
pub proof fn only_what_is_wanted_is_sent(
    event: SessionEvent,
    limits: SessionLimits,
    shared: StateView,
    subscription: Subscription,
    step: SessionStep,
)
    requires
        is_session_step(event, limits, shared, subscription, step),
    ensures
        !subscription.anomalies ==> !(step matches SessionStep::GoOn(
            Some(ServerMessage::Anomaly(_)),
        )),
        !subscription.snapshots ==> !(step matches SessionStep::GoOn(
            Some(ServerMessage::Snapshot(_)),
        )),
{
}

/// The version of the protocol that is spoken is the first; a hello in it opens the
/// session with what the client wants, and one in another is turned away with both
/// versions.
pub proof fn versions_have_to_agree(
    event: HandshakeEvent,
    step: HandshakeStep,
    version: u32,
    wanted: Subscription,
)
    requires
        is_handshake_step(event, step),
        event matches HandshakeEvent::Line(
            ParsedLine::Message(ClientMessage::Hello { protocol_version, subscription, .. }),
        ) && protocol_version == version && subscription == wanted,
    ensures
        version == 1 ==> step == HandshakeStep::Ready(wanted),
        version != 1 ==> step == HandshakeStep::Close(
            Some(
                ServerMessage::Goodbye {
                    reason: GoodbyeReason::VersionMismatch { expected: 1, got: version },
                },
            ),
        ),
{
}

/// Before the hello, a connection ends just if the time is up, the client is gone, a line
/// is too long, not readable or no JSON, or the version is another one; and a client that
/// is still there is told why.
pub proof fn what_ends_a_handshake(event: HandshakeEvent, step: HandshakeStep)
    requires
        is_handshake_step(event, step),
    ensures
        step is Close <==> {
            ||| event is Expired
            ||| event is EndOfStream
            ||| event is TooLong
            ||| event is Unreadable
            ||| event matches HandshakeEvent::Line(ParsedLine::MalformedJson)
            ||| event matches HandshakeEvent::Line(
                ParsedLine::Message(ClientMessage::Hello { protocol_version, .. }),
            ) && protocol_version != 1
        },
        event is EndOfStream <==> step == HandshakeStep::Close(None),
        event is Expired ==> step == HandshakeStep::Close(
            Some(ServerMessage::Goodbye { reason: GoodbyeReason::HelloTimeout }),
        ),
        event is TooLong ==> step == HandshakeStep::Close(
            Some(ServerMessage::Goodbye { reason: GoodbyeReason::LineTooLong }),
        ),
        event is Unreadable ==> (step matches HandshakeStep::Close(
            Some(ServerMessage::Error { code, .. }),
        ) && code == ErrorCode::MalformedMessage),
        event matches HandshakeEvent::Line(ParsedLine::MalformedJson) ==> (
        step matches HandshakeStep::Close(Some(ServerMessage::Error { code, .. })) && code
            == ErrorCode::MalformedMessage),
        event matches HandshakeEvent::Line(ParsedLine::UnknownMessage) ==> (
        step matches HandshakeStep::GoOn(ServerMessage::Error { code, .. }) && code
            == ErrorCode::UnknownMessage),
        event matches HandshakeEvent::Line(ParsedLine::Message(message)) ==> (!(message is Hello)
            ==> (step matches HandshakeStep::GoOn(ServerMessage::Error { code, .. }) && code
            == ErrorCode::HelloExpected)),
{
}

/// A session ends just if the daemon does, no more anomalies will come, the client is
/// gone, or a line is too long, not readable or no JSON. A message of an unknown kind does
/// not end it.
pub proof fn what_ends_a_session(
    event: SessionEvent,
    limits: SessionLimits,
    shared: StateView,
    subscription: Subscription,
    step: SessionStep,
)
    requires
        is_session_step(event, limits, shared, subscription, step),
    ensures
        step is Close <==> {
            ||| event matches SessionEvent::ShutdownChanged(ends) && ends
            ||| event is AnomaliesClosed
            ||| event is EndOfStream
            ||| event is TooLong
            ||| event is Unreadable
            ||| event matches SessionEvent::Line(ParsedLine::MalformedJson)
        },
        event matches SessionEvent::ShutdownChanged(ends) ==> (ends ==> step == SessionStep::Close(
            Some(ServerMessage::Goodbye { reason: GoodbyeReason::Shutdown }),
        )),
        event is TooLong ==> step == SessionStep::Close(
            Some(ServerMessage::Goodbye { reason: GoodbyeReason::LineTooLong }),
        ),
        event matches SessionEvent::Line(ParsedLine::MalformedJson) ==> (
        step matches SessionStep::Close(Some(ServerMessage::Error { code, .. })) && code
            == ErrorCode::MalformedMessage),
        event matches SessionEvent::Line(ParsedLine::UnknownMessage) ==> (
        step matches SessionStep::GoOn(Some(ServerMessage::Error { code, .. })) && code
            == ErrorCode::UnknownMessage),
        event matches SessionEvent::Lagged(missed) ==> (step matches SessionStep::GoOn(
            Some(ServerMessage::Error { code, .. }),
        ) && code == ErrorCode::Lagged { missed }),
{
}

/// Every request is answered as what it is: a ping with its own number, an action by
/// doing just that under its own number, a question for lines under its own number; and
/// what is wanted is sent.
pub proof fn requests_are_answered(
    event: SessionEvent,
    limits: SessionLimits,
    shared: StateView,
    subscription: Subscription,
    step: SessionStep,
)
    requires
        is_session_step(event, limits, shared, subscription, step),
    ensures
        event matches SessionEvent::Line(ParsedLine::Message(ClientMessage::Ping { nonce }))
            ==> step == SessionStep::GoOn(Some(ServerMessage::Pong { nonce })),
        event matches SessionEvent::Line(
            ParsedLine::Message(ClientMessage::Action { request_id, action }),
        ) ==> step == (SessionStep::Execute { request_id, action }),
        event matches SessionEvent::Line(
            ParsedLine::Message(ClientMessage::GetContext { request_id, .. }),
        ) ==> (step matches SessionStep::GoOn(Some(ServerMessage::Context(reply)))
            && reply.request_id == request_id && reply.lines@.len() <= 2 * limits.context_max_lines
            + 1),
        event matches SessionEvent::Anomaly(anomaly) ==> (subscription.anomalies ==> step
            == SessionStep::GoOn(Some(ServerMessage::Anomaly(anomaly)))),
        event is SnapshotTick && subscription.snapshots ==> (step matches SessionStep::GoOn(
            Some(ServerMessage::Snapshot(_)),
        )),
        !(event is Line) ==> !(step is Execute),
{
    if let SessionEvent::Line(
        ParsedLine::Message(
            ClientMessage::GetContext { request_id, timestamp_us, before, after, unit },
        ),
    ) = event {
        if let SessionStep::GoOn(Some(ServerMessage::Context(reply))) = step {
            state::replies_are_bounded(
                state::lines_of(shared.context.lines, text::text_of(unit)),
                timestamp_us,
                before,
                after,
                limits.context_max_lines,
                reply,
            );
        }
    }
}

/// A client gets what it subscribes to, with its snapshots as often as it asks for, but no
/// more often than the settings allow and at least once a minute. Nothing else changes
/// what it wants.
pub proof fn subscriptions_are_taken_up(
    event: SessionEvent,
    limits: SessionLimits,
    before: Subscription,
    wanted: Subscription,
)
    requires
        limits.min_snapshot_interval_ms <= 60_000,
    ensures
        ({
            let after = wants_then(event, limits, before);
            &&& event matches SessionEvent::Line(
                ParsedLine::Message(ClientMessage::Subscribe { subscription }),
            ) ==> (subscription == wanted ==> {
                &&& after.snapshots == wanted.snapshots
                &&& after.anomalies == wanted.anomalies
                &&& limits.min_snapshot_interval_ms <= after.snapshot_interval_ms <= 60_000
                &&& limits.min_snapshot_interval_ms <= wanted.snapshot_interval_ms <= 60_000
                    ==> after.snapshot_interval_ms == wanted.snapshot_interval_ms
                &&& wanted.snapshot_interval_ms > 60_000 ==> after.snapshot_interval_ms == 60_000
                &&& wanted.snapshot_interval_ms < limits.min_snapshot_interval_ms
                    ==> after.snapshot_interval_ms == limits.min_snapshot_interval_ms
            })
            &&& !(event matches SessionEvent::Line(
                ParsedLine::Message(ClientMessage::Subscribe { .. }),
            )) ==> after == before
        }),
{
}

/// The time between two snapshots goes by what the client wants: as long as it is between
/// the bounds it is taken as it is, and it is never nothing.
pub proof fn periods_go_by_the_subscription(
    subscription: &Subscription,
    limits: &SessionLimits,
    ms: u32,
)
    requires
        call_ensures(snapshot_period_ms, (subscription, limits), ms),
        limits.min_snapshot_interval_ms <= 60_000,
    ensures
        1 <= ms <= 60_000,
        ms >= limits.min_snapshot_interval_ms,
        limits.min_snapshot_interval_ms <= subscription.snapshot_interval_ms <= 60_000
            && subscription.snapshot_interval_ms >= 1 ==> ms == subscription.snapshot_interval_ms,
        subscription.snapshot_interval_ms > 60_000 ==> ms == 60_000,
{
}

/// A line that was decoded is that message, whatever else it is; one that was not is told
/// apart by whether it is JSON.
pub proof fn lines_are_told_apart(line: &str, decoded: Option<ClientMessage>, parsed: ParsedLine)
    requires
        call_ensures(parse_client_message, (line, decoded), parsed),
    ensures
        decoded matches Some(message) ==> parsed == ParsedLine::Message(message),
        decoded is None && json_parses(line@) ==> parsed is UnknownMessage,
        decoded is None && !json_parses(line@) ==> parsed is MalformedJson,
{
}

/// What came of an action is sent under the number of its request, and who is turned away
/// is told how many clients there may be.
pub proof fn results_carry_their_numbers(
    request_id: u64,
    outcome: ActionOutcome,
    result: ServerMessage,
    max: u32,
    goodbye: ServerMessage,
)
    requires
        call_ensures(action_result, (request_id, outcome), result),
        call_ensures(reject_too_many, (max,), goodbye),
    ensures
        result matches ServerMessage::ActionResult { request_id: said, outcome: came } && said
            == request_id && came == outcome,
        goodbye matches ServerMessage::Goodbye { reason } && reason
            == (GoodbyeReason::TooManyClients { max }),
{
}

/// A session opens with the hello of the daemon, which says what may be asked for, then
/// with the last anomalies, and with a snapshot just for those who want snapshots.
pub proof fn sessions_open_with_a_hello(
    messages: Seq<ServerMessage>,
    subscription: Subscription,
    daemon_version: Seq<char>,
    hostname: Seq<char>,
    allowed: Seq<Seq<char>>,
    dry: bool,
    shared: StateView,
)
    requires
        opens_with(messages, subscription, daemon_version, hostname, allowed, dry, shared),
    ensures
        messages.len() >= 2,
        messages[0] is Hello,
        messages[0] matches ServerMessage::Hello { protocol_version, dry_run, session_id, .. }
            ==> protocol_version == 1 && dry_run == dry && session_id == shared.session_id,
        messages[1] is RecentAnomalies,
        messages[1] matches ServerMessage::RecentAnomalies { anomalies } ==> anomalies@
            == shared.recent,
        subscription.snapshots <==> messages.len() == 3,
        messages.len() == 3 ==> messages[2] is Snapshot,
{
}

/// What is done about an event is what a session does about it, and every message of the
/// client starts the time to the next snapshot anew; nothing else does.
pub proof fn sessions_go_step_by_step(
    event: SessionEvent,
    limits: &SessionLimits,
    shared: &SharedState,
    subscription: &mut Subscription,
    done: (SessionStep, bool),
    greeting: HandshakeEvent,
    step: HandshakeStep,
    wanted: &Subscription,
    daemon_version: &str,
    hostname: &str,
    actions: &ActionExecutor,
    messages: Vec<ServerMessage>,
)
    requires
        call_ensures(session_step, (event, limits, shared, subscription), done),
        call_ensures(handshake_step, (greeting,), step),
        call_ensures(opening, (wanted, daemon_version, hostname, actions, shared), messages),
    ensures
        is_session_step(event, *limits, shared@, *old(subscription), done.0),
        *final(subscription) == wants_then(event, *limits, *old(subscription)),
        done.1 <==> (event matches SessionEvent::Line(ParsedLine::Message(_))),
        is_handshake_step(greeting, step),
        opens_with(
            messages@,
            *wanted,
            daemon_version@,
            hostname@,
            text::texts(actions@.config.allowed_kinds@),
            actions@.config.dry_run,
            shared@,
        ),
{
}

/// A question for lines is answered for the time, the unit and the numbers of lines that it
/// names, as long as a client may have so many.
pub proof fn questions_are_answered_as_asked(
    event: SessionEvent,
    limits: SessionLimits,
    shared: StateView,
    subscription: Subscription,
    step: SessionStep,
    number: u64,
    time: u64,
    lines_before: u16,
    lines_after: u16,
    name: Option<String>,
)
    requires
        is_session_step(event, limits, shared, subscription, step),
        event == SessionEvent::Line(
            ParsedLine::Message(
                ClientMessage::GetContext {
                    request_id: number,
                    timestamp_us: time,
                    before: lines_before,
                    after: lines_after,
                    unit: name,
                },
            ),
        ),
    ensures
        step matches SessionStep::GoOn(Some(ServerMessage::Context(reply))) && reply.request_id
            == number && (lines_before <= limits.context_max_lines && lines_after
            <= limits.context_max_lines ==> state::is_reply(
            state::lines_of(shared.context.lines, text::text_of(name)),
            time,
            lines_before,
            lines_after,
            reply,
        )),
{
}

/// The hello of the daemon says its version, its host and what may be asked for.
pub proof fn the_hello_says_who_speaks(
    messages: Seq<ServerMessage>,
    subscription: Subscription,
    version: Seq<char>,
    host: Seq<char>,
    allowed: Seq<Seq<char>>,
    dry: bool,
    shared: StateView,
)
    requires
        opens_with(messages, subscription, version, host, allowed, dry, shared),
    ensures
        messages[0] matches ServerMessage::Hello {
            daemon_version,
            hostname,
            allowed_actions,
            dry_run,
            ..
        } && daemon_version@ == version && hostname@ == host && text::texts(allowed_actions@)
            == allowed && dry_run == dry,
        subscription.snapshots ==> (messages[2] matches ServerMessage::Snapshot(snapshot)
            && snapshot.stats == shared.snapshot.stats && snapshot.timestamp_us
            == shared.snapshot.timestamp_us),
{
}

/// Errors carry the number of no request, and a snapshot that is due is the last one.
pub proof fn snapshots_that_are_due_are_the_last_ones(
    event: SessionEvent,
    limits: SessionLimits,
    shared: StateView,
    subscription: Subscription,
    step: SessionStep,
)
    requires
        is_session_step(event, limits, shared, subscription, step),
    ensures
        step matches SessionStep::GoOn(Some(ServerMessage::Snapshot(snapshot))) ==> event
            is SnapshotTick && snapshot.stats == shared.snapshot.stats && snapshot.timestamp_us
            == shared.snapshot.timestamp_us && snapshot.window == shared.snapshot.window,
        step matches SessionStep::GoOn(Some(ServerMessage::Error { request_id, .. })) ==> request_id
            is None,
{
}

/// What asks for no answer gets none: a hello in the middle, a subscription, what is not
/// wanted, and a sign that the daemon goes on.
pub proof fn what_needs_no_answer_gets_none(
    event: SessionEvent,
    limits: SessionLimits,
    shared: StateView,
    subscription: Subscription,
    step: SessionStep,
)
    requires
        is_session_step(event, limits, shared, subscription, step),
        ({
            ||| event matches SessionEvent::Line(ParsedLine::Message(ClientMessage::Hello { .. }))
            ||| event matches SessionEvent::Line(
                ParsedLine::Message(ClientMessage::Subscribe { .. }),
            )
            ||| event matches SessionEvent::ShutdownChanged(ends) && !ends
            ||| event is Anomaly && !subscription.anomalies
            ||| event is SnapshotTick && !subscription.snapshots
        }),
    ensures
        step == SessionStep::GoOn(None),
{
}

} // verus!
