//! The socket of the daemon: what is done about one that is there already, and what its
//! first name is.

use vstd::prelude::*;

use crate::text;

verus! {

/// How long clients have to read the goodbye before the socket goes, in milliseconds.
pub const SHUTDOWN_GRACE_MS: u64 = 500;

/// Why there is no socket.
#[derive(Debug, PartialEq)]
pub enum ServerError {
    /// Its directory cannot be made.
    CreateDir(String, String),
    /// It cannot be made.
    Bind(String, String),
    /// What an earlier run left cannot be removed.
    RemoveStale(String, String),
    /// Another daemon is running.
    AlreadyRunning(String),
    /// Its group does not exist.
    UnknownGroup(String),
    /// It cannot be given to its group.
    Chown(String, String),
}

impl ServerError {
    /// The error in words.
    pub open spec fn words(self) -> Seq<char> {
        match self {
            ServerError::CreateDir(path, reason) => "Verzeichnis "@ + path@
                + " konnte nicht angelegt werden: "@ + reason@,
            ServerError::Bind(path, reason) => "bind auf "@ + path@ + " fehlgeschlagen: "@ + reason@,
            ServerError::RemoveStale(path, reason) => "verwaiste Socket-Datei "@ + path@
                + " konnte nicht entfernt werden: "@ + reason@,
            ServerError::AlreadyRunning(path) => "eine weitere Instanz läuft bereits (Socket "@ + path@
                + " antwortet)"@,
            ServerError::UnknownGroup(group) => "unbekannte Gruppe "@ + text::debug_quoted(group@)
                + " -- siehe `groupadd --system logsentry`"@,
            ServerError::Chown(path, reason) => "chown auf "@ + path@ + " fehlgeschlagen: "@ + reason@,
        }
    }

    /// The error in words.
    pub fn to_text(&self) -> (out: String)
        ensures
            out@ == self.words(),
    {
        match self {
            ServerError::CreateDir(path, reason) => {
                let mut out = "Verzeichnis ".to_string();
                out.append(path.as_str());
                out.append(" konnte nicht angelegt werden: ");
                out.append(reason.as_str());
                out
            },
            ServerError::Bind(path, reason) => {
                let mut out = "bind auf ".to_string();
                out.append(path.as_str());
                out.append(" fehlgeschlagen: ");
                out.append(reason.as_str());
                out
            },
            ServerError::RemoveStale(path, reason) => {
                let mut out = "verwaiste Socket-Datei ".to_string();
                out.append(path.as_str());
                out.append(" konnte nicht entfernt werden: ");
                out.append(reason.as_str());
                out
            },
            ServerError::AlreadyRunning(path) => {
                let mut out = "eine weitere Instanz läuft bereits (Socket ".to_string();
                out.append(path.as_str());
                out.append(" antwortet)");
                out
            },
            ServerError::UnknownGroup(group) => {
                let mut out = "unbekannte Gruppe ".to_string();
                let shown = text::quoted(group.as_str());
                out.append(shown.as_str());
                out.append(" -- siehe `groupadd --system logsentry`");
                out
            },
            ServerError::Chown(path, reason) => {
                let mut out = "chown auf ".to_string();
                out.append(path.as_str());
                out.append(" fehlgeschlagen: ");
                out.append(reason.as_str());
                out
            },
        }
    }
}

/// What came of connecting to a socket that is there already.
#[derive(Debug, Clone, Copy, PartialEq, Eq, Structural)]
pub enum SocketProbe {
    /// Somebody answers.
    Answered,
    /// Nobody listens.
    Refused,
    /// Something else went wrong.
    Unclear,
}

/// Whether the socket that is there already has to be removed. Where somebody answers,
/// another daemon is running; where nobody listens, an earlier run has left it; in other
/// cases making the new one will tell.
pub fn remove_before_bind(probe: SocketProbe, path: &str) -> (remove: Result<bool, ServerError>)
    ensures
        match probe {
            SocketProbe::Answered => remove matches Err(ServerError::AlreadyRunning(said)) && said@
                == path@,
            SocketProbe::Refused => remove == Ok::<bool, ServerError>(true),
            SocketProbe::Unclear => remove == Ok::<bool, ServerError>(false),
        },
{
    match probe {
        SocketProbe::Answered => Err(ServerError::AlreadyRunning(path.to_string())),
        SocketProbe::Refused => Ok(true),
        SocketProbe::Unclear => Ok(false),
    }
}

/// The first name of the socket, beside the one that it is renamed to once its mode is
/// set.
pub open spec fn first_name_text(file_name: Option<Seq<char>>, process: u32, number: u64) -> Seq<char> {
    let name = match file_name {
        Some(name) => name,
        None => "collector.sock"@,
    };
    "."@ + name + ".tmp-"@ + text::decimal(process as nat) + "-"@ + text::decimal(number as nat)
}

/// The first name of the socket.
pub fn first_name(file_name: Option<&str>, process: u32, number: u64) -> (name: String)
    ensures
        name@ == first_name_text(text::str_of(file_name), process, number),
{
    let mut name = ".".to_string();
    match file_name {
        Some(file) => name.append(file),
        None => name.append("collector.sock"),
    }
    name.append(".tmp-");
    text::push_decimal(&mut name, process as u64);
    name.append("-");
    text::push_decimal(&mut name, number);
    name
}

/// A socket that somebody answers on is left alone, with an error that names it; only one
/// that nobody listens on is removed.
pub proof fn a_running_daemon_keeps_its_socket(
    probe: SocketProbe,
    path: &str,
    remove: Result<bool, ServerError>,
)
    requires
        call_ensures(remove_before_bind, (probe, path), remove),
    ensures
        remove == Ok::<bool, ServerError>(true) <==> probe == SocketProbe::Refused,
        remove is Err <==> probe == SocketProbe::Answered,
        remove matches Err(error) ==> (error matches ServerError::AlreadyRunning(said) && said@
            == path@),
{
}

/// The first name of a socket is hidden and its own: it starts with a dot, and two of one
/// process with different numbers have different names.
pub proof fn first_names_do_not_collide(file_name: Seq<char>, process: u32, one: u64, two: u64)
    ensures
        ({
            let name = first_name_text(Some(file_name), process, one);
            let other = first_name_text(Some(file_name), process, two);
            &&& name[0] == '.'
            &&& name.subrange(1, 1 + file_name.len() as int) == file_name
            &&& name.len() > file_name.len() + 1
            &&& one != two ==> name != other
        }),
{
    reveal_strlit(".");
    reveal_strlit(".tmp-");
    reveal_strlit("-");
    let name = first_name_text(Some(file_name), process, one);
    let other = first_name_text(Some(file_name), process, two);
    let head = "."@ + file_name + ".tmp-"@ + text::decimal(process as nat) + "-"@;
    assert(name.skip(head.len() as int) =~= text::decimal(one as nat));
    assert(other.skip(head.len() as int) =~= text::decimal(two as nat));
    assert(name.subrange(1, 1 + file_name.len() as int) =~= file_name);
    text::reading_undoes_writing(one as nat);
    text::reading_undoes_writing(two as nat);
}

/// Every error about a path names it, and gives its reason last.
pub proof fn errors_name_the_path(error: ServerError, path: String, reason: String)
    ensures
        error == ServerError::CreateDir(path, reason) || error == ServerError::Bind(path, reason)
            || error == ServerError::RemoveStale(path, reason) || error == ServerError::Chown(
            path,
            reason,
        ) ==> exists|before: Seq<char>, between: Seq<char>|
            error.words() == #[trigger] (before + path@ + between + reason@),
        error == ServerError::AlreadyRunning(path) ==> exists|before: Seq<char>, behind: Seq<char>|
            error.words() == #[trigger] (before + path@ + behind),
{
    if error == ServerError::CreateDir(path, reason) {
        assert(error.words() == "Verzeichnis "@ + path@ + " konnte nicht angelegt werden: "@
            + reason@);
    } else if error == ServerError::Bind(path, reason) {
        assert(error.words() == "bind auf "@ + path@ + " fehlgeschlagen: "@ + reason@);
    } else if error == ServerError::RemoveStale(path, reason) {
        assert(error.words() == "verwaiste Socket-Datei "@ + path@
            + " konnte nicht entfernt werden: "@ + reason@);
    } else if error == ServerError::Chown(path, reason) {
        assert(error.words() == "chown auf "@ + path@ + " fehlgeschlagen: "@ + reason@);
    } else if error == ServerError::AlreadyRunning(path) {
        assert(error.words() == "eine weitere Instanz läuft bereits (Socket "@ + path@
            + " antwortet)"@);
    }
}

} // verus!
