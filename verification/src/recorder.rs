//! Decisions of the recorder application: which listeners to start, how the
//! supervising loop reacts, and how logging is set up.

use vstd::prelude::*;

use crate::configuration::{Connection, Logging};
use crate::connection::{constring_meaning, parse_constring, ConnectionInfo};
use crate::text::{chars_of, string_of};

verus! {

#[verifier::external_type_specification]
#[verifier::external_body]
pub struct ExIoError(std::io::Error);

/// Errors while recording.
#[derive(Debug)]
pub enum RecordError {
    /// A connection string is not of the form `call@host:port`.
    InvalidConnectionString,
    /// The data file could not be created or written.
    DataFileError(std::io::Error),
    /// The configuration cannot be used.
    InvalidConfiguration(String),
}

/// The message of the error for a configuration without connection strings.
pub open spec fn no_connections_message() -> Seq<char> {
    seq![
        'N', 'o', ' ', 'c', 'o', 'n', 'n', 'e', 'c', 't', 'i', 'o', 'n', ' ', 's', 't', 'r', 'i',
        'n', 'g', 's', ' ', 'f', 'o', 'u', 'n', 'd',
    ]
}

/// Every connection string is well-formed.
pub open spec fn all_constrings_valid(constrings: Seq<Seq<char>>) -> bool {
    forall|i: int| 0 <= i < constrings.len() ==> #[trigger] constring_meaning(constrings[i]) is Some
}

/// The listeners to start, one per configured connection string, in order.
///
/// A configuration without connection strings is refused as invalid; one
/// with a malformed connection string is refused for that string.
pub fn listeners_from_config(connection: &Connection) -> (r: Result<Vec<ConnectionInfo>, RecordError>)
    ensures
        r matches Err(RecordError::InvalidConfiguration(m)) <==> connection.constrings.len()
            == 0,
        r matches Err(RecordError::InvalidConfiguration(m)) ==> m@ == no_connections_message(),
        r matches Err(RecordError::InvalidConnectionString) <==> (connection.constrings.len() > 0
            && !all_constrings_valid(connection.constrings.deep_view())),
        !(r matches Err(RecordError::DataFileError(_))),
        r matches Ok(v) ==> v.len() == connection.constrings.len() && forall|i: int|
            0 <= i < v.len() ==> Some(#[trigger] v@[i]@) == constring_meaning(
                connection.constrings.deep_view()[i],
            ),
{
    if connection.constrings.len() == 0 {
        let msg = string_of(
            &chars_of("No connection strings found"),
        );
        proof {
            reveal_strlit("No connection strings found");
            assert("No connection strings found"@ =~= no_connections_message());
        }
        return Err(RecordError::InvalidConfiguration(msg));
    }
    let mut infos: Vec<ConnectionInfo> = Vec::new();
    let mut i: usize = 0;
    while i < connection.constrings.len()
        invariant
            i <= connection.constrings.len(),
            infos.len() == i,
            forall|j: int|
                0 <= j < i ==> Some(#[trigger] infos@[j]@) == constring_meaning(
                    connection.constrings.deep_view()[j],
                ),
        decreases connection.constrings.len() - i,
    {
        match parse_constring(connection.constrings[i].as_str()) {
            Some(info) => {
                infos.push(info);
            },
            None => {
                assert(constring_meaning(connection.constrings.deep_view()[i as int]) is None);
                return Err(RecordError::InvalidConnectionString);
            },
        }
        i = i + 1;
    }
    assert(all_constrings_valid(connection.constrings.deep_view())) by {
        assert forall|j: int| 0 <= j < connection.constrings.len() implies #[trigger]
            constring_meaning(connection.constrings.deep_view()[j]) is Some by {
            assert(Some(infos@[j]@) == constring_meaning(connection.constrings.deep_view()[j]));
        }
    }
    Ok(infos)
}

/// What the supervising loop does next.
#[derive(Clone, Copy, PartialEq, Eq, Structural, Debug)]
pub enum SupervisorAction {
    /// A listener was given up: stop recording.
    ListenerLost,
    /// The receiver of the spots stopped: stop recording.
    ReceiverStopped,
    /// Connect the stopped listener again.
    Reconnect,
    /// Leave the stopped listener be.
    Forget,
    /// Nothing to do until the next check.
    Wait,
}

/// One round of the supervising loop: `active` listeners are counted as
/// present of `configured`; `stopped_listener` tells whether a listener
/// stopped unexpectedly, and `reconnect` whether such a listener is to be
/// connected again.
pub fn supervise(
    active: u32,
    configured: u32,
    receiver_running: bool,
    stopped_listener: bool,
    reconnect: bool,
) -> (r: SupervisorAction)
    ensures
        r == SupervisorAction::ListenerLost <==> active != configured,
        r == SupervisorAction::ReceiverStopped <==> (active == configured && !receiver_running),
        r == SupervisorAction::Reconnect <==> (active == configured && receiver_running
            && stopped_listener && reconnect),
        r == SupervisorAction::Forget <==> (active == configured && receiver_running
            && stopped_listener && !reconnect),
        r == SupervisorAction::Wait <==> (active == configured && receiver_running
            && !stopped_listener),
{
    if active != configured {
        SupervisorAction::ListenerLost
    } else if !receiver_running {
        SupervisorAction::ReceiverStopped
    } else if stopped_listener {
        if reconnect {
            SupervisorAction::Reconnect
        } else {
            SupervisorAction::Forget
        }
    } else {
        SupervisorAction::Wait
    }
}

/// Level of the log output.
#[derive(Clone, Copy, PartialEq, Eq, Structural, Debug)]
pub enum LogLevel {
    Debug,
    Info,
}

/// How logging is set up: the level, output to the console, and the log file.
pub struct LoggingPlan {
    pub level: LogLevel,
    pub console: bool,
    pub file: Option<String>,
}

/// The logging setup for the configuration: verbose output logs at debug
/// level, otherwise at info level; the console and the file are used as the
/// configuration enables them.
pub fn logging_plan(logging: &Logging, verbose: bool) -> (r: LoggingPlan)
    ensures
        r.level == (if verbose {
            LogLevel::Debug
        } else {
            LogLevel::Info
        }),
        r.console == logging.console,
        r.file.deep_view() == (if logging.file.enabled {
            Some(logging.file.filename@)
        } else {
            None
        }),
{
    let level = if verbose {
        LogLevel::Debug
    } else {
        LogLevel::Info
    };
    let file = if logging.file.enabled {
        Some(logging.file.filename.clone())
    } else {
        None
    };
    LoggingPlan { level, console: logging.console, file }
}

} // verus!
