//! What every connector shares: its errors, its name, and the rule by which a
//! connector manager retries a connection.

use vstd::prelude::*;

verus! {

/// Why a connection to an exchange ended. Errors raised by outside services
/// carry their text.
#[derive(Debug)]
pub enum ConnectorError {
    WebSocketError(String),
    DeserializationError(String),
    ParseError(String),
    NetworkError(String),
    ChannelClosed,
    SimulatedDrop,
    InconsistentSequence,
}

/// A connector to an exchange, which keeps an order book in step with the
/// exchange. Connecting is the work of the application around the library;
/// what the library knows of a connector is its name.
pub trait Connector {
    /// The exchange's name.
    fn get_name(&self) -> (name: &str);
}

/// How long a manager waits after a failed reconnection before it connects again.
pub const RECONNECT_DELAY_SECS: u64 = 5;

/// The attempt whose outcome a connector manager reports.
#[derive(Clone, Copy, Debug, PartialEq, Eq)]
pub enum Attempt {
    Connect,
    Reconnect,
}

/// What a connector manager does next.
#[derive(Clone, Copy, Debug, PartialEq, Eq)]
pub enum RunAction {
    /// Connect again at once.
    Connect,
    /// Reconnect at once.
    Reconnect,
    /// Wait this many seconds, then connect again.
    WaitThenConnect { secs: u64 },
    /// Stop: the connection ran to its end.
    Stop,
}

/// The manager's rule: a successful connection ends the run, a failed one is
/// followed by a reconnection; after a successful reconnection it connects
/// again, after a failed one it waits `RECONNECT_DELAY_SECS` and connects again.
pub open spec fn run_transition(attempt: Attempt, succeeded: bool) -> RunAction {
    match attempt {
        Attempt::Connect => if succeeded {
            RunAction::Stop
        } else {
            RunAction::Reconnect
        },
        Attempt::Reconnect => if succeeded {
            RunAction::Connect
        } else {
            RunAction::WaitThenConnect { secs: RECONNECT_DELAY_SECS }
        },
    }
}

/// What the manager does after `attempt` succeeded or failed.
pub fn next_run_action(attempt: Attempt, succeeded: bool) -> (action: RunAction)
    ensures
        action == run_transition(attempt, succeeded),
{
    match attempt {
        Attempt::Connect => if succeeded {
            RunAction::Stop
        } else {
            RunAction::Reconnect
        },
        Attempt::Reconnect => if succeeded {
            RunAction::Connect
        } else {
            RunAction::WaitThenConnect { secs: RECONNECT_DELAY_SECS }
        },
    }
}

/// A manager stops exactly when a connection succeeded: no failure, of a
/// connection or of a reconnection, ends the run.
pub proof fn lemma_run_stops_only_after_connecting(attempt: Attempt, succeeded: bool)
    ensures
        run_transition(attempt, succeeded) == RunAction::Stop <==> (attempt == Attempt::Connect
            && succeeded),
{
}

/// Every failed connection is followed at once by a reconnection, and every
/// reconnection, whatever its outcome, by a new connection.
pub proof fn lemma_run_retries(attempt: Attempt, succeeded: bool)
    ensures
        attempt == Attempt::Connect && !succeeded ==> run_transition(attempt, succeeded)
            == RunAction::Reconnect,
        attempt == Attempt::Reconnect ==> match run_transition(attempt, succeeded) {
            RunAction::Connect => succeeded,
            RunAction::WaitThenConnect { secs } => !succeeded && secs == RECONNECT_DELAY_SECS,
            _ => false,
        },
{
}

} // verus!
