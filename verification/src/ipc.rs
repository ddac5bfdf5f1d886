//! Communication with the launcher daemon.

use vstd::prelude::*;
use crate::entries::Entry;

verus! {

/// Launcher IPC actions.
pub enum Action {
    /// Refresh application and icon cache.
    Refresh,
    /// Run in app launcher mode.
    Run,
    /// Run with custom entries (pass the entries).
    RunCustom(Vec<Entry>),
    /// Stop the daemon.
    Quit,
}

/// Possible responses from the daemon.
pub enum Response {
    /// Acknowledgement of action received.
    Ack,
    /// Error occurred.
    Error(String),
}

} // verus!
