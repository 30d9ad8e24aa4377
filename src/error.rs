use vstd::prelude::*;

verus! {

/// Failure of a whole session, as `receive` reports it.
#[derive(Clone, Copy, Debug, PartialEq, Eq, Structural)]
pub enum SocketError {
    /// The transport reported that the session can no longer be used.
    SessionFailed,
    /// The socket was closed by its owner.
    Closed,
}

/// A configuration value outside its allowed range.
#[derive(Clone, Copy, Debug, PartialEq, Eq, Structural)]
pub enum ConfigError {
    /// The loss probability is above one.
    LossProbabilityOutOfRange,
    /// The jitter probability is above one.
    JitterProbabilityOutOfRange,
}

impl SocketError {
    /// A short description of the error.
    pub fn describe(&self) -> (r: &'static str) {
        match self {
            SocketError::SessionFailed => "the session failed",
            SocketError::Closed => "the socket is closed",
        }
    }
}

impl ConfigError {
    /// A short description of the error.
    pub fn describe(&self) -> (r: &'static str) {
        match self {
            ConfigError::LossProbabilityOutOfRange => "loss probability is above one",
            ConfigError::JitterProbabilityOutOfRange => "jitter probability is above one",
        }
    }
}

} // verus!
