use vstd::prelude::*;

verus! {

/// `tokio::task::JoinError`, the failure of a spawned task, carried as is.
#[verifier::external_type_specification]
#[verifier::external_body]
pub struct ExJoinError(tokio::task::JoinError);

/// Errors that can occur in the library.
#[derive(Debug)]
pub enum AxiomError {
    /// Failed to send a message over the network.
    NetworkSend(String),
    /// Invalid state transition attempted (also: invalid parameters).
    InvalidTransition(String),
    /// Simulation reached the given number of steps without convergence.
    Timeout(usize),
    /// A node task did not finish within the shutdown wait of the given
    /// number of seconds.
    ShutdownTimeout(usize),
    /// Task execution failed.
    TaskJoin(tokio::task::JoinError),
}

impl AxiomError {
    /// Whether this is a `Timeout` after `steps` steps.
    pub open spec fn is_timeout_after(self, steps: usize) -> bool {
        self matches AxiomError::Timeout(n) && n == steps
    }

    /// Whether this is a `ShutdownTimeout` after `secs` seconds.
    pub open spec fn is_shutdown_timeout_after(self, secs: usize) -> bool {
        self matches AxiomError::ShutdownTimeout(n) && n == secs
    }

    /// Whether this is a `NetworkSend` error with the text `text`.
    pub open spec fn is_network_send(self, text: Seq<char>) -> bool {
        self matches AxiomError::NetworkSend(s) && s@ == text
    }
}

} // verus!
