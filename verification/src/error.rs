//! What goes wrong between a Location and the service.

use vstd::prelude::*;

verus! {

/// A failure, and whether the same call is worth repeating.
#[derive(Clone, Debug, PartialEq, Eq)]
pub struct TransportError {
    pub message: String,
    pub retryable: bool,
}

/// What a [`TransportError`] says.
pub struct Failure {
    pub message: Seq<char>,
    pub retryable: bool,
}

impl View for TransportError {
    type V = Failure;

    open spec fn view(&self) -> Failure {
        Failure { message: self.message@, retryable: self.retryable }
    }
}

/// The failure of a peer that does not speak the protocol: it will not speak
/// it the next time either.
pub open spec fn protocol_failure(message: Seq<char>) -> Failure {
    Failure { message, retryable: false }
}

/// A peer, or a configuration, that does not speak the protocol.
pub fn protocol_error(message: &str) -> (error: TransportError)
    ensures
        error@ == protocol_failure(message@),
{
    TransportError { message: message.to_string(), retryable: false }
}

} // verus!
