//! The shared vocabulary of failure used by every component of the crate.

use vstd::prelude::*;

verus! {

/// Every way an exchange with the peer can fail.
///
/// Interruption of a blocking system call is not represented here: the I/O
/// layer retries it transparently and it never surfaces to a caller.
#[derive(Debug, PartialEq, Eq)]
pub enum Error {
    /// An outgoing or incoming frame would exceed the fixed capacity
    /// of one message ([`crate::MAX_MESSAGE_SIZE`] bytes).
    MessageTooLarge,
    /// A read returned zero bytes: the peer closed or the device
    /// signalled end of file.
    UnexpectedEndOfStream,
    /// An underlying I/O failure other than interruption, carried as a
    /// human-readable description supplied by the I/O layer.
    TransportFailure(String),
    /// A payload could not be encoded or decoded as the expected shape.
    SerializationFailure,
    /// The peer explicitly reported a failure for an otherwise
    /// well-formed exchange; the field holds the peer's message bytes.
    ApplicationError(Vec<u8>),
}

} // verus!
