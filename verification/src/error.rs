//! The failures a client can report.

use vstd::prelude::*;

verus! {

/// How a transport session ended badly.
#[derive(Clone, Copy, Debug, PartialEq, Eq, Structural)]
pub enum ConnectionFault {
    /// The service could not be reached.
    Refused,
    /// No data arrived within the allowed interval.
    Timeout,
    /// The session broke off while a response was still streaming.
    Dropped,
}

/// A failure reported by the remote service itself.
#[derive(Clone, Debug, PartialEq, Eq)]
pub struct ServerStatus {
    pub code: u32,
    pub message: String,
}

/// Everything that can go wrong between a call and its last event.
#[derive(Clone, Debug, PartialEq, Eq)]
pub enum ClientError {
    /// The server address is empty or malformed.
    InvalidAddress,
    /// The first ledger of the range lies after the last.
    InvalidRange,
    /// The request cannot be written in the wire format.
    EncodingError,
    /// The transport failed.
    ConnectionError(ConnectionFault),
    /// A frame or an event body is malformed.
    DecodeError,
    /// The service answered with an explicit failure.
    ServerError(ServerStatus),
}

} // verus!
