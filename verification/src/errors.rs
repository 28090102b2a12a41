//! Error kinds of the discovery pipeline.

use vstd::prelude::*;

verus! {

/// What went wrong, as a fixed set of kinds.  Setup failures (address,
/// socket, send) are fatal to a discovery run; per-reply and per-device
/// failures are isolated to the item they concern.
#[derive(Debug, Clone, Copy, PartialEq, Eq, Structural)]
pub enum ErrorType {
    /// A textual endpoint was not a literal `host:port` address.
    InvalidIpFormat,
    /// The local UDP endpoint could not be reserved.
    CouldNotBindUdpSocket,
    /// Sending the search request failed.
    SendUdpRequestError,
    /// The transport failed while waiting for replies.
    ReceivingDiscoveryMessageError,
    /// The timer machinery itself failed while waiting for replies.
    ServerDiscoveryTimeoutError,
    /// An unclassifiable failure while waiting for replies.
    ServerDiscoveryUnknownTimeoutError,
    /// A reply was not a well-formed header-only response.
    CouldNotParseDiscoveryResponse,
    /// A reply ended before the blank line that closes its header block.
    IncompleteDiscoveryResponse,
    /// A reply carried no `LOCATION` header.
    MissingLocationHeader,
    /// A reply's advertised `LOCATION` was not a usable absolute URI.
    InvalidDescriptionLocation,
    /// The description document could not be retrieved or framed.
    CouldNotRetrieveServerDescription,
}

/// A failure, tagged by kind and carrying a human-readable message.
#[derive(Debug, Clone)]
pub struct Error {
    pub error_type: ErrorType,
    pub message: String,
}

impl Error {
    /// Build an error of the given kind from a literal message.
    pub fn new(error_type: ErrorType, message: &str) -> (e: Error)
        ensures
            e.error_type == error_type,
            e.message@ == message@,
    {
        Error { error_type, message: message.to_owned() }
    }

    /// The human-readable message.
    pub fn description(&self) -> (s: &str)
        ensures
            s@ == self.message@,
    {
        self.message.as_str()
    }
}

} // verus!
