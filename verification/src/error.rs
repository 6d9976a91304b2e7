use vstd::prelude::*;

verus! {

/// The ways in which handling one datagram can fail.
#[derive(Clone, Copy, Debug, PartialEq, Eq, Structural)]
pub enum DnsError {
    /// The input bytes are truncated or are not a DNS message.
    MalformedPacket,
    /// A query type code that names none of the supported record types.
    UnknownRecordType,
    /// The text of a backend record does not parse for its record type.
    InvalidRecordContent,
    /// The backend could not be reached.
    BackendUnavailable,
    /// The backend answered with a status other than success.
    BackendStatusError,
}

} // verus!
