//! Client-side core for RFC 6962 Certificate Transparency logs: a verified
//! decoder for the binary Merkle tree leaf and certificate chain structures
//! carried by log entries, together with the typed request/response surface
//! of the eight log endpoints.

use vstd::prelude::*;

pub mod client;
pub mod ct;
pub mod reader;
pub mod utils;

verus! {

/// The reasons a binary leaf or chain decode can fail.
///
/// A decode failure is total for the entry it concerns: no partial
/// structure is ever returned alongside one of these.
#[derive(Debug, Clone, Copy, PartialEq, Eq, Structural)]
pub enum DecodeError {
    /// The input was not valid base64.
    Base64Error,
    /// The leading version byte was not the supported version.
    UnsupportedVersion,
    /// The leaf type byte was not the supported leaf type.
    UnsupportedLeafType,
    /// The two-byte entry type tag was neither of the two known tags.
    UnknownEntryType,
    /// The buffer ended before a field it promised.
    Truncated,
    /// A certificate chain's declared length did not match the bytes
    /// its certificates actually occupy.
    ChainLengthMismatch,
    /// A certificate buffer did not parse as DER.
    CertificateParseError,
}

/// The errors the log client surfaces to its callers.
#[derive(Debug, Clone, Copy, PartialEq, Eq, Structural)]
pub enum CTLogError {
    /// The log server URL or a query built on it did not parse.
    UrlError,
    /// The connection failed or timed out.
    TransportError,
    /// The server answered with a non-success status or a body of an
    /// unexpected shape.
    ProtocolError,
    /// A log entry failed to decode.
    Decode(DecodeError),
}

} // verus!
