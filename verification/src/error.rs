//! The error type shared by the codec and by callers that drive a
//! connection.  Parse failures carry the offending text, so a caller can
//! see what the daemon actually sent.

use vstd::prelude::*;

verus! {

/// Every failure the client surfaces.  The transport-related variants are
/// produced by the caller that owns the connection; the parse variants are
/// produced by the response parsers in this crate.
#[derive(Debug, Clone, PartialEq)]
pub enum ClamError {
    /// The address handed to the client was not a valid IP address.
    InvalidIpAddress(String),
    /// Connecting to the daemon failed.
    ConnectionError(String),
    /// Writing the command or reading the reply failed mid-exchange.
    CommandError(String),
    /// The reply text does not match the shape expected for its command;
    /// carries the raw reply.
    InvalidData(String),
    /// A numeric field of a reply is not an unsigned 64-bit integer;
    /// carries the field's text.
    IntParseError(String),
    /// The release-date field of a VERSION reply could not be read;
    /// carries the field's text.
    DateParseError(String),
    /// A single block handed to the stream encoder was larger than the
    /// 32-bit chunk length limit; carries the block's length.
    InvalidDataLengthError(usize),
}

} // verus!
