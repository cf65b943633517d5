//! Client-side codec for the clamd wire protocol.
//!
//! The library covers the protocol work of a clamd client: building the
//! exact byte sequence of each daemon command, the chunked upload encoding
//! used by the INSTREAM command, and parsing the daemon's replies into
//! typed scan outcomes, version metadata, and runtime statistics.  The
//! transport itself (connecting, writing, reading) is left to the caller,
//! which hands raw reply text to the parsers here.

pub mod command;
pub mod error;
pub mod response;
pub mod text;
