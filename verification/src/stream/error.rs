//! Errors of a transfer.

use crate::connection::StreamReadError;
use crate::transport::TransportError;
use vstd::prelude::*;

verus! {

/// Errors that can occur while a file is sent or received.
#[derive(Debug, Clone, PartialEq, Eq)]
#[allow(inconsistent_fields)]
pub enum SendFileError {
    /// A message could not be encoded or decoded.
    Transport(TransportError),
    /// A message could not be read from the stream.
    Stream(StreamReadError),
    /// The message received is not the one that the protocol calls for.
    UnexpectedMessage { received: String, expected: String },
    /// A message carries the fingerprint of another transfer.
    BlockHashMismatch { expected: [u8; 32], received: Vec<u8> },
    /// The checksum of a block does not match the bytes received.
    ChecksumMismatch { seq: u32, expected: u32, computed: u32 },
    /// A block marked as compressed is no sound gzip stream.
    DecompressionFailed { seq: u32 },
    /// A request or a handshake that cannot be served.
    InvalidRequest(String),
    /// A block could not be downloaded within the allowed attempts.
    RetryBudgetExceeded { seq: u32, attempts: u32 },
}

} // verus!
