//! Point-to-point transfer of one file over several parallel byte streams.
//!
//! The library holds the protocol itself: the message schema and its binary
//! encoding, the framing of messages on a stream, the sender's per-connection
//! request handling with its compression probe, and the receiver's block
//! partition, block acceptance and retry policy. Sockets, files and threads
//! belong to the program that drives it: the library takes the bytes that
//! were read and hands back the bytes to write.
//!
//! - [`wire`] and [`transport`]: the encoding of message fields and of
//!   messages, and the frame around a message.
//! - [`connection`]: finding frames in the bytes received from a stream.
//! - [`file`]: the metadata and the fingerprint of a file, and its blocks.
//! - [`stream`]: what the sender answers and what the receiver accepts.
//! - [`checksum`] and [`compression`]: CRC-32 and gzip.
//! - [`cli`]: the settings that follow from the command line.
//! - [`decimal`]: numbers as decimal text, for the frame headers.

pub mod checksum;
pub mod cli;
pub mod compression;
pub mod connection;
pub mod decimal;
pub mod file;
pub mod stream;
pub mod transport;
pub mod wire;
