//! The messages of the transfer protocol, their binary encoding, and the
//! frame that carries one message on a stream.
//!
//! A message is encoded as the tag of its variant, a varint, followed by its
//! fields in the order of their declaration. A frame is two header lines, a
//! blank line and the payload:
//!
//! ```text
//! Ver: 1\r\n
//! Len: <payload length in decimal>\r\n
//! \r\n
//! <payload>
//! ```

use crate::decimal::{decimal, push_decimal};
use crate::wire::{
    bool_byte, has_at, lemma_has_at_split, lemma_take_bool_of_bool_byte,
    lemma_take_bytes_of_length_prefixed, lemma_take_hash_of_hash, lemma_take_text_of_text,
    lemma_take_u16_of_varint, lemma_take_u32_of_varint, lemma_take_u64_of_varint,
    length_prefixed, placed, read_bool, read_bytes, read_hash, read_text, read_u16, read_u32,
    read_u64, take_bool, take_bytes, take_hash, take_text, take_u16, take_u32, take_u64, text,
    then_byte, then_bytes, then_slice, then_varint, varint, write_varint, WireError, HASH_LEN,
};
use vstd::prelude::*;
use vstd::utf8::*;

verus! {

/// The current version of the file transfer protocol.
pub const CURRENT_PROTOCOL_VERSION: u8 = 1;

/// The maximum size of a file block (4 MiB).
pub const MAX_BLOCK_SIZE: u32 = 4 * 1024 * 1024;

/// The maximum size of a message with its frame: a block and room for the
/// headers and the other fields.
pub const MAX_MESSAGE_SIZE: usize = 4 * 1024 * 1024 + 128;

/// The bytes of `Ver: `.
pub const VERSION_HEADER_PREFIX: [u8; 5] = [0x56, 0x65, 0x72, 0x3a, 0x20];

/// The bytes of `Len: `.
pub const LENGTH_HEADER_PREFIX: [u8; 5] = [0x4c, 0x65, 0x6e, 0x3a, 0x20];

/// The bytes of a line end, carriage return and line feed.
pub const MESSAGE_DELIMITER: [u8; 2] = [0x0d, 0x0a];

/// Errors of the transport layer.
#[derive(Debug, Clone, Copy, PartialEq, Eq, Structural)]
pub enum TransportError {
    /// A message could not be encoded or decoded.
    Serialization(WireError),
}

/// Handshake message sent by the sender to initiate a transfer.
#[derive(Debug, Clone, PartialEq, Eq)]
pub struct HandshakeV1<'a> {
    /// Fingerprint of the file being transferred.
    pub file_hash: &'a [u8],
    /// Total size of the file in bytes.
    pub total_size: u64,
    /// Number of concurrent connections for transferring the file.
    pub concurrency: u16,
    /// Original file name.
    pub file_name: &'a str,
    /// Size of each data block in bytes.
    pub block_size: u32,
}

/// Data chunk message sent by the sender.
#[derive(Debug, Clone, PartialEq, Eq)]
pub struct DataV1<'a> {
    /// Index of the block.
    pub seq: u32,
    /// CRC-32 of `data` as it is transmitted.
    pub checksum: u32,
    /// Fingerprint of the file this block belongs to.
    pub file_hash: &'a [u8],
    /// Whether `data` is gzip-encoded.
    pub compressed: bool,
    /// The block, raw or gzip-encoded.
    pub data: &'a [u8],
}

/// Error message sent by the sender.
#[derive(Debug, Clone, PartialEq, Eq)]
pub struct SenderErrorV1 {
    /// Error code.
    pub code: u16,
    /// Error message.
    pub message: String,
}

/// Response to a `VerifyBlock` request, sent by the sender.
#[derive(Debug, Clone, PartialEq, Eq)]
pub struct VerifyResponseV1 {
    /// Fingerprint of the file.
    pub file_hash: [u8; 32],
    /// Index of the block.
    pub seq: u32,
    /// Whether the checksum matched.
    pub valid: bool,
}

/// Messages sent from the sender to the receiver.
#[derive(Debug, Clone, PartialEq, Eq)]
pub enum SenderMessageV1<'a> {
    /// Establishes the transfer parameters.
    Handshake(HandshakeV1<'a>),
    /// A block of file data.
    Data(DataV1<'a>),
    /// A problem on the sender's side.
    Error(SenderErrorV1),
    /// Whether a block that the receiver holds matches the sender's.
    VerifyResponse(VerifyResponseV1),
}

/// Request message sent by the receiver to ask for a block.
#[derive(Debug, Clone, PartialEq, Eq)]
pub struct RequestV1 {
    /// Fingerprint of the file being requested.
    pub file_hash: [u8; 32],
    /// Index of the block being requested.
    pub seq: u32,
}

/// Progress update message sent by the receiver.
#[derive(Debug, Clone, PartialEq, Eq)]
pub struct ProgressV1 {
    /// Fingerprint of the file being tracked.
    pub file_hash: [u8; 32],
    /// Bytes received so far.
    pub bytes_received: u64,
}

/// Message sent by the receiver when the transfer is complete.
#[derive(Debug, Clone, PartialEq, Eq)]
pub struct TransferCompleteV1 {
    /// Fingerprint of the file that was completed.
    pub file_hash: [u8; 32],
}

/// Error message sent by the receiver.
#[derive(Debug, Clone, PartialEq, Eq)]
pub struct ReceiverErrorV1 {
    /// Error code.
    pub code: u16,
    /// Error message.
    pub message: String,
}

/// Request to verify a block's checksum, sent by the receiver.
#[derive(Debug, Clone, PartialEq, Eq)]
pub struct VerifyBlockV1 {
    /// Fingerprint of the file.
    pub file_hash: [u8; 32],
    /// Index of the block to verify.
    pub seq: u32,
    /// CRC-32 of the block as the receiver holds it.
    pub checksum: u32,
}

/// Messages sent from the receiver to the sender.
#[derive(Debug, Clone, PartialEq, Eq)]
pub enum ReceiverMessageV1 {
    /// Asks for a block of the file.
    Request(RequestV1),
    /// Reports the bytes received so far.
    Progress(ProgressV1),
    /// Reports that the whole file has been received.
    TransferComplete(TransferCompleteV1),
    /// A problem on the receiver's side.
    Error(ReceiverErrorV1),
    /// Asks whether a block that the receiver holds matches the sender's.
    VerifyBlock(VerifyBlockV1),
}

/// A sender's message as a mathematical value.
pub enum SenderMessage {
    Handshake {
        file_hash: Seq<u8>,
        total_size: u64,
        concurrency: u16,
        file_name: Seq<char>,
        block_size: u32,
    },
    Data { seq: u32, checksum: u32, file_hash: Seq<u8>, compressed: bool, data: Seq<u8> },
    Error { code: u16, message: Seq<char> },
    VerifyResponse { file_hash: Seq<u8>, seq: u32, valid: bool },
}

/// A receiver's message as a mathematical value.
pub enum ReceiverMessage {
    Request { file_hash: Seq<u8>, seq: u32 },
    Progress { file_hash: Seq<u8>, bytes_received: u64 },
    TransferComplete { file_hash: Seq<u8> },
    Error { code: u16, message: Seq<char> },
    VerifyBlock { file_hash: Seq<u8>, seq: u32, checksum: u32 },
}

impl<'a> View for SenderMessageV1<'a> {
    type V = SenderMessage;

    open spec fn view(&self) -> SenderMessage {
        match *self {
            SenderMessageV1::Handshake(h) => SenderMessage::Handshake {
                file_hash: h.file_hash@,
                total_size: h.total_size,
                concurrency: h.concurrency,
                file_name: h.file_name@,
                block_size: h.block_size,
            },
            SenderMessageV1::Data(d) => SenderMessage::Data {
                seq: d.seq,
                checksum: d.checksum,
                file_hash: d.file_hash@,
                compressed: d.compressed,
                data: d.data@,
            },
            SenderMessageV1::Error(e) => SenderMessage::Error {
                code: e.code,
                message: e.message@,
            },
            SenderMessageV1::VerifyResponse(v) => SenderMessage::VerifyResponse {
                file_hash: v.file_hash@,
                seq: v.seq,
                valid: v.valid,
            },
        }
    }
}

impl View for ReceiverMessageV1 {
    type V = ReceiverMessage;

    open spec fn view(&self) -> ReceiverMessage {
        match *self {
            ReceiverMessageV1::Request(r) => ReceiverMessage::Request {
                file_hash: r.file_hash@,
                seq: r.seq,
            },
            ReceiverMessageV1::Progress(p) => ReceiverMessage::Progress {
                file_hash: p.file_hash@,
                bytes_received: p.bytes_received,
            },
            ReceiverMessageV1::TransferComplete(c) => ReceiverMessage::TransferComplete {
                file_hash: c.file_hash@,
            },
            ReceiverMessageV1::Error(e) => ReceiverMessage::Error {
                code: e.code,
                message: e.message@,
            },
            ReceiverMessageV1::VerifyBlock(v) => ReceiverMessage::VerifyBlock {
                file_hash: v.file_hash@,
                seq: v.seq,
                checksum: v.checksum,
            },
        }
    }
}

impl SenderMessage {
    /// Whether the message can be held in memory: fixed fingerprints have 32
    /// bytes, and the lengths of byte strings and texts fit in 64 bits.
    pub open spec fn well_formed(self) -> bool {
        match self {
            SenderMessage::Handshake { file_hash, file_name, .. } => file_hash.len() <= u64::MAX
                && encode_utf8(file_name).len() <= u64::MAX,
            SenderMessage::Data { file_hash, data, .. } => file_hash.len() <= u64::MAX
                && data.len() <= u64::MAX,
            SenderMessage::Error { message, .. } => encode_utf8(message).len() <= u64::MAX,
            SenderMessage::VerifyResponse { file_hash, .. } => file_hash.len() == HASH_LEN,
        }
    }

    /// The encoding of the message.
    pub open spec fn encoding(self) -> Seq<u8> {
        match self {
            SenderMessage::Handshake {
                file_hash,
                total_size,
                concurrency,
                file_name,
                block_size,
            } => varint(0) + length_prefixed(file_hash) + varint(total_size as nat) + varint(
                concurrency as nat,
            ) + text(file_name) + varint(block_size as nat),
            SenderMessage::Data { seq, checksum, file_hash, compressed, data } => varint(1)
                + varint(seq as nat) + varint(checksum as nat) + length_prefixed(file_hash)
                + bool_byte(compressed) + length_prefixed(data),
            SenderMessage::Error { code, message } => varint(2) + varint(code as nat) + text(
                message,
            ),
            SenderMessage::VerifyResponse { file_hash, seq, valid } => varint(3) + file_hash
                + varint(seq as nat) + bool_byte(valid),
        }
    }
}

impl ReceiverMessage {
    /// Whether the message can be held in memory: fingerprints have 32 bytes,
    /// and the length of a text fits in 64 bits.
    pub open spec fn well_formed(self) -> bool {
        match self {
            ReceiverMessage::Request { file_hash, .. } => file_hash.len() == HASH_LEN,
            ReceiverMessage::Progress { file_hash, .. } => file_hash.len() == HASH_LEN,
            ReceiverMessage::TransferComplete { file_hash } => file_hash.len() == HASH_LEN,
            ReceiverMessage::Error { message, .. } => encode_utf8(message).len() <= u64::MAX,
            ReceiverMessage::VerifyBlock { file_hash, .. } => file_hash.len() == HASH_LEN,
        }
    }

    /// The encoding of the message.
    pub open spec fn encoding(self) -> Seq<u8> {
        match self {
            ReceiverMessage::Request { file_hash, seq } => varint(0) + file_hash + varint(
                seq as nat,
            ),
            ReceiverMessage::Progress { file_hash, bytes_received } => varint(1) + file_hash
                + varint(bytes_received as nat),
            ReceiverMessage::TransferComplete { file_hash } => varint(2) + file_hash,
            ReceiverMessage::Error { code, message } => varint(3) + varint(code as nat) + text(
                message,
            ),
            ReceiverMessage::VerifyBlock { file_hash, seq, checksum } => varint(4) + file_hash
                + varint(seq as nat) + varint(checksum as nat),
        }
    }
}

/// Reads the fields of a handshake from `pos` on.
pub open spec fn decode_handshake(s: Seq<u8>, pos: int) -> Result<SenderMessage, WireError> {
    match take_bytes(s, pos) {
        Err(e) => Err(e),
        Ok((file_hash, p1)) => match take_u64(s, p1) {
            Err(e) => Err(e),
            Ok((total_size, p2)) => match take_u16(s, p2) {
                Err(e) => Err(e),
                Ok((concurrency, p3)) => match take_text(s, p3) {
                    Err(e) => Err(e),
                    Ok((file_name, p4)) => match take_u32(s, p4) {
                        Err(e) => Err(e),
                        Ok((block_size, _)) => Ok(
                            SenderMessage::Handshake {
                                file_hash,
                                total_size,
                                concurrency,
                                file_name,
                                block_size,
                            },
                        ),
                    },
                },
            },
        },
    }
}

/// Reads the fields of a data message from `pos` on.
pub open spec fn decode_data(s: Seq<u8>, pos: int) -> Result<SenderMessage, WireError> {
    match take_u32(s, pos) {
        Err(e) => Err(e),
        Ok((seq, p1)) => match take_u32(s, p1) {
            Err(e) => Err(e),
            Ok((checksum, p2)) => match take_bytes(s, p2) {
                Err(e) => Err(e),
                Ok((file_hash, p3)) => match take_bool(s, p3) {
                    Err(e) => Err(e),
                    Ok((compressed, p4)) => match take_bytes(s, p4) {
                        Err(e) => Err(e),
                        Ok((data, _)) => Ok(
                            SenderMessage::Data { seq, checksum, file_hash, compressed, data },
                        ),
                    },
                },
            },
        },
    }
}

/// Reads an error code and its message from `pos` on.
pub open spec fn decode_error(s: Seq<u8>, pos: int) -> Result<(u16, Seq<char>), WireError> {
    match take_u16(s, pos) {
        Err(e) => Err(e),
        Ok((code, p1)) => match take_text(s, p1) {
            Err(e) => Err(e),
            Ok((message, _)) => Ok((code, message)),
        },
    }
}

/// Reads the fields of a verify response from `pos` on.
pub open spec fn decode_verify_response(s: Seq<u8>, pos: int) -> Result<SenderMessage, WireError> {
    match take_hash(s, pos) {
        Err(e) => Err(e),
        Ok((file_hash, p1)) => match take_u32(s, p1) {
            Err(e) => Err(e),
            Ok((seq, p2)) => match take_bool(s, p2) {
                Err(e) => Err(e),
                Ok((valid, _)) => Ok(SenderMessage::VerifyResponse { file_hash, seq, valid }),
            },
        },
    }
}

/// The sender's message that `s` begins with. Bytes behind the message are
/// ignored.
pub open spec fn decode_sender(s: Seq<u8>) -> Result<SenderMessage, WireError> {
    match take_u32(s, 0) {
        Err(e) => Err(e),
        Ok((tag, p)) => if tag == 0 {
            decode_handshake(s, p)
        } else if tag == 1 {
            decode_data(s, p)
        } else if tag == 2 {
            match decode_error(s, p) {
                Err(e) => Err(e),
                Ok((code, message)) => Ok(SenderMessage::Error { code, message }),
            }
        } else if tag == 3 {
            decode_verify_response(s, p)
        } else {
            Err(WireError::UnknownVariant)
        },
    }
}

/// Reads a fingerprint and a `u32` from `pos` on.
pub open spec fn decode_hash_u32(s: Seq<u8>, pos: int) -> Result<(Seq<u8>, u32, int), WireError> {
    match take_hash(s, pos) {
        Err(e) => Err(e),
        Ok((file_hash, p1)) => match take_u32(s, p1) {
            Err(e) => Err(e),
            Ok((v, p2)) => Ok((file_hash, v, p2)),
        },
    }
}

/// The receiver's message that `s` begins with. Bytes behind the message are
/// ignored.
pub open spec fn decode_receiver(s: Seq<u8>) -> Result<ReceiverMessage, WireError> {
    match take_u32(s, 0) {
        Err(e) => Err(e),
        Ok((tag, p)) => if tag == 0 {
            match decode_hash_u32(s, p) {
                Err(e) => Err(e),
                Ok((file_hash, seq, _)) => Ok(ReceiverMessage::Request { file_hash, seq }),
            }
        } else if tag == 1 {
            match take_hash(s, p) {
                Err(e) => Err(e),
                Ok((file_hash, p1)) => match take_u64(s, p1) {
                    Err(e) => Err(e),
                    Ok((bytes_received, _)) => Ok(
                        ReceiverMessage::Progress { file_hash, bytes_received },
                    ),
                },
            }
        } else if tag == 2 {
            match take_hash(s, p) {
                Err(e) => Err(e),
                Ok((file_hash, _)) => Ok(ReceiverMessage::TransferComplete { file_hash }),
            }
        } else if tag == 3 {
            match decode_error(s, p) {
                Err(e) => Err(e),
                Ok((code, message)) => Ok(ReceiverMessage::Error { code, message }),
            }
        } else if tag == 4 {
            match decode_hash_u32(s, p) {
                Err(e) => Err(e),
                Ok((file_hash, seq, p2)) => match take_u32(s, p2) {
                    Err(e) => Err(e),
                    Ok((checksum, _)) => Ok(
                        ReceiverMessage::VerifyBlock { file_hash, seq, checksum },
                    ),
                },
            }
        } else {
            Err(WireError::UnknownVariant)
        },
    }
}

/// Decoding the encoding of a sender's message gives the message back,
/// whatever follows the encoding.
pub proof fn lemma_decode_sender_of_encoding(s: Seq<u8>, m: SenderMessage)
    requires
        m.well_formed(),
        has_at(s, 0, m.encoding()),
    ensures
        decode_sender(s) == Ok::<SenderMessage, WireError>(m),
{
    match m {
        SenderMessage::Handshake { file_hash, total_size, concurrency, file_name, block_size } => {
            let e0 = varint(0);
            let e1 = length_prefixed(file_hash);
            let e2 = varint(total_size as nat);
            let e3 = varint(concurrency as nat);
            let e4 = text(file_name);
            let e5 = varint(block_size as nat);
            lemma_has_at_split(s, 0, e0 + e1 + e2 + e3 + e4, e5);
            lemma_has_at_split(s, 0, e0 + e1 + e2 + e3, e4);
            lemma_has_at_split(s, 0, e0 + e1 + e2, e3);
            lemma_has_at_split(s, 0, e0 + e1, e2);
            lemma_has_at_split(s, 0, e0, e1);
            lemma_take_u32_of_varint(s, 0, 0);
            let p0 = e0.len() as int;
            lemma_take_bytes_of_length_prefixed(s, p0, file_hash);
            let p1 = p0 + e1.len();
            lemma_take_u64_of_varint(s, p1, total_size);
            let p2 = p1 + e2.len();
            lemma_take_u16_of_varint(s, p2, concurrency);
            let p3 = p2 + e3.len();
            lemma_take_text_of_text(s, p3, file_name);
            let p4 = p3 + e4.len();
            lemma_take_u32_of_varint(s, p4, block_size);
        },
        SenderMessage::Data { seq, checksum, file_hash, compressed, data } => {
            let e0 = varint(1);
            let e1 = varint(seq as nat);
            let e2 = varint(checksum as nat);
            let e3 = length_prefixed(file_hash);
            let e4 = bool_byte(compressed);
            let e5 = length_prefixed(data);
            lemma_has_at_split(s, 0, e0 + e1 + e2 + e3 + e4, e5);
            lemma_has_at_split(s, 0, e0 + e1 + e2 + e3, e4);
            lemma_has_at_split(s, 0, e0 + e1 + e2, e3);
            lemma_has_at_split(s, 0, e0 + e1, e2);
            lemma_has_at_split(s, 0, e0, e1);
            lemma_take_u32_of_varint(s, 0, 1);
            let p0 = e0.len() as int;
            lemma_take_u32_of_varint(s, p0, seq);
            let p1 = p0 + e1.len();
            lemma_take_u32_of_varint(s, p1, checksum);
            let p2 = p1 + e2.len();
            lemma_take_bytes_of_length_prefixed(s, p2, file_hash);
            let p3 = p2 + e3.len();
            lemma_take_bool_of_bool_byte(s, p3, compressed);
            let p4 = p3 + e4.len();
            lemma_take_bytes_of_length_prefixed(s, p4, data);
        },
        SenderMessage::Error { code, message } => {
            let e0 = varint(2);
            let e1 = varint(code as nat);
            let e2 = text(message);
            lemma_has_at_split(s, 0, e0 + e1, e2);
            lemma_has_at_split(s, 0, e0, e1);
            lemma_take_u32_of_varint(s, 0, 2);
            let p0 = e0.len() as int;
            lemma_take_u16_of_varint(s, p0, code);
            let p1 = p0 + e1.len();
            lemma_take_text_of_text(s, p1, message);
        },
        SenderMessage::VerifyResponse { file_hash, seq, valid } => {
            let e0 = varint(3);
            let e1 = file_hash;
            let e2 = varint(seq as nat);
            let e3 = bool_byte(valid);
            lemma_has_at_split(s, 0, e0 + e1 + e2, e3);
            lemma_has_at_split(s, 0, e0 + e1, e2);
            lemma_has_at_split(s, 0, e0, e1);
            lemma_take_u32_of_varint(s, 0, 3);
            let p0 = e0.len() as int;
            lemma_take_hash_of_hash(s, p0, file_hash);
            let p1 = p0 + e1.len();
            lemma_take_u32_of_varint(s, p1, seq);
            let p2 = p1 + e2.len();
            lemma_take_bool_of_bool_byte(s, p2, valid);
        },
    }
}

/// Decoding the encoding of a receiver's message gives the message back,
/// whatever follows the encoding.
pub proof fn lemma_decode_receiver_of_encoding(s: Seq<u8>, m: ReceiverMessage)
    requires
        m.well_formed(),
        has_at(s, 0, m.encoding()),
    ensures
        decode_receiver(s) == Ok::<ReceiverMessage, WireError>(m),
{
    match m {
        ReceiverMessage::Request { file_hash, seq } => {
            let e0 = varint(0);
            let e2 = varint(seq as nat);
            lemma_has_at_split(s, 0, e0 + file_hash, e2);
            lemma_has_at_split(s, 0, e0, file_hash);
            lemma_take_u32_of_varint(s, 0, 0);
            let p0 = e0.len() as int;
            lemma_take_hash_of_hash(s, p0, file_hash);
            lemma_take_u32_of_varint(s, p0 + file_hash.len(), seq);
        },
        ReceiverMessage::Progress { file_hash, bytes_received } => {
            let e0 = varint(1);
            let e2 = varint(bytes_received as nat);
            lemma_has_at_split(s, 0, e0 + file_hash, e2);
            lemma_has_at_split(s, 0, e0, file_hash);
            lemma_take_u32_of_varint(s, 0, 1);
            let p0 = e0.len() as int;
            lemma_take_hash_of_hash(s, p0, file_hash);
            lemma_take_u64_of_varint(s, p0 + file_hash.len(), bytes_received);
        },
        ReceiverMessage::TransferComplete { file_hash } => {
            let e0 = varint(2);
            lemma_has_at_split(s, 0, e0, file_hash);
            lemma_take_u32_of_varint(s, 0, 2);
            lemma_take_hash_of_hash(s, e0.len() as int, file_hash);
        },
        ReceiverMessage::Error { code, message } => {
            let e0 = varint(3);
            let e1 = varint(code as nat);
            let e2 = text(message);
            lemma_has_at_split(s, 0, e0 + e1, e2);
            lemma_has_at_split(s, 0, e0, e1);
            lemma_take_u32_of_varint(s, 0, 3);
            let p0 = e0.len() as int;
            lemma_take_u16_of_varint(s, p0, code);
            lemma_take_text_of_text(s, p0 + e1.len(), message);
        },
        ReceiverMessage::VerifyBlock { file_hash, seq, checksum } => {
            let e0 = varint(4);
            let e2 = varint(seq as nat);
            let e3 = varint(checksum as nat);
            lemma_has_at_split(s, 0, e0 + file_hash + e2, e3);
            lemma_has_at_split(s, 0, e0 + file_hash, e2);
            lemma_has_at_split(s, 0, e0, file_hash);
            lemma_take_u32_of_varint(s, 0, 4);
            let p0 = e0.len() as int;
            lemma_take_hash_of_hash(s, p0, file_hash);
            let p1 = p0 + file_hash.len();
            lemma_take_u32_of_varint(s, p1, seq);
            lemma_take_u32_of_varint(s, p1 + e2.len(), checksum);
        },
    }
}

/// What `to_bytes` leaves in the buffer and returns, for a message whose
/// encoding is `encoding`: with room for it, the encoding at the front of the
/// buffer, the rest of the buffer as it was, and the length of the encoding;
/// without, `BufferFull`, and nothing is said of what the buffer holds. The
/// buffer keeps its length.
pub open spec fn encoded_into(
    before: Seq<u8>,
    after: Seq<u8>,
    encoding: Seq<u8>,
    r: Result<usize, TransportError>,
) -> bool {
    &&& after.len() == before.len()
    &&& match r {
        Ok(n) => n == encoding.len() && n <= after.len() && after.take(n as int) == encoding
            && after.skip(n as int) == before.skip(n as int),
        Err(e) => e == TransportError::Serialization(WireError::BufferFull) && encoding.len()
            > before.len(),
    }
}

/// Ends a chain of writes that began at the front of the buffer.
fn finish_encoding(
    at: Option<usize>,
    Ghost(before): Ghost<Seq<u8>>,
    Ghost(after): Ghost<Seq<u8>>,
    Ghost(encoding): Ghost<Seq<u8>>,
) -> (r: Result<usize, TransportError>)
    requires
        placed(before, after, 0, encoding, at),
    ensures
        encoded_into(before, after, encoding, r),
{
    match at {
        Some(n) => {
            assert(after.take(n as int) =~= after.subrange(0, encoding.len() as int));
            Ok(n)
        },
        None => Err(TransportError::Serialization(WireError::BufferFull)),
    }
}

/// Writes an error code and its message behind the tag of their variant.
fn encode_error(buffer: &mut [u8], tag: u64, code: u16, message: &str) -> (r: Result<
    usize,
    TransportError,
>)
    ensures
        encoded_into(
            old(buffer)@,
            final(buffer)@,
            varint(tag as nat) + varint(code as nat) + text(message@),
            r,
        ),
{
    let ghost s0 = buffer@;
    let ghost e0 = varint(tag as nat);
    let ghost e1 = e0 + varint(code as nat);
    let p = write_varint(buffer, 0, tag);
    let p = then_varint(buffer, p, code as u64, Ghost(s0), Ghost(e0));
    let p = then_bytes(buffer, p, message.as_bytes(), Ghost(s0), Ghost(e1));
    finish_encoding(p, Ghost(s0), Ghost(buffer@), Ghost(e1 + text(message@)))
}

/// Reads an error code and its message from `pos` on.
fn decode_error_fields<'a>(bytes: &'a [u8], pos: usize) -> (r: Result<(u16, &'a str), WireError>)
    requires
        pos <= bytes@.len(),
    ensures
        match r {
            Ok((code, message)) => decode_error(bytes@, pos as int) == Ok::<
                (u16, Seq<char>),
                WireError,
            >((code, message@)),
            Err(e) => decode_error(bytes@, pos as int) == Err::<(u16, Seq<char>), WireError>(e),
        },
{
    let (code, p1) = match read_u16(bytes, pos) {
        Ok(x) => x,
        Err(e) => return Err(e),
    };
    let (message, _) = match read_text(bytes, p1) {
        Ok(x) => x,
        Err(e) => return Err(e),
    };
    Ok((code, message))
}

/// Reads a fingerprint and a `u32` from `pos` on.
fn decode_hash_u32_fields(bytes: &[u8], pos: usize) -> (r: Result<([u8; 32], u32, usize), WireError>)
    requires
        pos <= bytes@.len(),
    ensures
        r matches Ok((_, _, p)) ==> p <= bytes@.len(),
        match r {
            Ok((h, v, p)) => decode_hash_u32(bytes@, pos as int) == Ok::<
                (Seq<u8>, u32, int),
                WireError,
            >((h@, v, p as int)),
            Err(e) => decode_hash_u32(bytes@, pos as int) == Err::<
                (Seq<u8>, u32, int),
                WireError,
            >(e),
        },
{
    let (file_hash, p1) = match read_hash(bytes, pos) {
        Ok(x) => x,
        Err(e) => return Err(e),
    };
    let (v, p2) = match read_u32(bytes, p1) {
        Ok(x) => x,
        Err(e) => return Err(e),
    };
    Ok((file_hash, v, p2))
}

impl<'a> SenderMessageV1<'a> {
    /// Writes the encoding of the message to the front of `buffer` and returns
    /// its length. Fails with `BufferFull`, and only then, where the buffer is
    /// shorter than the encoding.
    pub fn to_bytes(&self, buffer: &mut [u8]) -> (r: Result<usize, TransportError>)
        ensures
            encoded_into(old(buffer)@, final(buffer)@, self@.encoding(), r),
    {
        let ghost s0 = buffer@;
        match self {
            SenderMessageV1::Handshake(h) => {
                let ghost e0 = varint(0);
                let ghost e1 = e0 + length_prefixed(h.file_hash@);
                let ghost e2 = e1 + varint(h.total_size as nat);
                let ghost e3 = e2 + varint(h.concurrency as nat);
                let ghost e4 = e3 + text(h.file_name@);
                let p = write_varint(buffer, 0, 0);
                let p = then_bytes(buffer, p, h.file_hash, Ghost(s0), Ghost(e0));
                let p = then_varint(buffer, p, h.total_size, Ghost(s0), Ghost(e1));
                let p = then_varint(buffer, p, h.concurrency as u64, Ghost(s0), Ghost(e2));
                let p = then_bytes(buffer, p, h.file_name.as_bytes(), Ghost(s0), Ghost(e3));
                let p = then_varint(buffer, p, h.block_size as u64, Ghost(s0), Ghost(e4));
                finish_encoding(
                    p,
                    Ghost(s0),
                    Ghost(buffer@),
                    Ghost(e4 + varint(h.block_size as nat)),
                )
            },
            SenderMessageV1::Data(d) => {
                let ghost e0 = varint(1);
                let ghost e1 = e0 + varint(d.seq as nat);
                let ghost e2 = e1 + varint(d.checksum as nat);
                let ghost e3 = e2 + length_prefixed(d.file_hash@);
                let ghost e4 = e3 + bool_byte(d.compressed);
                let p = write_varint(buffer, 0, 1);
                let p = then_varint(buffer, p, d.seq as u64, Ghost(s0), Ghost(e0));
                let p = then_varint(buffer, p, d.checksum as u64, Ghost(s0), Ghost(e1));
                let p = then_bytes(buffer, p, d.file_hash, Ghost(s0), Ghost(e2));
                let flag: u8 = if d.compressed {
                    1
                } else {
                    0
                };
                let p = then_byte(buffer, p, flag, Ghost(s0), Ghost(e3));
                let p = then_bytes(buffer, p, d.data, Ghost(s0), Ghost(e4));
                finish_encoding(p, Ghost(s0), Ghost(buffer@), Ghost(e4 + length_prefixed(d.data@)))
            },
            SenderMessageV1::Error(e) => encode_error(buffer, 2, e.code, e.message.as_str()),
            SenderMessageV1::VerifyResponse(v) => {
                let ghost e0 = varint(3);
                let ghost e1 = e0 + v.file_hash@;
                let ghost e2 = e1 + varint(v.seq as nat);
                let p = write_varint(buffer, 0, 3);
                let p = then_slice(buffer, p, v.file_hash.as_slice(), Ghost(s0), Ghost(e0));
                let p = then_varint(buffer, p, v.seq as u64, Ghost(s0), Ghost(e1));
                let flag: u8 = if v.valid {
                    1
                } else {
                    0
                };
                let p = then_byte(buffer, p, flag, Ghost(s0), Ghost(e2));
                finish_encoding(p, Ghost(s0), Ghost(buffer@), Ghost(e2 + bool_byte(v.valid)))
            },
        }
    }

    /// Reads the message that `bytes` begins with, without copying byte
    /// strings. Fails exactly where the bytes decode to no message, with the
    /// reason.
    pub fn from_bytes(bytes: &'a [u8]) -> (r: Result<SenderMessageV1<'a>, TransportError>)
        ensures
            match r {
                Ok(m) => decode_sender(bytes@) == Ok::<SenderMessage, WireError>(m@),
                Err(e) => decode_sender(bytes@) is Err && e == TransportError::Serialization(
                    decode_sender(bytes@)->Err_0,
                ),
            },
    {
        match Self::decode(bytes) {
            Ok(m) => Ok(m),
            Err(e) => Err(TransportError::Serialization(e)),
        }
    }

    fn decode(bytes: &'a [u8]) -> (r: Result<SenderMessageV1<'a>, WireError>)
        ensures
            match r {
                Ok(m) => decode_sender(bytes@) == Ok::<SenderMessage, WireError>(m@),
                Err(e) => decode_sender(bytes@) == Err::<SenderMessage, WireError>(e),
            },
    {
        let (tag, p) = match read_u32(bytes, 0) {
            Ok(x) => x,
            Err(e) => return Err(e),
        };
        if tag == 0 {
            let (file_hash, p1) = match read_bytes(bytes, p) {
                Ok(x) => x,
                Err(e) => return Err(e),
            };
            let (total_size, p2) = match read_u64(bytes, p1) {
                Ok(x) => x,
                Err(e) => return Err(e),
            };
            let (concurrency, p3) = match read_u16(bytes, p2) {
                Ok(x) => x,
                Err(e) => return Err(e),
            };
            let (file_name, p4) = match read_text(bytes, p3) {
                Ok(x) => x,
                Err(e) => return Err(e),
            };
            let (block_size, _) = match read_u32(bytes, p4) {
                Ok(x) => x,
                Err(e) => return Err(e),
            };
            Ok(
                SenderMessageV1::Handshake(
                    HandshakeV1 { file_hash, total_size, concurrency, file_name, block_size },
                ),
            )
        } else if tag == 1 {
            let (seq, p1) = match read_u32(bytes, p) {
                Ok(x) => x,
                Err(e) => return Err(e),
            };
            let (checksum, p2) = match read_u32(bytes, p1) {
                Ok(x) => x,
                Err(e) => return Err(e),
            };
            let (file_hash, p3) = match read_bytes(bytes, p2) {
                Ok(x) => x,
                Err(e) => return Err(e),
            };
            let (compressed, p4) = match read_bool(bytes, p3) {
                Ok(x) => x,
                Err(e) => return Err(e),
            };
            let (data, _) = match read_bytes(bytes, p4) {
                Ok(x) => x,
                Err(e) => return Err(e),
            };
            Ok(SenderMessageV1::Data(DataV1 { seq, checksum, file_hash, compressed, data }))
        } else if tag == 2 {
            match decode_error_fields(bytes, p) {
                Ok((code, message)) => Ok(
                    SenderMessageV1::Error(SenderErrorV1 { code, message: message.to_owned() }),
                ),
                Err(e) => Err(e),
            }
        } else if tag == 3 {
            let (file_hash, p1) = match read_hash(bytes, p) {
                Ok(x) => x,
                Err(e) => return Err(e),
            };
            let (seq, p2) = match read_u32(bytes, p1) {
                Ok(x) => x,
                Err(e) => return Err(e),
            };
            let (valid, _) = match read_bool(bytes, p2) {
                Ok(x) => x,
                Err(e) => return Err(e),
            };
            Ok(SenderMessageV1::VerifyResponse(VerifyResponseV1 { file_hash, seq, valid }))
        } else {
            Err(WireError::UnknownVariant)
        }
    }
}

impl ReceiverMessageV1 {
    /// Writes the encoding of the message to the front of `buffer` and returns
    /// its length. Fails with `BufferFull`, and only then, where the buffer is
    /// shorter than the encoding.
    pub fn to_bytes(&self, buffer: &mut [u8]) -> (r: Result<usize, TransportError>)
        ensures
            encoded_into(old(buffer)@, final(buffer)@, self@.encoding(), r),
    {
        let ghost s0 = buffer@;
        match self {
            ReceiverMessageV1::Request(q) => {
                let ghost e0 = varint(0);
                let ghost e1 = e0 + q.file_hash@;
                let p = write_varint(buffer, 0, 0);
                let p = then_slice(buffer, p, q.file_hash.as_slice(), Ghost(s0), Ghost(e0));
                let p = then_varint(buffer, p, q.seq as u64, Ghost(s0), Ghost(e1));
                finish_encoding(p, Ghost(s0), Ghost(buffer@), Ghost(e1 + varint(q.seq as nat)))
            },
            ReceiverMessageV1::Progress(g) => {
                let ghost e0 = varint(1);
                let ghost e1 = e0 + g.file_hash@;
                let p = write_varint(buffer, 0, 1);
                let p = then_slice(buffer, p, g.file_hash.as_slice(), Ghost(s0), Ghost(e0));
                let p = then_varint(buffer, p, g.bytes_received, Ghost(s0), Ghost(e1));
                finish_encoding(
                    p,
                    Ghost(s0),
                    Ghost(buffer@),
                    Ghost(e1 + varint(g.bytes_received as nat)),
                )
            },
            ReceiverMessageV1::TransferComplete(c) => {
                let ghost e0 = varint(2);
                let p = write_varint(buffer, 0, 2);
                let p = then_slice(buffer, p, c.file_hash.as_slice(), Ghost(s0), Ghost(e0));
                finish_encoding(p, Ghost(s0), Ghost(buffer@), Ghost(e0 + c.file_hash@))
            },
            ReceiverMessageV1::Error(e) => encode_error(buffer, 3, e.code, e.message.as_str()),
            ReceiverMessageV1::VerifyBlock(v) => {
                let ghost e0 = varint(4);
                let ghost e1 = e0 + v.file_hash@;
                let ghost e2 = e1 + varint(v.seq as nat);
                let p = write_varint(buffer, 0, 4);
                let p = then_slice(buffer, p, v.file_hash.as_slice(), Ghost(s0), Ghost(e0));
                let p = then_varint(buffer, p, v.seq as u64, Ghost(s0), Ghost(e1));
                let p = then_varint(buffer, p, v.checksum as u64, Ghost(s0), Ghost(e2));
                finish_encoding(
                    p,
                    Ghost(s0),
                    Ghost(buffer@),
                    Ghost(e2 + varint(v.checksum as nat)),
                )
            },
        }
    }

    /// Reads the message that `bytes` begins with. Fails exactly where the
    /// bytes decode to no message, with the reason.
    pub fn from_bytes(bytes: &[u8]) -> (r: Result<ReceiverMessageV1, TransportError>)
        ensures
            match r {
                Ok(m) => decode_receiver(bytes@) == Ok::<ReceiverMessage, WireError>(m@),
                Err(e) => decode_receiver(bytes@) is Err && e == TransportError::Serialization(
                    decode_receiver(bytes@)->Err_0,
                ),
            },
    {
        match Self::decode(bytes) {
            Ok(m) => Ok(m),
            Err(e) => Err(TransportError::Serialization(e)),
        }
    }

    fn decode(bytes: &[u8]) -> (r: Result<ReceiverMessageV1, WireError>)
        ensures
            match r {
                Ok(m) => decode_receiver(bytes@) == Ok::<ReceiverMessage, WireError>(m@),
                Err(e) => decode_receiver(bytes@) == Err::<ReceiverMessage, WireError>(e),
            },
    {
        let (tag, p) = match read_u32(bytes, 0) {
            Ok(x) => x,
            Err(e) => return Err(e),
        };
        if tag == 0 {
            match decode_hash_u32_fields(bytes, p) {
                Ok((file_hash, seq, _)) => Ok(
                    ReceiverMessageV1::Request(RequestV1 { file_hash, seq }),
                ),
                Err(e) => Err(e),
            }
        } else if tag == 1 {
            let (file_hash, p1) = match read_hash(bytes, p) {
                Ok(x) => x,
                Err(e) => return Err(e),
            };
            let (bytes_received, _) = match read_u64(bytes, p1) {
                Ok(x) => x,
                Err(e) => return Err(e),
            };
            Ok(ReceiverMessageV1::Progress(ProgressV1 { file_hash, bytes_received }))
        } else if tag == 2 {
            match read_hash(bytes, p) {
                Ok((file_hash, _)) => Ok(
                    ReceiverMessageV1::TransferComplete(TransferCompleteV1 { file_hash }),
                ),
                Err(e) => Err(e),
            }
        } else if tag == 3 {
            match decode_error_fields(bytes, p) {
                Ok((code, message)) => Ok(
                    ReceiverMessageV1::Error(
                        ReceiverErrorV1 { code, message: message.to_owned() },
                    ),
                ),
                Err(e) => Err(e),
            }
        } else if tag == 4 {
            let (file_hash, seq, p2) = match decode_hash_u32_fields(bytes, p) {
                Ok(x) => x,
                Err(e) => return Err(e),
            };
            let (checksum, _) = match read_u32(bytes, p2) {
                Ok(x) => x,
                Err(e) => return Err(e),
            };
            Ok(ReceiverMessageV1::VerifyBlock(VerifyBlockV1 { file_hash, seq, checksum }))
        } else {
            Err(WireError::UnknownVariant)
        }
    }
}

/// The two header lines of a frame whose payload has `len` bytes, without
/// the end of the second line.
pub open spec fn frame_header(len: nat) -> Seq<u8> {
    VERSION_HEADER_PREFIX@ + decimal(CURRENT_PROTOCOL_VERSION as nat) + MESSAGE_DELIMITER@
        + LENGTH_HEADER_PREFIX@ + decimal(len)
}

/// The frame of `payload`: the header lines, the blank line, the payload.
pub open spec fn frame(payload: Seq<u8>) -> Seq<u8> {
    frame_header(payload.len()) + MESSAGE_DELIMITER@ + MESSAGE_DELIMITER@ + payload
}

/// Attaches the protocol headers to `payload`: the result is the frame that
/// carries it.
pub fn attach_headers(payload: &[u8]) -> (message: Vec<u8>)
    ensures
        message@ == frame(payload@),
{
    let mut message: Vec<u8> = Vec::new();
    message.extend_from_slice(VERSION_HEADER_PREFIX.as_slice());
    push_decimal(&mut message, CURRENT_PROTOCOL_VERSION as usize);
    message.extend_from_slice(MESSAGE_DELIMITER.as_slice());
    message.extend_from_slice(LENGTH_HEADER_PREFIX.as_slice());
    push_decimal(&mut message, payload.len());
    message.extend_from_slice(MESSAGE_DELIMITER.as_slice());
    message.extend_from_slice(MESSAGE_DELIMITER.as_slice());
    message.extend_from_slice(payload);
    assert(message@ =~= frame(payload@));
    message
}

} // verus!
