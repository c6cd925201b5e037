//! The sending side: what one connection answers to the receiver's
//! messages, and how it decides whether to compress.

use crate::checksum::{crc32, crc32_iso_hdlc};
use crate::compression::{gzip_decoded, gzip_encode_into, gzip_encoded};
use crate::file::utils::{block_offset, block_start};
use crate::stream::error::SendFileError;
use crate::stream::receive::data_block_outcome;
use crate::stream::utils::{frame_sender_message, framed, same_hash, scratch_after};
use crate::transport::{
    DataV1, ProgressV1, ReceiverMessage, ReceiverMessageV1, RequestV1, SenderErrorV1,
    SenderMessage, SenderMessageV1, TransferCompleteV1, VerifyBlockV1, VerifyResponseV1,
};
use vstd::prelude::*;
use vstd::slice::slice_to_vec;

verus! {

/// The code of the error message that reports a failed read of the file.
pub const READ_ERROR_CODE: u16 = 500;

/// How many connections a sender serves at a time on a machine that runs
/// `available_parallelism` threads at once: four for each, at least 8 and at
/// most 65535.
pub fn connection_cap(available_parallelism: usize) -> (cap: u16)
    ensures
        cap == if available_parallelism * 4 < 8 {
            8
        } else if available_parallelism * 4 > u16::MAX {
            u16::MAX as int
        } else {
            available_parallelism * 4
        },
{
    if available_parallelism < 2 {
        8
    } else if available_parallelism > 16383 {
        u16::MAX
    } else {
        (available_parallelism * 4) as u16
    }
}

/// Whether a block is sent compressed, and what the connection has decided
/// from then on, given what it had decided before, the length of the block
/// and the length of its gzip encoding, if the encoding was tried and
/// succeeded.
///
/// A connection that has not decided yet probes with its first block: it
/// compresses from then on if and only if the encoding is shorter than the
/// block, and a failed encoding decides against. A decision stands for the
/// rest of the connection. A connection that compresses sends a block raw
/// only where its encoding fails.
pub open spec fn compression_choice(
    decision: Option<bool>,
    raw_len: nat,
    compressed_len: Option<nat>,
) -> (bool, Option<bool>) {
    match decision {
        Some(false) => (false, Some(false)),
        Some(true) => (compressed_len is Some, Some(true)),
        None => match compressed_len {
            Some(len) => (len < raw_len, Some(len < raw_len)),
            None => (false, Some(false)),
        },
    }
}

/// Decides whether a block is sent compressed, as [`compression_choice`]
/// says: the flag for this block and the decision of the connection from
/// now on.
pub fn choose_compression(
    decision: Option<bool>,
    raw_len: usize,
    compressed_len: Option<usize>,
) -> (choice: (bool, Option<bool>))
    ensures
        choice == compression_choice(
            decision,
            raw_len as nat,
            match compressed_len {
                Some(len) => Some(len as nat),
                None => None,
            },
        ),
{
    match decision {
        Some(false) => (false, Some(false)),
        Some(true) => (compressed_len.is_some(), Some(true)),
        None => match compressed_len {
            Some(len) => (len < raw_len, Some(len < raw_len)),
            None => (false, Some(false)),
        },
    }
}

/// Sticky compression: once a connection has decided, every block whose
/// encoding succeeds is sent as decided, and the decision does not change.
pub proof fn lemma_compression_is_sticky(
    decided: bool,
    raw_len: nat,
    compressed_len: Option<nat>,
)
    requires
        decided ==> compressed_len is Some,
    ensures
        compression_choice(Some(decided), raw_len, compressed_len) == (decided, Some(decided)),
{
}

/// The probe decides: whatever the first block, the connection has decided
/// afterwards, and the first block is sent as decided.
pub proof fn lemma_probe_decides(raw_len: nat, compressed_len: Option<nat>)
    ensures
        compression_choice(None, raw_len, compressed_len).1 == Some(
            compression_choice(None, raw_len, compressed_len).0,
        ),
{
}

/// The length of a byte string, if there is one.
pub open spec fn length_of(bytes: Option<Seq<u8>>) -> Option<nat> {
    match bytes {
        Some(b) => Some(b.len()),
        None => None,
    }
}

/// The data message that answers a request for block `seq` on a connection
/// with the given decision, where `block` is the block as read from the file
/// and `encoded` its gzip encoding: the block raw or encoded as
/// [`compression_choice`] says, with the checksum of the bytes sent.
pub open spec fn data_reply(
    file_hash: Seq<u8>,
    seq: u32,
    decision: Option<bool>,
    block: Seq<u8>,
    encoded: Option<Seq<u8>>,
) -> SenderMessage {
    let compressed = compression_choice(decision, block.len(), length_of(encoded)).0;
    let data = if compressed {
        encoded->Some_0
    } else {
        block
    };
    SenderMessage::Data { seq, checksum: crc32_iso_hdlc(data), file_hash, compressed, data }
}

/// Compression monotonicity: the checksum of a data reply is the checksum of
/// the bytes it carries, the encoded ones where it is compressed and the raw
/// block where it is not.
pub proof fn lemma_reply_checksum(
    file_hash: Seq<u8>,
    seq: u32,
    decision: Option<bool>,
    block: Seq<u8>,
    encoded: Option<Seq<u8>>,
)
    ensures
        data_reply(file_hash, seq, decision, block, encoded) matches SenderMessage::Data {
            checksum,
            compressed,
            data,
            ..
        } && checksum == crc32_iso_hdlc(data) && (compressed ==> encoded == Some(data)) && (
        !compressed ==> data == block),
{
}

/// What the handler of a connection does after a message of the receiver.
#[derive(Debug, Clone, Copy, PartialEq, Eq, Structural)]
pub enum NextStep {
    /// Read block `seq` at `offset` and answer with
    /// [`ConnectionHandler::handle_data_request`].
    ServeBlock { seq: u32, offset: u64 },
    /// Read block `seq` at `offset` and answer with
    /// [`ConnectionHandler::handle_verify_block`].
    CheckBlock { seq: u32, offset: u64 },
    /// Nothing to answer: read the next message.
    Continue,
    /// The receiver has the whole file: the transfer has succeeded.
    Complete,
    /// Close the connection.
    Close,
}

/// The state of one accepted connection on the sender's side.
#[derive(Debug)]
pub struct ConnectionHandler {
    /// Fingerprint of the file that this transfer is about.
    pub expected_hash: [u8; 32],
    /// Size of a block in bytes.
    pub block_size: u32,
    /// Whether blocks are compressed on this connection, once decided.
    pub compression_enabled: Option<bool>,
    /// Scratch space for the encoding of a reply: its length bounds the
    /// replies that can be sent.
    pub write_buffer: Vec<u8>,
    /// Scratch space for the gzip encoding of a block.
    pub compressed_buffer: Vec<u8>,
}

/// What the handler does after the message `m`, for a transfer with the
/// given fingerprint and block size. A message with another fingerprint
/// closes the connection, and so does an error message.
pub open spec fn step_after(expected_hash: Seq<u8>, block_size: u32, m: ReceiverMessage) -> NextStep {
    match m {
        ReceiverMessage::Request { file_hash, seq } => if file_hash == expected_hash {
            NextStep::ServeBlock {
                seq,
                offset: block_start(seq as nat, block_size as nat) as u64,
            }
        } else {
            NextStep::Close
        },
        ReceiverMessage::VerifyBlock { file_hash, seq, .. } => if file_hash == expected_hash {
            NextStep::CheckBlock {
                seq,
                offset: block_start(seq as nat, block_size as nat) as u64,
            }
        } else {
            NextStep::Close
        },
        ReceiverMessage::Progress { file_hash, .. } => if file_hash == expected_hash {
            NextStep::Continue
        } else {
            NextStep::Close
        },
        ReceiverMessage::TransferComplete { file_hash } => if file_hash == expected_hash {
            NextStep::Complete
        } else {
            NextStep::Close
        },
        ReceiverMessage::Error { .. } => NextStep::Close,
    }
}

impl ConnectionHandler {
    /// The length of the longest reply that the handler can encode.
    pub open spec fn message_capacity(&self) -> nat {
        self.write_buffer@.len()
    }

    /// A handler for a connection that has not decided on compression yet,
    /// or never compresses where `compress` is false, with scratch space for
    /// messages of up to `message_capacity` bytes.
    pub fn new(expected_hash: [u8; 32], block_size: u32, compress: bool, message_capacity: usize) -> (handler:
        Self)
        ensures
            handler.expected_hash == expected_hash,
            handler.block_size == block_size,
            handler.compression_enabled == if compress {
                None::<bool>
            } else {
                Some(false)
            },
            handler.write_buffer@ == Seq::new(message_capacity as nat, |i: int| 0u8),
            handler.compressed_buffer@ == Seq::<u8>::empty(),
    {
        ConnectionHandler {
            expected_hash,
            block_size,
            compression_enabled: if compress {
                None
            } else {
                Some(false)
            },
            write_buffer: vec![0u8; message_capacity],
            compressed_buffer: Vec::new(),
        }
    }

    fn mismatch(&self, received: &[u8; 32]) -> (e: SendFileError)
        ensures
            e matches SendFileError::BlockHashMismatch { expected, received: got } && expected
                == self.expected_hash && got@ == received@,
    {
        SendFileError::BlockHashMismatch {
            expected: self.expected_hash,
            received: slice_to_vec(received.as_slice()),
        }
    }

    /// Says what to do after a message of the receiver.
    pub fn next_step(&self, message: &ReceiverMessageV1) -> (step: NextStep)
        ensures
            step == step_after(self.expected_hash@, self.block_size, message@),
    {
        match message {
            ReceiverMessageV1::Request(request) => {
                if same_hash(&request.file_hash, &self.expected_hash) {
                    NextStep::ServeBlock {
                        seq: request.seq,
                        offset: block_offset(request.seq, self.block_size),
                    }
                } else {
                    NextStep::Close
                }
            },
            ReceiverMessageV1::VerifyBlock(verify) => {
                if same_hash(&verify.file_hash, &self.expected_hash) {
                    NextStep::CheckBlock {
                        seq: verify.seq,
                        offset: block_offset(verify.seq, self.block_size),
                    }
                } else {
                    NextStep::Close
                }
            },
            ReceiverMessageV1::Progress(progress) => match self.handle_progress(progress) {
                Ok(()) => NextStep::Continue,
                Err(_) => NextStep::Close,
            },
            ReceiverMessageV1::TransferComplete(complete) => match self.handle_transfer_complete(
                complete,
            ) {
                Ok(()) => NextStep::Complete,
                Err(_) => NextStep::Close,
            },
            ReceiverMessageV1::Error(_) => NextStep::Close,
        }
    }

    /// Answers a request for a block, given the block as read from the file:
    /// the frame of the data message to write to the stream.
    ///
    /// A request with another fingerprint is refused and changes nothing.
    /// Else the connection decides on compression as [`compression_choice`]
    /// says, and the reply is the one of [`data_reply`]. It fails with
    /// `BufferFull` where the reply does not fit in the scratch space. The
    /// scratch space for compression holds the encoding of the block
    /// afterwards, where one was made.
    pub fn handle_data_request(&mut self, req: &RequestV1, block: &[u8]) -> (r: Result<
        Vec<u8>,
        SendFileError,
    >)
        ensures
            final(self).expected_hash == old(self).expected_hash,
            final(self).block_size == old(self).block_size,
            req.file_hash@ != old(self).expected_hash@ ==> {
                &&& r matches Err(SendFileError::BlockHashMismatch { expected, received })
                &&& expected == old(self).expected_hash
                &&& received@ == req.file_hash@
                &&& *final(self) == *old(self)
            },
            req.file_hash@ == old(self).expected_hash@ ==> {
                &&& final(self).compression_enabled == compression_choice(
                    old(self).compression_enabled,
                    block@.len(),
                    length_of(gzip_encoded(block@)),
                ).1
                &&& old(self).compression_enabled == Some(false) ==> final(self).compressed_buffer
                    == old(self).compressed_buffer
                &&& old(self).compression_enabled != Some(false) ==> (gzip_encoded(
                    block@,
                ) matches Some(encoded) ==> final(self).compressed_buffer@ == encoded)
                &&& scratch_after(
                    old(self).write_buffer@,
                    final(self).write_buffer@,
                    data_reply(
                        old(self).expected_hash@,
                        req.seq,
                        old(self).compression_enabled,
                        block@,
                        gzip_encoded(block@),
                    ).encoding(),
                )
                &&& framed(
                    data_reply(
                        old(self).expected_hash@,
                        req.seq,
                        old(self).compression_enabled,
                        block@,
                        gzip_encoded(block@),
                    ).encoding(),
                    old(self).message_capacity(),
                    r,
                )
            },
    {
        if !same_hash(&req.file_hash, &self.expected_hash) {
            return Err(self.mismatch(&req.file_hash));
        }
        let compressed_len = match self.compression_enabled {
            Some(false) => None,
            _ => if gzip_encode_into(block, &mut self.compressed_buffer) {
                Some(self.compressed_buffer.len())
            } else {
                None
            },
        };
        let (compressed, decision) = choose_compression(
            self.compression_enabled,
            block.len(),
            compressed_len,
        );
        self.compression_enabled = decision;
        let data: &[u8] = if compressed {
            self.compressed_buffer.as_slice()
        } else {
            block
        };
        let message = SenderMessageV1::Data(
            DataV1 {
                seq: req.seq,
                checksum: crc32(data),
                file_hash: self.expected_hash.as_slice(),
                compressed,
                data,
            },
        );
        frame_sender_message(&message, self.write_buffer.as_mut_slice())
    }

    /// Answers a request to verify a block, given the sender's copy of the
    /// block as read from the file: the frame of the verify response, which
    /// confirms the block if and only if the checksum of the raw copy is the
    /// one that the receiver computed.
    ///
    /// A request with another fingerprint is refused. It fails with
    /// `BufferFull` where the reply does not fit in the scratch space.
    pub fn handle_verify_block(&mut self, verify: &VerifyBlockV1, block: &[u8]) -> (r: Result<
        Vec<u8>,
        SendFileError,
    >)
        ensures
            final(self).expected_hash == old(self).expected_hash,
            final(self).block_size == old(self).block_size,
            final(self).compression_enabled == old(self).compression_enabled,
            final(self).compressed_buffer == old(self).compressed_buffer,
            verify.file_hash@ != old(self).expected_hash@ ==> {
                &&& r matches Err(SendFileError::BlockHashMismatch { expected, received })
                &&& expected == old(self).expected_hash
                &&& received@ == verify.file_hash@
                &&& *final(self) == *old(self)
            },
            verify.file_hash@ == old(self).expected_hash@ ==> {
                &&& scratch_after(
                    old(self).write_buffer@,
                    final(self).write_buffer@,
                    SenderMessage::VerifyResponse {
                        file_hash: old(self).expected_hash@,
                        seq: verify.seq,
                        valid: crc32_iso_hdlc(block@) == verify.checksum,
                    }.encoding(),
                )
                &&& framed(
                    SenderMessage::VerifyResponse {
                        file_hash: old(self).expected_hash@,
                        seq: verify.seq,
                        valid: crc32_iso_hdlc(block@) == verify.checksum,
                    }.encoding(),
                    old(self).message_capacity(),
                    r,
                )
            },
    {
        if !same_hash(&verify.file_hash, &self.expected_hash) {
            return Err(self.mismatch(&verify.file_hash));
        }
        let computed = crc32(block);
        self.verify_response(verify.seq, computed == verify.checksum)
    }

    /// The frame of the verify response for block `seq`.
    pub fn verify_response(&mut self, seq: u32, valid: bool) -> (r: Result<Vec<u8>, SendFileError>)
        ensures
            final(self).expected_hash == old(self).expected_hash,
            final(self).block_size == old(self).block_size,
            final(self).compression_enabled == old(self).compression_enabled,
            final(self).compressed_buffer == old(self).compressed_buffer,
            scratch_after(
                old(self).write_buffer@,
                final(self).write_buffer@,
                SenderMessage::VerifyResponse {
                    file_hash: old(self).expected_hash@,
                    seq,
                    valid,
                }.encoding(),
            ),
            framed(
                SenderMessage::VerifyResponse {
                    file_hash: old(self).expected_hash@,
                    seq,
                    valid,
                }.encoding(),
                old(self).message_capacity(),
                r,
            ),
    {
        let message = SenderMessageV1::VerifyResponse(
            VerifyResponseV1 { file_hash: self.expected_hash, seq, valid },
        );
        frame_sender_message(&message, self.write_buffer.as_mut_slice())
    }

    /// The frame of the error message that tells the receiver that a block
    /// could not be read, with the given description.
    pub fn read_failure_reply(&mut self, description: &str) -> (r: Result<Vec<u8>, SendFileError>)
        ensures
            final(self).expected_hash == old(self).expected_hash,
            final(self).block_size == old(self).block_size,
            final(self).compression_enabled == old(self).compression_enabled,
            final(self).compressed_buffer == old(self).compressed_buffer,
            scratch_after(
                old(self).write_buffer@,
                final(self).write_buffer@,
                SenderMessage::Error { code: READ_ERROR_CODE, message: description@ }.encoding(),
            ),
            framed(
                SenderMessage::Error { code: READ_ERROR_CODE, message: description@ }.encoding(),
                old(self).message_capacity(),
                r,
            ),
    {
        let message = SenderMessageV1::Error(
            SenderErrorV1 { code: READ_ERROR_CODE, message: description.to_owned() },
        );
        frame_sender_message(&message, self.write_buffer.as_mut_slice())
    }

    /// Accepts a progress report if and only if it carries the fingerprint
    /// of this transfer.
    pub fn handle_progress(&self, prog: &ProgressV1) -> (r: Result<(), SendFileError>)
        ensures
            prog.file_hash@ == self.expected_hash@ ==> r is Ok,
            prog.file_hash@ != self.expected_hash@ ==> {
                &&& r matches Err(SendFileError::BlockHashMismatch { expected, received })
                &&& expected == self.expected_hash
                &&& received@ == prog.file_hash@
            },
    {
        if same_hash(&prog.file_hash, &self.expected_hash) {
            Ok(())
        } else {
            Err(self.mismatch(&prog.file_hash))
        }
    }

    /// Accepts the report that the transfer is complete if and only if it
    /// carries the fingerprint of this transfer.
    pub fn handle_transfer_complete(&self, complete: &TransferCompleteV1) -> (r: Result<
        (),
        SendFileError,
    >)
        ensures
            complete.file_hash@ == self.expected_hash@ ==> r is Ok,
            complete.file_hash@ != self.expected_hash@ ==> {
                &&& r matches Err(SendFileError::BlockHashMismatch { expected, received })
                &&& expected == self.expected_hash
                &&& received@ == complete.file_hash@
            },
    {
        if same_hash(&complete.file_hash, &self.expected_hash) {
            Ok(())
        } else {
            Err(self.mismatch(&complete.file_hash))
        }
    }
}

/// What the sender answers, the receiver accepts: the checksum of a data
/// reply matches on arrival. A reply that is not compressed yields the
/// block as it was read; a compressed one yields what the receiver's
/// decoder makes of the sender's encoding.
pub proof fn lemma_reply_passes_receiver_checks(
    file_hash: Seq<u8>,
    seq: u32,
    decision: Option<bool>,
    block: Seq<u8>,
    encoded: Option<Seq<u8>>,
)
    ensures
        ({
            let reply = data_reply(file_hash, seq, decision, block, encoded);
            &&& reply matches SenderMessage::Data { checksum, compressed, data, .. }
            &&& data_block_outcome(
                seq,
                checksum,
                compressed,
                data,
                crc32_iso_hdlc(data),
                gzip_decoded(data),
            ) == if !compressed {
                Ok::<Seq<u8>, SendFileError>(block)
            } else {
                match gzip_decoded(encoded->Some_0) {
                    Some(decoded) => Ok::<Seq<u8>, SendFileError>(decoded),
                    None => Err::<Seq<u8>, SendFileError>(
                        SendFileError::DecompressionFailed { seq },
                    ),
                }
            }
        }),
{
}

/// Whether a sender that serves `active` connections takes one more: only
/// below its cap.
pub fn accepts_connection(active: usize, cap: u16) -> (accepted: bool)
    ensures
        accepted == (active < cap),
{
    active < cap as usize
}

} // verus!
