//! The receiving side: how the block index space is shared out among the
//! connections, which blocks are accepted, and when a transfer is complete.

use crate::checksum::{crc32, crc32_iso_hdlc};
use crate::compression::{gzip_decode, gzip_decoded};
use crate::connection::{
    may_resume, read_sender_message, retain_unread, sender_read_outcome, ReadFailure,
    ReadProgress,
};
use crate::file::utils::{block_count, total_blocks};
use crate::stream::error::SendFileError;
use crate::transport::{
    DataV1, ReceiverMessageV1, RequestV1, SenderMessage, SenderMessageV1, TransferCompleteV1,
    VerifyBlockV1,
};
use crate::wire::{read_hash, HASH_LEN};
use std::ops::Range;
use vstd::prelude::*;
use vstd::slice::slice_to_vec;

verus! {

/// First block of the `i`-th of `n` balanced parts of `[0, total)`: every part
/// has `total / n` blocks, and each of the first `total % n` parts has one more.
pub open spec fn range_start(total: nat, n: nat, i: nat) -> nat
    recommends
        n >= 1,
        i <= n,
{
    i * (total / n) + if i < total % n {
        i
    } else {
        total % n
    }
}

/// Number of blocks in the `i`-th of `n` balanced parts of `[0, total)`.
pub open spec fn range_len(total: nat, n: nat, i: nat) -> nat
    recommends
        n >= 1,
        i < n,
{
    total / n + if i < total % n {
        1nat
    } else {
        0nat
    }
}

/// The balanced partition starts at 0, ends at `total`, and its parts follow
/// one another without gap or overlap.
pub proof fn lemma_ranges_are_contiguous(total: nat, n: nat)
    requires
        n >= 1,
    ensures
        range_start(total, n, 0) == 0,
        range_start(total, n, n) == total,
        forall|i: nat|
            i < n ==> range_start(total, n, i) + #[trigger] range_len(total, n, i) == range_start(
                total,
                n,
                i + 1,
            ),
{
    let q = total / n;
    let r = total % n;
    assert(total == n * q + r && r < n) by (nonlinear_arith)
        requires
            n >= 1,
            q == total / n,
            r == total % n,
    ;
    assert(0 * q == 0) by (nonlinear_arith);
    assert forall|i: nat| i < n implies range_start(total, n, i) + #[trigger] range_len(
        total,
        n,
        i,
    ) == range_start(total, n, i + 1) by {
        assert((i + 1) * q == i * q + q) by (nonlinear_arith);
    }
}

/// Whether `block` lies in the `i`-th of `n` balanced parts of `[0, total)`.
pub open spec fn in_range(total: nat, n: nat, i: nat, block: nat) -> bool {
    range_start(total, n, i) <= block < range_start(total, n, i + 1)
}

/// Every block index below `total` lies in exactly one part of the balanced
/// partition.
pub proof fn lemma_ranges_cover_each_block_once(total: nat, n: nat, block: nat)
    requires
        n >= 1,
        block < total,
    ensures
        exists|i: nat| i < n && in_range(total, n, i, block),
        forall|i: nat, j: nat|
            i < n && j < n && #[trigger] in_range(total, n, i, block) && #[trigger] in_range(
                total,
                n,
                j,
                block,
            ) ==> i == j,
{
    lemma_ranges_are_contiguous(total, n);
    lemma_range_start_is_monotonic(total, n);
    lemma_find_range(total, n, block, n);
    assert forall|i: nat, j: nat|
        i < n && j < n && #[trigger] in_range(total, n, i, block) && #[trigger] in_range(
            total,
            n,
            j,
            block,
        ) implies i == j by {
        if i < j {
            assert(range_start(total, n, i + 1) <= range_start(total, n, j));
        } else if j < i {
            assert(range_start(total, n, j + 1) <= range_start(total, n, i));
        }
    }
}

/// The starts of the parts never decrease.
pub proof fn lemma_range_start_is_monotonic(total: nat, n: nat)
    requires
        n >= 1,
    ensures
        forall|i: nat, j: nat|
            i <= j <= n ==> #[trigger] range_start(total, n, i) <= #[trigger] range_start(
                total,
                n,
                j,
            ),
{
    let q = total / n;
    assert forall|i: nat, j: nat| i <= j <= n implies #[trigger] range_start(total, n, i)
        <= #[trigger] range_start(total, n, j) by {
        assert(i * q <= j * q) by (nonlinear_arith)
            requires
                i <= j,
        ;
    }
}

proof fn lemma_find_range(total: nat, n: nat, block: nat, k: nat)
    requires
        n >= 1,
        k <= n,
        block < range_start(total, n, k),
        range_start(total, n, 0) == 0,
        forall|i: nat|
            i < n ==> range_start(total, n, i) + #[trigger] range_len(total, n, i) == range_start(
                total,
                n,
                i + 1,
            ),
    ensures
        exists|i: nat| i < n && in_range(total, n, i, block),
    decreases k,
{
    if k == 0 {
    } else {
        let i = (k - 1) as nat;
        assert(range_start(total, n, i) + range_len(total, n, i) == range_start(total, n, i + 1));
        if range_start(total, n, i) <= block {
            assert(i < n && in_range(total, n, i, block));
        } else {
            lemma_find_range(total, n, block, i);
        }
    }
}

/// Splits the block indices `[0, total_blocks)` into `concurrency` contiguous
/// ranges of balanced size, in ascending order. Ranges may be empty.
pub fn split_blocks_into_ranges(total_blocks: u32, concurrency: u16) -> (ranges: Vec<Range<u32>>)
    requires
        concurrency >= 1,
    ensures
        ranges@.len() == concurrency,
        forall|i: int|
            0 <= i < concurrency ==> {
                &&& (#[trigger] ranges@[i]).start == range_start(
                    total_blocks as nat,
                    concurrency as nat,
                    i as nat,
                )
                &&& ranges@[i].end == range_start(
                    total_blocks as nat,
                    concurrency as nat,
                    (i + 1) as nat,
                )
                &&& ranges@[i].end - ranges@[i].start == range_len(
                    total_blocks as nat,
                    concurrency as nat,
                    i as nat,
                )
            },
{
    let blocks_per_conn: u32 = total_blocks / (concurrency as u32);
    let remainder: u32 = total_blocks % (concurrency as u32);
    let mut ranges: Vec<Range<u32>> = Vec::new();
    let mut start: u32 = 0;
    let mut i: u16 = 0;
    proof {
        lemma_ranges_are_contiguous(total_blocks as nat, concurrency as nat);
        lemma_range_start_is_monotonic(total_blocks as nat, concurrency as nat);
    }
    while i < concurrency
        invariant
            concurrency >= 1,
            i <= concurrency,
            blocks_per_conn == total_blocks as nat / concurrency as nat,
            remainder == total_blocks as nat % concurrency as nat,
            ranges@.len() == i,
            start == range_start(total_blocks as nat, concurrency as nat, i as nat),
            range_start(total_blocks as nat, concurrency as nat, concurrency as nat)
                == total_blocks,
            forall|a: nat, b: nat|
                a <= b <= concurrency ==> #[trigger] range_start(
                    total_blocks as nat,
                    concurrency as nat,
                    a,
                ) <= #[trigger] range_start(total_blocks as nat, concurrency as nat, b),
            forall|k: nat|
                k < concurrency ==> range_start(total_blocks as nat, concurrency as nat, k)
                    + #[trigger] range_len(total_blocks as nat, concurrency as nat, k) == range_start(
                    total_blocks as nat,
                    concurrency as nat,
                    k + 1,
                ),
            forall|k: int|
                0 <= k < i ==> {
                    &&& (#[trigger] ranges@[k]).start == range_start(
                        total_blocks as nat,
                        concurrency as nat,
                        k as nat,
                    )
                    &&& ranges@[k].end == range_start(
                        total_blocks as nat,
                        concurrency as nat,
                        (k + 1) as nat,
                    )
                    &&& ranges@[k].end - ranges@[k].start == range_len(
                        total_blocks as nat,
                        concurrency as nat,
                        k as nat,
                    )
                },
        decreases concurrency - i,
    {
        let extra: u32 = if (i as u32) < remainder {
            1
        } else {
            0
        };
        proof {
            let t = total_blocks as nat;
            let n = concurrency as nat;
            assert(range_start(t, n, i as nat) + range_len(t, n, i as nat) == range_start(
                t,
                n,
                (i + 1) as nat,
            ));
            assert(range_start(t, n, (i + 1) as nat) <= range_start(t, n, n));
        }
        let end: u32 = start + blocks_per_conn + extra;
        ranges.push(start..end);
        start = end;
        i += 1;
    }
    ranges
}

/// Splits the block indices among the connections, as
/// [`split_blocks_into_ranges`] does.
pub fn split_blocks_into_ranges_for_test(total_blocks: u32, concurrency: u16) -> (ranges: Vec<
    Range<u32>,
>)
    requires
        concurrency >= 1,
    ensures
        ranges@.len() == concurrency,
        forall|i: int|
            0 <= i < concurrency ==> {
                &&& (#[trigger] ranges@[i]).start == range_start(
                    total_blocks as nat,
                    concurrency as nat,
                    i as nat,
                )
                &&& ranges@[i].end == range_start(
                    total_blocks as nat,
                    concurrency as nat,
                    (i + 1) as nat,
                )
                &&& ranges@[i].end - ranges@[i].start == range_len(
                    total_blocks as nat,
                    concurrency as nat,
                    i as nat,
                )
            },
{
    split_blocks_into_ranges(total_blocks, concurrency)
}

/// The balanced partition in the terms of rounding: the first `total % n`
/// parts have `total / n` rounded up blocks, the others `total / n` rounded
/// down.
pub proof fn lemma_range_lengths(total: nat, n: nat, i: nat)
    requires
        n >= 1,
        i < n,
    ensures
        i < total % n ==> range_len(total, n, i) == (total + n - 1) / (n as int),
        i >= total % n ==> range_len(total, n, i) == total / n,
{
    if i < total % n {
        let q = total / n;
        let r = total % n;
        assert(total == n * q + r && r < n) by (nonlinear_arith)
            requires
                n >= 1,
                q == total / n,
                r == total % n,
        ;
        assert((total + n - 1) / (n as int) == q + 1) by (nonlinear_arith)
            requires
                n >= 1,
                total == n * q + r,
                1 <= r < n,
        ;
    }
}

/// A block that was said to be compressed and is no sound gzip stream.
#[derive(Debug, Clone, Copy, PartialEq, Eq, Structural)]
pub struct InvalidGzip;

/// Whether every block has been received.
pub fn is_transfer_complete(received_blocks: &[bool]) -> (complete: bool)
    ensures
        complete == forall|i: int| 0 <= i < received_blocks@.len() ==> received_blocks@[i],
{
    let mut i: usize = 0;
    while i < received_blocks.len()
        invariant
            i <= received_blocks@.len(),
            forall|k: int| 0 <= k < i ==> received_blocks@[k],
        decreases received_blocks@.len() - i,
    {
        if !received_blocks[i] {
            return false;
        }
        i += 1;
    }
    true
}

/// Whether each of the first `total_blocks` blocks has been received, as far
/// as `received_blocks` goes.
pub fn is_transfer_complete_for_test(received_blocks: &[bool], total_blocks: u32) -> (complete:
    bool)
    ensures
        complete == forall|i: int|
            0 <= i < received_blocks@.len() && i < total_blocks ==> received_blocks@[i],
{
    let mut i: usize = 0;
    while i < received_blocks.len() && i < total_blocks as usize
        invariant
            i <= received_blocks@.len(),
            i <= total_blocks,
            forall|k: int| 0 <= k < i ==> received_blocks@[k],
        decreases received_blocks@.len() - i,
    {
        if !received_blocks[i] {
            return false;
        }
        i += 1;
    }
    true
}

/// Decodes a gzip-encoded block.
pub fn decompress_gzip(data: &[u8]) -> (r: Result<Vec<u8>, InvalidGzip>)
    ensures
        match r {
            Ok(block) => gzip_decoded(data@) == Some(block@),
            Err(_) => gzip_decoded(data@) is None,
        },
{
    match gzip_decode(data) {
        Some(block) => Ok(block),
        None => Err(InvalidGzip),
    }
}

/// Decodes a gzip-encoded block, as [`decompress_gzip`] does.
pub fn decompress_gzip_for_test(data: &[u8]) -> (r: Result<Vec<u8>, InvalidGzip>)
    ensures
        match r {
            Ok(block) => gzip_decoded(data@) == Some(block@),
            Err(_) => gzip_decoded(data@) is None,
        },
{
    decompress_gzip(data)
}

/// What becomes of a data message that was received for block `seq`, given
/// the checksum computed over its `data` and what `data` decodes to as gzip.
/// The checksum must be the one the message states, over the bytes as
/// transmitted. The block is then `data` itself, or what it decodes to where
/// the message says that it is compressed.
pub open spec fn data_block_outcome(
    seq: u32,
    checksum: u32,
    compressed: bool,
    data: Seq<u8>,
    computed: u32,
    decoded: Option<Seq<u8>>,
) -> Result<Seq<u8>, SendFileError> {
    if computed != checksum {
        Err(SendFileError::ChecksumMismatch { seq, expected: checksum, computed })
    } else if compressed {
        match decoded {
            Some(block) => Ok(block),
            None => Err(SendFileError::DecompressionFailed { seq }),
        }
    } else {
        Ok(data)
    }
}

/// Holds the checksum computed over the bytes received for block `seq`
/// against the one that the message states.
pub fn check_block_checksum(seq: u32, expected: u32, computed: u32) -> (r: Result<
    (),
    SendFileError,
>)
    ensures
        computed == expected ==> r is Ok,
        computed != expected ==> r == Err::<(), SendFileError>(
            SendFileError::ChecksumMismatch { seq, expected, computed },
        ),
{
    if computed != expected {
        Err(SendFileError::ChecksumMismatch { seq, expected, computed })
    } else {
        Ok(())
    }
}

/// The block `seq` from what its compressed bytes decoded to, if to
/// anything.
pub fn block_from_decoded(seq: u32, decoded: Option<Vec<u8>>) -> (r: Result<
    Vec<u8>,
    SendFileError,
>)
    ensures
        match decoded {
            Some(block) => r == Ok::<Vec<u8>, SendFileError>(block),
            None => r == Err::<Vec<u8>, SendFileError>(
                SendFileError::DecompressionFailed { seq },
            ),
        },
{
    match decoded {
        Some(block) => Ok(block),
        None => Err(SendFileError::DecompressionFailed { seq }),
    }
}

/// Checks a data message received for block `seq` and returns the bytes of
/// the block, to be written at the block's offset.
pub fn process_data_block(seq: u32, data: &DataV1) -> (r: Result<Vec<u8>, SendFileError>)
    ensures
        match r {
            Ok(block) => data_block_outcome(
                seq,
                data.checksum,
                data.compressed,
                data.data@,
                crc32_iso_hdlc(data.data@),
                gzip_decoded(data.data@),
            ) == Ok::<Seq<u8>, SendFileError>(block@),
            Err(e) => data_block_outcome(
                seq,
                data.checksum,
                data.compressed,
                data.data@,
                crc32_iso_hdlc(data.data@),
                gzip_decoded(data.data@),
            ) == Err::<Seq<u8>, SendFileError>(e),
        },
{
    let computed = crc32(data.data);
    match check_block_checksum(seq, data.checksum, computed) {
        Err(e) => Err(e),
        Ok(()) => if data.compressed {
            block_from_decoded(seq, gzip_decode(data.data))
        } else {
            Ok(slice_to_vec(data.data))
        },
    }
}

/// The name of the variant of a sender's message.
pub open spec fn sender_variant_name(m: SenderMessage) -> Seq<char> {
    match m {
        SenderMessage::Handshake { .. } => "Handshake"@,
        SenderMessage::Data { .. } => "Data"@,
        SenderMessage::Error { .. } => "Error"@,
        SenderMessage::VerifyResponse { .. } => "VerifyResponse"@,
    }
}

fn variant_name(message: &SenderMessageV1) -> (name: String)
    ensures
        name@ == sender_variant_name(message@),
{
    match message {
        SenderMessageV1::Handshake(_) => "Handshake".to_owned(),
        SenderMessageV1::Data(_) => "Data".to_owned(),
        SenderMessageV1::Error(_) => "Error".to_owned(),
        SenderMessageV1::VerifyResponse(_) => "VerifyResponse".to_owned(),
    }
}

fn unexpected(message: &SenderMessageV1, expected: &'static str) -> (e: SendFileError)
    ensures
        e matches SendFileError::UnexpectedMessage { received, expected: wanted }
            && received@ == sender_variant_name(message@) && wanted@ == expected@,
{
    SendFileError::UnexpectedMessage {
        received: variant_name(message),
        expected: expected.to_owned(),
    }
}

/// The request for block `seq` of the file with the given fingerprint.
pub fn block_request(file_hash: [u8; 32], seq: u32) -> (message: ReceiverMessageV1)
    ensures
        message == ReceiverMessageV1::Request(RequestV1 { file_hash, seq }),
{
    ReceiverMessageV1::Request(RequestV1 { file_hash, seq })
}

/// The block that the sender's answer to a request for block `seq` holds.
/// Only a data message holds one, and only if it passes the checks of
/// [`process_data_block`].
pub fn block_from_response(seq: u32, message: &SenderMessageV1) -> (r: Result<
    Vec<u8>,
    SendFileError,
>)
    ensures
        match *message {
            SenderMessageV1::Data(data) => match r {
                Ok(block) => data_block_outcome(
                    seq,
                    data.checksum,
                    data.compressed,
                    data.data@,
                    crc32_iso_hdlc(data.data@),
                    gzip_decoded(data.data@),
                ) == Ok::<Seq<u8>, SendFileError>(block@),
                Err(e) => data_block_outcome(
                    seq,
                    data.checksum,
                    data.compressed,
                    data.data@,
                    crc32_iso_hdlc(data.data@),
                    gzip_decoded(data.data@),
                ) == Err::<Seq<u8>, SendFileError>(e),
            },
            _ => r matches Err(SendFileError::UnexpectedMessage { received, expected })
                && received@ == sender_variant_name(message@) && expected@ == "Data"@,
        },
{
    match message {
        SenderMessageV1::Data(data) => process_data_block(seq, data),
        _ => Err(unexpected(message, "Data")),
    }
}

/// The question whether the block `seq` that the receiver holds matches the
/// sender's: none for an empty block, which lies behind the end of the local
/// file, and else the checksum of the block as it is.
pub fn verify_block_request(file_hash: [u8; 32], seq: u32, block: &[u8]) -> (message: Option<
    ReceiverMessageV1,
>)
    ensures
        block@.len() == 0 ==> message is None,
        block@.len() > 0 ==> message == Some(
            ReceiverMessageV1::VerifyBlock(
                VerifyBlockV1 { file_hash, seq, checksum: crc32_iso_hdlc(block@) },
            ),
        ),
{
    if block.len() == 0 {
        None
    } else {
        Some(
            ReceiverMessageV1::VerifyBlock(VerifyBlockV1 { file_hash, seq, checksum: crc32(block) }),
        )
    }
}

/// Whether a message confirms the block `seq`: only a verify response for
/// that block that says so.
pub open spec fn confirms_block(m: SenderMessage, seq: u32) -> bool {
    m matches SenderMessage::VerifyResponse { seq: answered, valid, .. } && answered == seq
        && valid
}

/// Whether the sender's answer confirms that the block `seq` which the
/// receiver holds matches the sender's.
pub fn verify_verdict(message: &SenderMessageV1, seq: u32) -> (valid: bool)
    ensures
        valid == confirms_block(message@, seq),
{
    match message {
        SenderMessageV1::VerifyResponse(response) => response.seq == seq && response.valid,
        _ => false,
    }
}

/// What a look at the buffer found while the answer to a verify request is
/// awaited.
#[derive(Debug, Clone, Copy, PartialEq, Eq)]
pub enum VerifyProgress {
    /// No whole frame yet: more bytes must be read from the stream. The next
    /// look may start its search for the blank line at `resume_from`.
    NeedMore { resume_from: usize },
    /// The answer has come. `valid` says whether it confirms the block;
    /// `next_filled_len` bytes of the next message now stand at the front of
    /// the buffer.
    Answered { valid: bool, next_filled_len: usize },
}

/// Looks at the first `filled_len` bytes of `buffer` for the sender's answer
/// to the verify request for block `seq`. Once the answer is there, says
/// whether it confirms the block, and moves what the buffer holds of the
/// next message to its front.
pub fn read_verify_response(
    buffer: &mut [u8],
    filled_len: usize,
    search_from: usize,
    seq: u32,
) -> (r: Result<VerifyProgress, SendFileError>)
    requires
        filled_len <= old(buffer)@.len(),
    ensures
        final(buffer)@.len() == old(buffer)@.len(),
        match r {
            Ok(VerifyProgress::NeedMore { resume_from }) => {
                &&& sender_read_outcome(
                    old(buffer)@.take(filled_len as int),
                    old(buffer)@.len(),
                    search_from as int,
                ) == Ok::<Option<(SenderMessage, Option<usize>)>, ReadFailure>(None)
                &&& final(buffer)@ == old(buffer)@
                &&& may_resume(
                    old(buffer)@.take(filled_len as int),
                    search_from as int,
                    resume_from as int,
                )
            },
            Ok(VerifyProgress::Answered { valid, next_filled_len }) => {
                &&& sender_read_outcome(
                    old(buffer)@.take(filled_len as int),
                    old(buffer)@.len(),
                    search_from as int,
                ) matches Ok(Some((message, next)))
                &&& valid == confirms_block(message, seq)
                &&& match next {
                    Some(index) => index <= filled_len && next_filled_len == filled_len - index
                        && final(buffer)@.take(next_filled_len as int) == old(buffer)@.subrange(
                        index as int,
                        filled_len as int,
                    ) && final(buffer)@.skip(next_filled_len as int) == old(buffer)@.skip(
                        next_filled_len as int,
                    ),
                    None => next_filled_len == 0 && final(buffer)@ == old(buffer)@,
                }
            },
            Err(e) => {
                &&& e matches SendFileError::Stream(failure)
                &&& sender_read_outcome(
                    old(buffer)@.take(filled_len as int),
                    old(buffer)@.len(),
                    search_from as int,
                ) == Err::<Option<(SenderMessage, Option<usize>)>, ReadFailure>(failure@)
                &&& final(buffer)@ == old(buffer)@
            },
        },
{
    let (valid, next_payload_index) = match read_sender_message(buffer, filled_len, search_from) {
        Err(e) => return Err(SendFileError::Stream(e)),
        Ok(ReadProgress::NeedMore { resume_from }) => return Ok(
            VerifyProgress::NeedMore { resume_from },
        ),
        Ok(ReadProgress::Done(result)) => (
            verify_verdict(&result.message, seq),
            result.next_payload_index,
        ),
    };
    let next_filled_len = retain_unread(buffer, next_payload_index, filled_len);
    Ok(VerifyProgress::Answered { valid, next_filled_len })
}

/// The message that reports the whole file as received.
pub fn transfer_complete_message(file_hash: [u8; 32]) -> (message: ReceiverMessageV1)
    ensures
        message == ReceiverMessageV1::TransferComplete(TransferCompleteV1 { file_hash }),
{
    ReceiverMessageV1::TransferComplete(TransferCompleteV1 { file_hash })
}

/// Number of attempts allowed for the download of one block.
pub const MAX_RETRIES: u32 = 5;

/// Milliseconds to wait after the first failed attempt. The wait doubles
/// with every further failure.
pub const INITIAL_RETRY_DELAY_MS: u64 = 500;

/// The wait after the `failures`-th failed attempt in a row, in
/// milliseconds: 500 after the first, and twice the last after each other.
pub open spec fn retry_delay(failures: nat) -> nat
    decreases failures,
{
    if failures <= 1 {
        INITIAL_RETRY_DELAY_MS as nat
    } else {
        2 * retry_delay((failures - 1) as nat)
    }
}

/// Where a worker stands in the download of its range of blocks: the block
/// it is busy with, and how often its download has failed. A pass is never
/// behind the end of its range, and never at or above the budget of
/// attempts.
#[derive(Debug, Clone, Copy, PartialEq, Eq)]
pub struct DownloadPass {
    current_seq: u32,
    range_end: u32,
    retry_count: u32,
    retry_delay_ms: u64,
}

impl DownloadPass {
    #[verifier::type_invariant]
    spec fn well_formed(self) -> bool {
        &&& self.current_seq <= self.range_end
        &&& self.retry_count < MAX_RETRIES
        &&& self.retry_delay_ms == retry_delay(self.retry_count as nat + 1)
    }

    /// The block to deal with next, or the end of the range when the pass
    /// is done.
    pub closed spec fn block(self) -> u32 {
        self.current_seq
    }

    /// The end of the range, the block behind its last.
    pub closed spec fn end(self) -> u32 {
        self.range_end
    }

    /// Failed attempts at the current block so far.
    pub closed spec fn failures(self) -> u32 {
        self.retry_count
    }

    /// Begins the pass over the blocks from `range_start` up to `range_end`.
    /// An empty or inverted range has nothing to download.
    pub fn new(range_start: u32, range_end: u32) -> (pass: Self)
        ensures
            pass.block() == if range_start <= range_end {
                range_start
            } else {
                range_end
            },
            pass.end() == range_end,
            pass.failures() == 0,
    {
        let current_seq = if range_start <= range_end {
            range_start
        } else {
            range_end
        };
        DownloadPass {
            current_seq,
            range_end,
            retry_count: 0,
            retry_delay_ms: INITIAL_RETRY_DELAY_MS,
        }
    }

    /// The block to deal with next, or none when the range is done.
    pub fn current(&self) -> (seq: Option<u32>)
        ensures
            seq == if self.block() < self.end() {
                Some(self.block())
            } else {
                None
            },
    {
        if self.current_seq < self.range_end {
            Some(self.current_seq)
        } else {
            None
        }
    }

    /// Moves on to the next block with a fresh budget of attempts: the
    /// current one has been received, now or earlier. A pass that is done
    /// stays as it is.
    pub fn advance(self) -> (next: Self)
        ensures
            next.block() == if self.block() < self.end() {
                (self.block() + 1) as u32
            } else {
                self.block()
            },
            next.end() == self.end(),
            next.failures() == if self.block() < self.end() {
                0
            } else {
                self.failures()
            },
    {
        proof {
            use_type_invariant(&self);
        }
        if self.current_seq < self.range_end {
            DownloadPass {
                current_seq: self.current_seq + 1,
                range_end: self.range_end,
                retry_count: 0,
                retry_delay_ms: INITIAL_RETRY_DELAY_MS,
            }
        } else {
            self
        }
    }

    /// Accounts for a failed attempt at the current block. Below the fifth
    /// failure the result is the pass to go on with, at the same block, and
    /// the milliseconds to wait before the next attempt: 500 after the first
    /// failure, and twice the last wait after each other. The fifth failure
    /// exhausts the budget.
    pub fn failed(self) -> (r: Result<(Self, u64), SendFileError>)
        ensures
            self.failures() + 1 < MAX_RETRIES ==> {
                &&& r matches Ok((next, delay))
                &&& next.block() == self.block()
                &&& next.end() == self.end()
                &&& next.failures() == self.failures() + 1
                &&& delay == retry_delay(next.failures() as nat)
            },
            self.failures() + 1 >= MAX_RETRIES ==> r == Err::<(Self, u64), SendFileError>(
                SendFileError::RetryBudgetExceeded { seq: self.block(), attempts: MAX_RETRIES },
            ),
    {
        proof {
            use_type_invariant(&self);
            lemma_retry_delays();
        }
        let retry_count = self.retry_count + 1;
        if retry_count >= MAX_RETRIES {
            return Err(
                SendFileError::RetryBudgetExceeded { seq: self.current_seq, attempts: MAX_RETRIES },
            );
        }
        Ok(
            (
                DownloadPass {
                    current_seq: self.current_seq,
                    range_end: self.range_end,
                    retry_count,
                    retry_delay_ms: 2 * self.retry_delay_ms,
                },
                self.retry_delay_ms,
            ),
        )
    }
}

/// The waits between the attempts at one block: 500 ms, 1 s, 2 s and 4 s.
pub proof fn lemma_retry_delays()
    ensures
        retry_delay(1) == 500,
        retry_delay(2) == 1000,
        retry_delay(3) == 2000,
        retry_delay(4) == 4000,
        retry_delay(5) == 8000,
{
    assert(retry_delay(1) == 500);
    assert(retry_delay(2) == 1000);
    assert(retry_delay(3) == 2000);
    assert(retry_delay(4) == 4000);
}

/// What is said of a handshake whose fingerprint has not 32 bytes.
pub const INVALID_HASH_LENGTH: &'static str = "Invalid file hash length";

/// What is said of a handshake whose block size is zero.
pub const INVALID_BLOCK_SIZE: &'static str = "Block size is zero";

/// What is said of a handshake whose file has more blocks than can be
/// numbered.
pub const TOO_MANY_BLOCKS: &'static str = "File has too many blocks";

/// What is said of a transfer over no connection.
pub const NO_CONNECTIONS: &'static str = "Concurrency is zero";

/// What a receiver knows of a transfer once the handshake is accepted, and
/// how it shares the blocks out among its connections.
#[derive(Debug)]
pub struct TransferPlan {
    /// Fingerprint of the file.
    pub file_hash: [u8; 32],
    /// Name of the file as the sender gave it.
    pub file_name: String,
    /// Size of the file in bytes.
    pub total_size: u64,
    /// Size of a block in bytes.
    pub block_size: u32,
    /// Number of blocks of the file.
    pub total_blocks: u32,
    /// The blocks of each connection.
    pub ranges: Vec<Range<u32>>,
}

/// Why a message is no handshake that a transfer over `concurrency`
/// connections can be planned from, if it is none: the description of the
/// first defect found.
pub open spec fn handshake_defect(m: SenderMessage, concurrency: u16) -> Option<Seq<char>> {
    match m {
        SenderMessage::Handshake { file_hash, total_size, block_size, .. } => {
            if file_hash.len() != HASH_LEN {
                Some(INVALID_HASH_LENGTH@)
            } else if block_size == 0 {
                Some(INVALID_BLOCK_SIZE@)
            } else if block_count(total_size as nat, block_size as nat) > u32::MAX {
                Some(TOO_MANY_BLOCKS@)
            } else if concurrency == 0 {
                Some(NO_CONNECTIONS@)
            } else {
                None
            }
        },
        _ => None,
    }
}

/// Whether `plan` is the plan for the transfer that the handshake `m`
/// announces, over `concurrency` connections.
pub open spec fn plan_matches(plan: TransferPlan, m: SenderMessage, concurrency: u16) -> bool {
    &&& m matches SenderMessage::Handshake { file_hash, total_size, file_name, block_size, .. }
    &&& plan.file_hash@ == file_hash
    &&& plan.file_name@ == file_name
    &&& plan.total_size == total_size
    &&& plan.block_size == block_size
    &&& plan.total_blocks == block_count(total_size as nat, block_size as nat)
    &&& plan.ranges@.len() == concurrency
    &&& forall|i: int|
        0 <= i < concurrency ==> {
            &&& (#[trigger] plan.ranges@[i]).start == range_start(
                plan.total_blocks as nat,
                concurrency as nat,
                i as nat,
            )
            &&& plan.ranges@[i].end == range_start(
                plan.total_blocks as nat,
                concurrency as nat,
                (i + 1) as nat,
            )
        }
}

/// Plans a transfer from the first message of the sender, which must be a
/// handshake: checks it, counts the blocks and shares them out among
/// `concurrency` connections.
pub fn plan_transfer(message: &SenderMessageV1, concurrency: u16) -> (r: Result<
    TransferPlan,
    SendFileError,
>)
    ensures
        match r {
            Ok(plan) => message@ is Handshake && handshake_defect(message@, concurrency) is None
                && plan_matches(plan, message@, concurrency),
            Err(SendFileError::UnexpectedMessage { received, expected }) => !(message@
                is Handshake) && received@ == sender_variant_name(message@) && expected@
                == "Handshake"@,
            Err(SendFileError::InvalidRequest(details)) => message@ is Handshake
                && handshake_defect(message@, concurrency) == Some(details@),
            Err(_) => false,
        },
{
    let handshake = match message {
        SenderMessageV1::Handshake(handshake) => handshake,
        _ => return Err(unexpected(message, "Handshake")),
    };
    if handshake.file_hash.len() != HASH_LEN {
        return Err(SendFileError::InvalidRequest(INVALID_HASH_LENGTH.to_owned()));
    }
    let file_hash = match read_hash(handshake.file_hash, 0) {
        Ok((file_hash, _)) => file_hash,
        Err(_) => return Err(SendFileError::InvalidRequest(INVALID_HASH_LENGTH.to_owned())),
    };
    assert(file_hash@ =~= handshake.file_hash@);
    if handshake.block_size == 0 {
        return Err(SendFileError::InvalidRequest(INVALID_BLOCK_SIZE.to_owned()));
    }
    let blocks = total_blocks(handshake.total_size, handshake.block_size);
    if blocks > u32::MAX as u64 {
        return Err(SendFileError::InvalidRequest(TOO_MANY_BLOCKS.to_owned()));
    }
    if concurrency == 0 {
        return Err(SendFileError::InvalidRequest(NO_CONNECTIONS.to_owned()));
    }
    let ranges = split_blocks_into_ranges(blocks as u32, concurrency);
    Ok(
        TransferPlan {
            file_hash,
            file_name: handshake.file_name.to_owned(),
            total_size: handshake.total_size,
            block_size: handshake.block_size,
            total_blocks: blocks as u32,
            ranges,
        },
    )
}

/// What joining a file name to a directory gives, as a path in text.
pub uninterp spec fn joined_path(directory: Seq<char>, file_name: Seq<char>) -> Seq<char>;

/// `std::path::Path::join`: the path of `file_name` inside `directory`. Both
/// are valid text, so the joined path is, and `to_string_lossy` changes
/// nothing of it.
#[verifier::external_body]
fn join_path(directory: &str, file_name: &str) -> (path: String)
    ensures
        path@ == joined_path(directory@, file_name@),
{
    std::path::Path::new(directory).join(file_name).to_string_lossy().into_owned()
}

/// The path that the received file is written to: inside `output_path`
/// under the name that the sender gave, where `output_path` is a directory,
/// and else `output_path` itself.
pub fn determine_final_path(output_path: &str, output_is_dir: bool, file_name: &str) -> (path:
    String)
    ensures
        path@ == if output_is_dir {
            joined_path(output_path@, file_name@)
        } else {
            output_path@
        },
{
    if output_is_dir {
        join_path(output_path, file_name)
    } else {
        output_path.to_owned()
    }
}

/// The path that the received file is written to, as
/// [`determine_final_path`] gives it.
pub fn determine_final_path_for_test(
    output_path: &str,
    output_is_dir: bool,
    file_name: &str,
) -> (path: String)
    ensures
        path@ == if output_is_dir {
            joined_path(output_path@, file_name@)
        } else {
            output_path@
        },
{
    determine_final_path(output_path, output_is_dir, file_name)
}

/// What a worker does on its connection, one phase after the other.
#[derive(Debug, Clone, Copy, PartialEq, Eq, Structural)]
pub enum WorkerPhase {
    /// Ask the sender whether the blocks of a file that was there before
    /// match, and mark those that do.
    Verify,
    /// Download the blocks of the range that are not marked.
    Download,
    /// Tell the sender that the transfer is complete.
    Report,
    /// Nothing is left to do.
    Done,
}

/// The phase that follows `phase` when it has ended without error, given
/// whether every block of the file is marked as received by then.
///
/// A download follows the verify pass, so that blocks which did not match
/// are fetched in the same run. After its download a worker reports the
/// transfer as complete if it is, and is done.
pub open spec fn phase_after(phase: WorkerPhase, transfer_complete: bool) -> WorkerPhase {
    match phase {
        WorkerPhase::Verify => WorkerPhase::Download,
        WorkerPhase::Download => if transfer_complete {
            WorkerPhase::Report
        } else {
            WorkerPhase::Done
        },
        WorkerPhase::Report => WorkerPhase::Done,
        WorkerPhase::Done => WorkerPhase::Done,
    }
}

/// The phase in which a worker begins: with the verify pass where the file
/// was there before the transfer, and else with the download.
pub fn first_phase(is_existing_file: bool) -> (phase: WorkerPhase)
    ensures
        phase == if is_existing_file {
            WorkerPhase::Verify
        } else {
            WorkerPhase::Download
        },
{
    if is_existing_file {
        WorkerPhase::Verify
    } else {
        WorkerPhase::Download
    }
}

/// The phase that follows `phase`.
pub fn next_phase(phase: WorkerPhase, transfer_complete: bool) -> (next: WorkerPhase)
    ensures
        next == phase_after(phase, transfer_complete),
{
    match phase {
        WorkerPhase::Verify => WorkerPhase::Download,
        WorkerPhase::Download => if transfer_complete {
            WorkerPhase::Report
        } else {
            WorkerPhase::Done
        },
        WorkerPhase::Report => WorkerPhase::Done,
        WorkerPhase::Done => WorkerPhase::Done,
    }
}

} // verus!
