//! What both sides of a transfer need: framing a message for the stream and
//! comparing fingerprints.

use crate::stream::error::SendFileError;
use crate::transport::{
    attach_headers, frame, ReceiverMessageV1, SenderMessageV1, TransportError,
};
use crate::wire::WireError;
use vstd::prelude::*;
use vstd::slice::slice_subrange;

verus! {

/// How the result of framing a message with the given encoding relates to
/// the scratch buffer of `capacity` bytes: the frame of the encoding where it
/// fits in the buffer, and `BufferFull` where it does not.
pub open spec fn framed(
    encoding: Seq<u8>,
    capacity: nat,
    r: Result<Vec<u8>, SendFileError>,
) -> bool {
    match r {
        Ok(packet) => encoding.len() <= capacity && packet@ == frame(encoding),
        Err(e) => encoding.len() > capacity && e == SendFileError::Transport(
            TransportError::Serialization(WireError::BufferFull),
        ),
    }
}

/// What framing a message with the given encoding leaves in the scratch
/// buffer: where the encoding fits, the encoding at the front and the rest
/// as it was. The buffer keeps its length.
pub open spec fn scratch_after(before: Seq<u8>, after: Seq<u8>, encoding: Seq<u8>) -> bool {
    &&& after.len() == before.len()
    &&& encoding.len() <= before.len() ==> after.take(encoding.len() as int) == encoding
        && after.skip(encoding.len() as int) == before.skip(encoding.len() as int)
}

/// Encodes a sender's message in `buffer` and returns its frame, ready to
/// be written to the stream.
pub fn frame_sender_message(message: &SenderMessageV1, buffer: &mut [u8]) -> (r: Result<
    Vec<u8>,
    SendFileError,
>)
    ensures
        scratch_after(old(buffer)@, final(buffer)@, message@.encoding()),
        framed(message@.encoding(), old(buffer)@.len(), r),
{
    match message.to_bytes(buffer) {
        Ok(len) => {
            let payload = slice_subrange(buffer, 0, len);
            assert(payload@ =~= buffer@.take(len as int));
            Ok(attach_headers(payload))
        },
        Err(e) => Err(SendFileError::Transport(e)),
    }
}

/// Encodes a receiver's message in `buffer` and returns its frame, ready to
/// be written to the stream.
pub fn frame_receiver_message(message: &ReceiverMessageV1, buffer: &mut [u8]) -> (r: Result<
    Vec<u8>,
    SendFileError,
>)
    ensures
        scratch_after(old(buffer)@, final(buffer)@, message@.encoding()),
        framed(message@.encoding(), old(buffer)@.len(), r),
{
    match message.to_bytes(buffer) {
        Ok(len) => {
            let payload = slice_subrange(buffer, 0, len);
            assert(payload@ =~= buffer@.take(len as int));
            Ok(attach_headers(payload))
        },
        Err(e) => Err(SendFileError::Transport(e)),
    }
}

/// Whether two fingerprints are the same.
pub fn same_hash(a: &[u8; 32], b: &[u8; 32]) -> (same: bool)
    ensures
        same == (a@ == b@),
{
    let mut i: usize = 0;
    while i < 32
        invariant
            i <= 32,
            forall|k: int| 0 <= k < i ==> a@[k] == b@[k],
        decreases 32 - i,
    {
        if a[i] != b[i] {
            return false;
        }
        i += 1;
    }
    assert(a@ =~= b@);
    true
}

} // verus!
