//! Gzip encoding and decoding of blocks.

use flate2::read::GzDecoder;
use flate2::write::GzEncoder;
use flate2::Compression;
use std::io::{Read, Write};
use vstd::prelude::*;

verus! {

/// What the gzip encoder writes for a byte string at the default compression
/// level, or nothing where it fails.
pub uninterp spec fn gzip_encoded(data: Seq<u8>) -> Option<Seq<u8>>;

/// What the gzip decoder reads from a byte string: the content of its first
/// gzip member, or nothing where the bytes do not begin with a sound one.
pub uninterp spec fn gzip_decoded(data: Seq<u8>) -> Option<Seq<u8>>;

/// `flate2::write::GzEncoder` over a `Vec<u8>` at `Compression::default()`,
/// fed with `write_all` and closed with `finish`: `output` is emptied and
/// then holds the gzip encoding of `data`, a function of the bytes alone.
/// Returns whether both calls succeeded. After a failure nothing is known of
/// what `output` holds.
#[verifier::external_body]
pub(crate) fn gzip_encode_into(data: &[u8], output: &mut Vec<u8>) -> (done: bool)
    ensures
        done ==> gzip_encoded(data@) == Some(final(output)@),
        !done ==> gzip_encoded(data@) is None,
{
    output.clear();
    let mut encoder = GzEncoder::new(output, Compression::default());
    encoder.write_all(data).is_ok() && encoder.finish().is_ok()
}

/// `flate2::read::GzDecoder` over `data`, read to its end with
/// `read_to_end`: the decoded bytes, a function of the input alone, or
/// nothing where the decoder reports an error.
#[verifier::external_body]
pub(crate) fn gzip_decode(data: &[u8]) -> (decoded: Option<Vec<u8>>)
    ensures
        decoded matches Some(bytes) ==> gzip_decoded(data@) == Some(bytes@),
        decoded is None ==> gzip_decoded(data@) is None,
{
    let mut decoder = GzDecoder::new(data);
    let mut decompressed = Vec::new();
    decoder.read_to_end(&mut decompressed).ok().map(|_| decompressed)
}

} // verus!
