//! The fingerprint of a file and the addresses of its blocks.

use vstd::prelude::*;

verus! {

/// Files above this size, 8 MiB, are fingerprinted chunk by chunk.
pub const PARALLEL_CHUNK_SIZE: u64 = 8_388_608;

/// The BLAKE3 hash of a byte string, 32 bytes.
pub uninterp spec fn blake3_digest(data: Seq<u8>) -> Seq<u8>;

/// `blake3::hash`: the 32-byte BLAKE3 hash of `data`, a function of the
/// bytes alone.
#[verifier::external_body]
fn blake3_hash(data: &[u8]) -> (hash: [u8; 32])
    ensures
        hash@ == blake3_digest(data@),
{
    *blake3::hash(data).as_bytes()
}

/// Number of chunks of a file of `len` bytes.
pub open spec fn chunk_count(len: nat) -> nat {
    (len + PARALLEL_CHUNK_SIZE - 1) as nat / PARALLEL_CHUNK_SIZE as nat
}

/// Where the `index`-th chunk of a file of `len` bytes begins.
pub open spec fn chunk_start(index: nat, len: nat) -> nat {
    if index * PARALLEL_CHUNK_SIZE <= len {
        (index * PARALLEL_CHUNK_SIZE) as nat
    } else {
        len
    }
}

/// The `index`-th chunk of `content`.
pub open spec fn chunk(content: Seq<u8>, index: nat) -> Seq<u8> {
    content.subrange(
        chunk_start(index, content.len()) as int,
        chunk_start(index + 1, content.len()) as int,
    )
}

/// The hashes of the first `n` chunks of `content`, one after the other.
pub open spec fn chunk_digests(content: Seq<u8>, n: nat) -> Seq<u8>
    decreases n,
{
    if n == 0 {
        Seq::empty()
    } else {
        chunk_digests(content, (n - 1) as nat) + blake3_digest(chunk(content, (n - 1) as nat))
    }
}

/// The fingerprint of a file with the given content: its BLAKE3 hash where
/// it has at most 8 MiB, and else the BLAKE3 hash of the hashes of its 8 MiB
/// chunks.
pub open spec fn fingerprint(content: Seq<u8>) -> Seq<u8> {
    if content.len() <= PARALLEL_CHUNK_SIZE {
        blake3_digest(content)
    } else {
        blake3_digest(chunk_digests(content, chunk_count(content.len())))
    }
}

/// How the fingerprint of a file is computed.
#[derive(Debug, Clone, Copy, PartialEq, Eq, Structural)]
pub enum HashPlan {
    /// The file is hashed as a whole.
    Whole,
    /// The file is hashed in `count` chunks, whose hashes are hashed in turn.
    Chunks { count: u64 },
}

/// Says how a file of `file_size` bytes is fingerprinted: as a whole up to
/// 8 MiB, in chunks above.
pub fn hash_plan(file_size: u64) -> (plan: HashPlan)
    ensures
        file_size <= PARALLEL_CHUNK_SIZE ==> plan == HashPlan::Whole,
        file_size > PARALLEL_CHUNK_SIZE ==> (plan matches HashPlan::Chunks { count } && count
            == chunk_count(file_size as nat) && count >= 2),
{
    if file_size <= PARALLEL_CHUNK_SIZE {
        HashPlan::Whole
    } else {
        let count = (file_size - 1) / PARALLEL_CHUNK_SIZE + 1;
        HashPlan::Chunks { count }
    }
}

/// The byte range of the `index`-th chunk of a file of `file_size` bytes:
/// where it begins and where it ends.
pub fn chunk_range(index: u64, file_size: u64) -> (range: (u64, u64))
    ensures
        range.0 == chunk_start(index as nat, file_size as nat),
        range.1 == chunk_start(index as nat + 1, file_size as nat),
        range.0 <= range.1 <= file_size,
        range.1 - range.0 <= PARALLEL_CHUNK_SIZE,
{
    let chunks_before_end = file_size / PARALLEL_CHUNK_SIZE;
    let start = if index <= chunks_before_end {
        index * PARALLEL_CHUNK_SIZE
    } else {
        file_size
    };
    let end = if index < chunks_before_end {
        (index + 1) * PARALLEL_CHUNK_SIZE
    } else {
        file_size
    };
    (start, end)
}

/// All of `hashes`, one after the other.
pub open spec fn concatenated(hashes: Seq<[u8; 32]>) -> Seq<u8>
    decreases hashes.len(),
{
    if hashes.len() == 0 {
        Seq::empty()
    } else {
        concatenated(hashes.drop_last()) + hashes.last()@
    }
}

/// The hash of the hashes of a file's chunks, given in the order of the
/// chunks.
pub fn combine_chunk_hashes(hashes: &[[u8; 32]]) -> (hash: [u8; 32])
    ensures
        hash@ == blake3_digest(concatenated(hashes@)),
{
    let mut all: Vec<u8> = Vec::new();
    let mut i: usize = 0;
    while i < hashes.len()
        invariant
            i <= hashes@.len(),
            all@ == concatenated(hashes@.take(i as int)),
        decreases hashes@.len() - i,
    {
        all.extend_from_slice(hashes[i].as_slice());
        proof {
            assert(hashes@.take(i + 1).drop_last() =~= hashes@.take(i as int));
        }
        i += 1;
    }
    assert(hashes@.take(i as int) =~= hashes@);
    blake3_hash(all.as_slice())
}

/// The hashes of the chunks of `content` are the fingerprints of the chunks,
/// so that chunks may be fingerprinted apart and combined.
pub proof fn lemma_fingerprint_from_chunks(content: Seq<u8>, hashes: Seq<[u8; 32]>)
    requires
        content.len() > PARALLEL_CHUNK_SIZE,
        hashes.len() == chunk_count(content.len()),
        forall|i: int|
            0 <= i < hashes.len() ==> (#[trigger] hashes[i])@ == fingerprint(
                chunk(content, i as nat),
            ),
    ensures
        fingerprint(content) == blake3_digest(concatenated(hashes)),
{
    lemma_concatenated_chunk_digests(content, hashes, hashes.len());
    assert(hashes.take(hashes.len() as int) =~= hashes);
}

proof fn lemma_concatenated_chunk_digests(content: Seq<u8>, hashes: Seq<[u8; 32]>, n: nat)
    requires
        n <= hashes.len(),
        forall|i: int|
            0 <= i < hashes.len() ==> (#[trigger] hashes[i])@ == fingerprint(
                chunk(content, i as nat),
            ),
    ensures
        concatenated(hashes.take(n as int)) == chunk_digests(content, n),
    decreases n,
{
    if n > 0 {
        lemma_concatenated_chunk_digests(content, hashes, (n - 1) as nat);
        assert(hashes.take(n as int).drop_last() =~= hashes.take(n - 1));
        assert(hashes.take(n as int).last() == hashes[n - 1]);
        let c = chunk(content, (n - 1) as nat);
        lemma_chunk_is_small(content, (n - 1) as nat);
    }
}

/// No chunk is longer than 8 MiB.
pub proof fn lemma_chunk_is_small(content: Seq<u8>, index: nat)
    ensures
        chunk(content, index).len() <= PARALLEL_CHUNK_SIZE,
{

}

/// Computes the fingerprint of a file from its whole content.
pub fn fingerprint_of(content: &[u8]) -> (hash: [u8; 32])
    ensures
        hash@ == fingerprint(content@),
{
    let len = content.len() as u64;
    match hash_plan(len) {
        HashPlan::Whole => blake3_hash(content),
        HashPlan::Chunks { count } => {
            let mut all: Vec<u8> = Vec::new();
            let mut i: u64 = 0;
            while i < count
                invariant
                    i <= count,
                    len == content@.len() <= usize::MAX,
                    count == chunk_count(content@.len()),
                    all@ == chunk_digests(content@, i as nat),
                decreases count - i,
            {
                let (start, end) = chunk_range(i, len);
                assert(end <= content@.len());
                let part = vstd::slice::slice_subrange(content, start as usize, end as usize);
                assert(part@ == chunk(content@, i as nat));
                let h = blake3_hash(part);
                all.extend_from_slice(h.as_slice());
                i += 1;
            }
            blake3_hash(all.as_slice())
        },
    }
}

/// Where block `seq` begins in a file cut into blocks of `block_size` bytes.
pub open spec fn block_start(seq: nat, block_size: nat) -> nat {
    seq * block_size
}

/// Number of blocks of a file of `total_size` bytes: the size divided by the
/// block size, rounded up.
pub open spec fn block_count(total_size: nat, block_size: nat) -> nat
    recommends
        block_size > 0,
{
    (total_size + block_size - 1) as nat / block_size
}

/// Number of bytes of block `seq`: a whole block, or what is left of the file
/// behind the start of the block, or nothing behind the end of the file.
pub open spec fn block_len(seq: nat, block_size: nat, total_size: nat) -> nat {
    if block_start(seq + 1, block_size) <= total_size {
        block_size
    } else if block_start(seq, block_size) <= total_size {
        (total_size - block_start(seq, block_size)) as nat
    } else {
        0
    }
}

/// Block `seq` of a file with the given content: what a read of
/// `block_size` bytes at its start returns.
pub open spec fn file_block(content: Seq<u8>, seq: nat, block_size: nat) -> Seq<u8> {
    let start = block_start(seq, block_size);
    if start >= content.len() {
        Seq::empty()
    } else {
        content.subrange(
            start as int,
            (start + block_len(seq, block_size, content.len())) as int,
        )
    }
}

/// The offset at which block `seq` is read and written.
pub fn block_offset(seq: u32, block_size: u32) -> (offset: u64)
    ensures
        offset == block_start(seq as nat, block_size as nat),
{
    assert(seq * block_size <= u64::MAX) by (nonlinear_arith)
        requires
            seq <= u32::MAX,
            block_size <= u32::MAX,
    ;
    seq as u64 * block_size as u64
}

/// The number of blocks of a file of `total_size` bytes.
pub fn total_blocks(total_size: u64, block_size: u32) -> (count: u64)
    requires
        block_size > 0,
    ensures
        count == block_count(total_size as nat, block_size as nat),
{
    if total_size == 0 {
        assert((block_size - 1) as nat / block_size as nat == 0) by (nonlinear_arith)
            requires
                block_size > 0,
        ;
        0
    } else {
        proof {
            vstd::arithmetic::div_mod::lemma_div_plus_one(total_size - 1, block_size as int);
        }
        (total_size - 1) / (block_size as u64) + 1
    }
}

/// The number of bytes of block `seq` in a file of `total_size` bytes.
pub fn block_length(seq: u32, block_size: u32, total_size: u64) -> (len: u32)
    ensures
        len == block_len(seq as nat, block_size as nat, total_size as nat),
{
    let start = block_offset(seq, block_size);
    assert((seq + 1) * block_size == seq * block_size + block_size) by (nonlinear_arith);
    if start >= total_size {
        0
    } else {
        let rest = total_size - start;
        if rest >= block_size as u64 {
            block_size
        } else {
            rest as u32
        }
    }
}

/// Reads block `seq` from the content of a file held in memory: the bytes
/// from the start of the block up to a whole block or the end of the content.
pub fn read_block<'a>(content: &'a [u8], seq: u32, block_size: u32) -> (block: &'a [u8])
    ensures
        block@ == file_block(content@, seq as nat, block_size as nat),
{
    let start = block_offset(seq, block_size);
    if start >= content.len() as u64 {
        vstd::slice::slice_subrange(content, 0, 0)
    } else {
        let len = block_length(seq, block_size, content.len() as u64);
        assert((seq + 1) * block_size == seq * block_size + block_size) by (nonlinear_arith);
        let from = start as usize;
        vstd::slice::slice_subrange(content, from, from + len as usize)
    }
}

/// What a file with the given content holds after `data` has been written
/// at `offset`: the bytes written replace what lay there and lengthen the
/// file where they run over its end. A gap between the end of the file and
/// the offset is filled with zeros.
pub open spec fn written_at(content: Seq<u8>, offset: nat, data: Seq<u8>) -> Seq<u8> {
    let before = if offset <= content.len() {
        content.take(offset as int)
    } else {
        content + Seq::new((offset - content.len()) as nat, |i: int| 0u8)
    };
    let after = if offset + data.len() <= content.len() {
        content.skip((offset + data.len()) as int)
    } else {
        Seq::empty()
    };
    before + data + after
}

/// Where the blocks of a file lie: each block begins where the one before
/// it ends, and the blocks below the block count are those that begin inside
/// the file.
pub proof fn lemma_block_bounds(seq: nat, block_size: nat, total_size: nat)
    requires
        block_size > 0,
    ensures
        block_start(seq + 1, block_size) == block_start(seq, block_size) + block_size,
        seq < block_count(total_size, block_size) <==> block_start(seq, block_size) < total_size,
        block_start(seq, block_size) + block_len(seq, block_size, total_size) <= total_size
            || block_len(seq, block_size, total_size) == 0,
{
    assert((seq + 1) * block_size == seq * block_size + block_size) by (nonlinear_arith);
    let count = block_count(total_size, block_size);
    assert(seq < count <==> seq * block_size < total_size) by (nonlinear_arith)
        requires
            block_size > 0,
            count == (total_size + block_size - 1) as nat / block_size,
    ;
}

/// Blocks with different indices do not overlap.
pub proof fn lemma_blocks_are_apart(first: nat, second: nat, block_size: nat)
    requires
        first < second,
    ensures
        block_start(first, block_size) + block_size <= block_start(second, block_size),
{
    assert(first * block_size + block_size <= second * block_size) by (nonlinear_arith)
        requires
            first < second,
    ;
}

/// Every byte of a file lies in the block that its offset divided by the
/// block size names, at the offset's remainder.
pub proof fn lemma_byte_in_block(content: Seq<u8>, block_size: nat, i: int)
    requires
        block_size > 0,
        0 <= i < content.len(),
    ensures
        ({
            let seq = (i / block_size as int) as nat;
            let at = i % block_size as int;
            &&& seq < block_count(content.len(), block_size)
            &&& 0 <= at < file_block(content, seq, block_size).len()
            &&& file_block(content, seq, block_size)[at] == content[i]
        }),
{
    let seq = (i / block_size as int) as nat;
    let at = i % block_size as int;
    assert(i == seq * block_size + at && 0 <= at < block_size && i / block_size as int >= 0)
        by (nonlinear_arith)
        requires
            block_size > 0,
            0 <= i,
            seq == (i / block_size as int) as nat,
            at == i % block_size as int,
    ;
    lemma_block_bounds(seq, block_size, content.len());
}

/// Block addressing, read side: two files of one length whose blocks agree
/// are the same file, and so have the same fingerprint.
pub proof fn lemma_equal_blocks_equal_files(a: Seq<u8>, b: Seq<u8>, block_size: nat)
    requires
        block_size > 0,
        a.len() == b.len(),
        forall|seq: nat|
            seq < block_count(a.len(), block_size) ==> #[trigger] file_block(a, seq, block_size)
                == file_block(b, seq, block_size),
    ensures
        a == b,
        fingerprint(a) == fingerprint(b),
{
    assert forall|i: int| 0 <= i < a.len() implies a[i] == b[i] by {
        lemma_byte_in_block(a, block_size, i);
        lemma_byte_in_block(b, block_size, i);
    }
    assert(a =~= b);
}

/// Block addressing, write side: writing a block of the source at the
/// block's offset into a file of the source's length makes that block of the
/// file the block of the source, and leaves the length of the file and every
/// other block as they were.
pub proof fn lemma_write_places_block(
    dest: Seq<u8>,
    source: Seq<u8>,
    seq: nat,
    block_size: nat,
)
    requires
        block_size > 0,
        dest.len() == source.len(),
    ensures
        ({
            let after = written_at(
                dest,
                block_start(seq, block_size),
                file_block(source, seq, block_size),
            );
            &&& seq < block_count(source.len(), block_size) ==> after.len() == dest.len()
                && file_block(after, seq, block_size) == file_block(source, seq, block_size)
            &&& forall|other: nat|
                seq < block_count(source.len(), block_size) && other != seq ==> #[trigger] file_block(
                    after,
                    other,
                    block_size,
                ) == file_block(dest, other, block_size)
        }),
{
    let start = block_start(seq, block_size);
    let block = file_block(source, seq, block_size);
    let after = written_at(dest, start, block);
    lemma_block_bounds(seq, block_size, source.len());
    if seq < block_count(source.len(), block_size) {
        assert(after.len() == dest.len());
        assert(file_block(after, seq, block_size) =~= block);
        assert forall|other: nat| other != seq implies #[trigger] file_block(
            after,
            other,
            block_size,
        ) == file_block(dest, other, block_size) by {
            lemma_block_bounds(other, block_size, source.len());
            if other < seq {
                lemma_blocks_are_apart(other, seq, block_size);
            } else {
                lemma_blocks_are_apart(seq, other, block_size);
            }
            assert(file_block(after, other, block_size) =~= file_block(dest, other, block_size));
        }
    }
}

/// The number of bytes of the first `n` blocks together.
pub open spec fn blocks_total(n: nat, block_size: nat, total_size: nat) -> nat
    decreases n,
{
    if n == 0 {
        0
    } else {
        blocks_total((n - 1) as nat, block_size, total_size) + block_len(
            (n - 1) as nat,
            block_size,
            total_size,
        )
    }
}

/// The blocks of a file add up to the file: the lengths of all its blocks
/// together are its size. The last block may be short.
pub proof fn lemma_blocks_add_up(block_size: nat, total_size: nat)
    requires
        block_size > 0,
    ensures
        blocks_total(block_count(total_size, block_size), block_size, total_size) == total_size,
{
    let count = block_count(total_size, block_size);
    lemma_first_blocks_add_up(count, block_size, total_size);
    assert(count * block_size >= total_size) by (nonlinear_arith)
        requires
            block_size > 0,
            count == (total_size + block_size - 1) as nat / block_size,
    ;
}

/// The first `n` blocks of a file hold its first `n` times the block size
/// bytes, or the whole file where it is shorter.
proof fn lemma_first_blocks_add_up(n: nat, block_size: nat, total_size: nat)
    requires
        block_size > 0,
        n <= block_count(total_size, block_size),
    ensures
        blocks_total(n, block_size, total_size) == if n * block_size <= total_size {
            n * block_size
        } else {
            total_size
        },
    decreases n,
{
    if n > 0 {
        lemma_first_blocks_add_up((n - 1) as nat, block_size, total_size);
        lemma_block_bounds((n - 1) as nat, block_size, total_size);
    } else {
        assert(0 * block_size == 0) by (nonlinear_arith);
    }
}

/// Whether the file `dest` holds every block in `blocks` as `source` has it.
pub open spec fn holds_blocks(
    dest: Seq<u8>,
    source: Seq<u8>,
    block_size: nat,
    blocks: Set<nat>,
) -> bool {
    forall|seq: nat|
        blocks.contains(seq) ==> #[trigger] file_block(dest, seq, block_size) == file_block(
            source,
            seq,
            block_size,
        )
}

/// Blocks that have been received stay as they are: writing one more block
/// of the source at its offset adds it to the blocks that the file holds
/// and takes none away.
pub proof fn lemma_write_adds_block(
    dest: Seq<u8>,
    source: Seq<u8>,
    block_size: nat,
    blocks: Set<nat>,
    seq: nat,
)
    requires
        block_size > 0,
        dest.len() == source.len(),
        seq < block_count(source.len(), block_size),
        holds_blocks(dest, source, block_size, blocks),
    ensures
        ({
            let after = written_at(
                dest,
                block_start(seq, block_size),
                file_block(source, seq, block_size),
            );
            after.len() == source.len() && holds_blocks(
                after,
                source,
                block_size,
                blocks.insert(seq),
            )
        }),
{
    lemma_write_places_block(dest, source, seq, block_size);
}

/// A file of the source's length that holds every block of the source is
/// the source, and has its fingerprint.
pub proof fn lemma_all_blocks_make_the_file(
    dest: Seq<u8>,
    source: Seq<u8>,
    block_size: nat,
    blocks: Set<nat>,
)
    requires
        block_size > 0,
        dest.len() == source.len(),
        holds_blocks(dest, source, block_size, blocks),
        forall|seq: nat| seq < block_count(source.len(), block_size) ==> blocks.contains(seq),
    ensures
        dest == source,
        fingerprint(dest) == fingerprint(source),
{
    lemma_equal_blocks_equal_files(dest, source, block_size);
}

} // verus!
