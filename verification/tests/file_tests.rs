use blake3::Hasher;
use sendfile::cli::{get_concurrency, SendArgs, HANDSHAKE_PORT, TRANSFER_PORT};
use sendfile::file::utils::{
    block_length, block_offset, chunk_range, combine_chunk_hashes, fingerprint_of, hash_plan,
    read_block, total_blocks, HashPlan, PARALLEL_CHUNK_SIZE,
};
use sendfile::file::FileMetadata;
use sendfile::transport::{HandshakeV1, MAX_BLOCK_SIZE};

fn blake3_of(data: &[u8]) -> [u8; 32] {
    let mut hasher = Hasher::new();
    hasher.update(data);
    hasher.finalize().into()
}

#[test]
fn test_file_metadata_from_file() {
    let content = b"Hello, world!";
    let metadata = FileMetadata::from_parts(
        Some("file_metadata_test.txt"),
        content.len() as u64,
        fingerprint_of(content),
    );

    let mut hasher = Hasher::new();
    hasher.update(content);
    let expected_hash = hasher.finalize();

    assert_eq!(metadata.name(), "file_metadata_test.txt", "File name mismatch");
    assert_eq!(metadata.size(), content.len() as u64, "File size mismatch");
    assert_eq!(metadata.hash(), expected_hash.as_slice(), "File hash mismatch");
}

#[test]
fn test_get_file_blake3_hash() {
    let content: Vec<u8> = vec![b'a'; 2 * MAX_BLOCK_SIZE as usize];

    let hash = fingerprint_of(&content);

    let mut hasher = Hasher::new();
    hasher.update(&content);
    let expected_hash: [u8; 32] = hasher.finalize().into();

    assert_eq!(hash, expected_hash);
}

#[test]
fn test_read_file_block() {
    let content = b"1234567890";

    // Read first block (size 4)
    assert_eq!(read_block(content, 0, 4), b"1234");
    // Read second block (size 4)
    assert_eq!(read_block(content, 1, 4), b"5678");
    // Read partial block (size 4, but only 2 left)
    assert_eq!(read_block(content, 2, 4), b"90");
    // Read past EOF
    assert!(read_block(content, 3, 4).is_empty());
}

#[test]
fn metadata_keeps_what_it_is_given() {
    let metadata = FileMetadata::new("a.bin".to_string(), 77, [9; 32]);
    assert_eq!(metadata.name(), "a.bin");
    assert_eq!(metadata.size(), 77);
    assert_eq!(metadata.hash(), [9; 32]);
    let unnamed = FileMetadata::from_parts(None, 0, [0; 32]);
    assert_eq!(unnamed.name(), "unnamed_file");
    assert_eq!(
        metadata.handshake(4096, 3),
        HandshakeV1 {
            file_hash: &[9; 32],
            total_size: 77,
            concurrency: 3,
            file_name: "a.bin",
            block_size: 4096,
        }
    );
}

#[test]
fn large_files_are_fingerprinted_in_chunks() {
    let chunk_size = PARALLEL_CHUNK_SIZE as usize;
    assert_eq!(fingerprint_of(b""), blake3_of(b""));
    assert_eq!(hash_plan(0), HashPlan::Whole);
    assert_eq!(hash_plan(PARALLEL_CHUNK_SIZE), HashPlan::Whole);
    assert_eq!(hash_plan(PARALLEL_CHUNK_SIZE + 1), HashPlan::Chunks { count: 2 });
    assert_eq!(hash_plan(2 * PARALLEL_CHUNK_SIZE), HashPlan::Chunks { count: 2 });
    assert_eq!(hash_plan(2 * PARALLEL_CHUNK_SIZE + 1), HashPlan::Chunks { count: 3 });
    assert_eq!(hash_plan(u64::MAX), HashPlan::Chunks { count: 1 << 41 });

    let mut content = vec![0x61u8; chunk_size + 5];
    content[chunk_size] = 0x62;
    let first = blake3_of(&content[..chunk_size]);
    let second = blake3_of(&content[chunk_size..]);
    let mut hashes = Vec::new();
    hashes.extend_from_slice(&first);
    hashes.extend_from_slice(&second);
    assert_eq!(fingerprint_of(&content), blake3_of(&hashes));
    assert_eq!(combine_chunk_hashes(&[first, second]), blake3_of(&hashes));
    assert_ne!(fingerprint_of(&content), blake3_of(&content));
    assert_eq!(combine_chunk_hashes(&[]), blake3_of(b""));

    let size = content.len() as u64;
    assert_eq!(chunk_range(0, size), (0, PARALLEL_CHUNK_SIZE));
    assert_eq!(chunk_range(1, size), (PARALLEL_CHUNK_SIZE, size));
    assert_eq!(chunk_range(2, size), (size, size));
    assert_eq!(chunk_range(u64::MAX, size), (size, size));
    assert_eq!(chunk_range(1, 2 * PARALLEL_CHUNK_SIZE), (PARALLEL_CHUNK_SIZE, 2 * PARALLEL_CHUNK_SIZE));
}

#[test]
fn blocks_are_addressed_by_their_index() {
    assert_eq!(block_offset(0, 4096), 0);
    assert_eq!(block_offset(3, 4096), 12288);
    assert_eq!(block_offset(u32::MAX, u32::MAX), u32::MAX as u64 * u32::MAX as u64);
    assert_eq!(total_blocks(0, 4), 0);
    assert_eq!(total_blocks(1, 4), 1);
    assert_eq!(total_blocks(8, 4), 2);
    assert_eq!(total_blocks(9, 4), 3);
    assert_eq!(total_blocks(10 * 1024 * 1024, 1024 * 1024), 10);
    assert_eq!(total_blocks(u64::MAX, 1), u64::MAX);
    assert_eq!(total_blocks(u64::MAX, u32::MAX), 4294967297);
    assert_eq!(block_length(0, 4, 10), 4);
    assert_eq!(block_length(2, 4, 10), 2);
    assert_eq!(block_length(3, 4, 10), 0);
    assert_eq!(block_length(1, 4, 8), 4);
    assert_eq!(block_length(2, 4, 8), 0);
    assert_eq!(block_length(5, 0, 8), 0);
    assert_eq!(read_block(b"abc", 7, 0), b"");
    let content: Vec<u8> = (0..=255u8).collect();
    let mut joined = Vec::new();
    for seq in 0..total_blocks(256, 7) {
        let block = read_block(&content, seq as u32, 7);
        assert_eq!(block.len() as u32, block_length(seq as u32, 7, 256));
        joined.extend_from_slice(block);
    }
    assert_eq!(joined, content);
}

#[test]
fn settings_follow_from_the_command_line() {
    assert_eq!(HANDSHAKE_PORT, 7878);
    assert_eq!(TRANSFER_PORT, 7879);
    let args = |block_size| SendArgs {
        file: "a".to_string(),
        host: "b".to_string(),
        block_size,
        concurrency: None,
        no_compress: false,
    };
    assert_eq!(args(None).effective_block_size(), 1024 * 1024);
    assert_eq!(args(Some(4096)).effective_block_size(), 4096);
    assert_eq!(args(Some(MAX_BLOCK_SIZE)).effective_block_size(), MAX_BLOCK_SIZE);
    assert_eq!(args(Some(MAX_BLOCK_SIZE + 1)).effective_block_size(), MAX_BLOCK_SIZE);
    assert_eq!(args(Some(0)).effective_block_size(), 0);

    assert_eq!(get_concurrency(None, 4), 4);
    assert_eq!(get_concurrency(None, 64), 16);
    assert_eq!(get_concurrency(Some(2), 4), 2);
    assert_eq!(get_concurrency(Some(8), 4), 4);
    assert_eq!(get_concurrency(Some(100), 64), 16);
    assert_eq!(get_concurrency(Some(0), 4), 0);
    assert_eq!(get_concurrency(None, usize::MAX), 16);
}
