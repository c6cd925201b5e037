use blake3::Hasher;
use flate2::read::GzDecoder;
use sendfile::stream::error::SendFileError;
use sendfile::stream::send::{
    choose_compression, connection_cap, ConnectionHandler, NextStep, READ_ERROR_CODE,
};
use sendfile::transport::{
    ProgressV1, ReceiverErrorV1, ReceiverMessageV1, RequestV1, SenderErrorV1, SenderMessageV1,
    TransferCompleteV1, TransportError, VerifyBlockV1, VerifyResponseV1,
};
use sendfile::wire::WireError;
use std::io::Read;

fn calculate_hash(data: &[u8]) -> [u8; 32] {
    let mut hasher = Hasher::new();
    hasher.update(data);
    hasher.finalize().into()
}

fn crc(data: &[u8]) -> u32 {
    crc_fast::checksum(crc_fast::CrcAlgorithm::Crc32IsoHdlc, data) as u32
}

fn gunzip(data: &[u8]) -> Vec<u8> {
    let mut decoded = Vec::new();
    GzDecoder::new(data).read_to_end(&mut decoded).unwrap();
    decoded
}

fn handler(expected_hash: [u8; 32], compression_enabled: Option<bool>) -> ConnectionHandler {
    ConnectionHandler {
        expected_hash,
        block_size: 1024,
        compression_enabled,
        write_buffer: vec![0u8; 2048],
        compressed_buffer: vec![0u8; 2048],
    }
}

// Helper to strip headers and deserialize
fn parse_message(bytes: &[u8]) -> SenderMessageV1<'_> {
    let delimiter = b"\r\n\r\n";
    if let Some(start) = bytes
        .windows(delimiter.len())
        .position(|window| window == delimiter)
    {
        let payload = &bytes[start + delimiter.len()..];
        SenderMessageV1::from_bytes(payload).expect("Failed to deserialize payload")
    } else {
        // Fallback or error
        SenderMessageV1::from_bytes(bytes).expect("Failed to deserialize raw bytes")
    }
}

fn incompressible(len: usize) -> Vec<u8> {
    let mut data = Vec::with_capacity(len);
    let mut state: u64 = 0xCAFEBABE;
    for _ in 0..len {
        state = state.wrapping_mul(6364136223846793005).wrapping_add(1);
        data.push((state >> 33) as u8);
    }
    data
}

#[test]
fn test_handle_data_request_compression_probe_positive() {
    let data = vec![0u8; 1024]; // Highly compressible
    let hash = calculate_hash(&data);
    let mut handler = handler(hash, None);

    let req = RequestV1 {
        file_hash: hash,
        seq: 0,
    };

    let result = handler.handle_data_request(&req, &data);
    assert!(
        result.is_ok(),
        "handle_data_request should succeed: {:?}",
        result.as_ref().err()
    );

    // Check compression enabled
    assert_eq!(handler.compression_enabled, Some(true));

    // Verify message
    let written = result.unwrap();
    let msg = parse_message(&written);

    match msg {
        SenderMessageV1::Data(d) => {
            assert!(d.compressed, "Data should be compressed");
            assert!(d.data.len() < 1024, "Compressed data should be smaller");
            assert_eq!(d.seq, 0);
            assert_eq!(d.checksum, crc(d.data));
            assert_eq!(d.file_hash, hash);
            assert_eq!(gunzip(d.data), data);
        }
        _ => panic!("Expected Data message"),
    }
}

#[test]
fn test_handle_data_request_compression_probe_negative() {
    // Generate random data (incompressible)
    let data = incompressible(1024);

    let hash = calculate_hash(&data);
    let mut handler = handler(hash, None);

    let req = RequestV1 {
        file_hash: hash,
        seq: 0,
    };

    let result = handler.handle_data_request(&req, &data);
    assert!(
        result.is_ok(),
        "handle_data_request should succeed: {:?}",
        result.as_ref().err()
    );

    assert_eq!(handler.compression_enabled, Some(false));

    let written = result.unwrap();
    let msg = parse_message(&written);

    match msg {
        SenderMessageV1::Data(d) => {
            assert!(!d.compressed, "Data should not be compressed");
            assert_eq!(d.data, data.as_slice());
            assert_eq!(d.checksum, crc(&data));
        }
        _ => panic!("Expected Data message"),
    }
}

#[test]
fn test_handle_data_request_honors_compression_disabled() {
    let data = vec![0u8; 1024]; // Compressible
    let hash = calculate_hash(&data);
    let mut handler = handler(hash, Some(false)); // Explicitly disabled

    let req = RequestV1 {
        file_hash: hash,
        seq: 0,
    };

    let written = handler
        .handle_data_request(&req, &data)
        .expect("handle_data_request failed");

    let msg = parse_message(&written);

    match msg {
        SenderMessageV1::Data(d) => {
            assert!(!d.compressed, "Should not compress when disabled");
            assert_eq!(d.data, data.as_slice());
        }
        _ => panic!("Expected Data message"),
    }
}

#[test]
fn test_handle_data_request_mismatched_hash() {
    let data = b"some data";
    let hash = calculate_hash(data);
    let mut handler = handler(hash, None);

    let wrong_hash = [0u8; 32];
    let req = RequestV1 {
        file_hash: wrong_hash,
        seq: 0,
    };

    let result = handler.handle_data_request(&req, data);

    assert!(result.is_err(), "Should return error for mismatched hash");
    assert_eq!(
        result,
        Err(SendFileError::BlockHashMismatch {
            expected: hash,
            received: wrong_hash.to_vec(),
        })
    );
    assert_eq!(handler.compression_enabled, None);
}

#[test]
fn test_handle_data_request_eof_handling() {
    let hash = calculate_hash(&[0u8; 100]);
    let mut handler = handler(hash, None);

    // Request seq 1 (offset 1024), which is beyond EOF (100 bytes): the
    // block read there is empty
    let req = RequestV1 {
        file_hash: hash,
        seq: 1,
    };

    let result = handler.handle_data_request(&req, &[]);
    assert!(
        result.is_ok(),
        "handle_data_request should succeed: {:?}",
        result.as_ref().err()
    );

    let written = result.unwrap();
    let msg = parse_message(&written);

    match msg {
        SenderMessageV1::Data(d) => {
            assert!(d.data.is_empty(), "Should return empty data for EOF");
            assert!(!d.compressed);
            assert_eq!(d.seq, 1);
        }
        _ => panic!("Expected Data message"),
    }
    assert_eq!(handler.compression_enabled, Some(false));
}

#[test]
fn test_handle_progress_valid_hash() {
    let data = b"test";
    let hash = calculate_hash(data);
    let handler = handler(hash, None);

    let prog = ProgressV1 {
        file_hash: hash,
        bytes_received: 10,
    };
    assert!(handler.handle_progress(&prog).is_ok());
}

#[test]
fn test_handle_progress_invalid_hash() {
    let data = b"test";
    let hash = calculate_hash(data);
    let handler = handler(hash, None);

    let wrong_hash = [1u8; 32];
    let prog = ProgressV1 {
        file_hash: wrong_hash,
        bytes_received: 10,
    };
    assert!(handler.handle_progress(&prog).is_err());
}

#[test]
fn test_handle_transfer_complete_success() {
    let data = b"test";
    let hash = calculate_hash(data);
    let handler = handler(hash, None);

    let complete = TransferCompleteV1 { file_hash: hash };
    assert!(handler.handle_transfer_complete(&complete).is_ok());
    let other = TransferCompleteV1 { file_hash: [0; 32] };
    assert!(handler.handle_transfer_complete(&other).is_err());
}

#[test]
fn the_compression_decision_is_sticky() {
    let hash = [3u8; 32];
    let mut on = handler(hash, None);
    let request = |seq| RequestV1 { file_hash: hash, seq };
    let flags = |handler: &mut ConnectionHandler, blocks: &[Vec<u8>]| {
        let mut flags = Vec::new();
        for (seq, block) in blocks.iter().enumerate() {
            let frame = handler.handle_data_request(&request(seq as u32), block).unwrap();
            match parse_message(&frame) {
                SenderMessageV1::Data(d) => {
                    assert_eq!(d.seq, seq as u32);
                    assert_eq!(d.checksum, crc(d.data));
                    if d.compressed {
                        assert_eq!(&gunzip(d.data), block);
                    } else {
                        assert_eq!(d.data, block.as_slice());
                    }
                    flags.push(d.compressed);
                }
                other => panic!("{:?}", other),
            };
        }
        flags
    };
    // a compressible first block turns compression on, also for blocks
    // that grow by it
    let blocks = vec![vec![0u8; 1024], incompressible(1024), vec![1u8; 10], vec![]];
    assert_eq!(flags(&mut on, &blocks), vec![true, true, true, true]);
    assert_eq!(on.compression_enabled, Some(true));
    // an incompressible first block turns it off, also for blocks that
    // would shrink
    let mut off = handler(hash, None);
    let blocks = vec![incompressible(1024), vec![0u8; 1024], vec![0u8; 1024]];
    assert_eq!(flags(&mut off, &blocks), vec![false, false, false]);
    assert_eq!(off.compression_enabled, Some(false));
}

#[test]
fn compression_is_chosen_from_the_lengths() {
    assert_eq!(choose_compression(None, 100, Some(99)), (true, Some(true)));
    assert_eq!(choose_compression(None, 100, Some(100)), (false, Some(false)));
    assert_eq!(choose_compression(None, 0, Some(20)), (false, Some(false)));
    assert_eq!(choose_compression(None, 100, None), (false, Some(false)));
    assert_eq!(choose_compression(Some(true), 100, Some(200)), (true, Some(true)));
    assert_eq!(choose_compression(Some(true), 100, Some(1)), (true, Some(true)));
    assert_eq!(choose_compression(Some(true), 100, None), (false, Some(true)));
    assert_eq!(choose_compression(Some(false), 100, Some(1)), (false, Some(false)));
    assert_eq!(choose_compression(Some(false), 100, None), (false, Some(false)));
}

#[test]
fn a_reply_that_does_not_fit_is_refused() {
    let hash = [3u8; 32];
    let mut small = ConnectionHandler::new(hash, 1024, false, 64);
    assert_eq!(small.compression_enabled, Some(false));
    assert_eq!(small.write_buffer.len(), 64);
    let request = RequestV1 { file_hash: hash, seq: 0 };
    assert_eq!(
        small.handle_data_request(&request, &[0u8; 1024]),
        Err(SendFileError::Transport(TransportError::Serialization(WireError::BufferFull)))
    );
    assert!(small.handle_data_request(&request, &[0u8; 16]).is_ok());
    assert_eq!(ConnectionHandler::new(hash, 1024, true, 64).compression_enabled, None);
}

#[test]
fn verify_requests_are_answered_from_the_raw_block() {
    let hash = [4u8; 32];
    let mut handler = handler(hash, Some(true));
    let block = vec![0u8; 1024];
    let answer = |handler: &mut ConnectionHandler, checksum| {
        let verify = VerifyBlockV1 { file_hash: hash, seq: 6, checksum };
        let frame = handler.handle_verify_block(&verify, &block).unwrap();
        match parse_message(&frame) {
            SenderMessageV1::VerifyResponse(response) => response,
            other => panic!("{:?}", other),
        }
    };
    assert_eq!(
        answer(&mut handler, crc(&block)),
        VerifyResponseV1 { file_hash: hash, seq: 6, valid: true }
    );
    assert_eq!(
        answer(&mut handler, crc(&block) ^ 1),
        VerifyResponseV1 { file_hash: hash, seq: 6, valid: false }
    );
    let other = VerifyBlockV1 { file_hash: [0; 32], seq: 6, checksum: crc(&block) };
    assert!(matches!(
        handler.handle_verify_block(&other, &block),
        Err(SendFileError::BlockHashMismatch { .. })
    ));
    let frame = handler.verify_response(9, false).unwrap();
    assert_eq!(
        parse_message(&frame),
        SenderMessageV1::VerifyResponse(VerifyResponseV1 { file_hash: hash, seq: 9, valid: false })
    );
    let frame = handler.read_failure_reply("Read error: gone").unwrap();
    assert_eq!(
        parse_message(&frame),
        SenderMessageV1::Error(SenderErrorV1 {
            code: READ_ERROR_CODE,
            message: "Read error: gone".to_string(),
        })
    );
    assert_eq!(READ_ERROR_CODE, 500);
}

#[test]
fn each_message_has_its_next_step() {
    let hash = [5u8; 32];
    let handler = handler(hash, None);
    let step = |message: ReceiverMessageV1| handler.next_step(&message);
    assert_eq!(
        step(ReceiverMessageV1::Request(RequestV1 { file_hash: hash, seq: 3 })),
        NextStep::ServeBlock { seq: 3, offset: 3072 }
    );
    assert_eq!(
        step(ReceiverMessageV1::Request(RequestV1 { file_hash: [0; 32], seq: 3 })),
        NextStep::Close
    );
    assert_eq!(
        step(ReceiverMessageV1::VerifyBlock(VerifyBlockV1 {
            file_hash: hash,
            seq: u32::MAX,
            checksum: 0,
        })),
        NextStep::CheckBlock { seq: u32::MAX, offset: u32::MAX as u64 * 1024 }
    );
    assert_eq!(
        step(ReceiverMessageV1::VerifyBlock(VerifyBlockV1 {
            file_hash: [0; 32],
            seq: 0,
            checksum: 0,
        })),
        NextStep::Close
    );
    assert_eq!(
        step(ReceiverMessageV1::Progress(ProgressV1 { file_hash: hash, bytes_received: 1 })),
        NextStep::Continue
    );
    assert_eq!(
        step(ReceiverMessageV1::Progress(ProgressV1 { file_hash: [0; 32], bytes_received: 1 })),
        NextStep::Close
    );
    assert_eq!(
        step(ReceiverMessageV1::TransferComplete(TransferCompleteV1 { file_hash: hash })),
        NextStep::Complete
    );
    assert_eq!(
        step(ReceiverMessageV1::TransferComplete(TransferCompleteV1 { file_hash: [0; 32] })),
        NextStep::Close
    );
    assert_eq!(
        step(ReceiverMessageV1::Error(ReceiverErrorV1 { code: 1, message: "x".to_string() })),
        NextStep::Close
    );
}

#[test]
fn the_connection_cap_is_clamped() {
    assert_eq!(connection_cap(0), 8);
    assert_eq!(connection_cap(1), 8);
    assert_eq!(connection_cap(2), 8);
    assert_eq!(connection_cap(3), 12);
    assert_eq!(connection_cap(64), 256);
    assert_eq!(connection_cap(16383), 65532);
    assert_eq!(connection_cap(16384), 65535);
    assert_eq!(connection_cap(usize::MAX), 65535);
}
