use sendfile::transport::{
    DataV1, HandshakeV1, ProgressV1, ReceiverErrorV1, ReceiverMessageV1, RequestV1,
    SenderErrorV1, SenderMessageV1, TransferCompleteV1, VerifyBlockV1, VerifyResponseV1,
};

/// A small generator of numbers that can be repeated.
struct Numbers(u64);

impl Numbers {
    fn next(&mut self) -> u64 {
        self.0 = self.0.wrapping_mul(6364136223846793005).wrapping_add(1442695040888963407);
        self.0 >> 24
    }

    fn below(&mut self, n: u64) -> u64 {
        self.next() % n
    }
}

/// Decodes a sender's message with postcard, field by field.
fn postcard_sender(bytes: &[u8]) -> Option<SenderMessageV1<'_>> {
    let (tag, rest): (u32, &[u8]) = postcard::take_from_bytes(bytes).ok()?;
    match tag {
        0 => {
            let (fields, _): ((&[u8], u64, u16, &str, u32), &[u8]) =
                postcard::take_from_bytes(rest).ok()?;
            Some(SenderMessageV1::Handshake(HandshakeV1 {
                file_hash: fields.0,
                total_size: fields.1,
                concurrency: fields.2,
                file_name: fields.3,
                block_size: fields.4,
            }))
        }
        1 => {
            let (fields, _): ((u32, u32, &[u8], bool, &[u8]), &[u8]) =
                postcard::take_from_bytes(rest).ok()?;
            Some(SenderMessageV1::Data(DataV1 {
                seq: fields.0,
                checksum: fields.1,
                file_hash: fields.2,
                compressed: fields.3,
                data: fields.4,
            }))
        }
        2 => {
            let (fields, _): ((u16, String), &[u8]) = postcard::take_from_bytes(rest).ok()?;
            Some(SenderMessageV1::Error(SenderErrorV1 { code: fields.0, message: fields.1 }))
        }
        3 => {
            let (fields, _): (([u8; 32], u32, bool), &[u8]) =
                postcard::take_from_bytes(rest).ok()?;
            Some(SenderMessageV1::VerifyResponse(VerifyResponseV1 {
                file_hash: fields.0,
                seq: fields.1,
                valid: fields.2,
            }))
        }
        _ => None,
    }
}

/// Decodes a receiver's message with postcard, field by field.
fn postcard_receiver(bytes: &[u8]) -> Option<ReceiverMessageV1> {
    let (tag, rest): (u32, &[u8]) = postcard::take_from_bytes(bytes).ok()?;
    match tag {
        0 => {
            let (fields, _): (([u8; 32], u32), &[u8]) = postcard::take_from_bytes(rest).ok()?;
            Some(ReceiverMessageV1::Request(RequestV1 { file_hash: fields.0, seq: fields.1 }))
        }
        1 => {
            let (fields, _): (([u8; 32], u64), &[u8]) = postcard::take_from_bytes(rest).ok()?;
            Some(ReceiverMessageV1::Progress(ProgressV1 {
                file_hash: fields.0,
                bytes_received: fields.1,
            }))
        }
        2 => {
            let (file_hash, _): ([u8; 32], &[u8]) = postcard::take_from_bytes(rest).ok()?;
            Some(ReceiverMessageV1::TransferComplete(TransferCompleteV1 { file_hash }))
        }
        3 => {
            let (fields, _): ((u16, String), &[u8]) = postcard::take_from_bytes(rest).ok()?;
            Some(ReceiverMessageV1::Error(ReceiverErrorV1 { code: fields.0, message: fields.1 }))
        }
        4 => {
            let (fields, _): (([u8; 32], u32, u32), &[u8]) =
                postcard::take_from_bytes(rest).ok()?;
            Some(ReceiverMessageV1::VerifyBlock(VerifyBlockV1 {
                file_hash: fields.0,
                seq: fields.1,
                checksum: fields.2,
            }))
        }
        _ => None,
    }
}

fn sample_encodings() -> Vec<Vec<u8>> {
    let hash = [0xC3u8; 32];
    let data = [0x80u8, 0xff, 0x00, 0x7f, 0x01];
    let mut buffer = vec![0u8; 512];
    let mut samples = Vec::new();
    let senders = [
        SenderMessageV1::Handshake(HandshakeV1 {
            file_hash: &hash,
            total_size: u64::MAX,
            concurrency: u16::MAX,
            file_name: "na\u{ef}ve \u{1F4E6}.bin",
            block_size: u32::MAX,
        }),
        SenderMessageV1::Handshake(HandshakeV1 {
            file_hash: &[],
            total_size: 0,
            concurrency: 0,
            file_name: "",
            block_size: 0,
        }),
        SenderMessageV1::Data(DataV1 {
            seq: 128,
            checksum: 16384,
            file_hash: &hash,
            compressed: true,
            data: &data,
        }),
        SenderMessageV1::Error(SenderErrorV1 { code: 500, message: "Read error".to_string() }),
        SenderMessageV1::VerifyResponse(VerifyResponseV1 {
            file_hash: hash,
            seq: u32::MAX,
            valid: true,
        }),
    ];
    for message in &senders {
        let written = message.to_bytes(&mut buffer).unwrap();
        samples.push(buffer[..written].to_vec());
    }
    let receivers = [
        ReceiverMessageV1::Request(RequestV1 { file_hash: hash, seq: 2097152 }),
        ReceiverMessageV1::Progress(ProgressV1 { file_hash: hash, bytes_received: u64::MAX }),
        ReceiverMessageV1::TransferComplete(TransferCompleteV1 { file_hash: hash }),
        ReceiverMessageV1::Error(ReceiverErrorV1 { code: 1, message: "\u{fffd}".to_string() }),
        ReceiverMessageV1::VerifyBlock(VerifyBlockV1 {
            file_hash: hash,
            seq: 1,
            checksum: u32::MAX,
        }),
    ];
    for message in &receivers {
        let written = message.to_bytes(&mut buffer).unwrap();
        samples.push(buffer[..written].to_vec());
    }
    samples
}

fn compare(bytes: &[u8]) {
    let ours = SenderMessageV1::from_bytes(bytes).ok();
    assert_eq!(ours, postcard_sender(bytes), "sender message from {:?}", bytes);
    let ours = ReceiverMessageV1::from_bytes(bytes).ok();
    assert_eq!(ours, postcard_receiver(bytes), "receiver message from {:?}", bytes);
}

#[test]
fn encodings_decode_as_with_postcard() {
    for sample in sample_encodings() {
        compare(&sample);
        assert!(
            SenderMessageV1::from_bytes(&sample).is_ok()
                || ReceiverMessageV1::from_bytes(&sample).is_ok()
        );
    }
}

#[test]
fn truncated_encodings_decode_as_with_postcard() {
    for sample in sample_encodings() {
        for len in 0..sample.len() {
            compare(&sample[..len]);
        }
    }
}

#[test]
fn damaged_encodings_decode_as_with_postcard() {
    let mut numbers = Numbers(0x5eed);
    for sample in sample_encodings() {
        for _ in 0..2000 {
            let mut damaged = sample.clone();
            for _ in 0..1 + numbers.below(3) {
                let at = numbers.below(damaged.len() as u64) as usize;
                match numbers.below(4) {
                    0 => damaged[at] = numbers.next() as u8,
                    1 => damaged[at] ^= 1 << numbers.below(8),
                    2 => damaged.insert(at, numbers.next() as u8),
                    _ => {
                        damaged.remove(at);
                    }
                }
                if damaged.is_empty() {
                    break;
                }
            }
            compare(&damaged);
        }
    }
}

#[test]
fn arbitrary_bytes_decode_as_with_postcard() {
    let mut numbers = Numbers(42);
    for _ in 0..20000 {
        let len = numbers.below(48) as usize;
        let mut bytes: Vec<u8> = (0..len).map(|_| numbers.next() as u8).collect();
        if !bytes.is_empty() {
            // most tags shall name a variant
            bytes[0] = numbers.below(6) as u8;
        }
        compare(&bytes);
    }
}

#[test]
fn long_varints_decode_as_with_postcard() {
    // varints at the limits of their types, with and without zero groups
    let tails: [&[u8]; 10] = [
        &[0x00],
        &[0x80, 0x00],
        &[0xff, 0xff, 0x03],
        &[0xff, 0xff, 0x04],
        &[0x80, 0x80, 0x80],
        &[0xff, 0xff, 0xff, 0xff, 0x0f],
        &[0xff, 0xff, 0xff, 0xff, 0x10],
        &[0xff, 0xff, 0xff, 0xff, 0xff, 0xff, 0xff, 0xff, 0xff, 0x01],
        &[0xff, 0xff, 0xff, 0xff, 0xff, 0xff, 0xff, 0xff, 0xff, 0x02],
        &[0x80, 0x80, 0x80, 0x80, 0x80, 0x80, 0x80, 0x80, 0x80, 0x80, 0x00],
    ];
    for tag in 0..6u8 {
        for first in tails {
            for second in tails {
                // behind the tag, behind a fingerprint, and one behind the other
                let mut bytes = vec![tag];
                bytes.extend_from_slice(first);
                bytes.extend_from_slice(second);
                bytes.extend_from_slice(&[0; 40]);
                compare(&bytes);
                let mut bytes = vec![tag];
                bytes.extend_from_slice(&[9; 32]);
                bytes.extend_from_slice(first);
                bytes.extend_from_slice(second);
                bytes.extend_from_slice(&[1; 4]);
                compare(&bytes);
            }
        }
    }
}
