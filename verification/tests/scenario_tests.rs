use sendfile::connection::{
    read_next_payload, read_receiver_message, read_sender_message, ReadProgress,
};
use sendfile::file::utils::{block_offset, fingerprint_of, read_block};
use sendfile::file::FileMetadata;
use sendfile::stream::error::SendFileError;
use sendfile::stream::receive::{
    block_from_response, block_request, first_phase, is_transfer_complete, next_phase,
    plan_transfer, transfer_complete_message, verify_block_request, verify_verdict,
    DownloadPass, TransferPlan, WorkerPhase,
};
use sendfile::stream::send::{ConnectionHandler, NextStep};
use sendfile::stream::utils::{frame_receiver_message, frame_sender_message};
use sendfile::transport::{ReceiverMessageV1, SenderMessageV1, MAX_MESSAGE_SIZE};

/// What the sender put into one data message.
#[derive(Debug, Clone, PartialEq, Eq)]
struct DataSeen {
    seq: u32,
    compressed: bool,
    data_len: usize,
}

/// The sending side of one connection, serving a file held in memory.
struct SenderSide<'a> {
    file: &'a [u8],
    handler: ConnectionHandler,
    /// Data messages still to be damaged on their way.
    damage: usize,
    seen: Vec<DataSeen>,
    complete: bool,
}

impl<'a> SenderSide<'a> {
    fn new(file: &'a [u8], hash: [u8; 32], block_size: u32, damage: usize) -> Self {
        SenderSide {
            file,
            handler: ConnectionHandler::new(hash, block_size, true, MAX_MESSAGE_SIZE),
            damage,
            seen: Vec::new(),
            complete: false,
        }
    }

    /// Takes one frame of the receiver and returns the frame of the answer.
    fn serve(&mut self, frame: &[u8]) -> Option<Vec<u8>> {
        let message = match read_receiver_message(frame, frame.len(), 0).unwrap() {
            ReadProgress::Done(result) => result.message,
            ReadProgress::NeedMore { .. } => panic!("half a frame"),
        };
        let block_size = self.handler.block_size;
        match (self.handler.next_step(&message), message) {
            (NextStep::ServeBlock { seq, offset }, ReceiverMessageV1::Request(request)) => {
                assert_eq!(offset, block_offset(seq, block_size));
                let block = read_block(self.file, seq, block_size);
                let mut reply = self.handler.handle_data_request(&request, block).unwrap();
                match read_sender_message(&reply, reply.len(), 0).unwrap() {
                    ReadProgress::Done(result) => match result.message {
                        SenderMessageV1::Data(data) => self.seen.push(DataSeen {
                            seq: data.seq,
                            compressed: data.compressed,
                            data_len: data.data.len(),
                        }),
                        other => panic!("{:?}", other),
                    },
                    ReadProgress::NeedMore { .. } => panic!("half a reply"),
                };
                if self.damage > 0 {
                    self.damage -= 1;
                    let last = reply.len() - 1;
                    reply[last] ^= 0x01;
                }
                Some(reply)
            }
            (NextStep::CheckBlock { seq, .. }, ReceiverMessageV1::VerifyBlock(verify)) => {
                let block = read_block(self.file, seq, block_size);
                Some(self.handler.handle_verify_block(&verify, block).unwrap())
            }
            (NextStep::Complete, _) => {
                self.complete = true;
                None
            }
            (step, message) => panic!("{:?} after {:?}", step, message),
        }
    }
}

/// What a transfer left behind.
struct Outcome {
    dest: Vec<u8>,
    bytes_received: u64,
    verified: Vec<u32>,
    downloaded: Vec<u32>,
    failed_attempts: u32,
    seen: Vec<Vec<DataSeen>>,
    sender_saw_completion: bool,
    plan: TransferPlan,
}

fn write_block(dest: &mut [u8], seq: u32, block_size: u32, block: &[u8]) {
    let offset = block_offset(seq, block_size) as usize;
    dest[offset..offset + block.len()].copy_from_slice(block);
}

/// Runs a whole transfer in memory. The workers take turns, one block each.
fn transfer(
    source: &[u8],
    block_size: u32,
    concurrency: u16,
    existing: Option<Vec<u8>>,
    damage: usize,
) -> Outcome {
    // the sender announces the file
    let metadata = FileMetadata::from_parts(Some("file.bin"), source.len() as u64, fingerprint_of(source));
    let mut scratch = vec![0u8; MAX_MESSAGE_SIZE];
    let handshake = SenderMessageV1::Handshake(metadata.handshake(block_size, concurrency));
    let frame = frame_sender_message(&handshake, &mut scratch).unwrap();

    // the receiver plans the transfer
    let plan = match read_sender_message(&frame, frame.len(), 0).unwrap() {
        ReadProgress::Done(result) => plan_transfer(&result.message, concurrency).unwrap(),
        ReadProgress::NeedMore { .. } => panic!("half a handshake"),
    };
    assert_eq!(plan.file_hash, metadata.hash());
    let is_existing_file = existing.is_some();
    let mut dest = existing.unwrap_or_default();
    dest.resize(plan.total_size as usize, 0);
    let mut received = vec![false; plan.total_blocks as usize];

    let mut outcome_verified = Vec::new();
    let mut outcome_downloaded = Vec::new();
    let mut bytes_received = 0u64;
    let mut failed_attempts = 0;

    let mut senders: Vec<SenderSide> = plan
        .ranges
        .iter()
        .enumerate()
        .map(|(i, _)| {
            SenderSide::new(source, plan.file_hash, block_size, if i == 0 { damage } else { 0 })
        })
        .collect();
    let mut phases: Vec<WorkerPhase> =
        plan.ranges.iter().map(|_| first_phase(is_existing_file)).collect();
    let mut passes: Vec<DownloadPass> =
        plan.ranges.iter().map(|r| DownloadPass::new(r.start, r.end)).collect();
    let mut verify_next: Vec<u32> = plan.ranges.iter().map(|r| r.start).collect();

    while phases.iter().any(|phase| *phase != WorkerPhase::Done) {
        for worker in 0..phases.len() {
            let sender = &mut senders[worker];
            match phases[worker] {
                WorkerPhase::Verify => {
                    let seq = verify_next[worker];
                    if seq >= plan.ranges[worker].end {
                        phases[worker] = next_phase(phases[worker], is_transfer_complete(&received));
                        continue;
                    }
                    verify_next[worker] += 1;
                    if received[seq as usize] {
                        continue;
                    }
                    let block = read_block(&dest, seq, block_size).to_vec();
                    let request = match verify_block_request(plan.file_hash, seq, &block) {
                        Some(request) => request,
                        None => continue,
                    };
                    let frame = frame_receiver_message(&request, &mut scratch).unwrap();
                    let reply = sender.serve(&frame).unwrap();
                    let valid = match read_sender_message(&reply, reply.len(), 0).unwrap() {
                        ReadProgress::Done(result) => verify_verdict(&result.message, seq),
                        ReadProgress::NeedMore { .. } => panic!("half a reply"),
                    };
                    if valid {
                        received[seq as usize] = true;
                        bytes_received += block.len() as u64;
                        outcome_verified.push(seq);
                    }
                }
                WorkerPhase::Download => {
                    let seq = match passes[worker].current() {
                        Some(seq) => seq,
                        None => {
                            phases[worker] =
                                next_phase(phases[worker], is_transfer_complete(&received));
                            continue;
                        }
                    };
                    if received[seq as usize] {
                        passes[worker] = passes[worker].advance();
                        continue;
                    }
                    let request = block_request(plan.file_hash, seq);
                    let frame = frame_receiver_message(&request, &mut scratch).unwrap();
                    let reply = sender.serve(&frame).unwrap();
                    let block = match read_sender_message(&reply, reply.len(), 0) {
                        Ok(ReadProgress::Done(result)) => block_from_response(seq, &result.message),
                        other => panic!("{:?}", other),
                    };
                    match block {
                        Ok(block) => {
                            write_block(&mut dest, seq, block_size, &block);
                            bytes_received += block.len() as u64;
                            received[seq as usize] = true;
                            outcome_downloaded.push(seq);
                            passes[worker] = passes[worker].advance();
                        }
                        Err(e) => {
                            assert!(matches!(e, SendFileError::ChecksumMismatch { .. }), "{:?}", e);
                            failed_attempts += 1;
                            passes[worker] = passes[worker].failed().unwrap().0;
                        }
                    }
                }
                WorkerPhase::Report => {
                    let message = transfer_complete_message(plan.file_hash);
                    let frame = frame_receiver_message(&message, &mut scratch).unwrap();
                    assert_eq!(sender.serve(&frame), None);
                    phases[worker] = next_phase(phases[worker], true);
                }
                WorkerPhase::Done => {}
            }
        }
    }

    assert!(is_transfer_complete(&received));
    Outcome {
        dest,
        bytes_received,
        verified: outcome_verified,
        downloaded: outcome_downloaded,
        failed_attempts,
        sender_saw_completion: senders.iter().any(|sender| sender.complete),
        seen: senders.into_iter().map(|sender| sender.seen).collect(),
        plan,
    }
}

fn pseudo_random(len: usize, seed: u64) -> Vec<u8> {
    let mut data = Vec::with_capacity(len);
    let mut state = seed;
    for _ in 0..len {
        state = state.wrapping_mul(6364136223846793005).wrapping_add(1442695040888963407);
        data.push((state >> 33) as u8);
    }
    data
}

#[test]
fn single_small_file() {
    let source = b"Hello, world!";
    let outcome = transfer(source, 1024 * 1024, 1, None, 0);
    assert_eq!(outcome.plan.total_blocks, 1);
    assert_eq!(outcome.plan.total_size, 13);
    assert_eq!(outcome.downloaded, vec![0]);
    assert_eq!(outcome.dest, source);
    assert_eq!(fingerprint_of(&outcome.dest), outcome.plan.file_hash);
    assert_eq!(outcome.bytes_received, 13);
    assert!(outcome.sender_saw_completion);
}

#[test]
fn multi_block_over_four_connections() {
    let source = pseudo_random(10 * 1024 * 1024, 7);
    let outcome = transfer(&source, 1024 * 1024, 4, None, 0);
    assert_eq!(outcome.plan.total_blocks, 10);
    assert_eq!(outcome.plan.ranges, vec![0..3, 3..6, 6..8, 8..10]);
    // the connections take turns
    assert_eq!(outcome.downloaded, vec![0, 3, 6, 8, 1, 4, 7, 9, 2, 5]);
    assert_eq!(outcome.bytes_received, 10 * 1024 * 1024);
    assert!(outcome.dest == source);
    assert_eq!(fingerprint_of(&outcome.dest), outcome.plan.file_hash);
    assert_eq!(outcome.seen.len(), 4);
    assert_eq!(outcome.seen[3].iter().map(|d| d.seq).collect::<Vec<_>>(), vec![8, 9]);
}

#[test]
fn compressible_payload() {
    let source = vec![0u8; 1024 * 1024];
    let outcome = transfer(&source, 256 * 1024, 1, None, 0);
    assert_eq!(outcome.seen[0].len(), 4);
    for data in &outcome.seen[0] {
        assert!(data.compressed);
        assert!(data.data_len < 4096);
    }
    assert!(outcome.dest.iter().all(|b| *b == 0));
    assert_eq!(outcome.dest.len(), 1024 * 1024);
}

#[test]
fn incompressible_payload() {
    let source = pseudo_random(1024 * 1024, 99);
    let outcome = transfer(&source, 256 * 1024, 1, None, 0);
    assert_eq!(outcome.seen[0].len(), 4);
    for data in &outcome.seen[0] {
        assert!(!data.compressed);
        assert_eq!(data.data_len, 256 * 1024);
    }
    assert!(outcome.dest == source);
}

#[test]
fn corrupted_data_is_fetched_again() {
    let source = pseudo_random(3000, 5);
    let outcome = transfer(&source, 1024, 1, None, 1);
    assert_eq!(outcome.failed_attempts, 1);
    assert_eq!(
        outcome.seen[0].iter().map(|d| d.seq).collect::<Vec<_>>(),
        vec![0, 0, 1, 2]
    );
    assert_eq!(outcome.dest, source);
    assert_eq!(outcome.bytes_received, 3000);

    // four damaged answers are within the budget of one block
    let outcome = transfer(&source, 1024, 1, None, 4);
    assert_eq!(outcome.failed_attempts, 4);
    assert_eq!(outcome.dest, source);
}

#[test]
fn resume_against_existing_file() {
    let source = pseudo_random(8 * 1024, 11);
    let mut existing = vec![0u8; 8 * 1024];
    existing[..4 * 1024].copy_from_slice(&source[..4 * 1024]);
    let outcome = transfer(&source, 1024, 2, Some(existing), 0);
    assert_eq!(outcome.verified, vec![0, 1, 2, 3]);
    assert_eq!(outcome.downloaded, vec![4, 5, 6, 7]);
    assert_eq!(outcome.dest, source);
    assert_eq!(outcome.bytes_received, 8 * 1024);
    assert_eq!(fingerprint_of(&outcome.dest), outcome.plan.file_hash);
    assert!(outcome.sender_saw_completion);
    // blocks that were verified are not asked for again
    let asked: Vec<u32> = outcome.seen.iter().flatten().map(|d| d.seq).collect();
    assert_eq!(asked, vec![4, 5, 6, 7]);

    // a shorter file that is there already is completed as well
    let outcome = transfer(&source, 1024, 1, Some(source[..1500].to_vec()), 0);
    assert_eq!(outcome.verified, vec![0]);
    assert_eq!(outcome.downloaded, vec![1, 2, 3, 4, 5, 6, 7]);
    assert_eq!(outcome.dest, source);
}

#[test]
fn slow_writer() {
    let metadata = FileMetadata::new("slow.bin".to_string(), 13, [0xAB; 32]);
    let mut scratch = [0u8; 256];
    let handshake = SenderMessageV1::Handshake(metadata.handshake(4096, 2));
    let frame = frame_sender_message(&handshake, &mut scratch).unwrap();

    let mut buffer = vec![0u8; MAX_MESSAGE_SIZE];
    let mut filled = 0;
    let mut search_from = 0;
    for chunk in frame.chunks(5) {
        match read_next_payload(&buffer, filled, search_from).unwrap() {
            ReadProgress::NeedMore { resume_from } => search_from = resume_from,
            ReadProgress::Done(_) => panic!("a frame before its last bytes"),
        }
        buffer[filled..filled + chunk.len()].copy_from_slice(chunk);
        filled += chunk.len();
    }
    match read_sender_message(&buffer, filled, search_from).unwrap() {
        ReadProgress::Done(result) => {
            assert_eq!(result.message, handshake);
            assert_eq!(result.next_payload_index, None);
        }
        ReadProgress::NeedMore { .. } => panic!("no frame after its last bytes"),
    };
}
