use std::cell::RefCell;
use tcp_relay::assembler::{Assembler, TransferError};
use tcp_relay::chunker::{Chunker, CHUNK_SIZE};
use tcp_relay::codec::FrameCodec;
use tcp_relay::digest::{file_digest, to_hex, DIGEST_LEN, RAW_DIGEST_LEN};
use tcp_relay::frame::{FileError, Frame, ProtocolError};
use tcp_relay::packet::Packet;
use tcp_relay::sender::{send_file, SendError};

const EMPTY_DIGEST: &str = "e3b0c44298fc1c149afbf4c8996fb92427ae41e4649b934ca495991b7852b855";
const ABC_DIGEST: &str = "ba7816bf8f01cfea414140de5dae2223b00361a396177a9cb410ff61f20015ad";

fn content_of(size: usize) -> Vec<u8> {
    (0..size).map(|i| (i * 31 + 7) as u8).collect()
}

fn all_chunks(content: &[u8], cap: usize) -> Vec<Packet> {
    let mut chunker = Chunker::new(content.to_vec(), cap).unwrap();
    let mut chunks = Vec::new();
    while let Some(chunk) = chunker.next() {
        chunks.push(chunk);
    }
    assert!(chunker.is_done());
    assert_eq!(chunker.next(), None);
    chunks
}

fn assemble(chunks: &[Packet]) -> Result<Vec<u8>, TransferError> {
    let mut assembler = Assembler::new();
    for chunk in chunks {
        assembler.accept(chunk)?;
    }
    assembler.finish()
}

#[test]
fn packet_new_keeps_its_parts() {
    let packet = Packet::new(5, vec![1, 2, 3], "abc".to_string());
    assert_eq!(packet.sequence_number, 5);
    assert_eq!(packet.data, vec![1, 2, 3]);
    assert_eq!(packet.sha, "abc");
    assert_eq!(packet.clone(), packet);
}

#[test]
fn digest_is_sha256_in_lower_case_hex() {
    assert_eq!(file_digest(b""), EMPTY_DIGEST);
    assert_eq!(file_digest(b"abc"), ABC_DIGEST);
    assert_eq!(
        file_digest(b"hello world"),
        "b94d27b9934d3e08a52e52d7da7dabfac484efe37a5380ee9088f7ace2efcde9"
    );
    assert_eq!(file_digest(&content_of(10_000)).len(), DIGEST_LEN);
    assert_eq!(DIGEST_LEN, 2 * RAW_DIGEST_LEN);
    assert_ne!(file_digest(b"abc"), file_digest(b"abd"));
}

#[test]
fn hex_writes_two_digits_for_each_byte() {
    assert_eq!(to_hex(&[]), b"".to_vec());
    assert_eq!(to_hex(&[0x00, 0x09, 0x0a, 0x0f, 0x10, 0x9f, 0xa0, 0xff]), b"00090a0f109fa0ff".to_vec());
}

#[test]
fn chunking_then_assembling_gives_the_file_back() {
    let cap = 64;
    for size in [0, 1, cap - 1, cap, cap + 1, 10 * cap + 7] {
        let content = content_of(size);
        let chunks = all_chunks(&content, cap);
        assert_eq!(chunks.len(), (size + cap - 1) / cap, "size {}", size);
        let assembled = assemble(&chunks).unwrap();
        assert_eq!(assembled, content, "size {}", size);
        assert_eq!(file_digest(&assembled), file_digest(&content));
        for chunk in &chunks {
            assert_eq!(chunk.sha, file_digest(&content));
        }
    }
}

#[test]
fn chunking_with_the_usual_cap_gives_the_file_back() {
    let cap = CHUNK_SIZE;
    assert_eq!(cap, 4096);
    for size in [0, 1, cap - 1, cap, cap + 1, 10 * cap + 7] {
        let content = content_of(size);
        assert_eq!(assemble(&all_chunks(&content, cap)), Ok(content));
    }
}

#[test]
fn chunks_are_numbered_from_zero_and_full_but_the_last() {
    let content = content_of(10);
    let chunks = all_chunks(&content, 4);
    let digest = file_digest(&content);
    assert_eq!(
        chunks,
        vec![
            Packet::new(0, content[0..4].to_vec(), digest.clone()),
            Packet::new(1, content[4..8].to_vec(), digest.clone()),
            Packet::new(2, content[8..10].to_vec(), digest),
        ]
    );
}

#[test]
fn an_empty_file_has_no_chunks() {
    let mut chunker = Chunker::new(Vec::new(), 16).unwrap();
    assert_eq!(chunker.size(), 0);
    assert_eq!(chunker.file_digest(), EMPTY_DIGEST);
    assert!(chunker.is_done());
    assert_eq!(chunker.next(), None);
    assert_eq!(Assembler::new().finish(), Ok(Vec::new()));
}

#[test]
fn chunker_knows_size_and_digest_before_the_first_chunk() {
    let chunker = Chunker::new(b"abc".to_vec(), 2).unwrap();
    assert_eq!(chunker.size(), 3);
    assert_eq!(chunker.file_digest(), ABC_DIGEST);
    assert!(!chunker.is_done());
}

#[test]
fn chunker_refuses_a_cap_of_zero() {
    assert_eq!(Chunker::new(vec![1, 2, 3], 0), None);
    assert_eq!(Chunker::new(Vec::new(), 0), None);
    assert!(Chunker::new(vec![1, 2, 3], 1).is_some());
}

#[test]
fn open_gives_a_chunker_or_the_reason_why_not() {
    let mut chunker = Chunker::open(Ok(b"abc".to_vec()), 2).unwrap();
    assert_eq!(chunker.size(), 3);
    assert_eq!(chunker.file_digest(), ABC_DIGEST);
    assert_eq!(chunker.next(), Some(Packet::new(0, b"ab".to_vec(), ABC_DIGEST.to_string())));
    assert_eq!(chunker.next(), Some(Packet::new(1, b"c".to_vec(), ABC_DIGEST.to_string())));
    assert_eq!(chunker.next(), None);

    assert_eq!(Chunker::open(Err(FileError::NotFound), 2), Err(FileError::NotFound));
    assert_eq!(Chunker::open(Err(FileError::Unreadable), 2), Err(FileError::Unreadable));
    assert_eq!(Chunker::open(Ok(b"abc".to_vec()), 0), Err(FileError::Unreadable));
}

#[test]
fn out_of_order_chunks_are_refused() {
    let content = content_of(30);
    let chunks = all_chunks(&content, 10);
    assert_eq!(chunks.len(), 3);

    let swapped = vec![chunks[0].clone(), chunks[2].clone(), chunks[1].clone()];
    assert_eq!(assemble(&swapped), Err(TransferError::OutOfOrder));

    let reversed = vec![chunks[2].clone(), chunks[1].clone(), chunks[0].clone()];
    assert_eq!(assemble(&reversed), Err(TransferError::OutOfOrder));

    let repeated = vec![chunks[0].clone(), chunks[0].clone()];
    assert_eq!(assemble(&repeated), Err(TransferError::OutOfOrder));

    let skipped = vec![chunks[0].clone(), chunks[2].clone()];
    assert_eq!(assemble(&skipped), Err(TransferError::OutOfOrder));

    let late_start = vec![chunks[1].clone()];
    assert_eq!(assemble(&late_start), Err(TransferError::OutOfOrder));
}

#[test]
fn a_chunk_out_of_turn_ends_the_transfer() {
    let content = content_of(30);
    let chunks = all_chunks(&content, 10);
    let mut assembler = Assembler::new();
    assert_eq!(assembler.accept(&chunks[0]), Ok(()));
    assert!(!assembler.is_aborted());
    assert_eq!(assembler.accept(&chunks[2]), Err(TransferError::OutOfOrder));
    assert!(assembler.is_aborted());
    assert_eq!(assembler.accepted(), 1);
    assert_eq!(assembler.len(), 10);
    assert_eq!(assembler.accept(&chunks[1]), Err(TransferError::OutOfOrder));
    assert_eq!(assembler.accept(&chunks[2]), Err(TransferError::OutOfOrder));
    assert_eq!(assembler.accepted(), 1);
    assert_eq!(assembler.len(), 10);
    assert_eq!(assembler.finish(), Err(TransferError::OutOfOrder));
}

#[test]
fn chunks_in_turn_are_put_together_in_the_order_of_arrival() {
    let digest = file_digest(&[3, 3, 1, 2, 2]);
    let mut assembler = Assembler::new();
    assert_eq!(assembler.accept(&Packet::new(0, vec![3, 3], digest.clone())), Ok(()));
    assert_eq!(assembler.accept(&Packet::new(1, vec![1], digest.clone())), Ok(()));
    assert_eq!(assembler.accept(&Packet::new(2, vec![2, 2], digest)), Ok(()));
    assert_eq!(assembler.accepted(), 3);
    assert_eq!(assembler.len(), 5);
    assert_eq!(assembler.finish(), Ok(vec![3, 3, 1, 2, 2]));
}

#[test]
fn out_of_order_wins_over_digest_mismatch() {
    let mut assembler = Assembler::new();
    assert_eq!(assembler.accept(&Packet::new(0, vec![1], EMPTY_DIGEST.to_string())), Ok(()));
    assert_eq!(
        assembler.accept(&Packet::new(0, vec![1], EMPTY_DIGEST.to_string())),
        Err(TransferError::OutOfOrder)
    );
    assert_eq!(assembler.finish(), Err(TransferError::OutOfOrder));
}

#[test]
fn a_changed_payload_is_a_digest_mismatch() {
    let content = content_of(25);
    let mut chunks = all_chunks(&content, 10);
    chunks[1].data[3] ^= 1;
    assert_eq!(assemble(&chunks), Err(TransferError::DigestMismatch));
}

#[test]
fn a_missing_last_chunk_is_a_digest_mismatch() {
    let content = content_of(25);
    let mut chunks = all_chunks(&content, 10);
    chunks.pop();
    assert_eq!(assemble(&chunks), Err(TransferError::DigestMismatch));
}

#[test]
fn chunks_that_disagree_on_the_digest_are_a_digest_mismatch() {
    let content = content_of(25);
    let mut chunks = all_chunks(&content, 10);
    chunks[2].sha = file_digest(b"something else");
    assert_eq!(assemble(&chunks), Err(TransferError::DigestMismatch));

    let mut chunks = all_chunks(&content, 10);
    chunks[0].sha = file_digest(b"something else");
    assert_eq!(assemble(&chunks), Err(TransferError::DigestMismatch));

    let mut chunks = all_chunks(&content, 10);
    for chunk in chunks.iter_mut() {
        chunk.sha = EMPTY_DIGEST.to_string();
    }
    assert_eq!(assemble(&chunks), Err(TransferError::DigestMismatch));
}

#[test]
fn send_file_writes_every_chunk_as_a_frame() {
    let content = content_of(25);
    let codec = FrameCodec::new(72 + 10);
    let written: RefCell<Vec<Vec<u8>>> = RefCell::new(Vec::new());
    let mut chunker = Chunker::new(content.clone(), 10).unwrap();
    let sent = send_file(&mut chunker, &codec, |bytes: &[u8]| {
        written.borrow_mut().push(bytes.to_vec());
        true
    });
    assert_eq!(sent, Ok(()));
    assert!(chunker.is_done());

    let expected: Vec<Vec<u8>> = all_chunks(&content, 10)
        .into_iter()
        .map(|chunk| codec.encode(&Frame::Chunk(chunk)).unwrap())
        .collect();
    assert_eq!(*written.borrow(), expected);

    let mut assembler = Assembler::new();
    for wire in written.borrow().iter() {
        match codec.decode(wire) {
            Ok(Frame::Chunk(chunk)) => assert_eq!(assembler.accept(&chunk), Ok(())),
            other => panic!("no chunk: {:?}", other),
        }
    }
    assert_eq!(assembler.finish(), Ok(content));
}

#[test]
fn send_file_stops_at_the_first_write_that_fails() {
    let content = content_of(45);
    let codec = FrameCodec::new(72 + 10);
    let calls: RefCell<usize> = RefCell::new(0);
    let mut chunker = Chunker::new(content, 10).unwrap();
    let sent = send_file(&mut chunker, &codec, |_bytes: &[u8]| {
        *calls.borrow_mut() += 1;
        *calls.borrow() < 3
    });
    assert_eq!(sent, Err(SendError::WriteFailed));
    assert_eq!(*calls.borrow(), 3);
    assert_eq!(chunker.next().map(|chunk| chunk.sequence_number), Some(3));
}

#[test]
fn send_file_stops_at_a_chunk_that_is_too_large_for_a_frame() {
    let codec = FrameCodec::new(72 + 9);
    let calls: RefCell<usize> = RefCell::new(0);
    let mut chunker = Chunker::new(content_of(25), 10).unwrap();
    let sent = send_file(&mut chunker, &codec, |_bytes: &[u8]| {
        *calls.borrow_mut() += 1;
        true
    });
    assert_eq!(sent, Err(SendError::Refused(ProtocolError::TooLarge)));
    assert_eq!(*calls.borrow(), 0);
}

#[test]
fn send_file_of_an_empty_file_writes_nothing() {
    let codec = FrameCodec::new(100);
    let calls: RefCell<usize> = RefCell::new(0);
    let mut chunker = Chunker::new(Vec::new(), 10).unwrap();
    let sent = send_file(&mut chunker, &codec, |_bytes: &[u8]| {
        *calls.borrow_mut() += 1;
        true
    });
    assert_eq!(sent, Ok(()));
    assert_eq!(*calls.borrow(), 0);
}
