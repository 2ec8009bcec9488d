//! Corruption detection, the short-tail rule, and the validating
//! workers' behaviour at their ports.

use rand::{Rng, SeedableRng};
use randstream::codec::validate_chunk;
use randstream::errors::StreamError;
use randstream::generate::generate_to_vec;
use randstream::rng::StreamRng;
use randstream::validate::{validate_range, validate_stream, validate_vec};
use randstream::worker::{read_exact_or_eof, ByteSource, MemSource, PassiveMonitor};

const CHUNK: usize = 16;

#[test]
fn flipping_any_byte_is_detected() {
    let size: u64 = (3 * CHUNK) as u64;
    let (data, _) = generate_to_vec(21, CHUNK, 0, size);
    for i in 0..data.len() {
        let mut copy = data.clone();
        copy[i] ^= 0x20;
        match validate_vec(&copy, CHUNK) {
            Err(StreamError::ChecksumMismatch { chunk_index, expected, actual }) => {
                assert_eq!(chunk_index as usize, i / CHUNK, "flip at byte {}", i);
                assert_ne!(expected, actual);
            }
            other => panic!("flip at byte {} gave {:?}", i, other),
        }
    }
}

#[test]
fn short_tail_is_zero_and_validates() {
    for tail in 1u64..=3 {
        let size = (2 * CHUNK) as u64 + tail;
        let (data, _) = generate_to_vec(8, CHUNK, 0, size);
        for i in (2 * CHUNK)..data.len() {
            assert_eq!(data[i], 0, "tail byte {} of size {}", i, size);
        }
        assert!(validate_vec(&data, CHUNK).is_ok());
        let mut copy = data.clone();
        let last = copy.len() - 1;
        copy[last] = 1;
        match validate_vec(&copy, CHUNK) {
            Err(StreamError::InvalidTrailingBytes { chunk_index }) => {
                assert_eq!(chunk_index, 2, "tail {}", tail);
            }
            other => panic!("nonzero tail gave {:?}", other),
        }
    }
}

#[test]
fn validate_chunk_short_and_empty() {
    let zeros = vec![0u8; 3];
    assert!(validate_chunk(0, &zeros, 0, 3).is_ok());
    assert!(validate_chunk(0, &zeros, 0, 0).is_ok());
    let mut bad = zeros.clone();
    bad[1] = 9;
    match validate_chunk(5, &bad, 0, 3) {
        Err(StreamError::InvalidTrailingBytes { chunk_index }) => assert_eq!(chunk_index, 5),
        other => panic!("nonzero short chunk gave {:?}", other),
    }
}

#[test]
fn validate_range_accepts_generated_stream() {
    let size: u64 = (4 * CHUNK) as u64 + 2;
    let (data, checksum) = generate_to_vec(31, CHUNK, 0, size);
    let mut source = MemSource::new(data);
    let mut monitor = PassiveMonitor {};
    let result = validate_range(&mut source, &mut monitor, CHUNK, 0, 5)
        .expect("generated stream must validate");
    assert_eq!(result.bytes, size);
    assert!(!result.stopped_early, "nothing requested a stop");
    assert_eq!(randstream::crc::hasher_finalize(result.hasher), checksum);
}

#[test]
fn validate_range_reports_failing_chunk() {
    let size: u64 = (4 * CHUNK) as u64;
    let (mut data, _) = generate_to_vec(31, CHUNK, 0, size);
    data[2 * CHUNK + 1] ^= 1;
    let mut source = MemSource::new(data);
    let mut monitor = PassiveMonitor {};
    match validate_range(&mut source, &mut monitor, CHUNK, 0, 4) {
        Err(StreamError::ChecksumMismatch { chunk_index, .. }) => assert_eq!(chunk_index, 2),
        other => panic!("corrupt stream gave {:?}", other),
    }
}

#[test]
fn validate_stream_reads_to_eof() {
    let size: u64 = (3 * CHUNK) as u64 + 1;
    let (data, checksum) = generate_to_vec(12, CHUNK, 0, size);
    let mut source = MemSource::new(data);
    let mut monitor = PassiveMonitor {};
    let result = validate_stream(&mut source, &mut monitor, CHUNK, u64::MAX / CHUNK as u64)
        .expect("stream must validate");
    assert_eq!(result.bytes, size);
    assert_eq!(randstream::crc::hasher_finalize(result.hasher), checksum);
}

/// A source that hands out its bytes one at a time, exercising the
/// read-until-full loop.
struct DribbleSource {
    data: Vec<u8>,
    pos: usize,
}

impl ByteSource for DribbleSource {
    // the view exists only for the verifier and is never run
    fn remaining(&self) -> randstream::worker::ByteSeq {
        panic!("verifier-only view")
    }

    fn read(&mut self, buf: &mut Vec<u8>, start: usize) -> Result<usize, StreamError> {
        if self.pos >= self.data.len() || start >= buf.len() {
            return Ok(0);
        }
        buf[start] = self.data[self.pos];
        self.pos += 1;
        Ok(1)
    }
}

#[test]
fn read_exact_or_eof_loops_until_full() {
    let (data, _) = generate_to_vec(2, CHUNK, 0, CHUNK as u64);
    let mut source = DribbleSource { data: data.clone(), pos: 0 };
    let mut buffer = vec![0u8; CHUNK];
    let n = read_exact_or_eof(&mut source, &mut buffer, 0).unwrap();
    assert_eq!(n, CHUNK);
    assert_eq!(buffer, data);
    let n2 = read_exact_or_eof(&mut source, &mut buffer, 0).unwrap();
    assert_eq!(n2, 0, "end of input");
}

#[test]
fn dribbling_source_still_validates() {
    let size: u64 = (2 * CHUNK) as u64;
    let (data, checksum) = generate_to_vec(15, CHUNK, 0, size);
    let mut source = DribbleSource { data, pos: 0 };
    let mut monitor = PassiveMonitor {};
    let result = validate_stream(&mut source, &mut monitor, CHUNK, 1000)
        .expect("dribbled stream must validate");
    assert_eq!(result.bytes, size);
    assert_eq!(randstream::crc::hasher_finalize(result.hasher), checksum);
}

#[test]
fn wrong_chunk_size_is_rejected() {
    let (data, _) = generate_to_vec(4, CHUNK, 0, (4 * CHUNK) as u64);
    assert!(validate_vec(&data, CHUNK).is_ok());
    assert!(validate_vec(&data, 2 * CHUNK).is_err(), "windows no longer line up");
    assert!(validate_vec(&data, CHUNK / 2).is_err());
}

#[test]
fn chunk_layout_is_payload_then_crc_trailer() {
    // reconstruct the first two chunks from the generator and checksum
    // crates alone: each chunk draws a whole 16-byte buffer (two 64-bit
    // words) and carries the little-endian CRC32 of its payload
    let seed = 77u64;
    let (data, _) = generate_to_vec(seed, CHUNK, 0, (2 * CHUNK) as u64);
    let mut reference = rand_pcg::Pcg64Mcg::seed_from_u64(seed);
    let mut words = vec![0u8; 2 * CHUNK];
    reference.fill_bytes(&mut words);
    for chunk in 0..2usize {
        let payload = &words[chunk * CHUNK..chunk * CHUNK + CHUNK - 4];
        assert_eq!(&data[chunk * CHUNK..chunk * CHUNK + CHUNK - 4], payload);
        let crc = crc32fast::hash(payload);
        assert_eq!(
            &data[chunk * CHUNK + CHUNK - 4..(chunk + 1) * CHUNK],
            &crc.to_le_bytes(),
            "trailer of chunk {}",
            chunk
        );
    }
}

#[test]
fn stream_rng_matches_rand_pcg() {
    let mut reference = rand_pcg::Pcg64Mcg::seed_from_u64(99);
    let mut expected = vec![0u8; 32];
    reference.fill_bytes(&mut expected);

    let mut wrapped = StreamRng::new(99);
    let mut got = vec![0u8; 32];
    wrapped.fill(&mut got);
    assert_eq!(got, expected);

    // jumping ahead lands exactly where sequential filling would
    let mut jumped = StreamRng::new(99);
    jumped.advance_words(2);
    let mut tail = vec![0u8; 16];
    jumped.fill(&mut tail);
    assert_eq!(tail, expected[16..32]);
}
