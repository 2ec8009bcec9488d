//! Round-trip, determinism and resume behaviour of the engine.

use randstream::generate::{generate_range, generate_to_vec};
use randstream::merge::merge_partials;
use randstream::partition::{u64_div_ceil, worker_range};
use randstream::validate::validate_vec;
use randstream::worker::{MemSink, PassiveMonitor};

const CHUNK: usize = 64;

#[test]
fn roundtrip_sizes() {
    let sizes: [u64; 7] = [
        0,
        3,
        4,
        (CHUNK - 1) as u64,
        CHUNK as u64,
        (CHUNK + 1) as u64,
        (10 * CHUNK + 7) as u64,
    ];
    for &size in sizes.iter() {
        let (data, checksum) = generate_to_vec(7, CHUNK, 0, size);
        assert_eq!(data.len() as u64, size, "stream length for size {}", size);
        let validated = validate_vec(&data, CHUNK).expect("generated stream must validate");
        assert_eq!(validated, checksum, "checksum agreement for size {}", size);
    }
}

#[test]
fn deterministic_across_seeds() {
    let (a1, c1) = generate_to_vec(1234, CHUNK, 0, 1000);
    let (a2, c2) = generate_to_vec(1234, CHUNK, 0, 1000);
    assert_eq!(a1, a2);
    assert_eq!(c1, c2);
    let (b1, _) = generate_to_vec(1235, CHUNK, 0, 1000);
    assert_ne!(a1, b1, "different seeds give different streams");
}

#[test]
fn deterministic_across_worker_counts() {
    let seed = 42;
    let size: u64 = (10 * CHUNK + 7) as u64;
    let (reference, ref_checksum) = generate_to_vec(seed, CHUNK, 0, size);
    let num_chunks = u64_div_ceil(size, CHUNK as u64);
    for workers in [1u64, 2, 3, 5, 8, 16] {
        let cpw = u64_div_ceil(num_chunks, workers);
        let mut combined: Vec<u8> = Vec::new();
        let mut partials = Vec::new();
        for w in 0..workers {
            let (start, end) = worker_range(w, cpw, num_chunks);
            let mut sink = MemSink::new();
            let mut monitor = PassiveMonitor {};
            let result =
                generate_range(&mut sink, &mut monitor, seed, CHUNK, size, start, end)
                    .expect("worker must succeed");
            assert_eq!(result.bytes as usize, sink.data.len());
            assert!(!result.stopped_early, "nothing requested a stop");
            combined.extend_from_slice(&sink.data);
            partials.push(result);
        }
        assert_eq!(combined, reference, "byte-for-byte match with {} workers", workers);
        let (total, checksum) = merge_partials(&partials);
        assert_eq!(total, size);
        assert_eq!(checksum, ref_checksum, "merged checksum with {} workers", workers);
    }
}

#[test]
fn merged_checksum_matches_crc32fast() {
    let size: u64 = (5 * CHUNK) as u64;
    let (data, checksum) = generate_to_vec(9, CHUNK, 0, size);
    assert_eq!(checksum, crc32fast::hash(&data));
}

#[test]
fn partition_merge_any_cuts() {
    let size: u64 = (7 * CHUNK + 3) as u64;
    let (data, checksum) = generate_to_vec(5, CHUNK, 0, size);
    let whole = crc32fast::hash(&data);
    assert_eq!(checksum, whole);
    let cut_sets: [&[usize]; 4] = [
        &[],
        &[100],
        &[1, 2, 3],
        &[50, 50, 400],
    ];
    for cuts in cut_sets.iter() {
        let mut bounds = vec![0usize];
        for &c in cuts.iter() {
            let c = c.min(data.len());
            bounds.push(c.max(*bounds.last().unwrap()));
        }
        bounds.push(data.len());
        let mut partials = Vec::new();
        for pair in bounds.windows(2) {
            let slice = &data[pair[0]..pair[1]];
            let mut hasher = crc32fast::Hasher::new();
            hasher.update(slice);
            partials.push(randstream::worker::WorkerResult {
                bytes: slice.len() as u64,
                hasher,
                stopped_early: false,
            });
        }
        let (total, merged) = merge_partials(&partials);
        assert_eq!(total, data.len() as u64);
        assert_eq!(merged, whole, "cuts {:?}", cuts);
    }
}

#[test]
fn resume_reproduces_second_half() {
    let cs = CHUNK as u64;
    let (full, _) = generate_to_vec(77, CHUNK, 0, 2 * cs);
    let (second, _) = generate_to_vec(77, CHUNK, cs, cs);
    assert_eq!(&full[CHUNK..], &second[..]);
    let resumed_valid = validate_vec(&second, CHUNK);
    assert!(resumed_valid.is_ok());
}

#[test]
fn resume_at_later_chunks() {
    let cs = CHUNK as u64;
    let (full, _) = generate_to_vec(3, CHUNK, 0, 6 * cs + 11);
    for start in [1u64, 2, 5] {
        let size = (6 * cs + 11) - start * cs;
        let (tail, _) = generate_to_vec(3, CHUNK, start * cs, size);
        assert_eq!(&full[(start as usize) * CHUNK..], &tail[..]);
    }
}

#[test]
fn empty_worker_ranges_contribute_identity() {
    let seed = 11;
    let size: u64 = CHUNK as u64;
    let (reference, ref_checksum) = generate_to_vec(seed, CHUNK, 0, size);
    let num_chunks = u64_div_ceil(size, CHUNK as u64);
    let workers = 4u64;
    let cpw = u64_div_ceil(num_chunks, workers);
    let mut partials = Vec::new();
    let mut combined: Vec<u8> = Vec::new();
    for w in 0..workers {
        let (start, end) = worker_range(w, cpw, num_chunks);
        let mut sink = MemSink::new();
        let mut monitor = PassiveMonitor {};
        let result = generate_range(&mut sink, &mut monitor, seed, CHUNK, size, start, end)
            .expect("worker must succeed");
        if w > 0 {
            assert_eq!(result.bytes, 0, "worker {} owns no chunks", w);
        }
        combined.extend_from_slice(&sink.data);
        partials.push(result);
    }
    assert_eq!(combined, reference);
    let (total, checksum) = merge_partials(&partials);
    assert_eq!(total, size);
    assert_eq!(checksum, ref_checksum);
}
