//! Configuration resolution, partition arithmetic, the expected-checksum
//! gate and early stop.

use randstream::errors::StreamError;
use randstream::generate::{generate_range, generate_to_vec};
use randstream::hex::u32_to_hex;
use randstream::partition::{u64_div_ceil, worker_range};
use randstream::plan::{
    check_expected, plan_generate, plan_validate, resolve_generate_size, should_resize,
};
use randstream::worker::{ByteSink, MemSink, Monitor};

#[test]
fn div_ceil_values() {
    assert_eq!(u64_div_ceil(0, 8), 0);
    assert_eq!(u64_div_ceil(1, 8), 1);
    assert_eq!(u64_div_ceil(8, 8), 1);
    assert_eq!(u64_div_ceil(9, 8), 2);
    assert_eq!(u64_div_ceil(1000, 3), 334);
}

#[test]
fn worker_ranges_tile_the_chunks() {
    for (nc, workers) in [(10u64, 3u64), (10, 1), (3, 8), (0, 4), (100, 7)] {
        let cpw = u64_div_ceil(nc, workers);
        let mut next = 0u64;
        for w in 0..workers {
            let (start, end) = worker_range(w, cpw, nc);
            assert_eq!(start, next, "nc {} workers {} worker {}", nc, workers, w);
            assert!(start <= end && end <= nc);
            next = end;
        }
        assert_eq!(next, nc, "all chunks covered for nc {} workers {}", nc, workers);
    }
}

#[test]
fn generate_size_resolution() {
    assert_eq!(resolve_generate_size(Some(100), Some(5), 0), Ok(100));
    assert_eq!(resolve_generate_size(None, Some(50), 10), Ok(40));
    assert_eq!(
        resolve_generate_size(None, Some(5), 10),
        Err(StreamError::PositionPastEnd { position: 10, size: 5 })
    );
    assert_eq!(resolve_generate_size(None, None, 0), Err(StreamError::SizeUndeterminable));
}

#[test]
fn generate_plan_errors() {
    assert_eq!(
        plan_generate(0, 0, Some(10), None, None, 4, true),
        Err(StreamError::InvalidConfiguration)
    );
    assert_eq!(
        plan_generate(32, 0, Some(10), None, Some(0), 4, true),
        Err(StreamError::InvalidConfiguration)
    );
    assert_eq!(
        plan_generate(32, 33, Some(10), None, None, 4, true),
        Err(StreamError::MisalignedPosition { position: 33, chunk_size: 32 })
    );
    assert_eq!(
        plan_generate(32, 32, None, None, None, 4, true),
        Err(StreamError::SizeUndeterminable)
    );
}

#[test]
fn generate_plan_numbers() {
    let plan = plan_generate(32, 64, Some(100), None, Some(3), 8, true).unwrap();
    assert_eq!(plan.stream_size, 100);
    assert_eq!(plan.end_pos, 164);
    assert_eq!(plan.first_chunk, 2);
    assert_eq!(plan.num_chunks, 4);
    assert_eq!(plan.chunks_per_worker, 2);
    assert_eq!(plan.workers, 3);
    // an unseekable target forces a single worker
    let single = plan_generate(32, 0, Some(100), None, Some(3), 8, false).unwrap();
    assert_eq!(single.workers, 1);
}

#[test]
fn validate_plan_numbers() {
    let plan = plan_validate(32, None, 100, None, 2).unwrap();
    assert_eq!(plan.stream_size, 100);
    assert_eq!(plan.num_chunks, 4);
    assert_eq!(plan.chunks_per_worker, 2);
    assert_eq!(plan.workers, 2);
    let explicit = plan_validate(32, Some(64), 100, Some(5), 2).unwrap();
    assert_eq!(explicit.stream_size, 64);
    assert_eq!(explicit.workers, 5);
    assert_eq!(plan_validate(0, None, 100, None, 2), Err(StreamError::InvalidConfiguration));
}

#[test]
fn resize_rule() {
    // extend when the run ends past the current length
    assert!(should_resize(200, 100, true));
    // truncate unless truncation was declined
    assert!(should_resize(50, 100, false));
    assert!(!should_resize(50, 100, true));
}

#[test]
fn hex_rendering_matches_display() {
    for value in [0u32, 1, 0xdeadbeef, 0xffffffff, 0x00ab00cd] {
        let hex = u32_to_hex(value);
        assert_eq!(String::from_utf8(hex).unwrap(), format!("{:08x}", value));
    }
}

#[test]
fn expected_checksum_gate() {
    let (data, checksum) = generate_to_vec(1, 32, 0, 200);
    let validated = randstream::validate::validate_vec(&data, 32).unwrap();
    assert_eq!(validated, checksum);
    assert!(check_expected(Some(checksum), checksum).is_ok());
    assert!(check_expected(None, checksum).is_ok());
    match check_expected(Some(checksum ^ 1), checksum) {
        Err(StreamError::ExpectedChecksumMismatch { expected, actual }) => {
            assert_eq!(expected, checksum ^ 1);
            assert_eq!(actual, checksum);
        }
        other => panic!("mismatched gate gave {:?}", other),
    }
    // the reported rendering parses back to the same value, whatever
    // the caller's spelling of it
    let rendered = String::from_utf8(u32_to_hex(checksum)).unwrap();
    assert_eq!(u32::from_str_radix(&rendered, 16).unwrap(), checksum);
    assert_eq!(u32::from_str_radix(&rendered.to_uppercase(), 16).unwrap(), checksum);
}

/// A monitor whose stop flag is already set; workers poll it once per
/// chunk, after writing, so exactly one chunk goes out.
struct AlwaysCancelled {
    progressed: u64,
}

impl Monitor for AlwaysCancelled {
    // the view exists only for the verifier and is never run
    fn may_cancel(&self) -> bool {
        true
    }
    fn progress(&mut self, bytes: u64) {
        self.progressed += bytes;
    }
    fn is_cancelled(&self) -> bool {
        true
    }
}

#[test]
fn cancelled_worker_returns_prefix() {
    let chunk = 32usize;
    let size = (4 * chunk) as u64;
    let (reference, _) = generate_to_vec(6, chunk, 0, size);
    let mut sink = MemSink::new();
    let mut monitor = AlwaysCancelled { progressed: 0 };
    let result = generate_range(&mut sink, &mut monitor, 6, chunk, size, 0, 4).unwrap();
    assert_eq!(result.bytes as usize, chunk);
    assert!(result.stopped_early, "the range was cut short");
    assert_eq!(&sink.data[..], &reference[..chunk]);
}

/// A sink that fails on the first write.
struct FailingSink {}

impl ByteSink for FailingSink {
    fn write_all(&mut self, _buf: &Vec<u8>, _len: usize) -> Result<(), StreamError> {
        Err(StreamError::Io)
    }
}

#[test]
fn sink_error_propagates() {
    let mut sink = FailingSink {};
    let mut monitor = randstream::worker::PassiveMonitor {};
    match generate_range(&mut sink, &mut monitor, 1, 32, 64, 0, 2) {
        Err(StreamError::Io) => {}
        Err(other) => panic!("unexpected error {:?}", other),
        Ok(_) => panic!("failing sink must not succeed"),
    }
}
