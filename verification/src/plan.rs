//! Resolving a run's configuration before any work begins: sizes, the
//! worker count, the partition numbers, the pre-sizing decision and the
//! expected-checksum gate.
//!
//! Each decision is stated as a spec function and the executable
//! counterpart returns exactly that value, so what the orchestrator does
//! on every input — including which error it reports — is pinned down
//! before any byte moves.

use crate::errors::StreamError;
use crate::partition::{div_ceil, u64_div_ceil};
use vstd::prelude::*;

verus! {

/// Everything the orchestrator needs to spawn workers over a target.
#[derive(Clone, Copy, Debug, PartialEq, Eq)]
pub struct RunPlan {
    /// How many bytes this run produces or checks.
    pub stream_size: u64,
    /// One past the last byte position of the run.
    pub end_pos: u64,
    /// The first chunk index of the run.
    pub first_chunk: u64,
    /// How many chunks the run covers.
    pub num_chunks: u64,
    /// How many consecutive chunks each worker owns.
    pub chunks_per_worker: u64,
    /// How many workers the run spawns.
    pub workers: u64,
}

/// The size a generate run resolves to: an explicit size wins; otherwise
/// what is left of an existing target past the resume position;
/// otherwise the size cannot be determined.
pub open spec fn generate_size_spec(
    explicit: Option<u64>,
    target_len: Option<u64>,
    position: u64,
) -> Result<u64, StreamError> {
    match explicit {
        Option::Some(size) => Ok(size),
        Option::None => match target_len {
            Option::Some(len) => if position <= len {
                Ok((len - position) as u64)
            } else {
                Err(StreamError::PositionPastEnd { position, size: len })
            },
            Option::None => Err(StreamError::SizeUndeterminable),
        },
    }
}

/// Resolve how many bytes to generate.
pub fn resolve_generate_size(explicit: Option<u64>, target_len: Option<u64>, position: u64) -> (r:
    Result<u64, StreamError>)
    ensures
        r == generate_size_spec(explicit, target_len, position),
{
    match explicit {
        Option::Some(size) => Ok(size),
        Option::None => match target_len {
            Option::Some(len) => if position <= len {
                Ok(len - position)
            } else {
                Err(StreamError::PositionPastEnd { position, size: len })
            },
            Option::None => Err(StreamError::SizeUndeterminable),
        },
    }
}

/// How many workers a run uses: an unseekable target takes a single
/// sequential pass; otherwise the requested count, or the machine's
/// core count.
pub open spec fn workers_spec(jobs: Option<u64>, cores: u64, seekable: bool) -> u64 {
    if !seekable {
        1u64
    } else {
        match jobs {
            Option::Some(j) => j,
            Option::None => cores,
        }
    }
}

/// The whole plan of a generate run, or the error that stops it: a zero
/// chunk size or worker count is rejected, then a misaligned resume
/// position, then an undeterminable size.
pub open spec fn plan_generate_spec(
    chunk_size: u64,
    position: u64,
    explicit: Option<u64>,
    target_len: Option<u64>,
    jobs: Option<u64>,
    cores: u64,
    seekable: bool,
) -> Result<RunPlan, StreamError> {
    let workers = workers_spec(jobs, cores, seekable);
    if chunk_size == 0 || workers == 0 {
        Err(StreamError::InvalidConfiguration)
    } else if position % chunk_size != 0 {
        Err(StreamError::MisalignedPosition { position, chunk_size })
    } else {
        match generate_size_spec(explicit, target_len, position) {
            Err(e) => Err(e),
            Ok(stream_size) => {
                let num_chunks = div_ceil(stream_size as int, chunk_size as int);
                Ok(
                    RunPlan {
                        stream_size,
                        end_pos: (position + stream_size) as u64,
                        first_chunk: position / chunk_size,
                        num_chunks: num_chunks as u64,
                        chunks_per_worker: div_ceil(num_chunks, workers as int) as u64,
                        workers,
                    },
                )
            },
        }
    }
}

/// Resolve a generate run's plan.
pub fn plan_generate(
    chunk_size: u64,
    position: u64,
    explicit: Option<u64>,
    target_len: Option<u64>,
    jobs: Option<u64>,
    cores: u64,
    seekable: bool,
) -> (r: Result<RunPlan, StreamError>)
    requires
        explicit is Some ==> position + explicit->Some_0 <= u64::MAX,
    ensures
        r == plan_generate_spec(chunk_size, position, explicit, target_len, jobs, cores, seekable),
{
    let workers = if !seekable {
        1u64
    } else {
        match jobs {
            Option::Some(j) => j,
            Option::None => cores,
        }
    };
    if chunk_size == 0 || workers == 0 {
        return Err(StreamError::InvalidConfiguration);
    }
    if position % chunk_size != 0 {
        return Err(StreamError::MisalignedPosition { position, chunk_size });
    }
    let stream_size = match resolve_generate_size(explicit, target_len, position) {
        Ok(s) => s,
        Err(e) => { return Err(e) },
    };
    let num_chunks = u64_div_ceil(stream_size, chunk_size);
    let chunks_per_worker = u64_div_ceil(num_chunks, workers);
    Ok(
        RunPlan {
            stream_size,
            end_pos: position + stream_size,
            first_chunk: position / chunk_size,
            num_chunks,
            chunks_per_worker,
            workers,
        },
    )
}

/// The whole plan of a validate run over a seekable target, or the error
/// that stops it.  An explicit size wins over the target's length; the
/// run always starts at the first chunk.
pub open spec fn plan_validate_spec(
    chunk_size: u64,
    explicit: Option<u64>,
    target_len: u64,
    jobs: Option<u64>,
    cores: u64,
) -> Result<RunPlan, StreamError> {
    let workers = workers_spec(jobs, cores, true);
    if chunk_size == 0 || workers == 0 {
        Err(StreamError::InvalidConfiguration)
    } else {
        let stream_size = match explicit {
            Option::Some(s) => s,
            Option::None => target_len,
        };
        let num_chunks = div_ceil(stream_size as int, chunk_size as int);
        Ok(
            RunPlan {
                stream_size,
                end_pos: stream_size,
                first_chunk: 0,
                num_chunks: num_chunks as u64,
                chunks_per_worker: div_ceil(num_chunks, workers as int) as u64,
                workers,
            },
        )
    }
}

/// Resolve a validate run's plan.
pub fn plan_validate(
    chunk_size: u64,
    explicit: Option<u64>,
    target_len: u64,
    jobs: Option<u64>,
    cores: u64,
) -> (r: Result<RunPlan, StreamError>)
    ensures
        r == plan_validate_spec(chunk_size, explicit, target_len, jobs, cores),
{
    let workers = match jobs {
        Option::Some(j) => j,
        Option::None => cores,
    };
    if chunk_size == 0 || workers == 0 {
        return Err(StreamError::InvalidConfiguration);
    }
    let stream_size = match explicit {
        Option::Some(s) => s,
        Option::None => target_len,
    };
    let num_chunks = u64_div_ceil(stream_size, chunk_size);
    let chunks_per_worker = u64_div_ceil(num_chunks, workers);
    Ok(
        RunPlan {
            stream_size,
            end_pos: stream_size,
            first_chunk: 0,
            num_chunks,
            chunks_per_worker,
            workers,
        },
    )
}

/// Whether the target file is resized before workers run: it is extended
/// whenever the run ends past the current length, and also truncated to
/// the run's end unless truncation was declined.
pub fn should_resize(end_position: u64, target_len: u64, no_truncate: bool) -> (r: bool)
    ensures
        r == (end_position > target_len || !no_truncate),
{
    end_position > target_len || !no_truncate
}

/// The whole-stream gate: with no expected value the run passes; with
/// one, it passes exactly when the computed checksum equals it, and
/// fails carrying both values.  The comparison is reported only after
/// all data has been processed; turning the caller's written form into
/// a value is the shell's argument handling.
pub fn check_expected(expected: Option<u32>, checksum: u32) -> (r: Result<(), StreamError>)
    ensures
        r is Ok <==> (expected is None || expected->Some_0 == checksum),
        r is Err ==> r->Err_0 == (StreamError::ExpectedChecksumMismatch {
            expected: expected->Some_0,
            actual: checksum,
        }),
{
    match expected {
        Option::None => Ok(()),
        Option::Some(e) => {
            if e == checksum {
                Ok(())
            } else {
                Err(StreamError::ExpectedChecksumMismatch { expected: e, actual: checksum })
            }
        },
    }
}

} // verus!
