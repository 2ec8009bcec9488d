//! The failures a run can report.

use vstd::prelude::*;

verus! {

/// Everything that can go wrong while resolving a run's configuration or
/// while generating or validating a stream.
#[derive(Debug, Clone, PartialEq, Eq)]
pub enum StreamError {
    /// No explicit size was given and none could be read from the target.
    SizeUndeterminable,
    /// The resume position is not a multiple of the chunk size.
    MisalignedPosition { position: u64, chunk_size: u64 },
    /// The resume position lies past the end of the existing target.
    PositionPastEnd { position: u64, size: u64 },
    /// A zero chunk size or a zero worker count.
    InvalidConfiguration,
    /// A chunk whose recomputed payload checksum differs from its trailer.
    /// `expected` is the trailer's value, `actual` the recomputed one.
    ChecksumMismatch { chunk_index: u64, expected: u32, actual: u32 },
    /// A tail chunk too short for a trailer holds a nonzero byte.
    InvalidTrailingBytes { chunk_index: u64 },
    /// The whole-stream checksum differs from the caller's expected value.
    ExpectedChecksumMismatch { expected: u32, actual: u32 },
    /// An input or output operation failed.
    Io,
}

} // verus!
