//! A library for generating and validating large byte streams that are
//! deterministic functions of a seed.  The stream is cut into fixed-size
//! chunks; each chunk carries a CRC32 trailer over its payload, so a
//! corrupted segment can be pinpointed without re-reading the whole stream.
//! Disjoint chunk ranges can be produced or checked by independent workers
//! whose partial checksums merge into the checksum of a single sequential
//! pass.
//!
//! The stream model lives in [`stream`], over the abstract generator of
//! [`rng`] and the abstract checksum of [`crc`].  The chunk layout is in
//! [`codec`], the split across workers in [`partition`], the workers' own
//! loops in [`generate`] and [`validate`], the combination of their
//! partial results in [`merge`], and the resolution of a run's
//! configuration in [`plan`].  The properties the engine guarantees are
//! stated and proved in [`laws`].

pub mod codec;
pub mod crc;
pub mod errors;
pub mod generate;
pub mod hex;
pub mod laws;
pub mod merge;
pub mod partition;
pub mod plan;
pub mod rng;
pub mod stream;
pub mod validate;
pub mod worker;
