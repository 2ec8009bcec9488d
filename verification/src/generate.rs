//! Producing the stream: a worker's generate loop and the sequential
//! in-memory reference pass.
//!
//! `generate_range` is what each worker runs over its own chunk range,
//! writing through a sink it was handed; whatever prefix of the range it
//! completes (a sibling may request an early stop), the bytes it absorbed
//! into its checksum state are exactly the stream's bytes for that prefix.
//! `generate_to_vec` is the same pass without ports: it returns the whole
//! stream for a range and its checksum, pinned byte for byte to the
//! stream model.

use crate::codec::{chunk_buffer_len, encode_chunk, words_per_chunk};
use crate::crc::{crc32_of, hasher_data, hasher_finalize, hasher_new};
use crate::errors::StreamError;
use crate::partition::{div_ceil, lemma_div_ceil_bounds, u64_div_ceil};
use crate::rng::StreamRng;
use crate::stream::{
    chunk_len, lemma_stream_bytes_len, lemma_stream_bytes_snoc, stream_bytes,
};
use crate::worker::{zero_vec, ByteSink, Monitor, WorkerResult};
use vstd::arithmetic::div_mod::{
    lemma_div_by_multiple, lemma_fundamental_div_mod, lemma_mod_multiples_basic,
};
use vstd::arithmetic::mul::{lemma_mul_inequality, lemma_mul_nonnegative};
use vstd::prelude::*;

verus! {

/// The bytes of a whole run: `stream_size` bytes starting at the aligned
/// byte `position`, chunked from chunk index `position / chunk_size` on.
pub open spec fn full_stream(seed: u64, chunk_size: int, position: int, stream_size: int) -> Seq<
    u8,
> {
    stream_bytes(
        seed,
        chunk_size,
        position + stream_size,
        position / chunk_size,
        position / chunk_size + div_ceil(stream_size, chunk_size),
    )
}

/// One worker's generate pass over chunks `[start_chunk, end_chunk)` of
/// the stream that ends at byte `end_pos`.  On success the worker has
/// processed some prefix of its range and its checksum state has
/// absorbed exactly the stream's bytes for that prefix; unless it was
/// stopped early by a sibling's signal, the prefix is the whole range.
/// An empty range succeeds without touching the sink, and a failure is
/// the sink's input/output failure.
pub fn generate_range<S: ByteSink, M: Monitor>(
    sink: &mut S,
    monitor: &mut M,
    seed: u64,
    chunk_size: usize,
    end_pos: u64,
    start_chunk: u64,
    end_chunk: u64,
) -> (r: Result<WorkerResult, StreamError>)
    requires
        1 <= chunk_size,
        chunk_size + 7 <= usize::MAX,
        start_chunk <= end_chunk,
        start_chunk < end_chunk ==> (end_chunk - 1) * (chunk_size as int) < end_pos,
        end_chunk * words_per_chunk(chunk_size as int) <= u64::MAX,
    ensures
        r is Ok ==> exists|k: int|
            {
                &&& start_chunk <= k <= end_chunk
                &&& hasher_data(r->Ok_0.hasher) == #[trigger] stream_bytes(
                    seed,
                    chunk_size as int,
                    end_pos as int,
                    start_chunk as int,
                    k,
                )
                &&& r->Ok_0.bytes == stream_bytes(
                    seed,
                    chunk_size as int,
                    end_pos as int,
                    start_chunk as int,
                    k,
                ).len()
            },
        r is Ok && !r->Ok_0.stopped_early ==> hasher_data(r->Ok_0.hasher) == stream_bytes(
            seed,
            chunk_size as int,
            end_pos as int,
            start_chunk as int,
            end_chunk as int,
        ) && r->Ok_0.bytes == stream_bytes(
            seed,
            chunk_size as int,
            end_pos as int,
            start_chunk as int,
            end_chunk as int,
        ).len(),
        r is Ok && r->Ok_0.stopped_early ==> final(monitor).may_cancel(),
        start_chunk == end_chunk ==> r is Ok,
        r is Err ==> r->Err_0 is Io,
{
    let ghost cs = chunk_size as int;
    let ghost endp = end_pos as int;
    let cs64: u64 = chunk_size as u64;
    let wpc: u64 = u64_div_ceil(cs64, 8);
    proof {
        lemma_div_ceil_bounds(cs, 8);
        assert(wpc == words_per_chunk(cs));
        lemma_mul_inequality(start_chunk as int, end_chunk as int, wpc as int);
        lemma_mul_nonnegative(start_chunk as int, wpc as int);
    }
    let buffer_size: usize = (wpc * 8) as usize;
    let mut buffer: Vec<u8> = zero_vec(buffer_size);
    let mut rng = StreamRng::new(seed);
    rng.advance_words(start_chunk * wpc);
    let mut hasher = hasher_new();
    let mut total: u64 = 0;
    let mut progress_bytes: u64 = 0;
    let mut chunk: u64 = start_chunk;
    proof {
        assert(stream_bytes(seed, cs, endp, start_chunk as int, start_chunk as int)
            =~= Seq::<u8>::empty());
        assert(chunk * wpc == start_chunk * wpc);
    }
    while chunk < end_chunk
        invariant
            1 <= chunk_size,
            chunk_size + 7 <= usize::MAX,
            cs == chunk_size as int,
            endp == end_pos as int,
            cs64 == chunk_size as u64,
            start_chunk <= chunk <= end_chunk,
            start_chunk < end_chunk ==> (end_chunk - 1) * cs < endp,
            end_chunk * wpc <= u64::MAX,
            wpc == words_per_chunk(cs),
            buffer_size as int == chunk_buffer_len(cs),
            chunk_size <= buffer_size,
            buffer@.len() == buffer_size,
            rng.spec_seed() == seed,
            rng.spec_word_pos() == chunk * wpc,
            hasher_data(hasher) == stream_bytes(seed, cs, endp, start_chunk as int, chunk as int),
            total == stream_bytes(seed, cs, endp, start_chunk as int, chunk as int).len(),
            progress_bytes <= total,
        decreases end_chunk - chunk,
    {
        proof {
            lemma_mul_inequality(chunk as int, end_chunk as int - 1, cs);
            lemma_mod_multiples_basic(wpc as int, 8);
            lemma_div_by_multiple(wpc as int, 8);
            assert((chunk as int + 1) * (wpc as int) == chunk as int * wpc as int + wpc as int)
                by (nonlinear_arith);
            lemma_mul_inequality(chunk as int + 1, end_chunk as int, wpc as int);
            lemma_mul_nonnegative(start_chunk as int, cs);
        }
        let remaining: u64 = end_pos - chunk * cs64;
        let write_size: usize = if remaining >= cs64 {
            chunk_size
        } else {
            remaining as usize
        };
        proof {
            assert(write_size as int == chunk_len(cs, endp, chunk as int));
        }
        encode_chunk(&mut rng, &mut buffer, write_size, &mut hasher);
        proof {
            lemma_stream_bytes_snoc(seed, cs, endp, start_chunk as int, chunk as int);
            lemma_stream_bytes_len(seed, cs, endp, start_chunk as int, chunk as int + 1);
        }
        match sink.write_all(&buffer, write_size) {
            Ok(()) => {},
            Err(e) => { return Err(e) },
        }
        total = total + write_size as u64;
        progress_bytes = progress_bytes + write_size as u64;
        if chunk % 100 == 0 {
            monitor.progress(progress_bytes);
            progress_bytes = 0;
        }
        chunk = chunk + 1;
        if monitor.is_cancelled() {
            proof {
                assert(hasher_data(hasher) == stream_bytes(
                    seed,
                    cs,
                    endp,
                    start_chunk as int,
                    chunk as int,
                ));
            }
            return Ok(WorkerResult { bytes: total, hasher, stopped_early: chunk < end_chunk });
        }
    }
    proof {
        assert(hasher_data(hasher) == stream_bytes(
            seed,
            cs,
            endp,
            start_chunk as int,
            chunk as int,
        ));
    }
    Ok(WorkerResult { bytes: total, hasher, stopped_early: false })
}

/// The sequential reference pass: generate `stream_size` bytes starting
/// at the aligned byte `position`, entirely in memory.  The result is
/// exactly the modelled stream and its whole-stream checksum.
pub fn generate_to_vec(seed: u64, chunk_size: usize, position: u64, stream_size: u64) -> (r: (
    Vec<u8>,
    u32,
))
    requires
        1 <= chunk_size,
        chunk_size + 7 <= usize::MAX,
        position % (chunk_size as u64) == 0,
        position + stream_size <= u64::MAX,
        stream_size <= usize::MAX,
        (position as int / chunk_size as int + div_ceil(stream_size as int, chunk_size as int))
            * words_per_chunk(chunk_size as int) <= u64::MAX,
    ensures
        r.0@ == full_stream(seed, chunk_size as int, position as int, stream_size as int),
        r.0@.len() == stream_size,
        r.1 == crc32_of(r.0@),
{
    let ghost cs = chunk_size as int;
    let ghost endp = position as int + stream_size as int;
    let cs64: u64 = chunk_size as u64;
    let wpc: u64 = u64_div_ceil(cs64, 8);
    let first_chunk: u64 = position / cs64;
    let num_chunks: u64 = u64_div_ceil(stream_size, cs64);
    proof {
        lemma_div_ceil_bounds(cs, 8);
        assert(wpc == words_per_chunk(cs));
        lemma_div_ceil_bounds(stream_size as int, cs);
        lemma_fundamental_div_mod(position as int, cs);
        assert(first_chunk as int * cs == position as int) by (nonlinear_arith)
            requires
                position as int == cs * (position as int / cs) + position as int % cs,
                position as int % cs == 0,
                first_chunk as int == position as int / cs,
        ;
        assert(first_chunk as int + num_chunks as int <= (first_chunk as int + num_chunks as int)
            * wpc as int) by (nonlinear_arith)
            requires
                1 <= wpc,
                0 <= first_chunk as int + num_chunks as int,
        ;
    }
    let end_chunk: u64 = first_chunk + num_chunks;
    proof {
        // the last chunk of a nonempty run starts before the stream's end
        if num_chunks > 0 {
            assert((end_chunk - 1) * cs == first_chunk as int * cs + (num_chunks as int - 1) * cs)
                by (nonlinear_arith)
                requires
                    end_chunk as int == first_chunk as int + num_chunks as int,
            ;
            assert((num_chunks as int - 1) * cs < stream_size as int) by (nonlinear_arith)
                requires
                    num_chunks as int * cs < stream_size as int + cs,
                    1 <= cs,
            ;
        }
        lemma_mul_inequality(first_chunk as int, end_chunk as int, wpc as int);
        lemma_mul_nonnegative(first_chunk as int, wpc as int);
    }
    let buffer_size: usize = (wpc * 8) as usize;
    let end_pos: u64 = position + stream_size;
    let mut buffer: Vec<u8> = zero_vec(buffer_size);
    let mut rng = StreamRng::new(seed);
    rng.advance_words(first_chunk * wpc);
    let mut hasher = hasher_new();
    let mut out: Vec<u8> = Vec::new();
    let mut chunk: u64 = first_chunk;
    proof {
        assert(stream_bytes(seed, cs, endp, first_chunk as int, first_chunk as int)
            =~= Seq::<u8>::empty());
        assert(chunk * wpc == first_chunk * wpc);
    }
    while chunk < end_chunk
        invariant
            1 <= chunk_size,
            chunk_size + 7 <= usize::MAX,
            cs == chunk_size as int,
            endp == position as int + stream_size as int,
            endp <= u64::MAX,
            end_pos as int == endp,
            cs64 == chunk_size as u64,
            first_chunk <= chunk <= end_chunk,
            first_chunk as int * cs == position as int,
            first_chunk < end_chunk ==> (end_chunk - 1) * cs < endp,
            end_chunk * wpc <= u64::MAX,
            wpc == words_per_chunk(cs),
            buffer_size as int == chunk_buffer_len(cs),
            chunk_size <= buffer_size,
            buffer@.len() == buffer_size,
            rng.spec_seed() == seed,
            rng.spec_word_pos() == chunk * wpc,
            hasher_data(hasher) == stream_bytes(seed, cs, endp, first_chunk as int, chunk as int),
            out@ == stream_bytes(seed, cs, endp, first_chunk as int, chunk as int),
            out@.len() <= stream_size,
        decreases end_chunk - chunk,
    {
        proof {
            lemma_mul_inequality(chunk as int, end_chunk as int - 1, cs);
            lemma_mod_multiples_basic(wpc as int, 8);
            lemma_div_by_multiple(wpc as int, 8);
            assert((chunk as int + 1) * (wpc as int) == chunk as int * wpc as int + wpc as int)
                by (nonlinear_arith);
            lemma_mul_inequality(chunk as int + 1, end_chunk as int, wpc as int);
        }
        let remaining: u64 = end_pos - chunk * cs64;
        let write_size: usize = if remaining >= cs64 {
            chunk_size
        } else {
            remaining as usize
        };
        proof {
            assert(write_size as int == chunk_len(cs, endp, chunk as int));
        }
        encode_chunk(&mut rng, &mut buffer, write_size, &mut hasher);
        proof {
            lemma_stream_bytes_snoc(seed, cs, endp, first_chunk as int, chunk as int);
            lemma_stream_bytes_len(seed, cs, endp, first_chunk as int, chunk as int + 1);
            lemma_mul_inequality(first_chunk as int, chunk as int + 1, cs);
        }
        let mut i: usize = 0;
        while i < write_size
            invariant
                i <= write_size,
                write_size <= buffer@.len(),
                out@ == stream_bytes(seed, cs, endp, first_chunk as int, chunk as int)
                    + buffer@.subrange(0, i as int),
                out@.len() + write_size - i <= stream_size,
                buffer@.len() <= usize::MAX,
            decreases write_size - i,
        {
            let b = buffer[i];
            out.push(b);
            proof {
                assert(out@ =~= stream_bytes(seed, cs, endp, first_chunk as int, chunk as int)
                    + buffer@.subrange(0, i + 1));
            }
            i += 1;
        }
        proof {
            assert(out@ =~= stream_bytes(seed, cs, endp, first_chunk as int, chunk as int + 1));
        }
        chunk = chunk + 1;
    }
    proof {
        lemma_stream_bytes_len(seed, cs, endp, first_chunk as int, end_chunk as int);
        assert(end_chunk as int * cs == first_chunk as int * cs + num_chunks as int * cs)
            by (nonlinear_arith)
            requires
                end_chunk as int == first_chunk as int + num_chunks as int,
        ;
        assert(out@.len() == stream_size);
    }
    let checksum = hasher_finalize(hasher);
    (out, checksum)
}

} // verus!
