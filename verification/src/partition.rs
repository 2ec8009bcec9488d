//! The work partitioner: how a stream of chunks is split across workers.
//!
//! With `nc` chunks and `w` workers, each worker owns `ceil(nc / w)`
//! consecutive chunk indices, clamped to `nc`; trailing workers may own an
//! empty range.  The ranges are contiguous, disjoint, in worker order, and
//! together cover every chunk exactly once, so concatenating the workers'
//! outputs reproduces a single sequential pass.

use crate::stream::{lemma_stream_bytes_concat, stream_bytes};
use vstd::arithmetic::div_mod::{
    lemma_basic_div, lemma_div_plus_one, lemma_fundamental_div_mod, lemma_mod_bound,
};
use vstd::arithmetic::mul::lemma_mul_upper_bound;
use vstd::prelude::*;

verus! {

/// `a / b` rounded towards positive infinity.
pub open spec fn div_ceil(a: int, b: int) -> int {
    (a + b - 1) / b
}

/// Rounded-up division on machine words.
pub fn u64_div_ceil(a: u64, b: u64) -> (r: u64)
    requires
        1 <= b,
    ensures
        r == div_ceil(a as int, b as int),
{
    if a == 0 {
        proof {
            lemma_basic_div(b as int - 1, b as int);
        }
        0
    } else {
        proof {
            lemma_div_plus_one(a as int - 1, b as int);
        }
        (a - 1) / b + 1
    }
}

/// Bounds of the rounded-up quotient: `div_ceil(a, b) * b` reaches `a` but
/// overshoots it by less than `b`.
pub proof fn lemma_div_ceil_bounds(a: int, b: int)
    requires
        0 <= a,
        1 <= b,
    ensures
        0 <= div_ceil(a, b),
        a <= div_ceil(a, b) * b,
        div_ceil(a, b) * b < a + b,
{
    let q = div_ceil(a, b);
    lemma_fundamental_div_mod(a + b - 1, b);
    lemma_mod_bound(a + b - 1, b);
    assert(a + b - 1 == b * q + (a + b - 1) % b);
    assert(q * b == b * q) by (nonlinear_arith);
    assert(0 <= q) by (nonlinear_arith)
        requires
            1 <= b,
            a + b - 1 == b * q + (a + b - 1) % b,
            0 <= (a + b - 1) % b < b,
            0 <= a,
    ;
}

/// First chunk index (relative to the run's first chunk) of worker `i`.
pub open spec fn worker_start(i: int, chunks_per_worker: int, num_chunks: int) -> int {
    if i * chunks_per_worker <= num_chunks {
        i * chunks_per_worker
    } else {
        num_chunks
    }
}

/// One-past-the-last chunk index (relative) of worker `i`.
pub open spec fn worker_end(i: int, chunks_per_worker: int, num_chunks: int) -> int {
    worker_start(i + 1, chunks_per_worker, num_chunks)
}

/// The chunk range owned by one worker: `chunks_per_worker` consecutive
/// indices starting at `worker * chunks_per_worker`, clamped to
/// `num_chunks`.
pub fn worker_range(worker: u64, chunks_per_worker: u64, num_chunks: u64) -> (r: (u64, u64))
    requires
        worker < u64::MAX,
    ensures
        r.0 == worker_start(worker as int, chunks_per_worker as int, num_chunks as int),
        r.1 == worker_end(worker as int, chunks_per_worker as int, num_chunks as int),
        r.0 <= r.1 <= num_chunks,
{
    proof {
        lemma_mul_upper_bound(
            worker as int + 1,
            u64::MAX as int,
            chunks_per_worker as int,
            u64::MAX as int,
        );
        lemma_mul_upper_bound(
            worker as int,
            u64::MAX as int,
            chunks_per_worker as int,
            u64::MAX as int,
        );
        assert(u64::MAX as int * u64::MAX as int <= u128::MAX) by (nonlinear_arith);
        lemma_mul_upper_bound(
            worker as int,
            worker as int + 1,
            chunks_per_worker as int,
            chunks_per_worker as int,
        );
    }
    let lo: u128 = (worker as u128) * (chunks_per_worker as u128);
    let hi: u128 = (worker as u128 + 1) * (chunks_per_worker as u128);
    let start = if lo >= num_chunks as u128 {
        num_chunks
    } else {
        lo as u64
    };
    let end = if hi >= num_chunks as u128 {
        num_chunks
    } else {
        hi as u64
    };
    (start, end)
}

/// The concatenated outputs of workers `0 .. w`, each contributing the
/// bytes of its own chunk range, in worker order.
pub open spec fn workers_concat(
    seed: u64,
    chunk_size: int,
    end_pos: int,
    first_chunk: int,
    chunks_per_worker: int,
    num_chunks: int,
    w: int,
) -> Seq<u8>
    decreases w,
{
    if w <= 0 {
        Seq::empty()
    } else {
        workers_concat(seed, chunk_size, end_pos, first_chunk, chunks_per_worker, num_chunks, w - 1)
            + stream_bytes(
            seed,
            chunk_size,
            end_pos,
            first_chunk + worker_start(w - 1, chunks_per_worker, num_chunks),
            first_chunk + worker_end(w - 1, chunks_per_worker, num_chunks),
        )
    }
}

/// The first `w` worker ranges tile the chunks up to `worker_start(w)`:
/// their outputs concatenate to one contiguous slice of the stream.
proof fn lemma_workers_concat_prefix(
    seed: u64,
    chunk_size: int,
    end_pos: int,
    first_chunk: int,
    chunks_per_worker: int,
    num_chunks: int,
    w: int,
)
    requires
        0 <= w,
        0 <= chunks_per_worker,
        0 <= num_chunks,
    ensures
        workers_concat(seed, chunk_size, end_pos, first_chunk, chunks_per_worker, num_chunks, w)
            == stream_bytes(
            seed,
            chunk_size,
            end_pos,
            first_chunk,
            first_chunk + worker_start(w, chunks_per_worker, num_chunks),
        ),
    decreases w,
{
    if w <= 0 {
        assert(0 * chunks_per_worker == 0) by (nonlinear_arith);
        assert(workers_concat(
            seed,
            chunk_size,
            end_pos,
            first_chunk,
            chunks_per_worker,
            num_chunks,
            w,
        ) =~= stream_bytes(
            seed,
            chunk_size,
            end_pos,
            first_chunk,
            first_chunk + worker_start(w, chunks_per_worker, num_chunks),
        ));
    } else {
        lemma_workers_concat_prefix(
            seed,
            chunk_size,
            end_pos,
            first_chunk,
            chunks_per_worker,
            num_chunks,
            w - 1,
        );
        assert((w - 1) * chunks_per_worker + chunks_per_worker == w * chunks_per_worker)
            by (nonlinear_arith);
        assert(0 <= (w - 1) * chunks_per_worker) by (nonlinear_arith)
            requires
                1 <= w,
                0 <= chunks_per_worker,
        ;
        lemma_stream_bytes_concat(
            seed,
            chunk_size,
            end_pos,
            first_chunk,
            first_chunk + worker_start(w - 1, chunks_per_worker, num_chunks),
            first_chunk + worker_start(w, chunks_per_worker, num_chunks),
        );
    }
}

/// Determinism of the partition: for any worker count, the concatenation
/// of all workers' outputs, in worker order, is byte for byte the stream
/// a single sequential pass over the same chunk range produces.
pub proof fn lemma_partition_covers_stream(
    seed: u64,
    chunk_size: int,
    end_pos: int,
    first_chunk: int,
    num_chunks: int,
    workers: int,
)
    requires
        1 <= workers,
        0 <= num_chunks,
    ensures
        workers_concat(
            seed,
            chunk_size,
            end_pos,
            first_chunk,
            div_ceil(num_chunks, workers),
            num_chunks,
            workers,
        ) == stream_bytes(seed, chunk_size, end_pos, first_chunk, first_chunk + num_chunks),
{
    let cpw = div_ceil(num_chunks, workers);
    lemma_div_ceil_bounds(num_chunks, workers);
    assert(0 <= cpw) by (nonlinear_arith)
        requires
            1 <= workers,
            num_chunks <= cpw * workers,
            0 <= num_chunks,
    ;
    lemma_workers_concat_prefix(
        seed,
        chunk_size,
        end_pos,
        first_chunk,
        cpw,
        num_chunks,
        workers,
    );
    assert(workers * cpw == cpw * workers) by (nonlinear_arith);
    assert(worker_start(workers, cpw, num_chunks) == num_chunks);
}

} // verus!
