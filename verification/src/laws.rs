//! Properties of the engine, stated and proved as theorems over the
//! stream model: generated streams validate, a resumed run reproduces
//! the bytes of a full run, a short tail is all zero, and a damaged
//! trailer never validates.

use crate::codec::{chunk_ok, TRAILER_LEN};
use crate::crc::{crc32_of, hasher_data};
use crate::generate::full_stream;
use crate::merge::{partials_bytes, partials_data};
use crate::partition::{
    div_ceil, lemma_div_ceil_bounds, lemma_partition_covers_stream, worker_end, worker_start,
    workers_concat,
};
use crate::stream::{
    chunk_bytes, chunk_len, lemma_partition_concat, lemma_stream_bytes_concat,
    lemma_stream_bytes_len, lemma_stream_bytes_snoc, lemma_stream_chunk_ok, slices_concat,
    stream_bytes,
};
use crate::validate::{buffer_chunk, buffer_num_chunks, buffer_ok};
use crate::worker::WorkerResult;
use vstd::arithmetic::div_mod::{lemma_basic_div, lemma_fundamental_div_mod};
use vstd::arithmetic::mul::lemma_mul_inequality;
use vstd::bytes::lemma_auto_spec_u32_to_from_le_bytes;
use vstd::prelude::*;

verus! {

/// Window `c` of the whole stream's bytes is exactly chunk `c` of the
/// stream model: cutting the generated bytes back into chunk-sized
/// windows recovers the chunks.
pub proof fn lemma_stream_window(seed: u64, chunk_size: int, end_pos: int, to: int, c: int)
    requires
        1 <= chunk_size,
        0 <= end_pos,
        0 <= c < to,
        (to - 1) * chunk_size <= end_pos,
        to * chunk_size >= end_pos,
    ensures
        buffer_chunk(stream_bytes(seed, chunk_size, end_pos, 0, to), chunk_size, c) == chunk_bytes(
            seed,
            chunk_size,
            end_pos,
            c,
        ),
{
    let d = stream_bytes(seed, chunk_size, end_pos, 0, to);
    lemma_mul_inequality(c, to - 1, chunk_size);
    lemma_mul_inequality(c - 1, to - 1, chunk_size);
    lemma_mul_inequality(c + 1, to, chunk_size);
    assert((c + 1) * chunk_size == c * chunk_size + chunk_size) by (nonlinear_arith);
    vstd::arithmetic::mul::lemma_mul_nonnegative(c, chunk_size);
    lemma_stream_bytes_concat(seed, chunk_size, end_pos, 0, c, to);
    lemma_stream_bytes_concat(seed, chunk_size, end_pos, c, c + 1, to);
    lemma_stream_bytes_snoc(seed, chunk_size, end_pos, c, c);
    assert(stream_bytes(seed, chunk_size, end_pos, c, c) =~= Seq::<u8>::empty());
    assert(stream_bytes(seed, chunk_size, end_pos, c, c + 1) =~= chunk_bytes(
        seed,
        chunk_size,
        end_pos,
        c,
    ));
    lemma_stream_bytes_len(seed, chunk_size, end_pos, 0, c);
    lemma_stream_bytes_len(seed, chunk_size, end_pos, 0, to);
    lemma_auto_spec_u32_to_from_le_bytes();
    assert(chunk_bytes(seed, chunk_size, end_pos, c).len() == chunk_len(
        chunk_size,
        end_pos,
        c,
    ));
    assert(buffer_chunk(d, chunk_size, c) =~= chunk_bytes(seed, chunk_size, end_pos, c));
}

/// Round trip: every chunk-sized window of a generated stream is a
/// well-formed chunk, so validating what was generated succeeds with no
/// mismatch, whatever the stream's size.
pub proof fn lemma_round_trip(seed: u64, chunk_size: int, stream_size: int)
    requires
        1 <= chunk_size,
        0 <= stream_size,
    ensures
        full_stream(seed, chunk_size, 0, stream_size).len() == stream_size,
        buffer_ok(full_stream(seed, chunk_size, 0, stream_size), chunk_size),
{
    let q = div_ceil(stream_size, chunk_size);
    lemma_div_ceil_bounds(stream_size, chunk_size);
    lemma_basic_div(0, chunk_size);
    assert((q - 1) * chunk_size == q * chunk_size - chunk_size) by (nonlinear_arith);
    let d = full_stream(seed, chunk_size, 0, stream_size);
    assert(d == stream_bytes(seed, chunk_size, stream_size, 0, q));
    lemma_stream_bytes_len(seed, chunk_size, stream_size, 0, q);
    assert(d.len() == stream_size);
    assert(buffer_num_chunks(d, chunk_size) == q);
    assert forall|c: int| 0 <= c < q implies chunk_ok(
        #[trigger] buffer_chunk(d, chunk_size, c),
    ) by {
        lemma_stream_window(seed, chunk_size, stream_size, q, c);
        lemma_stream_chunk_ok(seed, chunk_size, stream_size, c);
    }
}

/// Resume correctness: a run of `stream_size` bytes resumed at the
/// aligned byte `position` produces exactly the bytes a full run from
/// the start would have written there.
pub proof fn lemma_resume(seed: u64, chunk_size: int, position: int, stream_size: int)
    requires
        1 <= chunk_size,
        0 <= position,
        0 <= stream_size,
        position % chunk_size == 0,
    ensures
        full_stream(seed, chunk_size, position, stream_size) == full_stream(
            seed,
            chunk_size,
            0,
            position + stream_size,
        ).subrange(position, position + stream_size),
{
    let total = position + stream_size;
    let first = position / chunk_size;
    let q1 = div_ceil(stream_size, chunk_size);
    let q0 = div_ceil(total, chunk_size);
    lemma_fundamental_div_mod(position, chunk_size);
    assert(first * chunk_size == position) by (nonlinear_arith)
        requires
            position == chunk_size * (position / chunk_size) + position % chunk_size,
            position % chunk_size == 0,
            first == position / chunk_size,
    ;
    lemma_div_ceil_bounds(stream_size, chunk_size);
    lemma_div_ceil_bounds(total, chunk_size);
    lemma_basic_div(0, chunk_size);
    assert((first + q1) * chunk_size == first * chunk_size + q1 * chunk_size)
        by (nonlinear_arith);
    assert(q0 == first + q1) by (nonlinear_arith)
        requires
            1 <= chunk_size,
            total <= q0 * chunk_size < total + chunk_size,
            total <= (first + q1) * chunk_size < total + chunk_size,
    ;
    lemma_stream_bytes_concat(seed, chunk_size, total, 0, first, q0);
    assert((first - 1) * chunk_size <= first * chunk_size) by (nonlinear_arith)
        requires
            1 <= chunk_size,
    ;
    assert((q0 - 1) * chunk_size == q0 * chunk_size - chunk_size) by (nonlinear_arith);
    lemma_stream_bytes_len(seed, chunk_size, total, 0, first);
    lemma_stream_bytes_len(seed, chunk_size, total, 0, q0);
    let d0 = full_stream(seed, chunk_size, 0, total);
    assert(d0 == stream_bytes(seed, chunk_size, total, 0, q0));
    assert(d0.len() == total);
    assert(stream_bytes(seed, chunk_size, total, 0, first).len() == position);
    assert(full_stream(seed, chunk_size, position, stream_size) == stream_bytes(
        seed,
        chunk_size,
        total,
        first,
        q0,
    ));
    assert(d0.subrange(position, total) =~= stream_bytes(seed, chunk_size, total, first, q0));
}

/// Checksum merge correctness: for any valid partitioning of a chunk
/// range into contiguous slices, the checksum of the slices merged in
/// ascending order is the checksum a single pass over the whole range
/// computes.
pub proof fn lemma_partition_checksum(seed: u64, chunk_size: int, end_pos: int, cuts: Seq<int>)
    requires
        cuts.len() >= 1,
        forall|i: int| 0 <= i < cuts.len() - 1 ==> #[trigger] cuts[i] <= cuts[i + 1],
    ensures
        crc32_of(slices_concat(seed, chunk_size, end_pos, cuts)) == crc32_of(
            stream_bytes(seed, chunk_size, end_pos, cuts[0], cuts[cuts.len() - 1]),
        ),
{
    lemma_partition_concat(seed, chunk_size, end_pos, cuts);
}

/// Short-tail zero rule, generation side: when the stream's size leaves
/// a tail of 1 to 3 bytes after the last full chunk, the final window is
/// that short and every byte of it is zero.
pub proof fn lemma_short_tail_zero(seed: u64, chunk_size: int, stream_size: int)
    requires
        1 <= chunk_size,
        0 <= stream_size,
        1 <= stream_size % chunk_size <= 3,
    ensures
        ({
            let d = full_stream(seed, chunk_size, 0, stream_size);
            let last = stream_size / chunk_size;
            &&& buffer_num_chunks(d, chunk_size) == last + 1
            &&& buffer_chunk(d, chunk_size, last).len() == stream_size % chunk_size
            &&& forall|i: int|
                0 <= i < buffer_chunk(d, chunk_size, last).len() ==> buffer_chunk(
                    d,
                    chunk_size,
                    last,
                )[i] == 0
        }),
{
    let last = stream_size / chunk_size;
    let q = div_ceil(stream_size, chunk_size);
    let rem = stream_size % chunk_size;
    lemma_fundamental_div_mod(stream_size, chunk_size);
    lemma_div_ceil_bounds(stream_size, chunk_size);
    vstd::arithmetic::div_mod::lemma_mod_bound(stream_size, chunk_size);
    assert(last * chunk_size == stream_size - rem) by (nonlinear_arith)
        requires
            stream_size == chunk_size * (stream_size / chunk_size) + rem,
            last == stream_size / chunk_size,
    ;
    assert((last + 1) * chunk_size == last * chunk_size + chunk_size) by (nonlinear_arith);
    assert(q == last + 1) by (nonlinear_arith)
        requires
            1 <= chunk_size,
            stream_size <= q * chunk_size < stream_size + chunk_size,
            stream_size <= (last + 1) * chunk_size < stream_size + chunk_size,
    ;
    lemma_round_trip(seed, chunk_size, stream_size);
    let d = full_stream(seed, chunk_size, 0, stream_size);
    lemma_stream_window(seed, chunk_size, stream_size, q, last);
    assert(chunk_len(chunk_size, stream_size, last) == rem);
    assert(rem < TRAILER_LEN);
    assert(buffer_chunk(d, chunk_size, last) == chunk_bytes(
        seed,
        chunk_size,
        stream_size,
        last,
    ));
    assert(buffer_chunk(d, chunk_size, last).len() == rem);
}

/// Short-tail zero rule, validation side: a window too short for a
/// trailer validates exactly when every byte of it is zero.
pub proof fn lemma_short_tail_validation(w: Seq<u8>)
    requires
        w.len() < TRAILER_LEN,
    ensures
        chunk_ok(w) <==> (forall|i: int| 0 <= i < w.len() ==> w[i] == 0),
{
}

/// The first `w` partials of a completed run line up with the first `w`
/// worker ranges.
proof fn lemma_partials_match_workers(
    seed: u64,
    chunk_size: int,
    end_pos: int,
    first_chunk: int,
    chunks_per_worker: int,
    num_chunks: int,
    partials: Seq<WorkerResult>,
    w: int,
)
    requires
        0 <= w <= partials.len(),
        forall|i: int|
            0 <= i < partials.len() ==> hasher_data((#[trigger] partials[i]).hasher)
                == stream_bytes(
                seed,
                chunk_size,
                end_pos,
                first_chunk + worker_start(i, chunks_per_worker, num_chunks),
                first_chunk + worker_end(i, chunks_per_worker, num_chunks),
            ),
        forall|i: int|
            0 <= i < partials.len() ==> (#[trigger] partials[i]).bytes == hasher_data(
                partials[i].hasher,
            ).len(),
    ensures
        partials_data(partials.subrange(0, w)) == workers_concat(
            seed,
            chunk_size,
            end_pos,
            first_chunk,
            chunks_per_worker,
            num_chunks,
            w,
        ),
        partials_bytes(partials.subrange(0, w)) == workers_concat(
            seed,
            chunk_size,
            end_pos,
            first_chunk,
            chunks_per_worker,
            num_chunks,
            w,
        ).len(),
    decreases w,
{
    if w == 0 {
        assert(partials.subrange(0, 0) =~= Seq::<WorkerResult>::empty());
        assert(partials_data(Seq::<WorkerResult>::empty()) == Seq::<u8>::empty());
        assert(partials_bytes(Seq::<WorkerResult>::empty()) == 0);
    } else {
        lemma_partials_match_workers(
            seed,
            chunk_size,
            end_pos,
            first_chunk,
            chunks_per_worker,
            num_chunks,
            partials,
            w - 1,
        );
        let sub = partials.subrange(0, w);
        assert(sub.drop_last() =~= partials.subrange(0, w - 1));
        assert(sub.last() == partials[w - 1]);
    }
}

/// Completion: when every worker of a run absorbed exactly its whole
/// chunk range, merging the partials in worker order yields the whole
/// stream's byte count and the checksum of the whole stream's bytes —
/// the total a single sequential pass would report.
pub proof fn lemma_complete_run(
    seed: u64,
    chunk_size: int,
    end_pos: int,
    first_chunk: int,
    num_chunks: int,
    partials: Seq<WorkerResult>,
)
    requires
        1 <= partials.len(),
        0 <= num_chunks,
        forall|i: int|
            0 <= i < partials.len() ==> hasher_data((#[trigger] partials[i]).hasher)
                == stream_bytes(
                seed,
                chunk_size,
                end_pos,
                first_chunk + worker_start(
                    i,
                    div_ceil(num_chunks, partials.len() as int),
                    num_chunks,
                ),
                first_chunk + worker_end(
                    i,
                    div_ceil(num_chunks, partials.len() as int),
                    num_chunks,
                ),
            ),
        forall|i: int|
            0 <= i < partials.len() ==> (#[trigger] partials[i]).bytes == hasher_data(
                partials[i].hasher,
            ).len(),
    ensures
        partials_data(partials) == stream_bytes(
            seed,
            chunk_size,
            end_pos,
            first_chunk,
            first_chunk + num_chunks,
        ),
        partials_bytes(partials) == stream_bytes(
            seed,
            chunk_size,
            end_pos,
            first_chunk,
            first_chunk + num_chunks,
        ).len(),
{
    let cpw = div_ceil(num_chunks, partials.len() as int);
    lemma_partials_match_workers(
        seed,
        chunk_size,
        end_pos,
        first_chunk,
        cpw,
        num_chunks,
        partials,
        partials.len() as int,
    );
    assert(partials.subrange(0, partials.len() as int) =~= partials);
    lemma_partition_covers_stream(
        seed,
        chunk_size,
        end_pos,
        first_chunk,
        num_chunks,
        partials.len() as int,
    );
}

/// Corruption of a payload byte: changing a payload byte of a
/// well-formed chunk leaves a chunk that no longer validates, whenever
/// the change alters the recomputed payload checksum.  That CRC32
/// alters on every single-byte change is a property of the checksum
/// itself, which this library leaves abstract, so it stands here as the
/// hypothesis.
pub proof fn lemma_payload_corruption(w: Seq<u8>, i: int, b: u8)
    requires
        chunk_ok(w),
        w.len() >= TRAILER_LEN,
        0 <= i < w.len() - TRAILER_LEN,
        crc32_of(w.update(i, b).subrange(0, w.len() - TRAILER_LEN)) != crc32_of(
            w.subrange(0, w.len() - TRAILER_LEN),
        ),
    ensures
        !chunk_ok(w.update(i, b)),
{
    let n = w.len() as int;
    let w2 = w.update(i, b);
    assert(w2.subrange(n - TRAILER_LEN, n) =~= w.subrange(n - TRAILER_LEN, n));
}

/// Corruption of a trailer byte is always detected: changing any byte of
/// a well-formed chunk's trailer leaves a chunk that no longer
/// validates.
pub proof fn lemma_trailer_corruption(w: Seq<u8>, i: int, b: u8)
    requires
        chunk_ok(w),
        w.len() >= TRAILER_LEN,
        w.len() - TRAILER_LEN <= i < w.len(),
        b != w[i],
    ensures
        !chunk_ok(w.update(i, b)),
{
    let n = w.len() as int;
    let w2 = w.update(i, b);
    let t = w.subrange(n - TRAILER_LEN, n);
    let t2 = w2.subrange(n - TRAILER_LEN, n);
    assert(w2.subrange(0, n - TRAILER_LEN) =~= w.subrange(0, n - TRAILER_LEN));
    assert(t2[i - (n - TRAILER_LEN)] != t[i - (n - TRAILER_LEN)]);
    lemma_auto_spec_u32_to_from_le_bytes();
    if chunk_ok(w2) {
        assert(vstd::bytes::spec_u32_from_le_bytes(t2) == vstd::bytes::spec_u32_from_le_bytes(t));
        assert(vstd::bytes::spec_u32_to_le_bytes(vstd::bytes::spec_u32_from_le_bytes(t2)) == t2);
        assert(vstd::bytes::spec_u32_to_le_bytes(vstd::bytes::spec_u32_from_le_bytes(t)) == t);
        assert(false);
    }
}

} // verus!
