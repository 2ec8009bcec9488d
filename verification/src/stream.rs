//! The stream model: what the whole stream looks like for a given seed,
//! chunk size and end position, and how slices of it compose.
//!
//! Chunks are indexed by their absolute position in the stream: chunk `c`
//! covers bytes `[c * chunk_size, (c + 1) * chunk_size)`, clamped to the
//! end of the stream.  A run that resumes at a byte position that is a
//! multiple of the chunk size simply starts at a later chunk index, so the
//! bytes it produces are the same bytes a run from the start would have
//! produced there.

use crate::codec::{chunk_ok, encoded_chunk, words_per_chunk, TRAILER_LEN};
use crate::crc::crc32_of;
use crate::rng::pcg_bytes;
use vstd::bytes::{lemma_auto_spec_u32_to_from_le_bytes, spec_u32_to_le_bytes};
use vstd::prelude::*;

verus! {

/// The visible length of chunk `c`: the chunk size, clamped to what is
/// left of the stream before `end_pos`.
pub open spec fn chunk_len(chunk_size: int, end_pos: int, c: int) -> int {
    if end_pos - c * chunk_size <= chunk_size {
        end_pos - c * chunk_size
    } else {
        chunk_size
    }
}

/// The bytes of chunk `c` of the stream: its generator output starts at
/// word `c * words_per_chunk(chunk_size)`, whether the generator walked
/// there or jumped.
pub open spec fn chunk_bytes(seed: u64, chunk_size: int, end_pos: int, c: int) -> Seq<u8> {
    encoded_chunk(seed, c * words_per_chunk(chunk_size), chunk_len(chunk_size, end_pos, c))
}

/// The bytes of chunks `[from, to)` of the stream, in order.
pub open spec fn stream_bytes(
    seed: u64,
    chunk_size: int,
    end_pos: int,
    from: int,
    to: int,
) -> Seq<u8>
    decreases to - from,
{
    if from >= to {
        Seq::empty()
    } else {
        chunk_bytes(seed, chunk_size, end_pos, from) + stream_bytes(
            seed,
            chunk_size,
            end_pos,
            from + 1,
            to,
        )
    }
}

/// Adjacent chunk ranges concatenate: the bytes of `[a, b)` are the bytes
/// of `[a, m)` followed by the bytes of `[m, b)`.  This is why disjoint
/// worker ranges, written in order, reproduce a sequential pass.
pub proof fn lemma_stream_bytes_concat(
    seed: u64,
    chunk_size: int,
    end_pos: int,
    a: int,
    m: int,
    b: int,
)
    requires
        a <= m <= b,
    ensures
        stream_bytes(seed, chunk_size, end_pos, a, b) == stream_bytes(
            seed,
            chunk_size,
            end_pos,
            a,
            m,
        ) + stream_bytes(seed, chunk_size, end_pos, m, b),
    decreases m - a,
{
    if a < m {
        lemma_stream_bytes_concat(seed, chunk_size, end_pos, a + 1, m, b);
        assert(stream_bytes(seed, chunk_size, end_pos, a, b) =~= stream_bytes(
            seed,
            chunk_size,
            end_pos,
            a,
            m,
        ) + stream_bytes(seed, chunk_size, end_pos, m, b));
    } else {
        assert(stream_bytes(seed, chunk_size, end_pos, a, b) =~= stream_bytes(
            seed,
            chunk_size,
            end_pos,
            a,
            m,
        ) + stream_bytes(seed, chunk_size, end_pos, m, b));
    }
}

/// Extending a chunk range by one chunk appends that chunk's bytes.
pub proof fn lemma_stream_bytes_snoc(seed: u64, chunk_size: int, end_pos: int, from: int, to: int)
    requires
        from <= to,
    ensures
        stream_bytes(seed, chunk_size, end_pos, from, to + 1) == stream_bytes(
            seed,
            chunk_size,
            end_pos,
            from,
            to,
        ) + chunk_bytes(seed, chunk_size, end_pos, to),
{
    lemma_stream_bytes_concat(seed, chunk_size, end_pos, from, to, to + 1);
    assert(stream_bytes(seed, chunk_size, end_pos, to + 1, to + 1) =~= Seq::<u8>::empty());
    assert(stream_bytes(seed, chunk_size, end_pos, to, to + 1) =~= chunk_bytes(
        seed,
        chunk_size,
        end_pos,
        to,
    ));
}

/// The length of a chunk range's bytes: the byte span between its clamped
/// ends.  In particular a range that reaches the last chunk has exactly
/// the bytes up to `end_pos`.
pub proof fn lemma_stream_bytes_len(seed: u64, chunk_size: int, end_pos: int, from: int, to: int)
    requires
        1 <= chunk_size,
        0 <= from <= to,
        0 <= end_pos,
        from < to ==> (to - 1) * chunk_size <= end_pos,
    ensures
        stream_bytes(seed, chunk_size, end_pos, from, to).len() == (if to * chunk_size <= end_pos {
            to * chunk_size
        } else {
            end_pos
        }) - (if from * chunk_size <= end_pos {
            from * chunk_size
        } else {
            end_pos
        }),
    decreases to - from,
{
    if from < to {
        lemma_stream_bytes_len(seed, chunk_size, end_pos, from + 1, to);
        assert((from + 1) * chunk_size == from * chunk_size + chunk_size) by (nonlinear_arith);
        assert(from * chunk_size <= (to - 1) * chunk_size) by (nonlinear_arith)
            requires
                from <= to - 1,
                1 <= chunk_size,
        ;
        let len = chunk_len(chunk_size, end_pos, from);
        assert(0 <= len <= chunk_size);
        lemma_auto_spec_u32_to_from_le_bytes();
        assert(chunk_bytes(seed, chunk_size, end_pos, from).len() == len);
    }
}

/// Every encoded chunk passes validation: with room for a trailer, the
/// trailer is by construction the little-endian CRC32 of the payload; a
/// shorter chunk is all zero.
pub proof fn lemma_encoded_chunk_ok(seed: u64, word_pos: int, len: int)
    ensures
        chunk_ok(encoded_chunk(seed, word_pos, len)),
{
    if len >= TRAILER_LEN {
        let payload = pcg_bytes(seed, word_pos, len - TRAILER_LEN);
        let trailer = spec_u32_to_le_bytes(crc32_of(payload));
        let data = payload + trailer;
        lemma_auto_spec_u32_to_from_le_bytes();
        assert(data.subrange(0, data.len() - TRAILER_LEN) =~= payload);
        assert(data.subrange(data.len() - TRAILER_LEN, data.len() as int) =~= trailer);
    }
}

/// Every chunk of the stream passes validation.
pub proof fn lemma_stream_chunk_ok(seed: u64, chunk_size: int, end_pos: int, c: int)
    ensures
        chunk_ok(chunk_bytes(seed, chunk_size, end_pos, c)),
{
    lemma_encoded_chunk_ok(
        seed,
        c * words_per_chunk(chunk_size),
        chunk_len(chunk_size, end_pos, c),
    );
}

/// The concatenation of the stream slices cut at `cuts[0] <= cuts[1] <=
/// ... <= cuts[n-1]`, in order.
pub open spec fn slices_concat(seed: u64, chunk_size: int, end_pos: int, cuts: Seq<int>) -> Seq<u8>
    decreases cuts.len(),
{
    if cuts.len() < 2 {
        Seq::empty()
    } else {
        stream_bytes(seed, chunk_size, end_pos, cuts[0], cuts[1]) + slices_concat(
            seed,
            chunk_size,
            end_pos,
            cuts.drop_first(),
        )
    }
}

/// Cutting the chunk range `[cuts[0], cuts[n-1])` at any ascending cut
/// points and concatenating the slices in order yields the bytes of the
/// whole range: any valid partitioning of the stream into contiguous
/// ranges composes back to a single sequential pass.
pub proof fn lemma_partition_concat(seed: u64, chunk_size: int, end_pos: int, cuts: Seq<int>)
    requires
        cuts.len() >= 1,
        forall|i: int| 0 <= i < cuts.len() - 1 ==> #[trigger] cuts[i] <= cuts[i + 1],
    ensures
        slices_concat(seed, chunk_size, end_pos, cuts) == stream_bytes(
            seed,
            chunk_size,
            end_pos,
            cuts[0],
            cuts[cuts.len() - 1],
        ),
    decreases cuts.len(),
{
    if cuts.len() < 2 {
        assert(slices_concat(seed, chunk_size, end_pos, cuts) =~= stream_bytes(
            seed,
            chunk_size,
            end_pos,
            cuts[0],
            cuts[cuts.len() - 1],
        ));
    } else {
        let rest = cuts.drop_first();
        assert(forall|i: int|
            0 <= i < rest.len() - 1 ==> #[trigger] rest[i] <= rest[i + 1]) by {
            assert(forall|i: int|
                0 <= i < rest.len() - 1 ==> #[trigger] rest[i] == cuts[i + 1] && rest[i + 1] == cuts[i + 2]);
        }
        lemma_partition_concat(seed, chunk_size, end_pos, rest);
        assert(cuts[0] <= cuts[1]);
        lemma_cuts_ordered(rest);
        lemma_stream_bytes_concat(
            seed,
            chunk_size,
            end_pos,
            cuts[0],
            cuts[1],
            cuts[cuts.len() - 1],
        );
        assert(rest[0] == cuts[1] && rest[rest.len() - 1] == cuts[cuts.len() - 1]);
    }
}

/// In an ascending cut sequence the first cut is at or before the last.
proof fn lemma_cuts_ordered(cuts: Seq<int>)
    requires
        cuts.len() >= 1,
        forall|i: int| 0 <= i < cuts.len() - 1 ==> #[trigger] cuts[i] <= cuts[i + 1],
    ensures
        cuts[0] <= cuts[cuts.len() - 1],
    decreases cuts.len(),
{
    if cuts.len() > 1 {
        let rest = cuts.drop_first();
        assert(forall|i: int|
            0 <= i < rest.len() - 1 ==> #[trigger] rest[i] <= rest[i + 1]) by {
            assert(forall|i: int|
                0 <= i < rest.len() - 1 ==> #[trigger] rest[i] == cuts[i + 1] && rest[i + 1] == cuts[i + 2]);
        }
        lemma_cuts_ordered(rest);
        assert(rest[0] == cuts[1] && rest[rest.len() - 1] == cuts[cuts.len() - 1]);
    }
}

} // verus!
