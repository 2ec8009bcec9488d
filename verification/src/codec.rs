//! The chunk codec: how one chunk of the stream is laid out, produced and
//! checked.
//!
//! A chunk of `len >= 4` bytes holds `len - 4` generator bytes followed by
//! the little-endian CRC32 of those bytes.  A chunk shorter than 4 bytes
//! has no room for a trailer and is all zero.  Whatever its visible length,
//! a chunk consumes a whole buffer of generator output (the chunk size
//! rounded up to a multiple of 8 bytes), so the generator position of any
//! chunk can be reached by jumping ahead a known number of words.

use crate::crc::{
    crc32_of, hasher_combine, hasher_data, hasher_finalize, hasher_new, hasher_update,
};
use crate::errors::StreamError;
use crate::rng::{pcg_bytes, StreamRng};
use vstd::bytes::{spec_u32_from_le_bytes, spec_u32_to_le_bytes, u32_from_le_bytes, u32_to_le_bytes};
use vstd::prelude::*;
use vstd::slice::slice_subrange;

verus! {

/// Number of trailer bytes at the end of a chunk.
pub const TRAILER_LEN: usize = 4;

/// Number of 64-bit generator words one chunk consumes.
pub open spec fn words_per_chunk(chunk_size: int) -> int {
    (chunk_size + 7) / 8
}

/// Number of buffer bytes drawn from the generator for one chunk: the
/// chunk size rounded up to a multiple of 8.
pub open spec fn chunk_buffer_len(chunk_size: int) -> int {
    words_per_chunk(chunk_size) * 8
}

/// The bytes of one encoded chunk of `len` visible bytes whose generator
/// output starts at word `word_pos`: payload then trailer, or all zero if
/// there is no room for a trailer.
pub open spec fn encoded_chunk(seed: u64, word_pos: int, len: int) -> Seq<u8> {
    if len >= TRAILER_LEN {
        let payload = pcg_bytes(seed, word_pos, len - TRAILER_LEN);
        payload + spec_u32_to_le_bytes(crc32_of(payload))
    } else {
        Seq::new(if len >= 0 { len as nat } else { 0 }, |j: int| 0u8)
    }
}

/// A chunk as validation accepts it: with room for a trailer, the last 4
/// bytes are the little-endian CRC32 of the bytes before them; without,
/// every byte is zero.
pub open spec fn chunk_ok(data: Seq<u8>) -> bool {
    if data.len() >= TRAILER_LEN {
        spec_u32_from_le_bytes(data.subrange(data.len() - TRAILER_LEN, data.len() as int))
            == crc32_of(data.subrange(0, data.len() - TRAILER_LEN))
    } else {
        forall|i: int| 0 <= i < data.len() ==> data[i] == 0
    }
}

/// Fill the prefix of `buffer` with one encoded chunk of `write_size`
/// bytes and absorb exactly those bytes into `hasher`.  A chunk with room
/// for a trailer draws a whole buffer of generator output; a shorter chunk
/// is zero-filled and its generator output is discarded, so every chunk
/// advances the generator by exactly one buffer of words.
pub fn encode_chunk(
    rng: &mut StreamRng,
    buffer: &mut Vec<u8>,
    write_size: usize,
    hasher: &mut crc32fast::Hasher,
)
    requires
        old(buffer)@.len() % 8 == 0,
        write_size <= old(buffer)@.len(),
        old(rng).spec_word_pos() + old(buffer)@.len() / 8 <= u64::MAX,
    ensures
        final(buffer)@.len() == old(buffer)@.len(),
        final(rng).spec_seed() == old(rng).spec_seed(),
        final(rng).spec_word_pos() == old(rng).spec_word_pos() + old(buffer)@.len() / 8,
        final(buffer)@.subrange(0, write_size as int) == encoded_chunk(
            old(rng).spec_seed(),
            old(rng).spec_word_pos() as int,
            write_size as int,
        ),
        hasher_data(*final(hasher)) == hasher_data(*old(hasher)) + encoded_chunk(
            old(rng).spec_seed(),
            old(rng).spec_word_pos() as int,
            write_size as int,
        ),
{
    let ghost seed = rng.spec_seed();
    let ghost wp = rng.spec_word_pos() as int;
    let ghost old_hash = hasher_data(*hasher);
    if write_size >= TRAILER_LEN {
        rng.fill(buffer);
        let ghost payload = pcg_bytes(seed, wp, write_size - TRAILER_LEN);
        proof {
            assert(buffer@.subrange(0, write_size - TRAILER_LEN) =~= payload);
        }
        let mut chunk_hasher = hasher_new();
        hasher_update(&mut chunk_hasher, buffer, 0, write_size - 4);
        proof {
            assert(hasher_data(chunk_hasher) =~= payload);
        }
        hasher_combine(hasher, &chunk_hasher);
        let crc = hasher_finalize(chunk_hasher);
        let crc_bytes = u32_to_le_bytes(crc);
        let b0 = crc_bytes[0];
        let b1 = crc_bytes[1];
        let b2 = crc_bytes[2];
        let b3 = crc_bytes[3];
        buffer.set(write_size - 4, b0);
        buffer.set(write_size - 3, b1);
        buffer.set(write_size - 2, b2);
        buffer.set(write_size - 1, b3);
        hasher_update(hasher, buffer, write_size - 4, write_size);
        proof {
            assert(buffer@.subrange(write_size - 4, write_size as int) =~= crc_bytes@);
            assert(buffer@.subrange(0, write_size as int) =~= payload + crc_bytes@);
            assert(hasher_data(*hasher) =~= old_hash + (payload + crc_bytes@));
        }
    } else {
        let words = buffer.len() / 8;
        rng.advance_words(words as u64);
        let mut i: usize = 0;
        while i < write_size
            invariant
                i <= write_size,
                write_size <= buffer@.len(),
                buffer@.len() == old(buffer)@.len(),
                forall|j: int| 0 <= j < i ==> buffer@[j] == 0u8,
            decreases write_size - i,
        {
            buffer.set(i, 0);
            i += 1;
        }
        hasher_update(hasher, buffer, 0, write_size);
        proof {
            assert(buffer@.subrange(0, write_size as int) =~= Seq::new(
                write_size as nat,
                |j: int| 0u8,
            ));
            assert(hasher_data(*hasher) =~= old_hash + Seq::new(write_size as nat, |j: int| 0u8));
        }
    }
}

/// Check the chunk held in `buffer[start..end]`.  With room for a
/// trailer, the payload checksum is recomputed and compared against the
/// trailer; without, every byte must be zero.  A failure names the chunk
/// and does not depend on any other chunk.
pub fn validate_chunk(chunk_index: u64, buffer: &Vec<u8>, start: usize, end: usize) -> (r: Result<
    (),
    StreamError,
>)
    requires
        start <= end <= buffer@.len(),
    ensures
        r is Ok <==> chunk_ok(buffer@.subrange(start as int, end as int)),
        r is Err ==> ({
            let data = buffer@.subrange(start as int, end as int);
            match r->Err_0 {
                StreamError::ChecksumMismatch { chunk_index: ci, expected, actual } => {
                    &&& ci == chunk_index
                    &&& data.len() >= TRAILER_LEN
                    &&& expected == spec_u32_from_le_bytes(
                        data.subrange(data.len() - TRAILER_LEN, data.len() as int),
                    )
                    &&& actual == crc32_of(data.subrange(0, data.len() - TRAILER_LEN))
                    &&& expected != actual
                },
                StreamError::InvalidTrailingBytes { chunk_index: ci } => {
                    &&& ci == chunk_index
                    &&& data.len() < TRAILER_LEN
                    &&& exists|i: int| 0 <= i < data.len() && data[i] != 0
                },
                _ => false,
            }
        }),
{
    let ghost data = buffer@.subrange(start as int, end as int);
    let len = end - start;
    if len >= TRAILER_LEN {
        let mut h = hasher_new();
        hasher_update(&mut h, buffer, start, end - 4);
        proof {
            assert(hasher_data(h) =~= data.subrange(0, data.len() - 4));
        }
        let actual = hasher_finalize(h);
        let trailer = slice_subrange(buffer.as_slice(), end - 4, end);
        proof {
            assert(trailer@ =~= data.subrange(data.len() - 4, data.len() as int));
        }
        let expected = u32_from_le_bytes(trailer);
        if expected != actual {
            Err(StreamError::ChecksumMismatch { chunk_index, expected, actual })
        } else {
            Ok(())
        }
    } else {
        let mut i: usize = 0;
        while i < len
            invariant
                i <= len,
                len == end - start,
                start <= end <= buffer@.len(),
                len < TRAILER_LEN,
                data == buffer@.subrange(start as int, end as int),
                forall|j: int| 0 <= j < i ==> data[j] == 0u8,
            decreases len - i,
        {
            if buffer[start + i] != 0 {
                proof {
                    assert(data[i as int] != 0);
                }
                return Err(StreamError::InvalidTrailingBytes { chunk_index });
            }
            i += 1;
        }
        Ok(())
    }
}

} // verus!
