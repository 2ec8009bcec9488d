//! Trusted interface to the seekable generator of the `rand_pcg` crate.
//!
//! A `StreamRng` owns a `Pcg64Mcg` seeded with `seed_from_u64` and keeps,
//! beside it, the seed and a count of the 64-bit words the generator has
//! emitted or skipped.  The byte stream a seed produces is left abstract
//! (`pcg_byte`); the wrappers state that filling a buffer yields the bytes
//! at the current word position and that `advance` moves the position
//! without emitting output.  Together they capture the property the
//! parallel engine rests on: the byte at a given stream offset is the same
//! whether the generator got there by filling or by jumping ahead.

use rand::{Rng, SeedableRng};
use vstd::prelude::*;

verus! {

/// Byte `index` of the infinite byte stream that a `Pcg64Mcg` seeded with
/// `seed_from_u64(seed)` emits through `fill_bytes`.  Each emitted 64-bit
/// word contributes its 8 bytes in little-endian order, so the stream is a
/// function of the seed alone.
pub uninterp spec fn pcg_byte(seed: u64, index: int) -> u8;

#[verifier::external_type_specification]
#[verifier::external_body]
pub struct ExPcg64Mcg(rand_pcg::Mcg128Xsl64);

/// The bytes the generator emits for seed `seed`, starting at word
/// `word_pos`, for `len` bytes.
pub open spec fn pcg_bytes(seed: u64, word_pos: int, len: int) -> Seq<u8> {
    Seq::new(len as nat, |j: int| pcg_byte(seed, word_pos * 8 + j))
}

/// A deterministic generator positioned at a word boundary of the byte
/// stream of its seed.  The fields beside the generator mirror its state;
/// the methods below keep them in step.
pub struct StreamRng {
    inner: rand_pcg::Pcg64Mcg,
    seed: u64,
    word_pos: u64,
}

impl StreamRng {
    /// The seed this generator was created from.
    pub closed spec fn spec_seed(&self) -> u64 {
        self.seed
    }

    /// How many 64-bit words this generator has emitted or skipped.
    pub closed spec fn spec_word_pos(&self) -> u64 {
        self.word_pos
    }

    /// Relies on `SeedableRng::seed_from_u64`: for a fixed seed it
    /// constructs the same generator state in every run.
    #[verifier::external_body]
    pub fn new(seed: u64) -> (r: StreamRng)
        ensures
            r.spec_seed() == seed,
            r.spec_word_pos() == 0,
    {
        StreamRng { inner: rand_pcg::Pcg64Mcg::seed_from_u64(seed), seed, word_pos: 0 }
    }

    /// Relies on `Pcg64Mcg::advance`: advancing by `delta` is documented to
    /// be equivalent to emitting and discarding `delta` 64-bit words.
    #[verifier::external_body]
    pub fn advance_words(&mut self, words: u64)
        requires
            old(self).spec_word_pos() + words <= u64::MAX,
        ensures
            final(self).spec_seed() == old(self).spec_seed(),
            final(self).spec_word_pos() == old(self).spec_word_pos() + words,
    {
        self.inner.advance(words as u128);
        self.word_pos += words;
    }

    /// Relies on `Rng::fill_bytes` on `Pcg64Mcg`: a buffer whose length is
    /// a multiple of 8 is filled with one emitted 64-bit word per 8 bytes,
    /// each word laid down in little-endian order.
    #[verifier::external_body]
    pub fn fill(&mut self, buffer: &mut Vec<u8>)
        requires
            old(buffer)@.len() % 8 == 0,
            old(self).spec_word_pos() + old(buffer)@.len() / 8 <= u64::MAX,
        ensures
            final(self).spec_seed() == old(self).spec_seed(),
            final(self).spec_word_pos() == old(self).spec_word_pos() + old(buffer)@.len() / 8,
            final(buffer)@ == Seq::new(
                old(buffer)@.len(),
                |j: int| pcg_byte(old(self).spec_seed(), old(self).spec_word_pos() * 8 + j),
            ),
    {
        self.inner.fill_bytes(&mut buffer[..]);
        self.word_pos += (buffer.len() / 8) as u64;
    }
}

} // verus!
