//! Trusted interface to the CRC32 implementation of the `crc32fast` crate.
//!
//! A `crc32fast::Hasher` is modelled by the sequence of bytes it has absorbed
//! so far: `update` appends bytes to that sequence, `combine` appends the
//! bytes absorbed by another hasher, and `finalize` returns the CRC32 of the
//! whole sequence.  The CRC32 value itself is left abstract: nothing in this
//! crate states what the checksum of a given sequence is, only that it is a
//! function of the bytes alone.

use vstd::prelude::*;

verus! {

/// The CRC32 checksum of a byte sequence, as `crc32fast::Hasher::finalize`
/// computes it.  The value depends on the bytes alone.
pub uninterp spec fn crc32_of(data: Seq<u8>) -> u32;

/// The bytes a `crc32fast::Hasher` has absorbed since it was created.
pub uninterp spec fn hasher_data(h: crc32fast::Hasher) -> Seq<u8>;

#[verifier::external_type_specification]
#[verifier::external_body]
pub struct ExHasher(crc32fast::Hasher);

/// Relies on `crc32fast::Hasher::new`: a fresh hasher has absorbed no bytes.
#[verifier::external_body]
pub fn hasher_new() -> (h: crc32fast::Hasher)
    ensures
        hasher_data(h) == Seq::<u8>::empty(),
{
    crc32fast::Hasher::new()
}

/// Relies on `crc32fast::Hasher::update`: the hasher absorbs the given bytes
/// after those it already held.
#[verifier::external_body]
pub fn hasher_update(h: &mut crc32fast::Hasher, v: &Vec<u8>, start: usize, end: usize)
    requires
        start <= end,
        end <= v@.len(),
    ensures
        hasher_data(*final(h)) == hasher_data(*old(h)) + v@.subrange(
            start as int,
            end as int,
        ),
{
    h.update(&v[start..end]);
}

/// Relies on `crc32fast::Hasher::combine`: the hasher becomes the hasher of
/// its own bytes followed by the bytes of `other` (the documented
/// `crc(a || b)` combination of two checksums over adjacent ranges).
#[verifier::external_body]
pub fn hasher_combine(h: &mut crc32fast::Hasher, other: &crc32fast::Hasher)
    ensures
        hasher_data(*final(h)) == hasher_data(*old(h)) + hasher_data(*other),
{
    h.combine(other);
}

/// Relies on `crc32fast::Hasher::finalize`: the result is the CRC32 of the
/// absorbed bytes.
#[verifier::external_body]
pub fn hasher_finalize(h: crc32fast::Hasher) -> (r: u32)
    ensures
        r == crc32_of(hasher_data(h)),
{
    h.finalize()
}

/// Relies on `crc32fast::Hasher`'s `Clone`: the copy has absorbed the same
/// bytes as the original.
#[verifier::external_body]
pub fn hasher_clone(h: &crc32fast::Hasher) -> (r: crc32fast::Hasher)
    ensures
        hasher_data(r) == hasher_data(*h),
{
    h.clone()
}

} // verus!
