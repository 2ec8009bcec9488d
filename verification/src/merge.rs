//! Merging per-worker partial results into one global result.
//!
//! Workers hand back their byte counts and checksum states in worker
//! order; merging sums the counts and combines the checksum states in
//! that order, so the final checksum is the checksum of the
//! concatenation of all the workers' bytes — without re-reading any of
//! them.

use crate::crc::{crc32_of, hasher_clone, hasher_combine, hasher_data, hasher_finalize};
use crate::worker::WorkerResult;
use vstd::prelude::*;

verus! {

/// The concatenation of the partials' absorbed bytes, in order.
pub open spec fn partials_data(ps: Seq<WorkerResult>) -> Seq<u8>
    decreases ps.len(),
{
    if ps.len() == 0 {
        Seq::empty()
    } else {
        partials_data(ps.drop_last()) + hasher_data(ps.last().hasher)
    }
}

/// The sum of the partials' byte counts.
pub open spec fn partials_bytes(ps: Seq<WorkerResult>) -> int
    decreases ps.len(),
{
    if ps.len() == 0 {
        0
    } else {
        partials_bytes(ps.drop_last()) + ps.last().bytes
    }
}

/// Byte-count sums grow along prefixes and never go negative.
proof fn lemma_partials_bytes_prefix(ps: Seq<WorkerResult>, i: int)
    requires
        0 <= i <= ps.len(),
    ensures
        0 <= partials_bytes(ps.subrange(0, i)) <= partials_bytes(ps),
    decreases ps.len(),
{
    if ps.len() == 0 {
        assert(ps.subrange(0, i) =~= ps);
    } else if i == ps.len() {
        assert(ps.subrange(0, i) =~= ps);
        lemma_partials_bytes_prefix(ps.drop_last(), ps.len() - 1);
        assert(ps.drop_last().subrange(0, ps.len() - 1) =~= ps.drop_last());
    } else {
        lemma_partials_bytes_prefix(ps.drop_last(), i);
        assert(ps.drop_last().subrange(0, i) =~= ps.subrange(0, i));
    }
}

/// Merge the workers' partial results, in worker order: the total byte
/// count and the checksum of the concatenation of all their bytes.
pub fn merge_partials(partials: &Vec<WorkerResult>) -> (r: (u64, u32))
    requires
        partials@.len() >= 1,
        partials_bytes(partials@) <= u64::MAX,
    ensures
        r.0 == partials_bytes(partials@),
        r.1 == crc32_of(partials_data(partials@)),
{
    let mut hasher = hasher_clone(&partials[0].hasher);
    let mut total: u64 = partials[0].bytes;
    proof {
        assert(partials@.subrange(0, 1).drop_last() =~= Seq::<WorkerResult>::empty());
        assert(partials@.subrange(0, 1).last() == partials@[0]);
        assert(partials_data(Seq::<WorkerResult>::empty()) == Seq::<u8>::empty());
        assert(partials_bytes(Seq::<WorkerResult>::empty()) == 0);
        assert(partials_data(partials@.subrange(0, 1)) =~= hasher_data(partials@[0].hasher));
        assert(partials_bytes(partials@.subrange(0, 1)) == partials@[0].bytes);
    }
    let mut i: usize = 1;
    while i < partials.len()
        invariant
            1 <= i <= partials@.len(),
            partials_bytes(partials@) <= u64::MAX,
            hasher_data(hasher) == partials_data(partials@.subrange(0, i as int)),
            total == partials_bytes(partials@.subrange(0, i as int)),
        decreases partials@.len() - i,
    {
        proof {
            lemma_partials_bytes_prefix(partials@, i + 1);
            assert(partials@.subrange(0, i + 1).drop_last() =~= partials@.subrange(0, i as int));
            assert(partials@.subrange(0, i + 1).last() == partials@[i as int]);
        }
        hasher_combine(&mut hasher, &partials[i].hasher);
        total = total + partials[i].bytes;
        i += 1;
    }
    proof {
        assert(partials@.subrange(0, partials@.len() as int) =~= partials@);
    }
    let checksum = hasher_finalize(hasher);
    (total, checksum)
}

} // verus!
