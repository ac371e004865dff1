//! Thumbnail-cache accounting: aggregate size and count of the thumbnail
//! directory's files, against its fixed size budget. Walking the directory
//! is the shell's concern; the sizes it finds are summed here.

use vstd::prelude::*;

verus! {

/// What the thumbnail cache holds against its budget.
pub struct CacheStats {
    pub total_size: u64,
    pub file_count: usize,
    pub max_size: u64,
}

/// The thumbnail cache's size budget, in bytes (500 MiB).
pub const CACHE_MAX_SIZE: u64 = 524288000;

/// Total of a list of file sizes.
pub open spec fn sum_sizes(sizes: Seq<u64>) -> int
    decreases sizes.len(),
{
    if sizes.len() == 0 {
        0
    } else {
        sum_sizes(sizes.drop_last()) + sizes.last()
    }
}

/// Sum the sizes the directory walk found; a total beyond the 64-bit range
/// saturates.
pub fn dir_cache_stats(sizes: &Vec<u64>) -> (r: CacheStats)
    ensures
        r.file_count == sizes@.len(),
        r.max_size == CACHE_MAX_SIZE,
        sum_sizes(sizes@) <= u64::MAX ==> r.total_size == sum_sizes(sizes@),
        sum_sizes(sizes@) > u64::MAX ==> r.total_size == u64::MAX,
{
    let mut total: u64 = 0;
    let mut saturated = false;
    let n = sizes.len();
    assert(sizes@.take(0) =~= Seq::<u64>::empty());
    for i in 0..n
        invariant
            n == sizes@.len(),
            !saturated ==> total == sum_sizes(sizes@.take(i as int)),
            saturated ==> sum_sizes(sizes@.take(i as int)) > u64::MAX,
            saturated ==> total == u64::MAX,
            sum_sizes(sizes@.take(i as int)) >= total,
    {
        proof {
            assert(sizes@.take(i + 1).drop_last() =~= sizes@.take(i as int));
            assert(sizes@.take(i + 1).last() == sizes@[i as int]);
        }
        let s = sizes[i];
        if !saturated && total <= u64::MAX - s {
            total = total + s;
        } else {
            saturated = true;
            total = u64::MAX;
        }
    }
    proof {
        assert(sizes@.take(n as int) =~= sizes@);
    }
    CacheStats { total_size: total, file_count: n, max_size: CACHE_MAX_SIZE }
}

} // verus!
