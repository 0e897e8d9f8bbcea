//! Partitioner: divides `[0, file_size)` into one contiguous byte range per
//! worker. The arithmetic is deliberately independent of file contents; the
//! last range may overshoot `file_size`, and scanners clamp to end-of-file.

use vstd::prelude::*;

verus! {

use vstd::arithmetic::div_mod::lemma_div_pos_is_pos;
use vstd::arithmetic::div_mod::lemma_multiply_divide_lt;
use vstd::arithmetic::div_mod::lemma_remainder_lower;
use vstd::arithmetic::div_mod::lemma_remainder_upper;
use vstd::arithmetic::mul::lemma_mul_inequality;

/// A contiguous, half-open span `[start, end)` of file byte offsets,
/// assigned to exactly one worker.
#[derive(Clone, Copy, PartialEq, Eq, Structural, Debug)]
pub struct ByteRange {
    pub start: u64,
    pub end: u64,
}

impl ByteRange {
    /// A well-formed range never runs backwards.
    pub open spec fn wf(&self) -> bool {
        self.start <= self.end
    }
}

/// Bytes per worker: `file_size / worker_count`, rounded up.
pub open spec fn spec_partition_size(file_size: int, worker_count: int) -> int
    recommends
        worker_count >= 1,
{
    (file_size + worker_count - 1) / worker_count
}

/// Start offset of worker `i`'s range.
pub open spec fn spec_range_start(file_size: int, worker_count: int, i: int) -> int {
    i * spec_partition_size(file_size, worker_count)
}

/// End offset of worker `i`'s range. For the last worker this may exceed
/// `file_size`; the scanner clamps to the actual end of the file.
pub open spec fn spec_range_end(file_size: int, worker_count: int, i: int) -> int {
    (i + 1) * spec_partition_size(file_size, worker_count)
}

/// The rounded-up partition size is nonnegative, all partitions together
/// reach at least `file_size`, and they overshoot it by less than one
/// byte per worker.
pub proof fn lemma_partition_size_bounds(file_size: int, worker_count: int)
    requires
        worker_count >= 1,
        file_size >= 0,
    ensures
        spec_partition_size(file_size, worker_count) >= 0,
        worker_count * spec_partition_size(file_size, worker_count) >= file_size,
        worker_count * spec_partition_size(file_size, worker_count) <= file_size + worker_count - 1,
{
    let x = file_size + worker_count - 1;
    let q = spec_partition_size(file_size, worker_count);
    lemma_div_pos_is_pos(x, worker_count);
    lemma_remainder_lower(x, worker_count);
    lemma_remainder_upper(x, worker_count);
    assert(x / worker_count * worker_count == worker_count * q);
}

/// Rounded-up division of `file_size` by `worker_count`, as the driver
/// computes it before spawning workers.
pub fn partition_size(file_size: u64, worker_count: usize) -> (ps: u64)
    requires
        worker_count >= 1,
        file_size + worker_count - 1 <= u64::MAX,
    ensures
        ps == spec_partition_size(file_size as int, worker_count as int),
{
    (file_size + (worker_count as u64 - 1)) / worker_count as u64
}

/// Computes one byte range per worker. The ranges start at 0, are
/// contiguous (each begins where the previous one ends), are well formed,
/// and together reach at least `file_size`, so every in-file offset falls
/// in exactly one of them.
pub fn partition(file_size: u64, worker_count: usize) -> (ranges: Vec<ByteRange>)
    requires
        worker_count >= 1,
        file_size + worker_count - 1 <= u64::MAX,
    ensures
        ranges@.len() == worker_count,
        forall|i: int|
            0 <= i < worker_count ==> {
                &&& (#[trigger] ranges@[i]).start == spec_range_start(
                    file_size as int,
                    worker_count as int,
                    i,
                )
                &&& ranges@[i].end == spec_range_end(file_size as int, worker_count as int, i)
            },
        forall|i: int| 0 <= i < worker_count ==> (#[trigger] ranges@[i]).wf(),
        ranges@[0].start == 0,
        forall|i: int|
            1 <= i < worker_count ==> (#[trigger] ranges@[i]).start == ranges@[i - 1].end,
        ranges@[worker_count - 1].end >= file_size,
{
    let ps = partition_size(file_size, worker_count);
    proof {
        lemma_partition_size_bounds(file_size as int, worker_count as int);
    }
    let mut ranges: Vec<ByteRange> = Vec::new();
    let mut i: usize = 0;
    while i < worker_count
        invariant
            i <= worker_count,
            ranges@.len() == i,
            worker_count >= 1,
            ps == spec_partition_size(file_size as int, worker_count as int),
            worker_count * ps >= file_size,
            worker_count * ps <= file_size + worker_count - 1 <= u64::MAX,
            forall|k: int|
                0 <= k < i ==> {
                    &&& (#[trigger] ranges@[k]).start == spec_range_start(
                        file_size as int,
                        worker_count as int,
                        k,
                    )
                    &&& ranges@[k].end == spec_range_end(file_size as int, worker_count as int, k)
                },
            forall|k: int| 0 <= k < i ==> (#[trigger] ranges@[k]).wf(),
        decreases worker_count - i,
    {
        proof {
            lemma_mul_inequality(i as int + 1, worker_count as int, ps as int);
            assert((i as int + 1) * ps == i as int * ps + ps) by (nonlinear_arith);
            assert(i as int * ps >= 0) by (nonlinear_arith)
                requires
                    i >= 0,
                    ps >= 0,
            ;
        }
        let start: u64 = (i as u64) * ps;
        let end: u64 = start + ps;
        ranges.push(ByteRange { start, end });
        i = i + 1;
    }
    proof {
        lemma_mul_inequality(worker_count as int, worker_count as int, ps as int);
    }
    ranges
}

/// Coverage: every offset inside the file falls within some worker's range.
/// Together with `lemma_partition_disjoint` (no two ranges share an offset)
/// and the clamping of each range to `file_size` in the scanner, the ranges'
/// union is exactly `[0, file_size)`.
pub proof fn lemma_partition_coverage(file_size: int, worker_count: int, off: int)
    requires
        worker_count >= 1,
        0 <= off < file_size,
    ensures
        exists|i: int|
            #![trigger spec_range_start(file_size, worker_count, i)]
            0 <= i < worker_count && spec_range_start(file_size, worker_count, i) <= off
                < spec_range_end(file_size, worker_count, i),
{
    let ps = spec_partition_size(file_size, worker_count);
    lemma_partition_size_bounds(file_size, worker_count);
    assert(ps >= 1) by {
        if ps < 1 {
            assert(worker_count * ps <= 0) by (nonlinear_arith)
                requires
                    worker_count >= 1,
                    ps <= 0,
            ;
        }
    }
    let i = off / ps;
    lemma_div_pos_is_pos(off, ps);
    lemma_remainder_lower(off, ps);
    lemma_remainder_upper(off, ps);
    lemma_multiply_divide_lt(off, ps, worker_count);
    assert(spec_range_start(file_size, worker_count, i) == off / ps * ps);
    assert((i + 1) * ps == i * ps + ps) by (nonlinear_arith);
    assert(0 <= i < worker_count && spec_range_start(file_size, worker_count, i) <= off
        < spec_range_end(file_size, worker_count, i));
}

/// Disjointness: an earlier worker's range ends no later than a later
/// worker's range begins, so no byte offset belongs to two ranges.
pub proof fn lemma_partition_disjoint(file_size: int, worker_count: int, i: int, j: int)
    requires
        worker_count >= 1,
        file_size >= 0,
        0 <= i < j < worker_count,
    ensures
        spec_range_end(file_size, worker_count, i) <= spec_range_start(file_size, worker_count, j),
{
    lemma_partition_size_bounds(file_size, worker_count);
    lemma_mul_inequality(i + 1, j, spec_partition_size(file_size, worker_count));
}

} // verus!
