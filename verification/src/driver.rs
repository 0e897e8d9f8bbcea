//! Driver-level correctness: the partial counts of all workers, each
//! scanning its own range, always add up to the exact number of delimiter
//! bytes in the file — for every worker count, including worker counts
//! larger than the file.

use vstd::prelude::*;

verus! {

use crate::aggregate::Aggregator;
use crate::aggregate::sum_of;
use crate::partition::lemma_partition_size_bounds;
use crate::partition::partition;
use crate::partition::spec_partition_size;
use crate::partition::spec_range_end;
use crate::partition::spec_range_start;
use crate::scan::clamp_to;
use crate::scan::count_newlines;
use crate::scan::lemma_count_concat;
use crate::scan::lemma_count_le_len;
use crate::scan::range_newlines;
use crate::scan::scan_range;
use vstd::arithmetic::div_mod::lemma_basic_div;
use vstd::arithmetic::div_mod::lemma_div_non_zero;
use vstd::arithmetic::div_mod::lemma_multiply_divide_lt;
use vstd::arithmetic::mul::lemma_mul_inequality;

/// Sum of the delimiter counts owed by the first `k` of `worker_count`
/// workers for a file with contents `data`.
pub open spec fn workers_total(data: Seq<u8>, worker_count: int, k: int) -> nat
    recommends
        worker_count >= 1,
        0 <= k <= worker_count,
    decreases k,
{
    if k <= 0 {
        0
    } else {
        workers_total(data, worker_count, k - 1) + range_newlines(
            data,
            spec_range_start(data.len() as int, worker_count, k - 1),
            spec_range_end(data.len() as int, worker_count, k - 1),
        )
    }
}

/// The first `k` workers together count exactly the delimiters of the file
/// prefix their ranges cover.
proof fn lemma_workers_total_prefix(data: Seq<u8>, worker_count: int, k: int)
    requires
        worker_count >= 1,
        0 <= k <= worker_count,
    ensures
        workers_total(data, worker_count, k) == count_newlines(
            data.subrange(
                0,
                clamp_to(spec_range_start(data.len() as int, worker_count, k), data.len() as int),
            ),
        ),
    decreases k,
{
    let len = data.len() as int;
    let ps = spec_partition_size(len, worker_count);
    lemma_partition_size_bounds(len, worker_count);
    if k == 0 {
        assert(spec_range_start(len, worker_count, 0) == 0) by (nonlinear_arith);
        assert(data.subrange(0, 0) =~= Seq::<u8>::empty());
    } else {
        lemma_workers_total_prefix(data, worker_count, k - 1);
        assert((k - 1) * ps >= 0) by (nonlinear_arith)
            requires
                k >= 1,
                ps >= 0,
        ;
        lemma_mul_inequality(k - 1, k, ps);
        let lo = clamp_to((k - 1) * ps, len);
        let hi = clamp_to(k * ps, len);
        assert(data.subrange(0, hi) =~= data.subrange(0, lo) + data.subrange(lo, hi));
        lemma_count_concat(data.subrange(0, lo), data.subrange(lo, hi));
    }
}

/// A delimiter byte sits at exactly one file offset, so it falls in exactly
/// one worker's range: however many workers scan the file, their partial
/// counts always sum to the exact number of delimiter bytes in it.
pub proof fn lemma_workers_cover_all(data: Seq<u8>, worker_count: int)
    requires
        worker_count >= 1,
    ensures
        workers_total(data, worker_count, worker_count) == count_newlines(data),
{
    let len = data.len() as int;
    lemma_workers_total_prefix(data, worker_count, worker_count);
    lemma_partition_size_bounds(len, worker_count);
    assert(clamp_to(spec_range_start(len, worker_count, worker_count), len) == len);
    assert(data.subrange(0, len) =~= data);
}

/// Scanning an unmodified file twice — even with different worker counts —
/// yields the same total.
pub proof fn lemma_scan_deterministic(data: Seq<u8>, worker_count1: int, worker_count2: int)
    requires
        worker_count1 >= 1,
        worker_count2 >= 1,
    ensures
        workers_total(data, worker_count1, worker_count1) == workers_total(
            data,
            worker_count2,
            worker_count2,
        ),
{
    lemma_workers_cover_all(data, worker_count1);
    lemma_workers_cover_all(data, worker_count2);
}

/// An empty file totals zero, whatever the worker count.
pub proof fn lemma_empty_file_zero(worker_count: int)
    requires
        worker_count >= 1,
    ensures
        workers_total(Seq::<u8>::empty(), worker_count, worker_count) == 0,
{
    lemma_workers_cover_all(Seq::<u8>::empty(), worker_count);
}

/// With more workers than bytes, at least one worker's range, clamped to
/// the file, is empty — it owes a count of zero, not an error, and the
/// total stays exact (`lemma_workers_cover_all`).
pub proof fn lemma_excess_workers_empty_range(file_size: int, worker_count: int)
    requires
        0 <= file_size < worker_count,
    ensures
        exists|i: int|
            #![trigger spec_range_start(file_size, worker_count, i)]
            0 <= i < worker_count && clamp_to(
                spec_range_start(file_size, worker_count, i),
                file_size,
            ) == clamp_to(spec_range_end(file_size, worker_count, i), file_size),
{
    let ps = spec_partition_size(file_size, worker_count);
    let i = worker_count - 1;
    if file_size == 0 {
        lemma_basic_div(worker_count - 1, worker_count);
        assert(ps == 0);
        assert(i * 0 == 0) by (nonlinear_arith);
        assert((i + 1) * 0 == 0) by (nonlinear_arith);
        assert(clamp_to(spec_range_start(file_size, worker_count, i), file_size) == clamp_to(
            spec_range_end(file_size, worker_count, i),
            file_size,
        ));
    } else {
        lemma_div_non_zero(file_size + worker_count - 1, worker_count);
        assert(worker_count * 2 == 2 * worker_count) by (nonlinear_arith);
        lemma_multiply_divide_lt(file_size + worker_count - 1, worker_count, 2);
        assert(ps == 1);
        assert(i * 1 == i) by (nonlinear_arith);
        assert((i + 1) * 1 == i + 1) by (nonlinear_arith);
        assert(clamp_to(spec_range_start(file_size, worker_count, i), file_size) == clamp_to(
            spec_range_end(file_size, worker_count, i),
            file_size,
        ));
    }
}

/// The whole count, as the driver runs it: partition the file, scan every
/// range, aggregate. Returns the exact number of delimiter bytes in
/// `data`, whatever the worker count. The unverified I/O driver runs the
/// same scans concurrently, one worker per range, which is sound because
/// the scans touch disjoint ranges and the aggregate is order-independent.
pub fn scan_all(data: &[u8], worker_count: usize, chunk_size: u64) -> (total: u64)
    requires
        worker_count >= 1,
        chunk_size >= 1,
        data@.len() + worker_count - 1 <= u64::MAX,
    ensures
        total == count_newlines(data@),
{
    let file_size: u64 = data.len() as u64;
    let ranges = partition(file_size, worker_count);
    let mut agg = Aggregator::new();
    let mut i: usize = 0;
    while i < worker_count
        invariant
            i <= worker_count,
            worker_count >= 1,
            chunk_size >= 1,
            file_size == data@.len(),
            ranges@.len() == worker_count,
            forall|k: int|
                0 <= k < worker_count ==> {
                    &&& (#[trigger] ranges@[k]).start == spec_range_start(
                        file_size as int,
                        worker_count as int,
                        k,
                    )
                    &&& ranges@[k].end == spec_range_end(file_size as int, worker_count as int, k)
                },
            forall|k: int| 0 <= k < worker_count ==> (#[trigger] ranges@[k]).wf(),
            agg.recorded().len() == i,
            sum_of(agg.recorded()) == workers_total(data@, worker_count as int, i as int),
            sum_of(agg.recorded()) <= data@.len(),
        decreases worker_count - i,
    {
        let r = ranges[i];
        let c = scan_range(data, r, chunk_size);
        proof {
            let prior = agg.recorded();
            assert(prior.push(c).drop_last() =~= prior);
            lemma_workers_total_prefix(data@, worker_count as int, i as int + 1);
            lemma_count_le_len(
                data@.subrange(
                    0,
                    clamp_to(
                        spec_range_start(data@.len() as int, worker_count as int, i as int + 1),
                        data@.len() as int,
                    ),
                ),
            );
        }
        agg.record(c);
        i = i + 1;
    }
    proof {
        lemma_workers_cover_all(data@, worker_count as int);
    }
    agg.total()
}

} // verus!
