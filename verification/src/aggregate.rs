//! Aggregator: collects the partial count each worker produces and sums
//! them once every worker has finished. The container itself is single
//! threaded; the driver that shares it between workers is responsible for
//! mutual exclusion around `record` and for joining every worker before it
//! reads the total.

use vstd::prelude::*;

verus! {

/// Sum of a sequence of partial counts, as an unbounded integer.
pub open spec fn sum_of(s: Seq<u64>) -> int
    decreases s.len(),
{
    if s.len() == 0 {
        0
    } else {
        sum_of(s.drop_last()) + s.last()
    }
}

/// Every partial sum of nonnegative counts is at most the full sum.
pub proof fn lemma_sum_prefix_le(s: Seq<u64>, k: int)
    requires
        0 <= k <= s.len(),
    ensures
        sum_of(s.subrange(0, k)) <= sum_of(s),
        sum_of(s) >= 0,
    decreases s.len(),
{
    if s.len() == 0 {
        assert(s.subrange(0, k) =~= s);
    } else if k == s.len() {
        assert(s.subrange(0, k) =~= s);
        lemma_sum_prefix_le(s.drop_last(), s.len() - 1);
    } else {
        assert(s.drop_last().subrange(0, k) =~= s.subrange(0, k));
        lemma_sum_prefix_le(s.drop_last(), k);
    }
}

/// Collects partial counts, in any order, and sums them at the end.
pub struct Aggregator {
    counts: Vec<u64>,
}

impl Aggregator {
    /// The partial counts recorded so far, in arrival order. The order is
    /// irrelevant to the total; it is kept only to state the contracts.
    pub closed spec fn recorded(&self) -> Seq<u64> {
        self.counts@
    }

    /// An empty aggregator, created before any worker starts.
    pub fn new() -> (agg: Aggregator)
        ensures
            agg.recorded() == Seq::<u64>::empty(),
    {
        Aggregator { counts: Vec::new() }
    }

    /// Accepts one worker's partial count. Called once per worker.
    pub fn record(&mut self, count: u64)
        ensures
            final(self).recorded() == old(self).recorded().push(count),
    {
        self.counts.push(count);
    }

    /// How many partial counts have been recorded.
    pub fn len(&self) -> (n: usize)
        ensures
            n == self.recorded().len(),
    {
        self.counts.len()
    }

    /// The total: the sum of every recorded partial count. Only meaningful
    /// once every worker has recorded; the caller must ensure the sum fits
    /// in 64 bits (it does whenever the counts come from disjoint ranges of
    /// one file, since each count is bounded by its range's length).
    pub fn total(&self) -> (total: u64)
        requires
            sum_of(self.recorded()) <= u64::MAX,
        ensures
            total == sum_of(self.recorded()),
    {
        let mut total: u64 = 0;
        let mut i: usize = 0;
        proof {
            assert(self.recorded().subrange(0, 0) =~= Seq::<u64>::empty());
        }
        while i < self.counts.len()
            invariant
                i <= self.counts.len(),
                self.recorded() == self.counts@,
                sum_of(self.recorded()) <= u64::MAX,
                total == sum_of(self.recorded().subrange(0, i as int)),
            decreases self.counts.len() - i,
        {
            proof {
                let pre = self.recorded().subrange(0, i as int);
                let post = self.recorded().subrange(0, i as int + 1);
                assert(post.drop_last() =~= pre);
                lemma_sum_prefix_le(self.recorded(), i as int + 1);
            }
            total = total + self.counts[i];
            i = i + 1;
        }
        proof {
            assert(self.recorded().subrange(0, self.recorded().len() as int) =~= self.recorded());
        }
        total
    }

    /// The total for callers that cannot rule out overflow beforehand:
    /// `Some` exactly when the sum of the recorded counts fits in 64 bits,
    /// `None` otherwise.
    pub fn try_total(&self) -> (total: Option<u64>)
        ensures
            sum_of(self.recorded()) <= u64::MAX ==> total == Some((sum_of(self.recorded())) as u64),
            sum_of(self.recorded()) > u64::MAX ==> total is None,
    {
        let mut total: u64 = 0;
        let mut i: usize = 0;
        proof {
            assert(self.recorded().subrange(0, 0) =~= Seq::<u64>::empty());
        }
        while i < self.counts.len()
            invariant
                i <= self.counts.len(),
                self.recorded() == self.counts@,
                total == sum_of(self.recorded().subrange(0, i as int)),
            decreases self.counts.len() - i,
        {
            proof {
                let pre = self.recorded().subrange(0, i as int);
                let post = self.recorded().subrange(0, i as int + 1);
                assert(post.drop_last() =~= pre);
            }
            match total.checked_add(self.counts[i]) {
                Some(t) => {
                    total = t;
                }
                None => {
                    proof {
                        lemma_sum_prefix_le(self.recorded(), i as int + 1);
                    }
                    return None;
                }
            }
            i = i + 1;
        }
        proof {
            assert(self.recorded().subrange(0, self.recorded().len() as int) =~= self.recorded());
        }
        Some(total)
    }
}

} // verus!
