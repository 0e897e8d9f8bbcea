//! Range scanner: counts delimiter bytes (newline, 0x0A) inside one byte
//! range of a file. The file is read in bounded chunks; `ScanState` is the
//! per-worker state machine that an I/O driver feeds with the bytes each
//! read returned, so a short read near end-of-file never drops or double
//! counts a byte: exactly the bytes handed in are counted.

use vstd::prelude::*;

verus! {

use crate::partition::ByteRange;

/// The single delimiter byte that ends a line.
pub const DELIMITER: u8 = 0x0a;

/// Number of delimiter bytes in a byte sequence.
pub open spec fn count_newlines(s: Seq<u8>) -> nat
    decreases s.len(),
{
    if s.len() == 0 {
        0
    } else {
        count_newlines(s.drop_last()) + if s.last() == DELIMITER {
            1nat
        } else {
            0nat
        }
    }
}

/// A sequence holds no more delimiters than bytes.
pub proof fn lemma_count_le_len(s: Seq<u8>)
    ensures
        count_newlines(s) <= s.len(),
    decreases s.len(),
{
    if s.len() > 0 {
        lemma_count_le_len(s.drop_last());
    }
}

/// Delimiter counting splits over concatenation: counting two stretches of
/// bytes separately and adding misses nothing and double counts nothing.
pub proof fn lemma_count_concat(a: Seq<u8>, b: Seq<u8>)
    ensures
        count_newlines(a + b) == count_newlines(a) + count_newlines(b),
    decreases b.len(),
{
    if b.len() == 0 {
        assert(a + b =~= a);
    } else {
        lemma_count_concat(a, b.drop_last());
        assert((a + b).drop_last() =~= a + b.drop_last());
        assert((a + b).last() == b.last());
    }
}

/// `min(x, hi)`: a file offset clamped to the actual end of the file.
pub open spec fn clamp_to(x: int, hi: int) -> int {
    if x <= hi {
        x
    } else {
        hi
    }
}

/// Number of delimiters a scanner owes for the range `[start, end)` of a
/// file with contents `data`: the delimiters inside the range clamped to
/// the end of the file.
pub open spec fn range_newlines(data: Seq<u8>, start: int, end: int) -> nat
    recommends
        0 <= start <= end,
{
    count_newlines(
        data.subrange(clamp_to(start, data.len() as int), clamp_to(end, data.len() as int)),
    )
}

/// Counts the delimiter bytes in one chunk of bytes.
pub fn count_delims(buf: &[u8]) -> (count: u64)
    ensures
        count == count_newlines(buf@),
{
    let mut count: u64 = 0;
    let mut i: usize = 0;
    proof {
        assert(buf@.subrange(0, 0) =~= Seq::<u8>::empty());
    }
    while i < buf.len()
        invariant
            i <= buf.len(),
            count == count_newlines(buf@.subrange(0, i as int)),
            count <= i,
        decreases buf.len() - i,
    {
        proof {
            let pre = buf@.subrange(0, i as int);
            let post = buf@.subrange(0, i as int + 1);
            assert(post.drop_last() =~= pre);
            lemma_count_le_len(post);
        }
        if buf[i] == DELIMITER {
            count = count + 1;
        }
        i = i + 1;
    }
    proof {
        assert(buf@.subrange(0, buf@.len() as int) =~= buf@);
    }
    count
}

/// Per-worker scanning state: the next offset to read (`pos`), the end of
/// the assigned range, the configured chunk size, and the running count of
/// delimiters seen so far. The I/O driver repeatedly asks `next_read_len`
/// how many bytes to request, reads at most that many starting at `pos`,
/// and hands whatever the read returned to `feed`; a read that returns no
/// bytes (end-of-file) simply ends the loop.
pub struct ScanState {
    /// Offset of the next byte to read.
    pub pos: u64,
    /// End (exclusive) of the assigned range.
    pub end: u64,
    /// Largest number of bytes to read at once.
    pub chunk_size: u64,
    /// Delimiters counted so far.
    pub count: u64,
}

impl ScanState {
    /// The state never reads past its range and never counts more
    /// delimiters than offsets it has passed.
    pub open spec fn wf(&self) -> bool {
        &&& self.pos <= self.end
        &&& self.count <= self.pos
        &&& self.chunk_size >= 1
    }

    /// Bytes still to be read before the range is exhausted.
    pub open spec fn spec_remaining(&self) -> int {
        self.end - self.pos
    }

    /// A fresh scanner for one range: positioned at the range start with
    /// nothing counted yet.
    pub fn new(range: ByteRange, chunk_size: u64) -> (st: ScanState)
        requires
            range.wf(),
            chunk_size >= 1,
        ensures
            st.wf(),
            st.pos == range.start,
            st.end == range.end,
            st.chunk_size == chunk_size,
            st.count == 0,
    {
        ScanState { pos: range.start, end: range.end, chunk_size, count: 0 }
    }

    /// How many bytes the next read should request: a full chunk, or the
    /// tail of the range if less than a chunk of it is left. Zero exactly
    /// when the range is exhausted.
    pub fn next_read_len(&self) -> (n: u64)
        requires
            self.wf(),
        ensures
            n == clamp_to(self.chunk_size as int, self.spec_remaining()),
            n == 0 <==> self.pos == self.end,
            n <= self.spec_remaining(),
    {
        let rem = self.end - self.pos;
        if self.chunk_size <= rem {
            self.chunk_size
        } else {
            rem
        }
    }

    /// Whether the whole range has been read.
    pub fn done(&self) -> (d: bool)
        requires
            self.wf(),
        ensures
            d <==> self.pos == self.end,
    {
        self.pos == self.end
    }

    /// Accounts for one read: the bytes the read actually returned, which
    /// may be fewer than requested (a short read near end-of-file). Exactly
    /// the delimiters in those bytes are added and the position advances by
    /// exactly their number, so nothing is dropped and nothing is counted
    /// twice.
    pub fn feed(&mut self, buf: &[u8])
        requires
            old(self).wf(),
            buf@.len() <= old(self).spec_remaining(),
        ensures
            final(self).wf(),
            final(self).pos == old(self).pos + buf@.len(),
            final(self).count == old(self).count + count_newlines(buf@),
            final(self).end == old(self).end,
            final(self).chunk_size == old(self).chunk_size,
    {
        proof {
            lemma_count_le_len(buf@);
        }
        let c = count_delims(buf);
        self.count = self.count + c;
        self.pos = self.pos + buf.len() as u64;
    }

    /// The partial count this worker reports once its range is done.
    pub fn partial_count(&self) -> (count: u64)
        ensures
            count == self.count,
    {
        self.count
    }
}

/// Scans one byte range of a file held in memory: reads chunk after chunk
/// through a `ScanState` and returns the number of delimiter bytes in
/// `[start, end)` clamped to the end of the data. A range that is empty or
/// lies entirely past the end yields 0 rather than an error.
pub fn scan_range(data: &[u8], range: ByteRange, chunk_size: u64) -> (count: u64)
    requires
        range.wf(),
        chunk_size >= 1,
    ensures
        count == range_newlines(data@, range.start as int, range.end as int),
{
    let len: usize = data.len();
    let limit: u64 = if range.end <= len as u64 {
        range.end
    } else {
        len as u64
    };
    let mut st = ScanState::new(range, chunk_size);
    proof {
        if range.start as int <= data@.len() {
            assert(data@.subrange(range.start as int, range.start as int) =~= Seq::<u8>::empty());
        } else {
            assert(data@.subrange(data@.len() as int, data@.len() as int) =~= Seq::<u8>::empty());
        }
    }
    while st.pos < limit
        invariant
            st.wf(),
            st.end == range.end,
            st.chunk_size == chunk_size,
            chunk_size >= 1,
            len == data@.len(),
            limit == clamp_to(range.end as int, data@.len() as int),
            st.pos >= range.start,
            st.pos <= limit || st.pos == range.start,
            st.count == count_newlines(
                data@.subrange(
                    clamp_to(range.start as int, data@.len() as int),
                    clamp_to(st.pos as int, data@.len() as int),
                ),
            ),
        decreases limit - st.pos,
    {
        let want = st.next_read_len();
        let n: u64 = if want <= limit - st.pos {
            want
        } else {
            limit - st.pos
        };
        let a: usize = st.pos as usize;
        let b: usize = (st.pos + n) as usize;
        let chunk = vstd::slice::slice_subrange(data, a, b);
        proof {
            let lo = clamp_to(range.start as int, data@.len() as int);
            let mid = st.pos as int;
            let hi = mid + n as int;
            assert(data@.subrange(lo, hi) =~= data@.subrange(lo, mid) + data@.subrange(mid, hi));
            lemma_count_concat(data@.subrange(lo, mid), data@.subrange(mid, hi));
        }
        st.feed(chunk);
    }
    st.partial_count()
}

} // verus!
