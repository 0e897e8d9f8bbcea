use county::Aggregator;
use county::ByteRange;
use county::ScanState;
use county::count_delims;
use county::partition;
use county::partition_size;
use county::scan_all;
use county::scan_range;

#[test]
fn three_lines_one_worker() {
    let data = b"a\nb\nc\n";
    assert_eq!(scan_all(data, 1, 1024), 3);
}

#[test]
fn three_lines_four_workers() {
    let data = b"a\nb\nc\n";
    assert_eq!(partition_size(6, 4), 2);
    assert_eq!(scan_all(data, 4, 1024), 3);
}

#[test]
fn all_delimiters_small_chunks() {
    let data = vec![b'\n'; 100];
    // ranges of 34 bytes read in 7-byte chunks: the last chunk of each
    // range ends mid-chunk
    assert_eq!(scan_all(&data, 3, 7), 100);
    // ranges of 34 bytes read in 17-byte chunks: exactly two full chunks
    assert_eq!(scan_all(&data, 3, 17), 100);
}

#[test]
fn delimiter_on_partition_boundary() {
    let data = b"a\nb\nc\n";
    // two ranges of three bytes: the second starts exactly on a delimiter
    assert_eq!(scan_all(data, 2, 8), 3);
}

#[test]
fn no_trailing_delimiter_undercounts_by_one() {
    let data = b"a\nb";
    assert_eq!(scan_all(data, 2, 8), 1);
}

#[test]
fn empty_file_any_workers() {
    let data: Vec<u8> = Vec::new();
    for workers in 1..10 {
        assert_eq!(scan_all(&data, workers, 8), 0);
    }
}

#[test]
fn more_workers_than_bytes() {
    let data = b"x\ny\n";
    let ranges = partition(4, 9);
    assert_eq!(ranges.len(), 9);
    assert!(ranges[8].start >= 4);
    assert_eq!(scan_all(data, 9, 1024), 2);
}

#[test]
fn counts_same_for_any_worker_count() {
    let data = b"alpha\nbeta\ngamma";
    for workers in 1..=20 {
        assert_eq!(scan_all(data, workers, 4), 2);
    }
}

#[test]
fn scan_twice_same_total() {
    let data = b"a\nbb\nccc\n";
    let first = scan_all(data, 3, 2);
    let second = scan_all(data, 3, 2);
    assert_eq!(first, second);
    assert_eq!(first, 3);
}

#[test]
fn partition_is_contiguous_from_zero() {
    let ranges = partition(10, 3);
    assert_eq!(ranges.len(), 3);
    assert_eq!((ranges[0].start, ranges[0].end), (0, 4));
    assert_eq!((ranges[1].start, ranges[1].end), (4, 8));
    assert_eq!((ranges[2].start, ranges[2].end), (8, 12));
}

#[test]
fn short_read_not_an_error() {
    let data = b"a\nb\n";
    let tail = ByteRange { start: 2, end: 100 };
    assert_eq!(scan_range(data, tail, 3), 1);
    let past_end = ByteRange { start: 50, end: 100 };
    assert_eq!(scan_range(data, past_end, 8), 0);
}

#[test]
fn chunk_counting() {
    assert_eq!(count_delims(b""), 0);
    assert_eq!(count_delims(b"\n\n\n"), 3);
    assert_eq!(count_delims(b"abc"), 0);
    assert_eq!(count_delims(b"a\nb"), 1);
}

#[test]
fn aggregator_sums_partial_counts() {
    let mut agg = Aggregator::new();
    assert_eq!(agg.len(), 0);
    agg.record(3);
    agg.record(0);
    agg.record(7);
    assert_eq!(agg.len(), 3);
    assert_eq!(agg.total(), 10);
    assert_eq!(agg.try_total(), Some(10));
}

#[test]
fn aggregator_overflow_detected() {
    let mut agg = Aggregator::new();
    agg.record(u64::MAX);
    agg.record(1);
    assert_eq!(agg.try_total(), None);
}

#[test]
fn scan_state_feeds_chunks() {
    let mut st = ScanState::new(ByteRange { start: 0, end: 10 }, 4);
    assert_eq!(st.next_read_len(), 4);
    st.feed(b"ab\ncd");
    assert_eq!(st.partial_count(), 1);
    assert!(!st.done());
    st.feed(b"\n\n\n\n\n");
    assert_eq!(st.partial_count(), 6);
    assert!(st.done());
    assert_eq!(st.next_read_len(), 0);
}

#[test]
fn config_rejects_invalid() {
    let cfg = county::ScanConfig::new(String::from("data.txt"), 8, 4).unwrap();
    assert_eq!(cfg.file_path, "data.txt");
    assert_eq!(cfg.chunk_size, 8);
    assert_eq!(cfg.worker_count, 4);
    let zero_chunk = county::ScanConfig::new(String::from("data.txt"), 0, 4);
    assert_eq!(zero_chunk.unwrap_err(), county::ConfigError::InvalidConfiguration);
    let zero_workers = county::ScanConfig::new(String::from("data.txt"), 8, 0);
    assert_eq!(zero_workers.unwrap_err(), county::ConfigError::InvalidConfiguration);
    let empty_path = county::ScanConfig::new(String::new(), 8, 4);
    assert_eq!(empty_path.unwrap_err(), county::ConfigError::InvalidConfiguration);
}
