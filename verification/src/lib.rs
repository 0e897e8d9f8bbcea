//! Concurrent line counting for large files, split into two halves:
//! a verified core (partition arithmetic, chunk scanning, aggregation)
//! and a thin unverified driver that performs the actual file I/O.
//! A small phonetic string encoder lives alongside it.

mod aggregate;
mod config;
mod driver;
mod partition;
mod scan;
mod soundex;

pub use crate::soundex::get_phonetic;
pub use crate::soundex::soundex;

pub use crate::aggregate::Aggregator;
pub use crate::config::ConfigError;
pub use crate::config::ScanConfig;
pub use crate::driver::scan_all;

pub use crate::partition::ByteRange;
pub use crate::partition::partition;
pub use crate::partition::partition_size;
pub use crate::scan::ScanState;
pub use crate::scan::count_delims;
pub use crate::scan::scan_range;
