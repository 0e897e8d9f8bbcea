//! Scan configuration: the file to scan, the bytes to read per chunk, and
//! the number of workers. Invalid combinations are rejected up front,
//! before any worker is spawned or any I/O attempted.

use vstd::prelude::*;

verus! {

/// Rejected configurations: zero workers, a zero chunk size, or an empty
/// file path.
#[derive(Clone, Copy, PartialEq, Eq, Structural, Debug)]
pub enum ConfigError {
    InvalidConfiguration,
}

/// What a scan needs to know: which file, how much to read per chunk, and
/// how many workers (which is also how many partitions). Immutable once
/// built; each worker gets its own clone, since each opens its own file
/// handle.
#[derive(Clone, Debug)]
pub struct ScanConfig {
    pub file_path: String,
    pub chunk_size: u64,
    pub worker_count: usize,
}

impl ScanConfig {
    /// The invariant every constructed configuration satisfies.
    pub open spec fn wf(&self) -> bool {
        &&& self.chunk_size >= 1
        &&& self.worker_count >= 1
        &&& self.file_path@.len() >= 1
    }

    /// Builds a configuration, rejecting exactly the invalid combinations:
    /// zero workers, a zero chunk size, or an empty file path.
    pub fn new(file_path: String, chunk_size: u64, worker_count: usize) -> (r: Result<
        ScanConfig,
        ConfigError,
    >)
        ensures
            match r {
                Ok(cfg) => {
                    &&& cfg.wf()
                    &&& cfg.file_path@ == file_path@
                    &&& cfg.chunk_size == chunk_size
                    &&& cfg.worker_count == worker_count
                },
                Err(e) => {
                    &&& e == ConfigError::InvalidConfiguration
                    &&& !(chunk_size >= 1 && worker_count >= 1 && file_path@.len() >= 1)
                },
            },
    {
        if chunk_size >= 1 && worker_count >= 1 && !file_path.as_str().is_empty() {
            Ok(ScanConfig { file_path, chunk_size, worker_count })
        } else {
            Err(ConfigError::InvalidConfiguration)
        }
    }
}

} // verus!
