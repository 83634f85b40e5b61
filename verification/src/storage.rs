//! What the storage layer answers the streaming pipeline: errors of data
//! reads and the availability of byte ranges.
use vstd::prelude::*;

use crate::torrent::{InfoHash, TorrentError};

verus! {

/// Errors of reads from a data source.
#[derive(Debug)]
pub enum DataError {
    /// Pieces of the range are not downloaded yet.
    InsufficientData { start: u64, end: u64, missing_count: usize },
    /// The storage failed.
    Storage { reason: String },
    /// The cache failed.
    Cache { reason: String },
    /// The range runs past the end of the file.
    RangeExceedsFile { start: u64, end: u64, file_size: u64 },
    /// The range is empty or reversed.
    InvalidRange { start: u64, end: u64 },
    /// The torrent's file is not known.
    FileNotFound { info_hash: InfoHash },
    /// The torrent layer failed.
    Torrent { source: TorrentError },
    /// An I/O operation failed.
    Io { source: std::io::Error },
}

/// Whether a byte range can be read now, and which pieces it lacks.
#[derive(Debug, Clone)]
pub struct RangeAvailability {
    /// Whether every piece of the range is there.
    pub available: bool,
    /// The pieces missing.
    pub missing_pieces: Vec<u32>,
    /// Whether the answer came from a cache.
    pub cache_hit: bool,
}

} // verus!
