//! Configuration and errors of the chunk buffer for remuxed media.
use vstd::prelude::*;

pub mod chunk_buffer;

use crate::time::Duration;

verus! {

/// Errors of chunk buffer operations.
#[derive(Debug, Clone, Copy, PartialEq, Eq, Structural)]
pub enum BufferError {
    /// The buffer cannot take more data.
    CapacityExceeded,
    /// The byte range `start..end` is not buffered.
    RangeNotAvailable { start: u64, end: u64 },
    /// An operation timed out after this many milliseconds.
    Timeout { timeout_ms: u64 },
}

/// Limits and timing of a chunk buffer.
#[derive(Debug, Clone, Copy)]
pub struct BufferConfig {
    /// Chunks buffered at most.
    pub max_chunks: usize,
    /// Bytes buffered at most.
    pub max_bytes: u64,
    /// Whether header chunks are kept for good.
    pub cache_headers: bool,
    /// How long to wait for new chunks.
    pub wait_timeout: Duration,
}

impl Default for BufferConfig {
    fn default() -> (c: BufferConfig)
        ensures
            c.max_chunks == 256,
            c.max_bytes == 64 * 1024 * 1024,
            c.cache_headers,
            c.wait_timeout.spec_secs() == 30 && c.wait_timeout.spec_nanos() == 0,
    {
        BufferConfig { max_chunks: 256, max_bytes: 64 * 1024 * 1024, cache_headers: true, wait_timeout: Duration::from_secs(30) }
    }
}

impl BufferConfig {
    /// Smaller limits and a shorter wait, for low latency.
    pub fn low_latency() -> (c: BufferConfig)
        ensures
            c.max_chunks == 128,
            c.max_bytes == 32 * 1024 * 1024,
            c.cache_headers,
            c.wait_timeout.spec_secs() == 10 && c.wait_timeout.spec_nanos() == 0,
    {
        BufferConfig { max_chunks: 128, max_bytes: 32 * 1024 * 1024, wait_timeout: Duration::from_secs(10), ..Default::default() }
    }

    /// Larger limits and a longer wait, for high throughput.
    pub fn high_throughput() -> (c: BufferConfig)
        ensures
            c.max_chunks == 512,
            c.max_bytes == 128 * 1024 * 1024,
            c.cache_headers,
            c.wait_timeout.spec_secs() == 60 && c.wait_timeout.spec_nanos() == 0,
    {
        BufferConfig { max_chunks: 512, max_bytes: 128 * 1024 * 1024, wait_timeout: Duration::from_secs(60), ..Default::default() }
    }
}

} // verus!
