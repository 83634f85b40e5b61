//! Load test settings and the arithmetic of the streaming benchmarks.
use std::sync::Arc;
use vstd::prelude::*;

use crate::torrent::{InfoHash, TorrentPiece};

verus! {

/// Settings of a load test.
#[derive(Debug, Clone, Copy)]
pub struct LoadTestConfig {
    /// Test duration in seconds.
    pub duration_seconds: u64,
    /// Streams run at once.
    pub concurrent_streams: usize,
    /// Bytes read at a time.
    pub chunk_size_bytes: usize,
    /// Seeks to time.
    pub seek_operations: usize,
}

impl Default for LoadTestConfig {
    fn default() -> (c: LoadTestConfig)
        ensures
            c.duration_seconds == 60,
            c.concurrent_streams == 5,
            c.chunk_size_bytes == 1024 * 1024,
            c.seek_operations == 20,
    {
        LoadTestConfig { duration_seconds: 60, concurrent_streams: 5, chunk_size_bytes: 1024 * 1024, seek_operations: 20 }
    }
}

/// Runs streaming benchmarks against a data source.
pub struct StreamingPerformanceTester<F> {
    data_source: Arc<F>,
    config: LoadTestConfig,
}

impl<F> StreamingPerformanceTester<F> {
    /// The data source.
    pub closed spec fn spec_data_source(&self) -> F {
        *self.data_source
    }

    /// The load test settings.
    pub closed spec fn spec_config(&self) -> LoadTestConfig {
        self.config
    }

    /// A tester of `data_source` with the default settings.
    pub fn new(data_source: Arc<F>) -> (t: StreamingPerformanceTester<F>)
        ensures
            t.spec_data_source() == *data_source,
            t.spec_config().duration_seconds == 60,
            t.spec_config().concurrent_streams == 5,
            t.spec_config().chunk_size_bytes == 1024 * 1024,
            t.spec_config().seek_operations == 20,
    {
        StreamingPerformanceTester { data_source, config: LoadTestConfig::default() }
    }

    /// The tester with other load test settings.
    pub fn with_config(self, config: LoadTestConfig) -> (t: StreamingPerformanceTester<F>)
        ensures
            t.spec_data_source() == self.spec_data_source(),
            t.spec_config() == config,
    {
        StreamingPerformanceTester { data_source: self.data_source, config }
    }

    /// The load test settings.
    pub fn config(&self) -> (c: LoadTestConfig)
        ensures
            c == self.spec_config(),
    {
        self.config
    }

    /// The data source.
    pub fn data_source(&self) -> (d: &Arc<F>)
        ensures
            **d == self.spec_data_source(),
    {
        &self.data_source
    }
}

/// The next read of the throughput test at `position` in a file of
/// `file_size` bytes: `None` at the end of the file (the test wraps to the
/// start), else the chunk size or the rest of the file, whichever is less.
pub fn throughput_chunk(position: u64, file_size: u64, chunk_size: usize) -> (r: Option<u64>)
    requires
        position <= file_size,
    ensures
        ({
            let n: u64 = if chunk_size <= file_size - position { chunk_size as u64 } else { (file_size - position) as u64 };
            r == if n == 0 { None } else { Some(n) }
        }),
{
    let rest = file_size - position;
    let n: u64 = if (chunk_size as u64) <= rest { chunk_size as u64 } else { rest };
    if n == 0 {
        None
    } else {
        Some(n)
    }
}

/// The position after a read of `n` bytes at `position`, wrapping to the
/// start at the end of the file.
pub fn advance_position(position: u64, n: u64, file_size: u64) -> (p: u64)
    requires
        position + n <= file_size,
    ensures
        p == if position + n >= file_size { 0 } else { position + n },
{
    let next = position + n;
    if next >= file_size { 0 } else { next }
}

/// The sum of a list of latencies.
pub open spec fn total(s: Seq<u64>) -> int
    decreases s.len(),
{
    if s.len() == 0 { 0 } else { total(s.drop_last()) + s.last() }
}

/// The mean of a list of latencies in whole milliseconds (rounded down),
/// zero for an empty list.
pub fn average_latency(latencies: &Vec<u64>) -> (m: u64)
    requires
        total(latencies@) <= u64::MAX,
    ensures
        latencies@.len() == 0 ==> m == 0,
        latencies@.len() > 0 ==> m == total(latencies@) / (latencies@.len() as int),
{
    let n = latencies.len();
    if n == 0 {
        return 0;
    }
    let mut sum: u64 = 0;
    let mut i: usize = 0;
    while i < n
        invariant
            n == latencies@.len(),
            i <= n,
            sum == total(latencies@.take(i as int)),
            total(latencies@) <= u64::MAX,
        decreases n - i,
    {
        proof {
            assert(latencies@.take(i + 1).drop_last() =~= latencies@.take(i as int));
            lemma_total_prefix(latencies@, i + 1);
        }
        sum = sum + latencies[i];
        i = i + 1;
    }
    proof {
        assert(latencies@.take(n as int) =~= latencies@);
    }
    sum / (n as u64)
}

proof fn lemma_total_prefix(s: Seq<u64>, k: int)
    requires
        0 <= k <= s.len(),
    ensures
        total(s.take(k)) <= total(s),
    decreases s.len() - k,
{
    if k < s.len() {
        lemma_total_prefix(s, k + 1);
        assert(s.take(k + 1).drop_last() =~= s.take(k));
    } else {
        assert(s.take(k) =~= s);
    }
}

/// Size of the pieces of the benchmark torrent.
pub const TEST_PIECE_SIZE: u64 = 256 * 1024;
/// Size of the benchmark torrent's file.
pub const TEST_TOTAL_SIZE: u64 = 100 * 1024 * 1024;

/// The byte at `position` of the benchmark file: the position modulo 256.
pub open spec fn test_byte(position: int) -> u8 {
    (position % 256) as u8
}

/// A benchmark torrent of 100 MB in 256 KB pieces, each byte its position
/// modulo 256, each piece's hash its index repeated: the identity
/// `0xAA` repeated, the pieces, and the total size.
pub fn create_4k_test_torrent() -> (r: (InfoHash, Vec<TorrentPiece>, u64))
    ensures
        r.0.0@ == seq![0xAAu8; 20],
        r.2 == TEST_TOTAL_SIZE,
        r.1@.len() == 400,
        forall|i: int| 0 <= i < 400 ==> {
            &&& (#[trigger] r.1@[i]).index == i
            &&& r.1@[i].hash@ == seq![(i % 256) as u8; 20]
            &&& r.1@[i].data@.len() == TEST_PIECE_SIZE
            &&& forall|j: int| 0 <= j < TEST_PIECE_SIZE ==> #[trigger] r.1@[i].data@[j] == test_byte(i * TEST_PIECE_SIZE + j)
        },
{
    let info_hash = InfoHash::new([0xAAu8; 20]);
    let piece_size: u64 = TEST_PIECE_SIZE;
    let total_size: u64 = TEST_TOTAL_SIZE;
    let piece_count: u64 = 400;
    let mut pieces: Vec<TorrentPiece> = Vec::new();
    let mut i: u64 = 0;
    while i < piece_count
        invariant
            i <= piece_count,
            piece_count == 400,
            piece_size == TEST_PIECE_SIZE,
            pieces@.len() == i,
            forall|p: int| 0 <= p < i ==> {
                &&& (#[trigger] pieces@[p]).index == p
                &&& pieces@[p].hash@ == seq![(p % 256) as u8; 20]
                &&& pieces@[p].data@.len() == TEST_PIECE_SIZE
                &&& forall|j: int| 0 <= j < TEST_PIECE_SIZE ==> #[trigger] pieces@[p].data@[j] == test_byte(p * TEST_PIECE_SIZE + j)
            },
        decreases piece_count - i,
    {
        proof {
            assert(i * piece_size <= 400 * 262144) by (nonlinear_arith)
                requires i < 400, piece_size == 262144;
        }
        let base: u64 = i * piece_size;
        let mut data: Vec<u8> = Vec::new();
        let mut j: u64 = 0;
        while j < piece_size
            invariant
                j <= piece_size,
                piece_size == TEST_PIECE_SIZE,
                base == i * TEST_PIECE_SIZE,
                base <= 400 * 262144,
                i < 400,
                data@.len() == j,
                forall|q: int| 0 <= q < j ==> #[trigger] data@[q] == test_byte(base + q),
            decreases piece_size - j,
        {
            data.push(((base + j) % 256) as u8);
            j = j + 1;
        }
        #[verifier::truncate]
        let h: u8 = i as u8;
        proof {
            assert(h == (i % 256) as u8) by (bit_vector)
                requires h == i as u8;
        }
        pieces.push(TorrentPiece { index: i as u32, hash: [h; 20], data });
        i = i + 1;
    }
    (info_hash, pieces, total_size)
}

} // verus!
