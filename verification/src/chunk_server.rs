//! Buffering and serving of remuxed chunks for progressive playback.
//!
//! The buffer keeps chunks in arrival order and evicts from the front when a
//! count or byte limit would be exceeded; range requests are answered by
//! stitching together the buffered chunks that overlap the range.
use std::collections::VecDeque;
use std::time::Instant;
use vstd::prelude::*;

use crate::text::{decimal, push_decimal};
use vstd::string::StringExecFns;
use crate::torrent::InfoHash;

verus! {

/// Errors of the chunk buffer and chunk server.
#[derive(Debug)]
pub enum ChunkServerError {
    /// The chunk cannot fit even after every buffered chunk was evicted.
    BufferFull { current: usize, max: usize },
    /// The requested range is empty or reversed.
    InvalidRange { start: u64, end: u64, available: u64 },
    /// The requested bytes are not (all) buffered.
    ChunkNotAvailable { offset: u64, available: u64 },
    /// The server was terminated.
    StreamTerminated { info_hash: InfoHash },
    /// A buffer operation failed.
    BufferOperation { reason: String },
}

/// A request for buffered bytes.
#[derive(Debug, Clone)]
pub struct ChunkRequest {
    /// First byte requested.
    pub start: u64,
    /// One past the last byte requested; all available bytes when absent.
    pub end: Option<u64>,
    /// Whether the client sent an HTTP range request.
    pub is_range_request: bool,
    /// Client identifier, for tracking.
    pub client_id: Option<String>,
}

/// Bytes served for a request, with HTTP metadata.
#[derive(Debug, Clone)]
pub struct ChunkResponse {
    /// The served bytes.
    pub data: Vec<u8>,
    /// `bytes first-last/total` for range requests.
    pub content_range: Option<String>,
    /// Total content length, once known.
    pub total_length: Option<u64>,
    /// Whether this is a partial (range) response.
    pub is_partial: bool,
}

/// One chunk of remuxed output.
#[derive(Debug, Clone)]
pub struct RemuxedChunk {
    /// Byte offset of the chunk in the output stream.
    pub offset: u64,
    /// The chunk's bytes.
    pub data: Vec<u8>,
    /// Whether the chunk holds container header data.
    pub is_header: bool,
    /// When the chunk was produced.
    pub timestamp: Instant,
}

/// Counters kept by a chunk buffer.
#[derive(Debug, Clone, Copy)]
pub struct BufferStats {
    /// Number of chunks held after the last insertion.
    pub total_chunks: usize,
    /// Total bytes ever added.
    pub total_bytes: u64,
    /// Range requests answered in full.
    pub cache_hits: u64,
    /// Range requests that found a gap.
    pub cache_misses: u64,
    /// Chunks evicted so far.
    pub evicted_chunks: u64,
    /// Average size of the held chunks (integer division), zero when empty.
    pub avg_chunk_size: u64,
}

/// The end offset (exclusive) of a chunk.
pub open spec fn chunk_end(c: RemuxedChunk) -> int {
    c.offset + c.data@.len()
}

/// The sum of the lengths of a sequence of chunks.
pub open spec fn total_len(s: Seq<RemuxedChunk>) -> int
    decreases s.len(),
{
    if s.len() == 0 {
        0
    } else {
        s[0].data@.len() + total_len(s.drop_first())
    }
}

/// Whether a chunk of `new_len` bytes does not fit next to the chunks `s`.
pub open spec fn must_evict(s: Seq<RemuxedChunk>, max_chunks: int, max_bytes: int, new_len: int) -> bool {
    s.len() >= max_chunks || total_len(s) + new_len > max_bytes
}

/// How many chunks are evicted from the front of `s` before a chunk of
/// `new_len` bytes fits, or until `s` is empty.
pub open spec fn evict_count(s: Seq<RemuxedChunk>, max_chunks: int, max_bytes: int, new_len: int) -> nat
    decreases s.len(),
{
    if s.len() == 0 || !must_evict(s, max_chunks, max_bytes, new_len) {
        0
    } else {
        1 + evict_count(s.drop_first(), max_chunks, max_bytes, new_len)
    }
}

/// The outcome of stitching buffered chunks for the range `[start, end)`,
/// scanning chunks in buffer order with `cur` the next offset still owed:
/// `Ok((bytes, cur))` with the bytes gathered and the final position, or
/// `Err(gap)` with the first offset found missing.
pub open spec fn gather(s: Seq<RemuxedChunk>, start: int, end: int, cur: int) -> Result<(Seq<u8>, int), int>
    decreases s.len(),
{
    if s.len() == 0 {
        Ok((Seq::empty(), cur))
    } else {
        let c = s[0];
        let cs = c.offset as int;
        let ce = chunk_end(c);
        if ce <= start {
            gather(s.drop_first(), start, end, cur)
        } else if cs >= end {
            Ok((Seq::empty(), cur))
        } else {
            let os = if cs > start { cs } else { start };
            let oe = if ce < end { ce } else { end };
            if os < oe {
                if cur < os {
                    Err(cur)
                } else {
                    match gather(s.drop_first(), start, end, oe) {
                        Ok((d, c2)) => Ok((c.data@.subrange(os - cs, oe - cs) + d, c2)),
                        Err(g) => Err(g),
                    }
                }
            } else {
                gather(s.drop_first(), start, end, cur)
            }
        }
    }
}

/// Prepends bytes already gathered to the outcome of the rest of a scan.
pub open spec fn prepend_gathered(acc: Seq<u8>, r: Result<(Seq<u8>, int), int>) -> Result<(Seq<u8>, int), int> {
    match r {
        Ok((d, c)) => Ok((acc + d, c)),
        Err(g) => Err(g),
    }
}

/// The answer to a request for `[start, end)`: the stitched bytes when the
/// scan covers the whole range, else the first offset found missing.
pub open spec fn range_outcome(s: Seq<RemuxedChunk>, start: int, end: int) -> Result<Seq<u8>, int> {
    match gather(s, start, end, start) {
        Ok((d, c)) => if c >= end {
            Ok(d)
        } else {
            Err(c)
        },
        Err(g) => Err(g),
    }
}

/// What a range request returns and how it moves the hit and miss
/// counters: see `ChunkBuffer::try_get_range`.
pub open spec fn range_request_outcome(
    s: Seq<RemuxedChunk>,
    start: u64,
    end: Option<u64>,
    before: BufferStats,
    after: BufferStats,
    r: Result<Vec<u8>, ChunkServerError>,
) -> bool {
    let avail = spec_available(s);
    let e: int = match end {
        Some(v) => v as int,
        None => avail,
    };
    if e <= start {
        &&& r == Err::<Vec<u8>, ChunkServerError>(ChunkServerError::InvalidRange {
            start,
            end: e as u64,
            available: avail as u64,
        })
        &&& after == before
    } else {
        match range_outcome(s, start as int, e) {
            Ok(d) => {
                &&& r is Ok
                &&& r->Ok_0@ == d
                &&& after.cache_hits == before.cache_hits + 1
                &&& after.cache_misses == before.cache_misses
            },
            Err(o) => {
                &&& r == Err::<Vec<u8>, ChunkServerError>(ChunkServerError::ChunkNotAvailable {
                    offset: o as u64,
                    available: avail as u64,
                })
                &&& after.cache_hits == before.cache_hits
                &&& after.cache_misses == before.cache_misses + 1
            },
        }
    }
}

/// The bytes available for reading: the end of the newest chunk, or zero.
pub open spec fn spec_available(s: Seq<RemuxedChunk>) -> int {
    if s.len() == 0 {
        0
    } else {
        chunk_end(s.last())
    }
}

/// Whether some chunk of `s` holds header data.
pub open spec fn any_header(s: Seq<RemuxedChunk>) -> bool {
    exists|i: int| 0 <= i < s.len() && #[trigger] s[i].is_header
}

proof fn lemma_total_len_push(s: Seq<RemuxedChunk>, c: RemuxedChunk)
    ensures
        total_len(s.push(c)) == total_len(s) + c.data@.len(),
    decreases s.len(),
{
    if s.len() == 0 {
        assert(s.push(c).drop_first() =~= s);
    } else {
        assert(s.push(c).drop_first() =~= s.drop_first().push(c));
        lemma_total_len_push(s.drop_first(), c);
    }
}

proof fn lemma_total_len_nonneg(s: Seq<RemuxedChunk>)
    ensures
        total_len(s) >= 0,
    decreases s.len(),
{
    if s.len() > 0 {
        lemma_total_len_nonneg(s.drop_first());
    }
}

proof fn lemma_evict_count_bound(s: Seq<RemuxedChunk>, mc: int, mb: int, nl: int)
    ensures
        evict_count(s, mc, mb, nl) <= s.len(),
    decreases s.len(),
{
    if s.len() > 0 && must_evict(s, mc, mb, nl) {
        lemma_evict_count_bound(s.drop_first(), mc, mb, nl);
    }
}

proof fn lemma_evict_count_step(s: Seq<RemuxedChunk>, k: int, mc: int, mb: int, nl: int)
    requires
        0 <= k <= s.len(),
        forall|j: int| 0 <= j < k ==> #[trigger] must_evict(s.skip(j), mc, mb, nl),
    ensures
        evict_count(s, mc, mb, nl) == k + evict_count(s.skip(k), mc, mb, nl),
    decreases k,
{
    if k > 0 {
        assert(s.skip(0) =~= s);
        assert(must_evict(s.skip(0), mc, mb, nl));
        assert forall|j: int| 0 <= j < k - 1 implies #[trigger] must_evict(s.drop_first().skip(j), mc, mb, nl) by {
            assert(s.drop_first().skip(j) =~= s.skip(j + 1));
            assert(must_evict(s.skip(j + 1), mc, mb, nl));
        }
        lemma_evict_count_step(s.drop_first(), k - 1, mc, mb, nl);
        assert(s.drop_first().skip(k - 1) =~= s.skip(k));
    } else {
        assert(s.skip(0) =~= s);
    }
}

/// A bounded buffer of remuxed chunks with front (oldest first) eviction.
#[derive(Debug)]
pub struct ChunkBuffer {
    chunks: VecDeque<RemuxedChunk>,
    max_chunks: usize,
    max_bytes: u64,
    current_bytes: u64,
    stats: BufferStats,
    total_length: Option<u64>,
}

impl ChunkBuffer {
    /// The buffered chunks, oldest first.
    pub closed spec fn spec_chunks(&self) -> Seq<RemuxedChunk> {
        self.chunks@
    }

    /// The chunk count limit.
    pub closed spec fn spec_max_chunks(&self) -> usize {
        self.max_chunks
    }

    /// The byte limit.
    pub closed spec fn spec_max_bytes(&self) -> u64 {
        self.max_bytes
    }

    /// The counters.
    pub closed spec fn spec_stats(&self) -> BufferStats {
        self.stats
    }

    /// The total content length, once known.
    pub closed spec fn spec_total_length(&self) -> Option<u64> {
        self.total_length
    }

    /// The bytes held by the buffer.
    pub open spec fn spec_current_bytes(&self) -> int {
        total_len(self.spec_chunks())
    }

    /// The buffer's invariant: the byte count matches the chunks, both
    /// limits hold, and every chunk ends within the offset range.
    pub closed spec fn wf(&self) -> bool {
        &&& self.current_bytes == total_len(self.chunks@)
        &&& self.current_bytes <= self.max_bytes
        &&& self.chunks@.len() <= self.max_chunks
        &&& forall|i: int| 0 <= i < self.chunks@.len() ==> chunk_end(#[trigger] self.chunks@[i]) <= u64::MAX
    }

    /// Creates an empty buffer holding at most `max_chunks` chunks and `max_bytes` bytes.
    pub fn new(max_chunks: usize, max_bytes: u64) -> (b: ChunkBuffer)
        ensures
            b.wf(),
            b.spec_chunks() == Seq::<RemuxedChunk>::empty(),
            b.spec_max_chunks() == max_chunks,
            b.spec_max_bytes() == max_bytes,
            b.spec_total_length() is None,
            b.spec_stats() == (BufferStats {
                total_chunks: 0,
                total_bytes: 0,
                cache_hits: 0,
                cache_misses: 0,
                evicted_chunks: 0,
                avg_chunk_size: 0,
            }),
    {
        let b = ChunkBuffer {
            chunks: VecDeque::with_capacity(max_chunks),
            max_chunks,
            max_bytes,
            current_bytes: 0,
            stats: BufferStats {
                total_chunks: 0,
                total_bytes: 0,
                cache_hits: 0,
                cache_misses: 0,
                evicted_chunks: 0,
                avg_chunk_size: 0,
            },
            total_length: None,
        };
        proof {
            assert(total_len(b.chunks@) == 0);
        }
        b
    }

    /// The number of front chunks that inserting a chunk of `new_len` bytes evicts.
    pub open spec fn spec_evictions(&self, new_len: int) -> nat {
        evict_count(self.spec_chunks(), self.spec_max_chunks() as int, self.spec_max_bytes() as int, new_len)
    }

    /// The chunks that survive eviction before inserting a chunk of `new_len` bytes.
    pub open spec fn spec_survivors(&self, new_len: int) -> Seq<RemuxedChunk> {
        self.spec_chunks().skip(self.spec_evictions(new_len) as int)
    }

    /// Whether a chunk of `new_len` bytes fits once eviction has run.
    pub open spec fn spec_fits_after_eviction(&self, new_len: int) -> bool {
        !must_evict(self.spec_survivors(new_len), self.spec_max_chunks() as int, self.spec_max_bytes() as int, new_len)
    }

    /// Adds a chunk, first evicting the oldest chunks while the chunk count
    /// limit is reached or the byte limit would be exceeded.
    ///
    /// Fails with `BufferFull` when the chunk does not fit even into an empty
    /// buffer; the buffer is then left empty, every chunk having been evicted.
    pub fn add_chunk(&mut self, chunk: RemuxedChunk) -> (r: Result<(), ChunkServerError>)
        requires
            old(self).wf(),
            chunk_end(chunk) <= u64::MAX,
            old(self).spec_current_bytes() + chunk.data@.len() <= u64::MAX,
            old(self).spec_stats().total_bytes + chunk.data@.len() <= u64::MAX,
            old(self).spec_stats().evicted_chunks + old(self).spec_chunks().len() <= u64::MAX,
        ensures
            final(self).wf(),
            final(self).spec_max_chunks() == old(self).spec_max_chunks(),
            final(self).spec_max_bytes() == old(self).spec_max_bytes(),
            final(self).spec_total_length() == old(self).spec_total_length(),
            final(self).spec_stats().cache_hits == old(self).spec_stats().cache_hits,
            final(self).spec_stats().cache_misses == old(self).spec_stats().cache_misses,
            final(self).spec_stats().evicted_chunks == old(self).spec_stats().evicted_chunks
                + old(self).spec_evictions(chunk.data@.len() as int),
            r is Ok <==> old(self).spec_fits_after_eviction(chunk.data@.len() as int),
            r is Ok ==> {
                &&& final(self).spec_chunks() == old(self).spec_survivors(chunk.data@.len() as int).push(chunk)
                &&& final(self).spec_stats().total_chunks == final(self).spec_chunks().len()
                &&& final(self).spec_stats().total_bytes == old(self).spec_stats().total_bytes + chunk.data@.len()
                &&& final(self).spec_stats().avg_chunk_size == final(self).spec_current_bytes() / (final(self).spec_chunks().len() as int)
            },
            r is Err ==> {
                &&& final(self).spec_chunks() == Seq::<RemuxedChunk>::empty()
                &&& final(self).spec_stats().total_chunks == old(self).spec_stats().total_chunks
                &&& final(self).spec_stats().total_bytes == old(self).spec_stats().total_bytes
                &&& final(self).spec_stats().avg_chunk_size == old(self).spec_stats().avg_chunk_size
                &&& r == Err::<(), ChunkServerError>(ChunkServerError::BufferFull {
                    current: chunk.data@.len() as usize,
                    max: old(self).spec_max_bytes() as usize,
                })
            },
    {
        let new_len = chunk.data.len() as u64;
        let ghost s0 = self.chunks@;
        let ghost mc = self.max_chunks as int;
        let ghost mb = self.max_bytes as int;
        let ghost nl = new_len as int;
        let ghost mut k: int = 0;
        proof {
            assert(s0.skip(0) =~= s0);
        }
        while self.chunks.len() >= self.max_chunks || self.current_bytes + new_len > self.max_bytes
            invariant
                0 <= k <= s0.len(),
                self.chunks@ == s0.skip(k),
                forall|j: int| 0 <= j < k ==> #[trigger] must_evict(s0.skip(j), mc, mb, nl),
                self.current_bytes == total_len(self.chunks@),
                self.current_bytes <= old(self).current_bytes,
                self.max_chunks == old(self).max_chunks,
                self.max_bytes == old(self).max_bytes,
                mc == self.max_chunks as int,
                mb == self.max_bytes as int,
                nl == new_len as int,
                new_len == chunk.data@.len(),
                s0 == old(self).chunks@,
                old(self).current_bytes + new_len <= u64::MAX,
                self.total_length == old(self).total_length,
                self.stats.evicted_chunks == old(self).stats.evicted_chunks + k,
                old(self).stats.evicted_chunks + s0.len() <= u64::MAX,
                self.stats.cache_hits == old(self).stats.cache_hits,
                self.stats.cache_misses == old(self).stats.cache_misses,
                self.stats.total_chunks == old(self).stats.total_chunks,
                self.stats.total_bytes == old(self).stats.total_bytes,
                self.stats.avg_chunk_size == old(self).stats.avg_chunk_size,
                forall|i: int| 0 <= i < s0.len() ==> chunk_end(#[trigger] s0[i]) <= u64::MAX,
            decreases self.chunks@.len(),
        {
            proof {
                assert(must_evict(self.chunks@, mc, mb, nl));
            }
            match self.chunks.pop_front() {
                Some(evicted) => {
                    proof {
                        assert(self.chunks@ =~= s0.skip(k + 1));
                        lemma_total_len_nonneg(self.chunks@);
                    }
                    self.current_bytes = self.current_bytes - evicted.data.len() as u64;
                    self.stats.evicted_chunks = self.stats.evicted_chunks + 1;
                    proof {
                        k = k + 1;
                    }
                },
                None => {
                    proof {
                        lemma_evict_count_step(s0, k, mc, mb, nl);
                        assert(s0.skip(k).len() == 0);
                    }
                    return Err(ChunkServerError::BufferFull {
                        current: chunk.data.len(),
                        max: self.max_bytes as usize,
                    });
                },
            }
        }
        proof {
            lemma_evict_count_step(s0, k, mc, mb, nl);
            lemma_total_len_push(self.chunks@, chunk);
            lemma_total_len_nonneg(self.chunks@);
        }
        self.current_bytes = self.current_bytes + new_len;
        self.stats.total_chunks = self.chunks.len() + 1;
        self.stats.total_bytes = self.stats.total_bytes + new_len;
        let ghost before_push = self.chunks@;
        self.chunks.push_back(chunk);
        proof {
            assert forall|i: int| 0 <= i < self.chunks@.len() implies chunk_end(#[trigger] self.chunks@[i]) <= u64::MAX by {
                if i < before_push.len() {
                    assert(self.chunks@[i] == s0[i + k]);
                }
            }
        }
        self.update_stats();
        Ok(())
    }

    /// The bytes available for reading: the end offset of the newest chunk,
    /// or zero when the buffer is empty.
    pub fn available_bytes(&self) -> (a: u64)
        requires
            self.wf(),
        ensures
            a == spec_available(self.spec_chunks()),
    {
        let n = self.chunks.len();
        if n == 0 {
            0
        } else {
            let c = &self.chunks[n - 1];
            proof {
                assert(chunk_end(self.chunks@[n - 1]) <= u64::MAX);
            }
            c.offset + c.data.len() as u64
        }
    }

    /// Whether some buffered chunk holds header data.
    pub fn has_headers(&self) -> (b: bool)
        ensures
            b == any_header(self.spec_chunks()),
    {
        let n = self.chunks.len();
        let mut i: usize = 0;
        while i < n
            invariant
                n == self.chunks@.len(),
                i <= n,
                forall|j: int| 0 <= j < i ==> !(#[trigger] self.chunks@[j]).is_header,
            decreases n - i,
        {
            if self.chunks[i].is_header {
                return true;
            }
            i = i + 1;
        }
        false
    }

    /// Records the total content length once it is known.
    pub fn set_total_length(&mut self, length: u64)
        ensures
            final(self).spec_total_length() == Some(length),
            final(self).spec_chunks() == old(self).spec_chunks(),
            final(self).spec_max_chunks() == old(self).spec_max_chunks(),
            final(self).spec_max_bytes() == old(self).spec_max_bytes(),
            final(self).spec_stats() == old(self).spec_stats(),
            old(self).wf() ==> final(self).wf(),
    {
        self.total_length = Some(length);
    }

    /// The total content length, if known.
    pub fn total_length(&self) -> (t: Option<u64>)
        ensures
            t == self.spec_total_length(),
    {
        self.total_length
    }

    /// The buffer's counters.
    pub fn stats(&self) -> (s: &BufferStats)
        ensures
            *s == self.spec_stats(),
    {
        &self.stats
    }

    /// The bytes currently held.
    pub fn current_bytes(&self) -> (b: u64)
        requires
            self.wf(),
        ensures
            b == self.spec_current_bytes(),
    {
        self.current_bytes
    }

    /// The byte limit.
    pub fn max_bytes(&self) -> (b: u64)
        ensures
            b == self.spec_max_bytes(),
    {
        self.max_bytes
    }

    /// The number of chunks held.
    pub fn chunk_count(&self) -> (n: usize)
        ensures
            n == self.spec_chunks().len(),
    {
        self.chunks.len()
    }

    /// Serves the bytes `[start, end)`, where a missing `end` stands for all
    /// available bytes.
    ///
    /// Chunks are scanned oldest first; each chunk overlapping the range
    /// contributes its overlapping bytes, and a hole before an overlapping
    /// chunk, or an uncovered tail, makes the request fail with
    /// `ChunkNotAvailable` at the first missing offset (counted as a miss).
    /// A range whose end does not exceed its start is `InvalidRange`.
    pub fn try_get_range(&mut self, start: u64, end: Option<u64>) -> (r: Result<Vec<u8>, ChunkServerError>)
        requires
            old(self).wf(),
            old(self).spec_stats().cache_hits < u64::MAX,
            old(self).spec_stats().cache_misses < u64::MAX,
        ensures
            final(self).wf(),
            final(self).spec_chunks() == old(self).spec_chunks(),
            final(self).spec_max_chunks() == old(self).spec_max_chunks(),
            final(self).spec_max_bytes() == old(self).spec_max_bytes(),
            final(self).spec_total_length() == old(self).spec_total_length(),
            final(self).spec_stats().total_chunks == old(self).spec_stats().total_chunks,
            final(self).spec_stats().total_bytes == old(self).spec_stats().total_bytes,
            final(self).spec_stats().evicted_chunks == old(self).spec_stats().evicted_chunks,
            final(self).spec_stats().avg_chunk_size == old(self).spec_stats().avg_chunk_size,
            range_request_outcome(old(self).spec_chunks(), start, end, old(self).spec_stats(), final(self).spec_stats(), r),
    {
        let end_opt = end;
        let end_v = match end {
            Some(v) => v,
            None => self.available_bytes(),
        };
        if start >= end_v {
            return Err(ChunkServerError::InvalidRange { start, end: end_v, available: self.available_bytes() });
        }
        let ghost s = self.chunks@;
        let mut result: Vec<u8> = Vec::new();
        let mut current_offset = start;
        let n = self.chunks.len();
        let mut i: usize = 0;
        proof {
            assert(s.skip(0) =~= s);
            assert(prepend_gathered(Seq::<u8>::empty(), gather(s, start as int, end_v as int, start as int))
                == gather(s, start as int, end_v as int, start as int)) by {
                match gather(s, start as int, end_v as int, start as int) {
                    Ok((d, c)) => {
                        assert(Seq::<u8>::empty() + d =~= d);
                    },
                    Err(g) => {},
                }
            }
        }
        while i < n
            invariant
                self.wf(),
                s == self.chunks@,
                n == s.len(),
                i <= n,
                start < end_v,
                gather(s, start as int, end_v as int, start as int)
                    == prepend_gathered(result@, gather(s.skip(i as int), start as int, end_v as int, current_offset as int)),
                self.stats == old(self).stats,
                self.max_chunks == old(self).max_chunks,
                self.max_bytes == old(self).max_bytes,
                self.total_length == old(self).total_length,
                s == old(self).chunks@,
                s.skip(n as int).len() == 0,
                old(self).stats.cache_hits < u64::MAX,
                old(self).stats.cache_misses < u64::MAX,
                end_v == (match end_opt { Some(v) => v as int, None => spec_available(s) }),
                end_opt == end,
            ensures
                i <= n,
                gather(s, start as int, end_v as int, start as int)
                    == prepend_gathered(result@, gather(s.skip(i as int), start as int, end_v as int, current_offset as int)),
                gather(s.skip(i as int), start as int, end_v as int, current_offset as int)
                    == Ok::<(Seq<u8>, int), int>((Seq::<u8>::empty(), current_offset as int)),
                self.stats == old(self).stats,
                self.max_chunks == old(self).max_chunks,
                self.max_bytes == old(self).max_bytes,
                self.total_length == old(self).total_length,
                self.wf(),
                s == self.chunks@,
            decreases n - i,
        {
            let chunk = &self.chunks[i];
            proof {
                assert(s.skip(i as int)[0] == s[i as int]);
                assert(s.skip(i as int).drop_first() =~= s.skip(i as int + 1));
                assert(chunk_end(s[i as int]) <= u64::MAX);
            }
            let chunk_start = chunk.offset;
            let chunk_end_v = chunk.offset + chunk.data.len() as u64;
            if chunk_end_v <= start {
                i = i + 1;
                continue;
            }
            if chunk_start >= end_v {
                proof {
                    assert(gather(s.skip(i as int), start as int, end_v as int, current_offset as int)
                        == Ok::<(Seq<u8>, int), int>((Seq::<u8>::empty(), current_offset as int)));
                }
                break;
            }
            let overlap_start = if chunk_start > start { chunk_start } else { start };
            let overlap_end = if chunk_end_v < end_v { chunk_end_v } else { end_v };
            if overlap_start < overlap_end {
                let data_start = (overlap_start - chunk_start) as usize;
                let data_end = (overlap_end - chunk_start) as usize;
                if current_offset < overlap_start {
                    proof {
                        assert(gather(s.skip(i as int), start as int, end_v as int, current_offset as int)
                            == Err::<(Seq<u8>, int), int>(current_offset as int));
                    }
                    self.stats.cache_misses = self.stats.cache_misses + 1;
                    let available = self.available_bytes();
                    proof {
                        assert(gather(s, start as int, end_v as int, start as int) == Err::<(Seq<u8>, int), int>(current_offset as int));
                        assert(range_outcome(s, start as int, end_v as int) == Err::<Seq<u8>, int>(current_offset as int));
                    }
                    return Err(ChunkServerError::ChunkNotAvailable { offset: current_offset, available });
                }
                let ghost before = result@;
                let mut j = data_start;
                while j < data_end
                    invariant
                        data_start <= j <= data_end,
                        data_end <= chunk.data@.len(),
                        result@ == before + chunk.data@.subrange(data_start as int, j as int),
                    decreases data_end - j,
                {
                    result.push(chunk.data[j]);
                    j = j + 1;
                    proof {
                        assert(chunk.data@.subrange(data_start as int, j as int)
                            =~= chunk.data@.subrange(data_start as int, j - 1).push(chunk.data@[j - 1]));
                    }
                }
                proof {
                    let rest = gather(s.skip(i as int + 1), start as int, end_v as int, overlap_end as int);
                    let piece = chunk.data@.subrange(data_start as int, data_end as int);
                    match rest {
                        Ok((d, c2)) => {
                            assert(before + (piece + d) =~= (before + piece) + d);
                        },
                        Err(g) => {},
                    }
                }
                current_offset = overlap_end;
            }
            i = i + 1;
        }
        proof {
            assert(result@ + Seq::<u8>::empty() =~= result@);
        }
        if current_offset < end_v {
            self.stats.cache_misses = self.stats.cache_misses + 1;
            let available = self.available_bytes();
            return Err(ChunkServerError::ChunkNotAvailable { offset: current_offset, available });
        }
        self.stats.cache_hits = self.stats.cache_hits + 1;
        Ok(result)
    }

    fn update_stats(&mut self)
        requires
            old(self).chunks@.len() > 0 ==> old(self).chunks@.len() <= usize::MAX,
        ensures
            final(self).chunks@ == old(self).chunks@,
            final(self).current_bytes == old(self).current_bytes,
            final(self).max_chunks == old(self).max_chunks,
            final(self).max_bytes == old(self).max_bytes,
            final(self).total_length == old(self).total_length,
            final(self).stats == (BufferStats { avg_chunk_size: final(self).stats.avg_chunk_size, ..old(self).stats }),
            final(self).stats.avg_chunk_size == if old(self).chunks@.len() == 0 {
                0
            } else {
                (old(self).current_bytes / (old(self).chunks@.len() as u64)) as u64
            },
    {
        self.stats.avg_chunk_size = if self.chunks.len() == 0 {
            0
        } else {
            self.current_bytes / (self.chunks.len() as u64)
        };
    }
}


proof fn lemma_gather_nonempty(s: Seq<RemuxedChunk>, start: int, end: int, cur: int)
    requires
        start < end,
        cur < end,
        gather(s, start, end, cur) is Ok,
        gather(s, start, end, cur)->Ok_0.1 >= end,
    ensures
        gather(s, start, end, cur)->Ok_0.0.len() > 0,
    decreases s.len(),
{
    if s.len() > 0 {
        let c = s[0];
        let cs = c.offset as int;
        let ce = chunk_end(c);
        let os = if cs > start { cs } else { start };
        let oe = if ce < end { ce } else { end };
        if ce <= start {
            lemma_gather_nonempty(s.drop_first(), start, end, cur);
        } else if cs >= end {
        } else if os < oe {
        } else {
            lemma_gather_nonempty(s.drop_first(), start, end, cur);
        }
    }
}

proof fn lemma_gather_len(s: Seq<RemuxedChunk>, start: int, end: int, cur: int)
    ensures
        gather(s, start, end, cur) is Ok ==> gather(s, start, end, cur)->Ok_0.0.len() <= total_len(s),
    decreases s.len(),
{
    if s.len() > 0 {
        lemma_gather_len(s.drop_first(), start, end, cur);
        let c = s[0];
        let cs = c.offset as int;
        let ce = chunk_end(c);
        let os = if cs > start { cs } else { start };
        let oe = if ce < end { ce } else { end };
        lemma_gather_len(s.drop_first(), start, end, oe);
        lemma_total_len_nonneg(s.drop_first());
    }
}

/// The `Content-Range` value `bytes first-last/total`.
pub open spec fn content_range_text(first: nat, last: nat, total: nat) -> Seq<char> {
    "bytes "@ + decimal(first) + "-"@ + decimal(last) + "/"@ + decimal(total)
}

/// Builds the `Content-Range` value `bytes first-last/total`.
pub fn content_range_header(first: u64, last: u64, total: u64) -> (s: String)
    ensures
        s@ == content_range_text(first as nat, last as nat, total as nat),
{
    let mut s = String::new();
    s.append("bytes ");
    push_decimal(&mut s, first);
    s.append("-");
    push_decimal(&mut s, last);
    s.append("/");
    push_decimal(&mut s, total);
    s
}

/// Serves remuxed chunks of one stream from a bounded buffer, until terminated.
#[derive(Debug)]
pub struct ChunkServer {
    info_hash: InfoHash,
    buffer: ChunkBuffer,
    is_active: bool,
    completed: bool,
}

/// Playback may start once a header chunk is buffered and this many bytes are available.
pub const MIN_PLAYBACK_BYTES: u64 = 65536;

impl ChunkServer {
    /// The stream this server serves.
    pub closed spec fn spec_info_hash(&self) -> InfoHash {
        self.info_hash
    }

    /// The server's buffer.
    pub closed spec fn spec_buffer(&self) -> ChunkBuffer {
        self.buffer
    }

    /// Whether the server still accepts chunks and requests.
    pub closed spec fn spec_is_active(&self) -> bool {
        self.is_active
    }

    /// Whether the stream was marked completed.
    pub closed spec fn spec_completed(&self) -> bool {
        self.completed
    }

    /// The server's invariant: its buffer is well formed.
    pub open spec fn wf(&self) -> bool {
        self.spec_buffer().wf()
    }

    /// Creates an active server with an empty buffer of the given limits.
    pub fn new(info_hash: InfoHash, max_chunks: usize, max_bytes: u64) -> (srv: ChunkServer)
        ensures
            srv.wf(),
            srv.spec_info_hash() == info_hash,
            srv.spec_is_active(),
            !srv.spec_completed(),
            srv.spec_buffer().spec_chunks() == Seq::<RemuxedChunk>::empty(),
            srv.spec_buffer().spec_max_chunks() == max_chunks,
            srv.spec_buffer().spec_max_bytes() == max_bytes,
            srv.spec_buffer().spec_total_length() is None,
    {
        ChunkServer { info_hash, buffer: ChunkBuffer::new(max_chunks, max_bytes), is_active: true, completed: false }
    }

    /// Adds a chunk to the buffer; refused with `StreamTerminated` once the
    /// server is terminated, otherwise as `ChunkBuffer::add_chunk`.
    pub fn add_chunk(&mut self, chunk: RemuxedChunk) -> (r: Result<(), ChunkServerError>)
        requires
            old(self).wf(),
            chunk_end(chunk) <= u64::MAX,
            old(self).spec_buffer().spec_current_bytes() + chunk.data@.len() <= u64::MAX,
            old(self).spec_buffer().spec_stats().total_bytes + chunk.data@.len() <= u64::MAX,
            old(self).spec_buffer().spec_stats().evicted_chunks + old(self).spec_buffer().spec_chunks().len() <= u64::MAX,
        ensures
            final(self).wf(),
            final(self).spec_info_hash() == old(self).spec_info_hash(),
            final(self).spec_is_active() == old(self).spec_is_active(),
            final(self).spec_completed() == old(self).spec_completed(),
            !old(self).spec_is_active() ==> {
                &&& r == Err::<(), ChunkServerError>(ChunkServerError::StreamTerminated { info_hash: old(self).spec_info_hash() })
                &&& final(self).spec_buffer() == old(self).spec_buffer()
            },
            old(self).spec_is_active() ==> {
                &&& (r is Ok <==> old(self).spec_buffer().spec_fits_after_eviction(chunk.data@.len() as int))
                &&& (r is Ok ==> final(self).spec_buffer().spec_chunks()
                    == old(self).spec_buffer().spec_survivors(chunk.data@.len() as int).push(chunk))
                &&& (r is Err ==> final(self).spec_buffer().spec_chunks() == Seq::<RemuxedChunk>::empty())
            },
    {
        if !self.is_active {
            return Err(ChunkServerError::StreamTerminated { info_hash: self.info_hash });
        }
        self.buffer.add_chunk(chunk)
    }

    /// Serves a request: refused with `StreamTerminated` once terminated;
    /// otherwise the bytes `[start, end)` (end defaulting to all available
    /// bytes) as `ChunkBuffer::try_get_range` gives them, with a
    /// `Content-Range` of `bytes start-(start+len-1)/total` for range requests,
    /// where total is the known length or else the available bytes.
    pub fn serve_request(&mut self, request: ChunkRequest) -> (r: Result<ChunkResponse, ChunkServerError>)
        requires
            old(self).wf(),
            old(self).spec_buffer().spec_stats().cache_hits < u64::MAX,
            old(self).spec_buffer().spec_stats().cache_misses < u64::MAX,
            request.start + old(self).spec_buffer().spec_current_bytes() <= u64::MAX,
        ensures
            final(self).wf(),
            final(self).spec_info_hash() == old(self).spec_info_hash(),
            final(self).spec_is_active() == old(self).spec_is_active(),
            final(self).spec_buffer().spec_chunks() == old(self).spec_buffer().spec_chunks(),
            final(self).spec_buffer().spec_total_length() == old(self).spec_buffer().spec_total_length(),
            !old(self).spec_is_active() ==> r == Err::<ChunkResponse, ChunkServerError>(
                ChunkServerError::StreamTerminated { info_hash: old(self).spec_info_hash() }),
            old(self).spec_is_active() ==> ({
                let s = old(self).spec_buffer().spec_chunks();
                let avail = spec_available(s);
                let e = match request.end {
                    Some(v) => v,
                    None => avail as u64,
                };
                let total: int = match old(self).spec_buffer().spec_total_length() {
                    Some(t) => t as int,
                    None => avail,
                };
                match r {
                    Ok(resp) => {
                        &&& range_outcome(s, request.start as int, e as int) == Ok::<Seq<u8>, int>(resp.data@)
                        &&& e > request.start
                        &&& resp.total_length == old(self).spec_buffer().spec_total_length()
                        &&& resp.is_partial == request.is_range_request
                        &&& (request.is_range_request ==> resp.content_range is Some
                            && resp.content_range->Some_0@ == content_range_text(
                                request.start as nat,
                                (request.start + resp.data@.len() - 1) as nat,
                                total as nat))
                        &&& (!request.is_range_request ==> resp.content_range is None)
                    },
                    Err(err) => range_request_outcome(
                        s,
                        request.start,
                        Some(e),
                        old(self).spec_buffer().spec_stats(),
                        final(self).spec_buffer().spec_stats(),
                        Err(err),
                    ),
                }
            }),
    {
        if !self.is_active {
            return Err(ChunkServerError::StreamTerminated { info_hash: self.info_hash });
        }
        let available = self.buffer.available_bytes();
        let end = match request.end {
            Some(v) => v,
            None => available,
        };
        let ghost s = self.buffer.chunks@;
        let data = match self.buffer.try_get_range(request.start, Some(end)) {
            Ok(d) => d,
            Err(e) => {
                return Err(e);
            },
        };
        proof {
            lemma_gather_len(s, request.start as int, end as int, request.start as int);
            assert(data@.len() > 0) by {
                lemma_gather_nonempty(s, request.start as int, end as int, request.start as int);
            }
        }
        let content_range = if request.is_range_request {
            let total = match self.buffer.total_length() {
                Some(t) => t,
                None => available,
            };
            Some(content_range_header(request.start, request.start + data.len() as u64 - 1, total))
        } else {
            None
        };
        Ok(ChunkResponse {
            data,
            content_range,
            total_length: self.buffer.total_length(),
            is_partial: request.is_range_request,
        })
    }

    /// Whether playback can start: a header chunk is buffered and at least
    /// `MIN_PLAYBACK_BYTES` are available.
    pub fn is_ready_for_playback(&self) -> (b: bool)
        requires
            self.wf(),
        ensures
            b == (any_header(self.spec_buffer().spec_chunks())
                && spec_available(self.spec_buffer().spec_chunks()) >= MIN_PLAYBACK_BYTES),
    {
        self.buffer.has_headers() && self.buffer.available_bytes() >= MIN_PLAYBACK_BYTES
    }

    /// A copy of the buffer's counters.
    pub fn stats(&self) -> (s: BufferStats)
        ensures
            s == self.spec_buffer().spec_stats(),
    {
        *self.buffer.stats()
    }

    /// The buffer, for reading its state.
    pub fn buffer(&self) -> (b: &ChunkBuffer)
        ensures
            *b == self.spec_buffer(),
    {
        &self.buffer
    }

    /// Records the total length and marks the stream completed.
    pub fn mark_completed(&mut self, total_length: u64)
        requires
            old(self).wf(),
        ensures
            final(self).wf(),
            final(self).spec_completed(),
            final(self).spec_buffer().spec_total_length() == Some(total_length),
            final(self).spec_buffer().spec_chunks() == old(self).spec_buffer().spec_chunks(),
            final(self).spec_is_active() == old(self).spec_is_active(),
            final(self).spec_info_hash() == old(self).spec_info_hash(),
    {
        self.buffer.set_total_length(total_length);
        self.completed = true;
    }

    /// Terminates the server: later chunks and requests are refused.
    pub fn terminate(&mut self)
        requires
            old(self).wf(),
        ensures
            final(self).wf(),
            !final(self).spec_is_active(),
            final(self).spec_buffer() == old(self).spec_buffer(),
            final(self).spec_completed() == old(self).spec_completed(),
            final(self).spec_info_hash() == old(self).spec_info_hash(),
    {
        self.is_active = false;
    }

    /// Serves `range.start..range.end` from the buffer, an end of zero
    /// standing for all available bytes; as `ChunkBuffer::try_get_range`.
    pub fn serve_range(&mut self, range: std::ops::Range<u64>) -> (r: Result<Vec<u8>, ChunkServerError>)
        requires
            old(self).wf(),
            old(self).spec_buffer().spec_stats().cache_hits < u64::MAX,
            old(self).spec_buffer().spec_stats().cache_misses < u64::MAX,
        ensures
            final(self).wf(),
            final(self).spec_buffer().spec_chunks() == old(self).spec_buffer().spec_chunks(),
            final(self).spec_is_active() == old(self).spec_is_active(),
            range_request_outcome(
                old(self).spec_buffer().spec_chunks(),
                range.start,
                if range.end == 0 { None } else { Some(range.end) },
                old(self).spec_buffer().spec_stats(),
                final(self).spec_buffer().spec_stats(),
                r,
            ),
    {
        let end = if range.end == 0 { None } else { Some(range.end) };
        self.buffer.try_get_range(range.start, end)
    }

    /// Whether the total length is known, i.e. the stream completed.
    pub fn is_complete(&self) -> (b: bool)
        ensures
            b == (self.spec_buffer().spec_total_length() is Some),
    {
        self.buffer.total_length().is_some()
    }
}

proof fn lemma_gather_rest_disjoint(s: Seq<RemuxedChunk>, start: int, end: int, cur: int)
    requires
        forall|j: int| 0 <= j < s.len() ==> chunk_end(#[trigger] s[j]) <= start || s[j].offset >= end,
    ensures
        gather(s, start, end, cur) == Ok::<(Seq<u8>, int), int>((Seq::<u8>::empty(), cur)),
    decreases s.len(),
{
    if s.len() > 0 {
        let t = s.drop_first();
        assert forall|j: int| 0 <= j < t.len() implies chunk_end(#[trigger] t[j]) <= start || t[j].offset >= end by {
            assert(t[j] == s[j + 1]);
        }
        lemma_gather_rest_disjoint(t, start, end, cur);
        assert(chunk_end(s[0]) <= start || s[0].offset >= end);
    }
}

proof fn lemma_gather_skip_before(s: Seq<RemuxedChunk>, i: int, start: int, end: int, cur: int)
    requires
        0 <= i <= s.len(),
        forall|j: int| 0 <= j < i ==> chunk_end(#[trigger] s[j]) <= start,
    ensures
        gather(s, start, end, cur) == gather(s.subrange(i, s.len() as int), start, end, cur),
    decreases i,
{
    if i == 0 {
        assert(s.subrange(0, s.len() as int) =~= s);
    } else {
        let t = s.drop_first();
        assert forall|j: int| 0 <= j < i - 1 implies chunk_end(#[trigger] t[j]) <= start by {
            assert(t[j] == s[j + 1]);
        }
        lemma_gather_skip_before(t, i - 1, start, end, cur);
        assert(t.subrange(i - 1, t.len() as int) =~= s.subrange(i, s.len() as int));
        assert(chunk_end(s[0]) <= start);
    }
}

/// What a read gives back of a buffered chunk: a range lying within chunk
/// `i`, when the chunks before it end at or before the range and no chunk
/// after it overlaps the range, is served as exactly that chunk's bytes in
/// the range. Chunks buffered in stream order meet the first condition.
pub proof fn law_range_within_chunk_served(s: Seq<RemuxedChunk>, i: int, start: int, end: int)
    requires
        0 <= i < s.len(),
        s[i].offset <= start < end <= chunk_end(s[i]),
        forall|j: int| 0 <= j < i ==> chunk_end(#[trigger] s[j]) <= start,
        forall|j: int| i < j < s.len() ==> chunk_end(#[trigger] s[j]) <= start || s[j].offset >= end,
    ensures
        range_outcome(s, start, end) == Ok::<Seq<u8>, int>(
            s[i].data@.subrange(start - s[i].offset, end - s[i].offset),
        ),
{
    lemma_gather_skip_before(s, i, start, end, start);
    let u = s.subrange(i, s.len() as int);
    assert(u[0] == s[i]);
    let rest = u.drop_first();
    assert forall|j: int| 0 <= j < rest.len() implies chunk_end(#[trigger] rest[j]) <= start || rest[j].offset >= end by {
        assert(rest[j] == s[i + 1 + j]);
    }
    lemma_gather_rest_disjoint(rest, start, end, end);
    assert(s[i].data@.subrange(start - s[i].offset, end - s[i].offset) + Seq::<u8>::empty() =~= s[i].data@.subrange(
        start - s[i].offset,
        end - s[i].offset,
    ));
}

} // verus!
