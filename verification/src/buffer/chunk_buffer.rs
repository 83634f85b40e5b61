//! An in-memory buffer of remuxed chunks for HTTP range requests.
//!
//! Header chunks are kept for good; other chunks are keyed by their offset
//! and evicted oldest first when a count or byte limit would be exceeded.
//! Reads return the bytes of every buffered chunk that overlaps the range,
//! header chunks first, then the other chunks by increasing offset.
use std::collections::{HashMap, VecDeque};
use vstd::prelude::*;

use crate::buffer::{BufferConfig, BufferError};
use crate::chunk_server::{chunk_end, RemuxedChunk};

verus! {

broadcast use vstd::std_specs::hash::group_hash_axioms;

/// `x` limited to `[0, len]`.
pub open spec fn clamp(x: int, len: int) -> int {
    if x < 0 {
        0
    } else if x > len {
        len
    } else {
        x
    }
}

/// The bytes of `c` that fall within `[start, end)`, in order.
pub open spec fn overlap_bytes(c: RemuxedChunk, start: int, end: int) -> Seq<u8> {
    let len = c.data@.len() as int;
    let a = clamp(start - c.offset, len);
    let b = clamp(end - c.offset, len);
    if a < b {
        c.data@.subrange(a, b)
    } else {
        Seq::empty()
    }
}

/// Whether `c` shares a byte position with `[start, end)`.
pub open spec fn overlaps(c: RemuxedChunk, start: int, end: int) -> bool {
    chunk_end(c) > start && c.offset < end
}

/// The bytes of each chunk of `s` within `[start, end)`, one chunk after another.
pub open spec fn gathered(s: Seq<RemuxedChunk>, start: int, end: int) -> Seq<u8>
    decreases s.len(),
{
    if s.len() == 0 {
        Seq::empty()
    } else {
        gathered(s.drop_last(), start, end) + overlap_bytes(s.last(), start, end)
    }
}

/// All bytes of the chunks of `s`, one chunk after another.
pub open spec fn concatenated(s: Seq<RemuxedChunk>) -> Seq<u8>
    decreases s.len(),
{
    if s.len() == 0 {
        Seq::empty()
    } else {
        concatenated(s.drop_last()) + s.last().data@
    }
}

/// Whether `ks` is strictly increasing.
pub open spec fn increasing(ks: Seq<u64>) -> bool {
    forall|i: int, j: int| 0 <= i < j < ks.len() ==> ks[i] < ks[j]
}

/// Whether `ks` lists exactly the elements of `d`, in increasing order.
pub open spec fn lists_in_order(ks: Seq<u64>, d: Set<u64>) -> bool {
    &&& increasing(ks)
    &&& forall|k: u64| #[trigger] ks.contains(k) <==> d.contains(k)
}

/// The offsets of `d` in increasing order.
pub open spec fn sorted_offsets(d: Set<u64>) -> Seq<u64> {
    choose|ks: Seq<u64>| lists_in_order(ks, d)
}

/// The chunks of `m` at the offsets `ks`, in that order.
pub open spec fn chunks_at(m: Map<u64, RemuxedChunk>, ks: Seq<u64>) -> Seq<RemuxedChunk> {
    ks.map_values(|k: u64| m[k])
}

/// `a - b`, or zero when `b` is larger.
pub open spec fn saturating_minus(a: int, b: int) -> int {
    if a >= b {
        a - b
    } else {
        0
    }
}

/// Whether a regular chunk of `size` bytes does not fit next to the chunks
/// `m` holding `bytes` bytes.
pub open spec fn over_limits(m: Map<u64, RemuxedChunk>, bytes: int, size: int, config: BufferConfig) -> bool {
    m.len() >= config.max_chunks || bytes + size > config.max_bytes
}

/// The chunks, order, byte count and evicted chunk sizes after evicting
/// oldest first while the chunk count limit is reached and the order is
/// not empty. An offset whose chunk is already gone is dropped from the
/// order without changing anything else. The byte limit causes no
/// eviction: a chunk that exceeds it is refused.
pub open spec fn evicted(
    m: Map<u64, RemuxedChunk>,
    order: Seq<u64>,
    bytes: int,
    config: BufferConfig,
) -> (Map<u64, RemuxedChunk>, Seq<u64>, int, Seq<u64>)
    decreases order.len(),
{
    if order.len() > 0 && m.len() >= config.max_chunks {
        let o = order[0];
        if m.contains_key(o) {
            let n = m[o].data@.len() as int;
            let r = evicted(m.remove(o), order.drop_first(), saturating_minus(bytes, n), config);
            (r.0, r.1, r.2, seq![n as u64] + r.3)
        } else {
            evicted(m, order.drop_first(), bytes, config)
        }
    } else {
        (m, order, bytes, Seq::empty())
    }
}

/// Whether `lo` is the least offset and `hi` the greatest end among the
/// chunks of `headers` and `m`.
pub open spec fn spans(headers: Seq<RemuxedChunk>, m: Map<u64, RemuxedChunk>, lo: u64, hi: u64) -> bool {
    &&& forall|i: int| 0 <= i < headers.len() ==> lo <= (#[trigger] headers[i]).offset && chunk_end(headers[i]) <= hi
    &&& forall|k: u64| #[trigger] m.contains_key(k) ==> lo <= m[k].offset && chunk_end(m[k]) <= hi
    &&& (exists|i: int| 0 <= i < headers.len() && (#[trigger] headers[i]).offset == lo)
        || (exists|k: u64| #[trigger] m.contains_key(k) && m[k].offset == lo)
    &&& (exists|i: int| 0 <= i < headers.len() && chunk_end(#[trigger] headers[i]) == hi)
        || (exists|k: u64| #[trigger] m.contains_key(k) && chunk_end(m[k]) == hi)
}

proof fn lemma_increasing_unique(a: Seq<u64>, b: Seq<u64>)
    requires
        increasing(a),
        increasing(b),
        forall|k: u64| #[trigger] a.contains(k) <==> b.contains(k),
    ensures
        a == b,
    decreases a.len(),
{
    if a.len() == 0 {
        if b.len() > 0 {
            assert(b.contains(b[0]));
            assert(a.contains(b[0]));
            let x = choose|x: int| 0 <= x < a.len() && a[x] == b[0];
            assert(false);
        }
        assert(a =~= b);
    } else {
        assert(a.contains(a[0]));
        assert(b.contains(a[0]));
        assert(b.contains(b[0]));
        assert(a.contains(b[0]));
        let j = choose|j: int| 0 <= j < b.len() && b[j] == a[0];
        let i = choose|i: int| 0 <= i < a.len() && a[i] == b[0];
        if j > 0 {
            assert(b[0] < b[j]);
            if i > 0 {
                assert(a[0] < a[i]);
            }
        }
        assert(a[0] == b[0]);
        let a2 = a.drop_first();
        let b2 = b.drop_first();
        assert forall|k: u64| #[trigger] a2.contains(k) implies b2.contains(k) by {
            let x = choose|x: int| 0 <= x < a2.len() && a2[x] == k;
            assert(a[x + 1] == k);
            assert(a[0] < a[x + 1]);
            assert(a.contains(k));
            let y = choose|y: int| 0 <= y < b.len() && b[y] == k;
            assert(y != 0);
            assert(b2[y - 1] == k);
        }
        assert forall|k: u64| #[trigger] b2.contains(k) implies a2.contains(k) by {
            let x = choose|x: int| 0 <= x < b2.len() && b2[x] == k;
            assert(b[x + 1] == k);
            assert(b[0] < b[x + 1]);
            assert(b.contains(k));
            assert(a.contains(k));
            let y = choose|y: int| 0 <= y < a.len() && a[y] == k;
            assert(y != 0);
            assert(a2[y - 1] == k);
        }
        lemma_increasing_unique(a2, b2);
        assert(a.len() == b.len());
        assert forall|i: int| 0 <= i < a.len() implies a[i] == b[i] by {
            if i > 0 {
                assert(a[i] == a2[i - 1]);
                assert(b[i] == b2[i - 1]);
            }
        }
        assert(a =~= b);
    }
}

/// Inserts `o` into the increasing list `ks` unless it is there already.
fn insert_sorted(ks: &mut Vec<u64>, o: u64)
    requires
        increasing(old(ks)@),
    ensures
        increasing(final(ks)@),
        forall|k: u64| #[trigger] final(ks)@.contains(k) <==> (old(ks)@.contains(k) || k == o),
{
    let n = ks.len();
    let mut p: usize = 0;
    while p < n && ks[p] < o
        invariant
            p <= n,
            n == ks@.len(),
            ks@ == old(ks)@,
            increasing(ks@),
            forall|j: int| 0 <= j < p ==> ks@[j] < o,
        decreases n - p,
    {
        p = p + 1;
    }
    if p < n && ks[p] == o {
        assert(ks@.contains(o));
        return;
    }
    let ghost s = ks@;
    ks.insert(p, o);
    proof {
        let t = ks@;
        assert(t =~= s.insert(p as int, o));
        assert forall|i: int, j: int| 0 <= i < j < t.len() implies t[i] < t[j] by {
            if j < p {
            } else if j == p {
            } else if i < p {
                assert(s[i] < o);
                assert(o < s[p as int] || p == n);
            } else if i == p {
                assert(t[j] == s[j - 1]);
                if p < j - 1 {
                    assert(s[p as int] < s[j - 1]);
                }
            } else {
                assert(t[i] == s[i - 1]);
                assert(t[j] == s[j - 1]);
            }
        }
        assert forall|k: u64| #[trigger] t.contains(k) implies (s.contains(k) || k == o) by {
            let x = choose|x: int| 0 <= x < t.len() && t[x] == k;
            if x < p {
                assert(s[x] == k);
            } else if x > p {
                assert(s[x - 1] == k);
            }
        }
        assert forall|k: u64| (s.contains(k) || k == o) implies #[trigger] t.contains(k) by {
            if k == o {
                assert(t[p as int] == o);
            } else {
                let x = choose|x: int| 0 <= x < s.len() && s[x] == k;
                if x < p {
                    assert(t[x] == k);
                } else {
                    assert(t[x + 1] == k);
                }
            }
        }
    }
}

/// The bytes a read of `[start, end)` returns from header chunks `headers`
/// and regular chunks `m`: the headers' bytes in the order written, then
/// the regular chunks' bytes by increasing offset.
pub open spec fn range_bytes(headers: Seq<RemuxedChunk>, m: Map<u64, RemuxedChunk>, start: int, end: int) -> Seq<u8> {
    gathered(headers, start, end) + gathered(chunks_at(m, sorted_offsets(m.dom())), start, end)
}

/// Whether some header chunk or regular chunk overlaps `[start, end)`.
pub open spec fn touches(headers: Seq<RemuxedChunk>, m: Map<u64, RemuxedChunk>, start: int, end: int) -> bool {
    (exists|i: int| 0 <= i < headers.len() && overlaps(#[trigger] headers[i], start, end))
        || (exists|k: u64| #[trigger] m.contains_key(k) && overlaps(m[k], start, end))
}

/// Buffer of remuxed chunks with permanent header chunks and oldest-first
/// eviction of the others.
pub struct ChunkBuffer {
    chunks: HashMap<u64, RemuxedChunk>,
    chunk_order: VecDeque<u64>,
    header_cache: Vec<RemuxedChunk>,
    config: BufferConfig,
    current_bytes: u64,
    evicted_sizes: Vec<u64>,
    range_hits: u64,
    range_misses: u64,
}

impl ChunkBuffer {
    /// The regular chunks by offset.
    pub closed spec fn spec_chunks(&self) -> Map<u64, RemuxedChunk> {
        self.chunks@
    }

    /// The offsets of regular chunks in the order they were written; an
    /// offset written twice appears twice.
    pub closed spec fn spec_order(&self) -> Seq<u64> {
        self.chunk_order@
    }

    /// The header chunks, in the order they were written.
    pub closed spec fn spec_headers(&self) -> Seq<RemuxedChunk> {
        self.header_cache@
    }

    /// The limits.
    pub closed spec fn spec_config(&self) -> BufferConfig {
        self.config
    }

    /// The byte count of regular chunks: every regular write adds the
    /// chunk's size, every eviction subtracts the evicted chunk's size.
    pub closed spec fn spec_current_bytes(&self) -> int {
        self.current_bytes as int
    }

    /// Sizes of the chunks evicted since the log was last taken.
    pub closed spec fn spec_evicted_log(&self) -> Seq<u64> {
        self.evicted_sizes@
    }

    /// Range reads that found some buffered chunk overlapping the range.
    pub closed spec fn spec_range_hits(&self) -> u64 {
        self.range_hits
    }

    /// Range reads that found no buffered chunk overlapping the range.
    pub closed spec fn spec_range_misses(&self) -> u64 {
        self.range_misses
    }

    /// The buffer's invariant: the limits hold, every regular chunk is
    /// keyed by its offset and has its offset in the order, and every
    /// chunk ends within the offset range.
    pub closed spec fn wf(&self) -> bool {
        &&& self.current_bytes <= self.config.max_bytes
        &&& self.chunks@.len() <= self.config.max_chunks
        &&& forall|k: u64| #[trigger] self.chunks@.contains_key(k) ==> self.chunk_order@.contains(k)
        &&& forall|k: u64| #[trigger] self.chunks@.contains_key(k) ==> self.chunks@[k].offset == k
        &&& forall|k: u64| #[trigger] self.chunks@.contains_key(k) ==> chunk_end(self.chunks@[k]) <= u64::MAX
        &&& forall|i: int| 0 <= i < self.header_cache@.len() ==> chunk_end(#[trigger] self.header_cache@[i]) <= u64::MAX
    }

    /// Creates an empty buffer with the given limits.
    pub fn new(config: BufferConfig) -> (b: ChunkBuffer)
        ensures
            b.wf(),
            b.spec_config() == config,
            b.spec_chunks() == Map::<u64, RemuxedChunk>::empty(),
            b.spec_order() == Seq::<u64>::empty(),
            b.spec_headers() == Seq::<RemuxedChunk>::empty(),
            b.spec_current_bytes() == 0,
            b.spec_evicted_log() == Seq::<u64>::empty(),
            b.spec_range_hits() == 0,
            b.spec_range_misses() == 0,
    {
        ChunkBuffer {
            chunks: HashMap::new(),
            chunk_order: VecDeque::new(),
            header_cache: Vec::new(),
            config,
            current_bytes: 0,
            evicted_sizes: Vec::new(),
            range_hits: 0,
            range_misses: 0,
        }
    }

    /// Whether a regular chunk of `size` bytes does not fit now.
    fn over_limits(&self, size: u64) -> (b: bool)
        requires
            self.current_bytes <= self.config.max_bytes,
        ensures
            b == over_limits(self.chunks@, self.current_bytes as int, size as int, self.config),
    {
        self.chunks.len() >= self.config.max_chunks || size > self.config.max_bytes - self.current_bytes
    }

    /// Writes a chunk. A header chunk is kept for good. A regular chunk
    /// first makes room by evicting the oldest regular chunks while the
    /// chunk count limit is reached; it is refused with `CapacityExceeded`
    /// when it still does not fit, by count or by bytes (the evictions
    /// stand), and is stored under its offset otherwise.
    pub fn write_chunk(&mut self, chunk: RemuxedChunk) -> (r: Result<(), BufferError>)
        requires
            old(self).wf(),
            chunk_end(chunk) <= u64::MAX,
        ensures
            final(self).wf(),
            final(self).spec_config() == old(self).spec_config(),
            final(self).spec_range_hits() == old(self).spec_range_hits(),
            final(self).spec_range_misses() == old(self).spec_range_misses(),
            chunk.is_header ==> {
                &&& r is Ok
                &&& final(self).spec_headers() == old(self).spec_headers().push(chunk)
                &&& final(self).spec_chunks() == old(self).spec_chunks()
                &&& final(self).spec_order() == old(self).spec_order()
                &&& final(self).spec_current_bytes() == old(self).spec_current_bytes()
                &&& final(self).spec_evicted_log() == old(self).spec_evicted_log()
            },
            !chunk.is_header ==> {
                let size = chunk.data@.len() as int;
                let e = evicted(
                    old(self).spec_chunks(),
                    old(self).spec_order(),
                    old(self).spec_current_bytes(),
                    old(self).spec_config(),
                );
                &&& final(self).spec_headers() == old(self).spec_headers()
                &&& final(self).spec_evicted_log() == old(self).spec_evicted_log() + e.3
                &&& if over_limits(e.0, e.2, size, old(self).spec_config()) {
                    &&& r == Err::<(), BufferError>(BufferError::CapacityExceeded)
                    &&& final(self).spec_chunks() == e.0
                    &&& final(self).spec_order() == e.1
                    &&& final(self).spec_current_bytes() == e.2
                } else {
                    &&& r is Ok
                    &&& final(self).spec_chunks() == e.0.insert(chunk.offset, chunk)
                    &&& final(self).spec_order() == e.1.push(chunk.offset)
                    &&& final(self).spec_current_bytes() == e.2 + size
                }
            },
            final(self).spec_chunks().len() <= final(self).spec_config().max_chunks,
            final(self).spec_current_bytes() <= final(self).spec_config().max_bytes,
            chunk.is_header ==> concatenated(final(self).spec_headers()) == concatenated(old(self).spec_headers()) + chunk.data@,
            !chunk.is_header ==> concatenated(final(self).spec_headers()) == concatenated(old(self).spec_headers()),
            !chunk.is_header && r is Ok && chunk.data@.len() > 0 ==> range_bytes(
                final(self).spec_headers(),
                final(self).spec_chunks(),
                chunk.offset as int,
                chunk_end(chunk),
            ).len() > 0,
    {
        let size = chunk.data.len() as u64;
        if chunk.is_header {
            self.header_cache.push(chunk);
            proof {
                assert forall|i: int| 0 <= i < self.header_cache@.len() implies chunk_end(#[trigger] self.header_cache@[i]) <= u64::MAX by {
                    if i < old(self).header_cache@.len() {
                        assert(self.header_cache@[i] == old(self).header_cache@[i]);
                    }
                }
                assert(self.header_cache@.drop_last() =~= old(self).header_cache@);
            }
            return Ok(());
        }
        let ghost config = self.config;
        let ghost target = evicted(self.chunks@, self.chunk_order@, self.current_bytes as int, config);
        let ghost log0 = self.evicted_sizes@;
        let ghost mut ev: Seq<u64> = Seq::empty();
        proof {
            assert(log0 + ev =~= log0);
            assert(ev + target.3 =~= target.3);
        }
        while self.chunks.len() >= self.config.max_chunks && self.chunk_order.len() > 0
            invariant
                self.wf(),
                self.config == config,
                self.header_cache == old(self).header_cache,
                self.evicted_sizes@ == log0 + ev,
                self.range_hits == old(self).range_hits,
                self.range_misses == old(self).range_misses,
                ({
                    let e = evicted(self.chunks@, self.chunk_order@, self.current_bytes as int, config);
                    (e.0, e.1, e.2, ev + e.3) == target
                }),
            decreases self.chunk_order@.len(),
        {
            let ghost m = self.chunks@;
            let ghost order = self.chunk_order@;
            let ghost bytes = self.current_bytes as int;
            let ghost ev_before = ev;
            let oldest = self.chunk_order.pop_front().unwrap();
            assert(oldest == order[0]);
            assert(self.chunk_order@ == order.drop_first());
            match self.chunks.remove(&oldest) {
                Some(old_chunk) => {
                    let old_size = old_chunk.data.len() as u64;
                    self.current_bytes = self.current_bytes.saturating_sub(old_size);
                    self.evicted_sizes.push(old_size);
                    proof {
                        ev = ev.push(old_size);
                        let rest = evicted(self.chunks@, self.chunk_order@, self.current_bytes as int, config);
                        assert(m.contains_key(oldest));
                        assert(self.chunks@ == m.remove(oldest));
                        assert(ev_before + (seq![old_size] + rest.3) =~= ev + rest.3);
                        assert(self.evicted_sizes@ =~= log0 + ev);
                    }
                },
                None => {
                    proof {
                        assert(!m.contains_key(oldest));
                        assert(self.chunks@ == m);
                    }
                },
            }
            proof {
                assert forall|k: u64| #[trigger] self.chunks@.contains_key(k) implies self.chunk_order@.contains(k) by {
                    assert(m.contains_key(k));
                    assert(order.contains(k));
                    let x = choose|x: int| 0 <= x < order.len() && order[x] == k;
                    assert(x != 0);
                    assert(self.chunk_order@[x - 1] == k);
                }
            }
        }
        proof {
            let e = evicted(self.chunks@, self.chunk_order@, self.current_bytes as int, config);
            assert(e == (self.chunks@, self.chunk_order@, self.current_bytes as int, Seq::<u64>::empty()));
            assert(ev + e.3 =~= ev);
        }
        if self.over_limits(size) {
            return Err(BufferError::CapacityExceeded);
        }
        let offset = chunk.offset;
        let ghost m1 = self.chunks@;
        let ghost o1 = self.chunk_order@;
        self.chunks.insert(offset, chunk);
        self.chunk_order.push_back(offset);
        self.current_bytes = self.current_bytes + size;
        proof {
            assert(self.chunk_order@ == o1.push(offset));
            assert(self.chunk_order@[o1.len() as int] == offset);
            assert forall|k: u64| #[trigger] self.chunks@.contains_key(k) implies self.chunk_order@.contains(k) by {
                if k == offset {
                    assert(self.chunk_order@[o1.len() as int] == k);
                } else {
                    assert(m1.contains_key(k));
                    assert(o1.contains(k));
                    let x = choose|x: int| 0 <= x < o1.len() && o1[x] == k;
                    assert(self.chunk_order@[x] == k);
                }
            }
            assert(self.chunks@.dom() == m1.dom().insert(offset));
            if chunk.data@.len() > 0 {
                let m = self.chunks@;
                assert(m.dom().finite()) by {
                    broadcast use vstd::std_specs::hash::axiom_hashmap_view_finite_dom;
                }
                lemma_sorted_offsets(m.dom());
                let ks = sorted_offsets(m.dom());
                assert(ks.contains(offset));
                let idx = choose|i: int| 0 <= i < ks.len() && ks[i] == offset;
                let sq = chunks_at(m, ks);
                assert(sq[idx] == chunk);
                assert(overlap_bytes(chunk, offset as int, chunk_end(chunk)) =~= chunk.data@);
                lemma_gathered_covers(sq, idx, offset as int, chunk_end(chunk));
            }
        }
        Ok(())
    }

    /// The bytes of `chunk` within `[start, end)`.
    fn extract_range_from_chunk(&self, chunk: &RemuxedChunk, start: u64, end: u64) -> (v: Vec<u8>)
        requires
            chunk_end(*chunk) <= u64::MAX,
        ensures
            v@ == overlap_bytes(*chunk, start as int, end as int),
    {
        let len = chunk.data.len() as u64;
        let from_start = start.saturating_sub(chunk.offset);
        let copy_start = if from_start < len { from_start } else { len };
        let from_end = end.saturating_sub(chunk.offset);
        let copy_end = if from_end < len { from_end } else { len };
        let mut v: Vec<u8> = Vec::new();
        if copy_start < copy_end {
            let mut x: usize = copy_start as usize;
            while x < copy_end as usize
                invariant
                    copy_start <= x <= copy_end <= chunk.data@.len(),
                    v@ == chunk.data@.subrange(copy_start as int, x as int),
                decreases copy_end - x,
            {
                v.push(chunk.data[x]);
                proof {
                    assert(v@ =~= chunk.data@.subrange(copy_start as int, x + 1));
                }
                x = x + 1;
            }
        }
        v
    }

    /// Whether `chunk` overlaps `[start, end)`.
    fn chunk_overlaps_range(&self, chunk: &RemuxedChunk, start: u64, end: u64) -> (b: bool)
        requires
            chunk_end(*chunk) <= u64::MAX,
        ensures
            b == overlaps(*chunk, start as int, end as int),
    {
        let chunk_start = chunk.offset;
        let end_offset = chunk_start + chunk.data.len() as u64;
        end_offset > start && chunk_start < end
    }

    /// The offsets of the regular chunks, in increasing order.
    fn offsets_in_order(&self) -> (ks: Vec<u64>)
        requires
            self.wf(),
        ensures
            ks@ == sorted_offsets(self.chunks@.dom()),
            lists_in_order(ks@, self.chunks@.dom()),
    {
        let mut ks: Vec<u64> = Vec::new();
        let n = self.chunk_order.len();
        let mut i: usize = 0;
        while i < n
            invariant
                self.wf(),
                n == self.chunk_order@.len(),
                i <= n,
                increasing(ks@),
                forall|k: u64| #[trigger] ks@.contains(k) <==> (self.chunks@.contains_key(k)
                    && exists|j: int| 0 <= j < i && self.chunk_order@[j] == k),
            decreases n - i,
        {
            let o = self.chunk_order[i];
            let ghost before = ks@;
            if self.chunks.contains_key(&o) {
                insert_sorted(&mut ks, o);
            }
            proof {
                assert forall|k: u64| #[trigger] ks@.contains(k) <==> (self.chunks@.contains_key(k)
                    && exists|j: int| 0 <= j < i + 1 && self.chunk_order@[j] == k) by {
                    if self.chunks@.contains_key(k) && exists|j: int| 0 <= j < i + 1 && self.chunk_order@[j] == k {
                        let j = choose|j: int| 0 <= j < i + 1 && self.chunk_order@[j] == k;
                        if j < i {
                            assert(before.contains(k));
                        }
                    }
                    if before.contains(k) {
                        let j = choose|j: int| 0 <= j < i && self.chunk_order@[j] == k;
                        assert(0 <= j < i + 1 && self.chunk_order@[j] == k);
                    }
                    if k == o && self.chunks@.contains_key(o) {
                        assert(0 <= i < i + 1 && self.chunk_order@[i as int] == k);
                    }
                }
            }
            i = i + 1;
        }
        proof {
            assert forall|k: u64| #[trigger] ks@.contains(k) <==> self.chunks@.dom().contains(k) by {
                if self.chunks@.contains_key(k) {
                    assert(self.chunk_order@.contains(k));
                    let j = choose|j: int| 0 <= j < self.chunk_order@.len() && self.chunk_order@[j] == k;
                    assert(0 <= j < n && self.chunk_order@[j] == k);
                }
            }
            assert(lists_in_order(ks@, self.chunks@.dom()));
            let c = sorted_offsets(self.chunks@.dom());
            assert(lists_in_order(c, self.chunks@.dom()));
            lemma_increasing_unique(ks@, c);
        }
        ks
    }

    /// The buffered bytes within `[start, end)`: the overlapping part of
    /// each header chunk in the order written, then of each regular chunk
    /// by increasing offset. Empty when nothing overlaps. The read counts
    /// as a range hit when some buffered chunk overlaps the range (see
    /// `range_touched`), as a range miss otherwise; nothing else changes.
    pub fn read_range(&mut self, start: u64, end: u64) -> (r: Vec<u8>)
        requires
            old(self).wf(),
            old(self).spec_range_hits() < u64::MAX,
            old(self).spec_range_misses() < u64::MAX,
        ensures
            final(self).wf(),
            r@ == gathered(old(self).spec_headers(), start as int, end as int) + gathered(
                chunks_at(old(self).spec_chunks(), sorted_offsets(old(self).spec_chunks().dom())),
                start as int,
                end as int,
            ),
            final(self).spec_range_hits() == old(self).spec_range_hits()
                + if touches(old(self).spec_headers(), old(self).spec_chunks(), start as int, end as int) { 1int } else { 0 },
            final(self).spec_range_misses() == old(self).spec_range_misses()
                + if touches(old(self).spec_headers(), old(self).spec_chunks(), start as int, end as int) { 0int } else { 1 },
            final(self).spec_chunks() == old(self).spec_chunks(),
            final(self).spec_order() == old(self).spec_order(),
            final(self).spec_headers() == old(self).spec_headers(),
            final(self).spec_current_bytes() == old(self).spec_current_bytes(),
            final(self).spec_evicted_log() == old(self).spec_evicted_log(),
            final(self).spec_config() == old(self).spec_config(),
    {
        let touched = self.range_touched(start, end);
        let r = self.gather_range(start, end);
        if touched {
            self.range_hits = self.range_hits + 1;
        } else {
            self.range_misses = self.range_misses + 1;
        }
        r
    }

    /// Range reads that found some buffered chunk overlapping the range.
    pub fn range_hits(&self) -> (n: u64)
        ensures
            n == self.spec_range_hits(),
    {
        self.range_hits
    }

    /// Range reads that found no buffered chunk overlapping the range.
    pub fn range_misses(&self) -> (n: u64)
        ensures
            n == self.spec_range_misses(),
    {
        self.range_misses
    }

    /// The bytes a read of `[start, end)` returns (see `read_range`).
    fn gather_range(&self, start: u64, end: u64) -> (r: Vec<u8>)
        requires
            self.wf(),
        ensures
            r@ == gathered(self.spec_headers(), start as int, end as int) + gathered(
                chunks_at(self.spec_chunks(), sorted_offsets(self.spec_chunks().dom())),
                start as int,
                end as int,
            ),
    {
        let mut result: Vec<u8> = Vec::new();
        let ghost headers = self.header_cache@;
        let nh = self.header_cache.len();
        let mut i: usize = 0;
        while i < nh
            invariant
                self.wf(),
                headers == self.header_cache@,
                nh == headers.len(),
                i <= nh,
                result@ == gathered(headers.take(i as int), start as int, end as int),
            decreases nh - i,
        {
            let chunk = &self.header_cache[i];
            if self.chunk_overlaps_range(chunk, start, end) {
                let mut data = self.extract_range_from_chunk(chunk, start, end);
                result.append(&mut data);
            }
            proof {
                assert(headers.take(i + 1).drop_last() =~= headers.take(i as int));
                if !overlaps(headers[i as int], start as int, end as int) {
                    assert(overlap_bytes(headers[i as int], start as int, end as int) =~= Seq::<u8>::empty());
                }
                assert(result@ =~= gathered(headers.take(i + 1), start as int, end as int));
            }
            i = i + 1;
        }
        proof {
            assert(headers.take(nh as int) =~= headers);
        }
        let ks = self.offsets_in_order();
        let ghost first = result@;
        let ghost regular = chunks_at(self.chunks@, ks@);
        let nk = ks.len();
        let mut j: usize = 0;
        while j < nk
            invariant
                self.wf(),
                nk == ks@.len(),
                lists_in_order(ks@, self.chunks@.dom()),
                regular == chunks_at(self.chunks@, ks@),
                j <= nk,
                result@ == first + gathered(regular.take(j as int), start as int, end as int),
            decreases nk - j,
        {
            let k = ks[j];
            proof {
                assert(ks@.contains(k));
            }
            match self.chunks.get(&k) {
                Some(chunk) => {
                    if self.chunk_overlaps_range(chunk, start, end) {
                        let mut data = self.extract_range_from_chunk(chunk, start, end);
                        result.append(&mut data);
                    }
                    proof {
                        assert(*chunk == regular[j as int]);
                        if !overlaps(regular[j as int], start as int, end as int) {
                            assert(overlap_bytes(regular[j as int], start as int, end as int) =~= Seq::<u8>::empty());
                        }
                    }
                },
                None => {},
            }
            proof {
                assert(regular.take(j + 1).drop_last() =~= regular.take(j as int));
                assert(result@ =~= first + gathered(regular.take(j + 1), start as int, end as int));
            }
            j = j + 1;
        }
        proof {
            assert(regular.take(nk as int) =~= regular);
        }
        result
    }

    /// Whether some buffered chunk overlaps `[start, end)`: a read of that
    /// range counts as a hit when it does and as a miss otherwise.
    pub fn range_touched(&self, start: u64, end: u64) -> (b: bool)
        requires
            self.wf(),
        ensures
            b == touches(self.spec_headers(), self.spec_chunks(), start as int, end as int),
    {
        let nh = self.header_cache.len();
        let mut i: usize = 0;
        while i < nh
            invariant
                self.wf(),
                nh == self.header_cache@.len(),
                i <= nh,
                forall|x: int| 0 <= x < i ==> !overlaps(#[trigger] self.header_cache@[x], start as int, end as int),
            decreases nh - i,
        {
            if self.chunk_overlaps_range(&self.header_cache[i], start, end) {
                assert(overlaps(self.spec_headers()[i as int], start as int, end as int));
                return true;
            }
            i = i + 1;
        }
        let n = self.chunk_order.len();
        let mut j: usize = 0;
        while j < n
            invariant
                self.wf(),
                n == self.chunk_order@.len(),
                j <= n,
                forall|x: int| 0 <= x < nh ==> !overlaps(#[trigger] self.header_cache@[x], start as int, end as int),
                nh == self.header_cache@.len(),
                forall|x: int| 0 <= x < j && #[trigger] self.chunks@.contains_key(self.chunk_order@[x])
                    ==> !overlaps(self.chunks@[self.chunk_order@[x]], start as int, end as int),
            decreases n - j,
        {
            let o = self.chunk_order[j];
            match self.chunks.get(&o) {
                Some(chunk) => {
                    if self.chunk_overlaps_range(chunk, start, end) {
                        assert(self.spec_chunks().contains_key(o));
                        assert(overlaps(self.spec_chunks()[o], start as int, end as int));
                        return true;
                    }
                },
                None => {},
            }
            j = j + 1;
        }
        proof {
            assert forall|k: u64| #[trigger] self.chunks@.contains_key(k) implies !overlaps(self.chunks@[k], start as int, end as int) by {
                assert(self.chunk_order@.contains(k));
                let x = choose|x: int| 0 <= x < self.chunk_order@.len() && self.chunk_order@[x] == k;
                assert(self.chunks@.contains_key(self.chunk_order@[x]));
            }
        }
        false
    }

    /// The least offset and the greatest end among all buffered chunks,
    /// header chunks included; `None` when nothing is buffered.
    pub fn buffered_range(&self) -> (r: Option<(u64, u64)>)
        requires
            self.wf(),
        ensures
            r is None <==> (self.spec_headers().len() == 0 && forall|k: u64| !#[trigger] self.spec_chunks().contains_key(k)),
            r matches Some((lo, hi)) ==> spans(self.spec_headers(), self.spec_chunks(), lo, hi),
    {
        let mut min_offset: u64 = u64::MAX;
        let mut max_offset: u64 = 0;
        let mut found_any = false;
        let ghost h = self.header_cache@;
        let ghost m = self.chunks@;
        let ghost order = self.chunk_order@;
        let nh = self.header_cache.len();
        let mut i: usize = 0;
        while i < nh
            invariant
                self.wf(),
                h == self.header_cache@,
                nh == h.len(),
                i <= nh,
                found_any == (i > 0),
                forall|x: int| 0 <= x < i ==> min_offset <= (#[trigger] h[x]).offset && chunk_end(h[x]) <= max_offset,
                found_any ==> exists|x: int| 0 <= x < i && (#[trigger] h[x]).offset == min_offset,
                found_any ==> exists|x: int| 0 <= x < i && chunk_end(#[trigger] h[x]) == max_offset,
            decreases nh - i,
        {
            let chunk = &self.header_cache[i];
            let end_offset = chunk.offset + chunk.data.len() as u64;
            if !found_any || chunk.offset < min_offset {
                min_offset = chunk.offset;
            }
            if !found_any || end_offset > max_offset {
                max_offset = end_offset;
            }
            found_any = true;
            proof {
                assert(h[i as int] == *chunk);
                if chunk.offset != min_offset {
                    let x = choose|x: int| 0 <= x < i && (#[trigger] h[x]).offset == min_offset;
                    assert(0 <= x < i + 1 && h[x].offset == min_offset);
                }
                if end_offset != max_offset {
                    let x = choose|x: int| 0 <= x < i && chunk_end(#[trigger] h[x]) == max_offset;
                    assert(0 <= x < i + 1 && chunk_end(h[x]) == max_offset);
                }
            }
            i = i + 1;
        }
        let n = self.chunk_order.len();
        let mut j: usize = 0;
        while j < n
            invariant
                self.wf(),
                h == self.header_cache@,
                m == self.chunks@,
                order == self.chunk_order@,
                nh == h.len(),
                n == order.len(),
                j <= n,
                found_any == (nh > 0 || exists|x: int| 0 <= x < j && #[trigger] m.contains_key(order[x])),
                forall|x: int| 0 <= x < nh ==> min_offset <= (#[trigger] h[x]).offset && chunk_end(h[x]) <= max_offset,
                forall|x: int| 0 <= x < j && #[trigger] m.contains_key(order[x])
                    ==> min_offset <= m[order[x]].offset && chunk_end(m[order[x]]) <= max_offset,
                found_any ==> (exists|x: int| 0 <= x < nh && (#[trigger] h[x]).offset == min_offset)
                    || (exists|x: int| 0 <= x < j && #[trigger] m.contains_key(order[x]) && m[order[x]].offset == min_offset),
                found_any ==> (exists|x: int| 0 <= x < nh && chunk_end(#[trigger] h[x]) == max_offset)
                    || (exists|x: int| 0 <= x < j && #[trigger] m.contains_key(order[x]) && chunk_end(m[order[x]]) == max_offset),
            decreases n - j,
        {
            let o = self.chunk_order[j];
            let ghost was_found = found_any;
            match self.chunks.get(&o) {
                Some(chunk) => {
                    let end_offset = o + chunk.data.len() as u64;
                    if !found_any || o < min_offset {
                        min_offset = o;
                    }
                    if !found_any || end_offset > max_offset {
                        max_offset = end_offset;
                    }
                    found_any = true;
                    proof {
                        assert(m.contains_key(order[j as int]));
                        assert(m[o] == *chunk);
                        if !(o == min_offset) {
                            assert(was_found);
                        }
                    }
                },
                None => {},
            }
            proof {
                assert forall|x: int| 0 <= x < j + 1 && #[trigger] m.contains_key(order[x])
                    implies min_offset <= m[order[x]].offset && chunk_end(m[order[x]]) <= max_offset by {
                    if x < j {
                        assert(m.contains_key(order[x]));
                    }
                }
                if found_any {
                    if exists|x: int| 0 <= x < nh && (#[trigger] h[x]).offset == min_offset {
                    } else if m.contains_key(o) && m[o].offset == min_offset {
                        assert(0 <= j < j + 1 && m.contains_key(order[j as int]) && m[order[j as int]].offset == min_offset);
                    } else {
                        let x = choose|x: int| 0 <= x < j && #[trigger] m.contains_key(order[x]) && m[order[x]].offset == min_offset;
                        assert(0 <= x < j + 1 && m.contains_key(order[x]) && m[order[x]].offset == min_offset);
                    }
                    if exists|x: int| 0 <= x < nh && chunk_end(#[trigger] h[x]) == max_offset {
                    } else if m.contains_key(o) && chunk_end(m[o]) == max_offset {
                        assert(0 <= j < j + 1 && m.contains_key(order[j as int]) && chunk_end(m[order[j as int]]) == max_offset);
                    } else {
                        let x = choose|x: int| 0 <= x < j && #[trigger] m.contains_key(order[x]) && chunk_end(m[order[x]]) == max_offset;
                        assert(0 <= x < j + 1 && m.contains_key(order[x]) && chunk_end(m[order[x]]) == max_offset);
                    }
                }
                if m.contains_key(o) {
                    assert(0 <= j < j + 1 && m.contains_key(order[j as int]));
                }
                if exists|x: int| 0 <= x < j + 1 && #[trigger] m.contains_key(order[x]) {
                    if !m.contains_key(o) {
                        let x = choose|x: int| 0 <= x < j + 1 && #[trigger] m.contains_key(order[x]);
                        assert(x != j);
                        assert(0 <= x < j && m.contains_key(order[x]));
                    }
                }
            }
            j = j + 1;
        }
        proof {
            assert forall|k: u64| #[trigger] m.contains_key(k) implies min_offset <= m[k].offset && chunk_end(m[k]) <= max_offset by {
                assert(order.contains(k));
                let x = choose|x: int| 0 <= x < order.len() && order[x] == k;
                assert(m.contains_key(order[x]));
            }
            if found_any {
                if exists|x: int| 0 <= x < n && #[trigger] m.contains_key(order[x]) && m[order[x]].offset == min_offset {
                    let x = choose|x: int| 0 <= x < n && #[trigger] m.contains_key(order[x]) && m[order[x]].offset == min_offset;
                    assert(m.contains_key(order[x]) && m[order[x]].offset == min_offset);
                }
                if exists|x: int| 0 <= x < n && #[trigger] m.contains_key(order[x]) && chunk_end(m[order[x]]) == max_offset {
                    let x = choose|x: int| 0 <= x < n && #[trigger] m.contains_key(order[x]) && chunk_end(m[order[x]]) == max_offset;
                    assert(m.contains_key(order[x]) && chunk_end(m[order[x]]) == max_offset);
                }
            } else {
                assert forall|k: u64| !#[trigger] m.contains_key(k) by {
                    if m.contains_key(k) {
                        assert(order.contains(k));
                        let x = choose|x: int| 0 <= x < order.len() && order[x] == k;
                        assert(m.contains_key(order[x]));
                    }
                }
            }
            if found_any && nh == 0 {
                let x = choose|x: int| 0 <= x < n && #[trigger] m.contains_key(order[x]);
                assert(self.spec_chunks().contains_key(order[x]));
            }
            if !found_any {
                assert(self.spec_headers().len() == 0);
                assert forall|k: u64| !#[trigger] self.spec_chunks().contains_key(k) by {
                    assert(!m.contains_key(k));
                }
            }
        }
        if found_any {
            Some((min_offset, max_offset))
        } else {
            None
        }
    }

    /// Whether a header chunk was written.
    pub fn has_headers(&self) -> (b: bool)
        ensures
            b == (self.spec_headers().len() > 0),
    {
        self.header_cache.len() > 0
    }

    /// All header bytes, the header chunks one after another.
    pub fn header_data(&self) -> (r: Vec<u8>)
        ensures
            r@ == concatenated(self.spec_headers()),
    {
        let mut result: Vec<u8> = Vec::new();
        let ghost headers = self.header_cache@;
        let nh = self.header_cache.len();
        let mut i: usize = 0;
        while i < nh
            invariant
                headers == self.header_cache@,
                nh == headers.len(),
                i <= nh,
                result@ == concatenated(headers.take(i as int)),
            decreases nh - i,
        {
            let chunk = &self.header_cache[i];
            let mut k: usize = 0;
            let ghost before = result@;
            while k < chunk.data.len()
                invariant
                    k <= chunk.data@.len(),
                    result@ == before + chunk.data@.take(k as int),
                decreases chunk.data@.len() - k,
            {
                result.push(chunk.data[k]);
                proof {
                    assert(result@ =~= before + chunk.data@.take(k + 1));
                }
                k = k + 1;
            }
            proof {
                assert(chunk.data@.take(chunk.data@.len() as int) =~= chunk.data@);
                assert(headers.take(i + 1).drop_last() =~= headers.take(i as int));
                assert(result@ =~= concatenated(headers.take(i + 1)));
            }
            i = i + 1;
        }
        proof {
            assert(headers.take(nh as int) =~= headers);
        }
        result
    }

    /// Drops every regular chunk; header chunks stay.
    pub fn clear(&mut self)
        requires
            old(self).wf(),
        ensures
            final(self).wf(),
            final(self).spec_chunks() == Map::<u64, RemuxedChunk>::empty(),
            final(self).spec_order() == Seq::<u64>::empty(),
            final(self).spec_current_bytes() == 0,
            final(self).spec_headers() == old(self).spec_headers(),
            final(self).spec_evicted_log() == old(self).spec_evicted_log(),
            final(self).spec_config() == old(self).spec_config(),
            final(self).spec_range_hits() == old(self).spec_range_hits(),
            final(self).spec_range_misses() == old(self).spec_range_misses(),
    {
        self.chunks.clear();
        self.chunk_order.clear();
        self.current_bytes = 0;
    }

    /// The number of regular chunks.
    pub fn chunk_count(&self) -> (n: usize)
        ensures
            n == self.spec_chunks().len(),
    {
        self.chunks.len()
    }

    /// The byte count of regular chunks (see `spec_current_bytes`).
    pub fn current_bytes(&self) -> (n: u64)
        ensures
            n == self.spec_current_bytes(),
    {
        self.current_bytes
    }

    /// Takes the sizes of the chunks evicted since the last call, oldest first.
    pub fn take_evicted(&mut self) -> (v: Vec<u64>)
        requires
            old(self).wf(),
        ensures
            final(self).wf(),
            v@ == old(self).spec_evicted_log(),
            final(self).spec_evicted_log() == Seq::<u64>::empty(),
            final(self).spec_chunks() == old(self).spec_chunks(),
            final(self).spec_order() == old(self).spec_order(),
            final(self).spec_headers() == old(self).spec_headers(),
            final(self).spec_current_bytes() == old(self).spec_current_bytes(),
            final(self).spec_config() == old(self).spec_config(),
            final(self).spec_range_hits() == old(self).spec_range_hits(),
            final(self).spec_range_misses() == old(self).spec_range_misses(),
    {
        let mut v: Vec<u64> = Vec::new();
        std::mem::swap(&mut v, &mut self.evicted_sizes);
        v
    }
}

/// `ks` with `x` placed before its first element that is larger than `x`.
spec fn insert_in_order(ks: Seq<u64>, x: u64) -> Seq<u64>
    decreases ks.len(),
{
    if ks.len() == 0 {
        seq![x]
    } else if x < ks[0] {
        seq![x] + ks
    } else {
        seq![ks[0]] + insert_in_order(ks.drop_first(), x)
    }
}

proof fn lemma_insert_in_order(ks: Seq<u64>, x: u64)
    requires
        increasing(ks),
        !ks.contains(x),
    ensures
        increasing(insert_in_order(ks, x)),
        forall|k: u64| #[trigger] insert_in_order(ks, x).contains(k) <==> (ks.contains(k) || k == x),
        insert_in_order(ks, x).len() == ks.len() + 1,
        insert_in_order(ks, x)[0] == x || (ks.len() > 0 && insert_in_order(ks, x)[0] == ks[0]),
    decreases ks.len(),
{
    let r = insert_in_order(ks, x);
    if ks.len() == 0 {
        assert forall|k: u64| #[trigger] r.contains(k) <==> (ks.contains(k) || k == x) by {
            if r.contains(k) {
                let i = choose|i: int| 0 <= i < r.len() && r[i] == k;
                assert(i == 0);
            }
            if k == x {
                assert(r[0] == x);
            }
        }
    } else if x < ks[0] {
        assert forall|i: int, j: int| 0 <= i < j < r.len() implies r[i] < r[j] by {
            if i == 0 {
                assert(r[j] == ks[j - 1]);
                if j > 1 {
                    assert(ks[0] < ks[j - 1]);
                }
            } else {
                assert(r[i] == ks[i - 1]);
                assert(r[j] == ks[j - 1]);
            }
        }
        assert forall|k: u64| #[trigger] r.contains(k) <==> (ks.contains(k) || k == x) by {
            if r.contains(k) {
                let i = choose|i: int| 0 <= i < r.len() && r[i] == k;
                if i > 0 {
                    assert(ks[i - 1] == k);
                }
            }
            if ks.contains(k) {
                let i = choose|i: int| 0 <= i < ks.len() && ks[i] == k;
                assert(r[i + 1] == k);
            }
            if k == x {
                assert(r[0] == x);
            }
        }
    } else {
        let t = ks.drop_first();
        assert(x != ks[0]) by {
            assert(ks[0] == ks[0]);
            assert(ks.contains(ks[0]));
        }
        assert(!t.contains(x)) by {
            if t.contains(x) {
                let i = choose|i: int| 0 <= i < t.len() && t[i] == x;
                assert(ks[i + 1] == x);
            }
        }
        assert(increasing(t)) by {
            assert forall|i: int, j: int| 0 <= i < j < t.len() implies t[i] < t[j] by {
                assert(t[i] == ks[i + 1]);
                assert(t[j] == ks[j + 1]);
            }
        }
        lemma_insert_in_order(t, x);
        let rt = insert_in_order(t, x);
        assert(r == seq![ks[0]] + rt);
        assert forall|k: u64| rt.contains(k) implies ks[0] < k by {
            if k == x {
            } else {
                let i = choose|i: int| 0 <= i < t.len() && t[i] == k;
                assert(ks[i + 1] == k);
                assert(ks[0] < ks[i + 1]);
            }
        }
        assert forall|i: int, j: int| 0 <= i < j < r.len() implies r[i] < r[j] by {
            if i == 0 {
                assert(r[j] == rt[j - 1]);
                assert(rt.contains(rt[j - 1]));
            } else {
                assert(r[i] == rt[i - 1]);
                assert(r[j] == rt[j - 1]);
            }
        }
        assert forall|k: u64| #[trigger] r.contains(k) <==> (ks.contains(k) || k == x) by {
            if r.contains(k) {
                let i = choose|i: int| 0 <= i < r.len() && r[i] == k;
                if i == 0 {
                    assert(ks[0] == k);
                } else {
                    assert(rt[i - 1] == k);
                    assert(rt.contains(k));
                    if k != x {
                        let j = choose|j: int| 0 <= j < t.len() && t[j] == k;
                        assert(ks[j + 1] == k);
                    }
                }
            }
            if ks.contains(k) {
                let i = choose|i: int| 0 <= i < ks.len() && ks[i] == k;
                if i == 0 {
                    assert(r[0] == k);
                } else {
                    assert(t[i - 1] == k);
                    assert(t.contains(k));
                    assert(rt.contains(k));
                    let j = choose|j: int| 0 <= j < rt.len() && rt[j] == k;
                    assert(r[j + 1] == k);
                }
            }
            if k == x {
                assert(rt.contains(x));
                let j = choose|j: int| 0 <= j < rt.len() && rt[j] == x;
                assert(r[j + 1] == x);
            }
        }
    }
}

/// A finite set of offsets has a listing in increasing order.
proof fn lemma_sorted_offsets(d: Set<u64>)
    requires
        d.finite(),
    ensures
        lists_in_order(sorted_offsets(d), d),
    decreases d.len(),
{
    if d.len() == 0 {
        let e = Seq::<u64>::empty();
        assert forall|k: u64| #[trigger] e.contains(k) <==> d.contains(k) by {
            if d.contains(k) {
                assert(d.remove(k).len() < d.len());
            }
        }
        assert(lists_in_order(e, d));
    } else {
        let x = d.choose();
        let rest = d.remove(x);
        lemma_sorted_offsets(rest);
        let ks = sorted_offsets(rest);
        assert(!ks.contains(x));
        lemma_insert_in_order(ks, x);
        let ks2 = insert_in_order(ks, x);
        assert forall|k: u64| #[trigger] ks2.contains(k) <==> d.contains(k) by {
            if ks2.contains(k) {
                if k != x {
                    assert(ks.contains(k));
                }
            }
        }
        assert(lists_in_order(ks2, d));
    }
}

/// A read gathers at least the bytes of each of its chunks.
proof fn lemma_gathered_covers(s: Seq<RemuxedChunk>, idx: int, start: int, end: int)
    requires
        0 <= idx < s.len(),
    ensures
        gathered(s, start, end).len() >= overlap_bytes(s[idx], start, end).len(),
    decreases s.len(),
{
    if idx < s.len() - 1 {
        assert(s.drop_last()[idx] == s[idx]);
        lemma_gathered_covers(s.drop_last(), idx, start, end);
    }
}

/// The overlapping bytes of a chunk that does not overlap the range are none.
proof fn lemma_no_overlap_no_bytes(c: RemuxedChunk, start: int, end: int)
    requires
        !overlaps(c, start, end),
    ensures
        overlap_bytes(c, start, end) == Seq::<u8>::empty(),
{
}

proof fn lemma_gathered_none(s: Seq<RemuxedChunk>, start: int, end: int)
    requires
        forall|i: int| 0 <= i < s.len() ==> !overlaps(#[trigger] s[i], start, end),
    ensures
        gathered(s, start, end) == Seq::<u8>::empty(),
    decreases s.len(),
{
    if s.len() > 0 {
        lemma_gathered_none(s.drop_last(), start, end);
        lemma_no_overlap_no_bytes(s.last(), start, end);
        assert(gathered(s, start, end) =~= Seq::<u8>::empty());
    }
}

proof fn lemma_gathered_single(s: Seq<RemuxedChunk>, idx: int, start: int, end: int)
    requires
        0 <= idx < s.len(),
        forall|i: int| 0 <= i < s.len() && i != idx ==> !overlaps(#[trigger] s[i], start, end),
    ensures
        gathered(s, start, end) == overlap_bytes(s[idx], start, end),
    decreases s.len(),
{
    let init = s.drop_last();
    if idx == s.len() - 1 {
        assert forall|i: int| 0 <= i < init.len() implies !overlaps(#[trigger] init[i], start, end) by {
            assert(init[i] == s[i]);
        }
        lemma_gathered_none(init, start, end);
        assert(gathered(s, start, end) =~= overlap_bytes(s[idx], start, end));
    } else {
        assert forall|i: int| 0 <= i < init.len() && i != idx implies !overlaps(#[trigger] init[i], start, end) by {
            assert(init[i] == s[i]);
        }
        lemma_gathered_single(init, idx, start, end);
        lemma_no_overlap_no_bytes(s.last(), start, end);
        assert(gathered(s, start, end) =~= overlap_bytes(s[idx], start, end));
    }
}

/// What a read returns of a written chunk: when the buffer holds `c` at its
/// offset and no other chunk, header or regular, overlaps `[start, end)`,
/// the read of that range is exactly the bytes of `c` within it.
pub proof fn law_read_returns_written_bytes(b: ChunkBuffer, c: RemuxedChunk, start: u64, end: u64)
    requires
        b.wf(),
        b.spec_chunks().contains_key(c.offset),
        b.spec_chunks()[c.offset] == c,
        forall|k: u64| #[trigger] b.spec_chunks().contains_key(k) && k != c.offset
            ==> !overlaps(b.spec_chunks()[k], start as int, end as int),
        forall|i: int| 0 <= i < b.spec_headers().len()
            ==> !overlaps(#[trigger] b.spec_headers()[i], start as int, end as int),
    ensures
        gathered(b.spec_headers(), start as int, end as int) + gathered(
            chunks_at(b.spec_chunks(), sorted_offsets(b.spec_chunks().dom())),
            start as int,
            end as int,
        ) == overlap_bytes(c, start as int, end as int),
{
    let m = b.spec_chunks();
    assert(m.dom().finite()) by {
        broadcast use vstd::std_specs::hash::axiom_hashmap_view_finite_dom;
        assert(b.chunks@.dom().finite());
    }
    lemma_sorted_offsets(m.dom());
    let ks = sorted_offsets(m.dom());
    let s = chunks_at(m, ks);
    assert(ks.contains(c.offset));
    let idx = choose|i: int| 0 <= i < ks.len() && ks[i] == c.offset;
    assert forall|i: int| 0 <= i < s.len() && i != idx implies !overlaps(#[trigger] s[i], start as int, end as int) by {
        assert(ks.contains(ks[i]));
        assert(ks[i] != ks[idx]);
        assert(s[i] == m[ks[i]]);
    }
    assert(s[idx] == c);
    lemma_gathered_single(s, idx, start as int, end as int);
    lemma_gathered_none(b.spec_headers(), start as int, end as int);
    assert(Seq::<u8>::empty() + overlap_bytes(c, start as int, end as int) =~= overlap_bytes(c, start as int, end as int));
}

} // verus!
