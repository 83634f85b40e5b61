//! Progressive remuxing while the file downloads: its settings, the
//! window of remuxed output it keeps (at most a hundred contiguous chunks)
//! and what a read of that window answers, and the decisions of feeding
//! the input as pieces arrive.
use std::collections::VecDeque;
use vstd::prelude::*;

use crate::ffmpeg::RemuxingOptions;
use crate::file_assembler::FileAssembler;
use crate::strategy::{ContainerFormat, StreamingError};
use crate::time::Duration;
use crate::torrent::InfoHash;

verus! {

/// Settings of progressive remuxing.
#[derive(Debug, Clone)]
pub struct ProgressiveRemuxingConfig {
    /// Directory of the temporary files.
    pub temp_dir: String,
    /// Bytes of the file's head needed before remuxing starts.
    pub min_head_size: u64,
    /// Output bytes buffered at most.
    pub max_output_buffer_size: usize,
    /// How long to wait for pieces.
    pub piece_wait_timeout: Duration,
    /// Bytes fed at a time.
    pub input_chunk_size: usize,
    /// Options of the remux; partial input and incomplete indexes are accepted.
    pub remuxing_options: RemuxingOptions,
}

impl Default for ProgressiveRemuxingConfig {
    fn default() -> (c: ProgressiveRemuxingConfig)
        ensures
            c.temp_dir@ == "/tmp/riptide-progressive"@,
            c.min_head_size == 2 * 1024 * 1024,
            c.max_output_buffer_size == 32 * 1024 * 1024,
            c.piece_wait_timeout.total_nanos() == 30 * 1_000_000_000,
            c.input_chunk_size == 256 * 1024,
            c.remuxing_options.video_codec@ == "copy"@,
            c.remuxing_options.audio_codec@ == "copy"@,
            c.remuxing_options.faststart,
            c.remuxing_options.timeout_seconds == Some(300u64),
            c.remuxing_options.allow_partial,
            c.remuxing_options.ignore_index,
    {
        ProgressiveRemuxingConfig {
            temp_dir: "/tmp/riptide-progressive".to_string(),
            min_head_size: 2 * 1024 * 1024,
            max_output_buffer_size: 32 * 1024 * 1024,
            piece_wait_timeout: Duration::from_secs(30),
            input_chunk_size: 256 * 1024,
            remuxing_options: RemuxingOptions { allow_partial: true, ignore_index: true, ..Default::default() },
        }
    }
}

/// Output chunks a session keeps at most; the oldest is dropped beyond.
pub const MAX_OUTPUT_CHUNKS: usize = 100;

/// A chunk of the remuxed output stream: its bytes `start..end`.
#[derive(Debug, Clone)]
pub struct OutputChunk {
    /// Position of the first byte in the output stream.
    pub start: u64,
    /// Position after the last byte.
    pub end: u64,
    /// The bytes.
    pub data: Vec<u8>,
}

/// The chunks as (start, bytes).
pub open spec fn chunk_views(s: Seq<OutputChunk>) -> Seq<(u64, Seq<u8>)> {
    s.map_values(|c: OutputChunk| (c.start, c.data@))
}

/// The bytes of the chunks, one after another.
pub open spec fn bytes_of(s: Seq<(u64, Seq<u8>)>) -> Seq<u8>
    decreases s.len(),
{
    if s.len() == 0 {
        Seq::empty()
    } else {
        bytes_of(s.drop_last()) + s.last().1
    }
}

/// The first output position held: that of the first chunk, or `size`
/// when no chunk is held.
pub open spec fn window_start(s: Seq<(u64, Seq<u8>)>, size: u64) -> int {
    if s.len() > 0 {
        s[0].0 as int
    } else {
        size as int
    }
}

/// Whether each chunk starts where the chunks before it end.
pub open spec fn contiguous(s: Seq<(u64, Seq<u8>)>) -> bool {
    forall|i: int| 0 <= i < s.len() ==> #[trigger] s[i].0 == s[0].0 + bytes_of(s.take(i)).len()
}

/// The chunks after `data` is appended at output position `size`: the
/// oldest chunk is dropped when more than the limit would be kept.
pub open spec fn pushed(s: Seq<(u64, Seq<u8>)>, size: u64, data: Seq<u8>) -> Seq<(u64, Seq<u8>)> {
    let t = s.push((size, data));
    if t.len() > MAX_OUTPUT_CHUNKS {
        t.drop_first()
    } else {
        t
    }
}

/// What a read of output bytes `start..end` gives from a window holding
/// `bytes` from position `lo` on: nothing when the start lies before the
/// window, else the window's bytes from the start up to the end of the
/// range or of the window, whichever comes first.
pub open spec fn window_read(lo: int, bytes: Seq<u8>, start: int, end: int) -> Seq<u8> {
    let hi = lo + bytes.len();
    if start < lo {
        Seq::empty()
    } else {
        bytes.subrange(start - lo, (if end <= hi { end } else { hi }) - lo)
    }
}

proof fn lemma_take_step(s: Seq<(u64, Seq<u8>)>, k: int)
    requires
        0 <= k < s.len(),
    ensures
        bytes_of(s.take(k + 1)) == bytes_of(s.take(k)) + s[k].1,
{
    assert(s.take(k + 1).drop_last() =~= s.take(k));
}

proof fn lemma_take_prefix(s: Seq<(u64, Seq<u8>)>, j: int)
    requires
        0 <= j <= s.len(),
    ensures
        bytes_of(s.take(j)).len() <= bytes_of(s).len(),
        bytes_of(s).subrange(0, bytes_of(s.take(j)).len() as int) == bytes_of(s.take(j)),
    decreases s.len(),
{
    if j == s.len() {
        assert(s.take(j) =~= s);
        assert(bytes_of(s).subrange(0, bytes_of(s).len() as int) =~= bytes_of(s));
    } else {
        let d = s.drop_last();
        assert(d.take(j) =~= s.take(j));
        lemma_take_prefix(d, j);
        assert(bytes_of(s) == bytes_of(d) + s.last().1);
        assert(bytes_of(s).subrange(0, bytes_of(s.take(j)).len() as int) =~= bytes_of(d).subrange(
            0,
            bytes_of(d.take(j)).len() as int,
        ));
    }
}

/// The bytes of chunk `k` sit in the window right after those of the chunks before it.
proof fn lemma_chunk_in_bytes(s: Seq<(u64, Seq<u8>)>, k: int)
    requires
        0 <= k < s.len(),
    ensures
        bytes_of(s.take(k)).len() + s[k].1.len() <= bytes_of(s).len(),
        bytes_of(s).subrange(
            bytes_of(s.take(k)).len() as int,
            (bytes_of(s.take(k)).len() + s[k].1.len()) as int,
        ) == s[k].1,
{
    lemma_take_step(s, k);
    lemma_take_prefix(s, k + 1);
    let p = bytes_of(s.take(k)).len() as int;
    let q = (p + s[k].1.len()) as int;
    assert(bytes_of(s).subrange(p, q) =~= bytes_of(s).subrange(0, q).subrange(p, q));
    assert(bytes_of(s.take(k + 1)).subrange(p, q) =~= s[k].1);
}

proof fn lemma_drop_first(s: Seq<(u64, Seq<u8>)>, i: int)
    requires
        0 <= i < s.len(),
    ensures
        bytes_of(s.take(i + 1)) == s[0].1 + bytes_of(s.drop_first().take(i)),
    decreases i,
{
    if i == 0 {
        let t1 = s.take(1);
        assert(t1.drop_last() =~= Seq::<(u64, Seq<u8>)>::empty());
        assert(bytes_of(t1.drop_last()) == Seq::<u8>::empty());
        assert(t1.last() == s[0]);
        assert(s.drop_first().take(0) =~= Seq::<(u64, Seq<u8>)>::empty());
        assert(bytes_of(s.drop_first().take(0)) == Seq::<u8>::empty());
        assert(bytes_of(t1) =~= s[0].1);
    } else {
        lemma_drop_first(s, i - 1);
        lemma_take_step(s, i);
        lemma_take_step(s.drop_first(), i - 1);
        assert(s.drop_first()[i - 1] == s[i]);
        assert(bytes_of(s.take(i + 1)) =~= s[0].1 + bytes_of(s.drop_first().take(i)));
    }
}

/// Appending keeps the chunks contiguous and ending at the new output size.
proof fn lemma_pushed(s: Seq<(u64, Seq<u8>)>, size: u64, d: Seq<u8>)
    requires
        s.len() <= MAX_OUTPUT_CHUNKS,
        contiguous(s),
        window_start(s, size) + bytes_of(s).len() == size,
    ensures
        pushed(s, size, d).len() <= MAX_OUTPUT_CHUNKS,
        pushed(s, size, d).len() > 0,
        pushed(s, size, d).last() == (size, d),
        contiguous(pushed(s, size, d)),
        window_start(pushed(s, size, d), (size + d.len()) as u64) + bytes_of(pushed(s, size, d)).len() == size + d.len(),
{
    let t = s.push((size, d));
    assert(t.drop_last() =~= s);
    assert forall|i: int| 0 <= i < t.len() implies #[trigger] t[i].0 == t[0].0 + bytes_of(t.take(i)).len() by {
        if i < s.len() {
            assert(t.take(i) =~= s.take(i));
        } else {
            assert(t.take(i) =~= s);
        }
    }
    assert(bytes_of(t) == bytes_of(s) + d);
    if t.len() > MAX_OUTPUT_CHUNKS {
        let u = t.drop_first();
        lemma_drop_first(t, 0);
        assert(t[1].0 == t[0].0 + bytes_of(t.take(1)).len());
        assert forall|i: int| 0 <= i < u.len() implies #[trigger] u[i].0 == u[0].0 + bytes_of(u.take(i)).len() by {
            lemma_drop_first(t, i);
            assert(u[i] == t[i + 1]);
        }
        lemma_drop_first(t, t.len() - 1);
        assert(t.take(t.len() as int) =~= t);
        assert(t.drop_first().take(t.len() - 1) =~= u);
        assert(u.last() == t.last());
    }
}

/// What a read gives back of a write: once `data` is appended at the
/// output's end, reading the output positions it took returns exactly
/// `data`, whatever the window held before and whether or not its oldest
/// chunk was dropped.
pub proof fn law_read_after_push(o: ProgressiveOutput, data: Seq<u8>)
    requires
        o.wf(),
        o.spec_output_size() + data.len() <= u64::MAX,
    ensures
        ({
            let p = pushed(o.spec_chunks(), o.spec_output_size(), data);
            let new_size = (o.spec_output_size() + data.len()) as u64;
            window_read(
                window_start(p, new_size),
                bytes_of(p),
                o.spec_output_size() as int,
                o.spec_output_size() + data.len(),
            ) == data
        }),
{
    let size = o.spec_output_size();
    let p = pushed(o.spec_chunks(), size, data);
    let new_size = (size + data.len()) as u64;
    lemma_pushed(o.spec_chunks(), size, data);
    let lo = window_start(p, new_size);
    let bytes = bytes_of(p);
    assert(bytes == bytes_of(p.drop_last()) + data);
    assert(lo + bytes.len() == size + data.len());
    assert(size >= lo);
    assert(bytes.subrange(size - lo, size + data.len() - lo) =~= data);
}

/// The remuxed output a progressive session keeps: up to a hundred
/// contiguous chunks ending at the output size.
pub struct ProgressiveOutput {
    chunks: VecDeque<OutputChunk>,
    output_size: u64,
}

impl ProgressiveOutput {
    /// The chunks held, oldest first, as (start, bytes).
    pub closed spec fn spec_chunks(&self) -> Seq<(u64, Seq<u8>)> {
        chunk_views(self.chunks@)
    }

    /// Output bytes produced so far.
    pub closed spec fn spec_output_size(&self) -> u64 {
        self.output_size
    }

    /// The window's invariant: at most the chunk limit, each chunk's end
    /// after its bytes, chunks contiguous and ending at the output size.
    pub closed spec fn wf(&self) -> bool {
        &&& self.chunks@.len() <= MAX_OUTPUT_CHUNKS
        &&& forall|i: int| 0 <= i < self.chunks@.len() ==> (#[trigger] self.chunks@[i]).end == self.chunks@[i].start
            + self.chunks@[i].data@.len()
        &&& contiguous(self.spec_chunks())
        &&& window_start(self.spec_chunks(), self.output_size) + bytes_of(self.spec_chunks()).len() == self.output_size
    }

    /// An empty window.
    pub fn new() -> (o: ProgressiveOutput)
        ensures
            o.wf(),
            o.spec_chunks() == Seq::<(u64, Seq<u8>)>::empty(),
            o.spec_output_size() == 0,
    {
        let o = ProgressiveOutput { chunks: VecDeque::new(), output_size: 0 };
        proof {
            assert(o.spec_chunks() =~= Seq::<(u64, Seq<u8>)>::empty());
        }
        o
    }

    /// Output bytes produced so far.
    pub fn output_size(&self) -> (n: u64)
        ensures
            n == self.spec_output_size(),
    {
        self.output_size
    }

    /// The number of chunks held.
    pub fn chunk_count(&self) -> (n: usize)
        ensures
            n == self.spec_chunks().len(),
    {
        self.chunks.len()
    }

    /// Appends the next remuxed bytes at the output's end, dropping the
    /// oldest chunk when more than the limit would be kept.
    pub fn push(&mut self, data: Vec<u8>)
        requires
            old(self).wf(),
            old(self).spec_output_size() + data@.len() <= u64::MAX,
        ensures
            final(self).wf(),
            final(self).spec_output_size() == old(self).spec_output_size() + data@.len(),
            final(self).spec_chunks() == pushed(old(self).spec_chunks(), old(self).spec_output_size(), data@),
    {
        let ghost s = self.spec_chunks();
        let ghost size = self.output_size;
        let ghost d = data@;
        let len = data.len() as u64;
        let chunk = OutputChunk { start: self.output_size, end: self.output_size + len, data };
        self.chunks.push_back(chunk);
        self.output_size = self.output_size + len;
        let ghost t = s.push((size, d));
        proof {
            assert(self.spec_chunks() =~= t);
            lemma_pushed(s, size, d);
        }
        if self.chunks.len() > MAX_OUTPUT_CHUNKS {
            let _ = self.chunks.pop_front();
            proof {
                assert(self.spec_chunks() =~= t.drop_first());
            }
        }
        proof {
            assert forall|i: int| 0 <= i < self.chunks@.len() implies (#[trigger] self.chunks@[i]).end == self.chunks@[i].start
                + self.chunks@[i].data@.len() by {
                if self.chunks@.len() == t.len() {
                    if i < s.len() {
                        assert(self.chunks@[i] == old(self).chunks@[i]);
                    }
                } else {
                    if i + 1 < s.len() {
                        assert(self.chunks@[i] == old(self).chunks@[i + 1]);
                    }
                }
            }
        }
    }

    /// Output bytes `start..end`: an error naming the quarter-megabyte block
    /// of `start` when the output has not reached it yet; otherwise the
    /// bytes the window holds from `start` on (see `window_read`).
    pub fn read(&self, start: u64, end: u64) -> (r: Result<Vec<u8>, StreamingError>)
        requires
            self.wf(),
            start <= end || start >= self.spec_output_size(),
        ensures
            start >= self.spec_output_size() ==> (r matches Err(StreamingError::MissingPieces { missing, total })
                && missing@ == seq![(start / 262144) as u32] && total == 1),
            start < self.spec_output_size() ==> (r matches Ok(v) && v@ == window_read(
                window_start(self.spec_chunks(), self.spec_output_size()),
                bytes_of(self.spec_chunks()),
                start as int,
                end as int,
            )),
    {
        if start >= self.output_size {
            return Err(missing_block_error(start));
        }
        let ghost s = self.spec_chunks();
        let ghost lo = window_start(s, self.output_size);
        let ghost bytes = bytes_of(s);
        let n = self.chunks.len();
        let mut result: Vec<u8> = Vec::new();
        let mut cur = start;
        let mut k: usize = 0;
        proof {
            assert(s.take(0) =~= Seq::<(u64, Seq<u8>)>::empty());
            assert(bytes_of(s.take(0)) == Seq::<u8>::empty());
            if start >= lo {
                assert(bytes.subrange(start - lo, start - lo) =~= Seq::<u8>::empty());
            }
        }
        while k < n && cur < end
            invariant
                self.wf(),
                s == self.spec_chunks(),
                lo == window_start(s, self.output_size),
                bytes == bytes_of(s),
                n == s.len(),
                k <= n,
                start < self.output_size,
                start <= end,
                start < lo ==> cur == start && result@ == Seq::<u8>::empty(),
                start >= lo ==> {
                    let p = lo + bytes_of(s.take(k as int)).len();
                    &&& cur == if start >= (if end <= p { end as int } else { p }) { start as int } else { if end <= p { end as int } else { p } }
                    &&& result@ == bytes.subrange(start - lo, cur - lo)
                },
            decreases n - k,
        {
            let chunk = &self.chunks[k];
            proof {
                let c = self.chunks@[k as int];
                assert(*chunk == c);
                assert(c.end == c.start + c.data@.len());
                assert(s[k as int] == (c.start, c.data@));
                assert(s[k as int].0 == c.start);
                assert(s[0].0 == lo);
                assert(chunk.start == lo + bytes_of(s.take(k as int)).len());
                lemma_chunk_in_bytes(s, k as int);
                lemma_take_step(s, k as int);
            }
            if chunk.start <= cur && cur < chunk.end {
                let a = cur - chunk.start;
                let lim = if end < chunk.end { end } else { chunk.end };
                let b = lim - chunk.start;
                if a < b {
                    let ghost before = result@;
                    let dlen = chunk.data.len();
                    proof {
                        assert(b <= dlen);
                    }
                    let bx: usize = b as usize;
                    let mut x: usize = a as usize;
                    while x < bx
                        invariant
                            a <= x <= bx,
                            bx == b,
                            b <= chunk.data@.len(),
                            result@ == before + chunk.data@.subrange(a as int, x as int),
                        decreases bx - x,
                    {
                        result.push(chunk.data[x]);
                        proof {
                            assert(result@ =~= before + chunk.data@.subrange(a as int, x + 1));
                        }
                        x = x + 1;
                    }
                    proof {
                        assert(start >= lo);
                        assert(before == bytes.subrange(start - lo, cur - lo));
                        let p0 = chunk.start - lo;
                        assert(p0 == bytes_of(s.take(k as int)).len());
                        assert(chunk.data@ == bytes.subrange(p0, p0 + chunk.data@.len()));
                        assert(cur - lo == p0 + a);
                        assert(chunk.data@.subrange(a as int, b as int) =~= bytes.subrange(p0 + a, p0 + b));
                        assert(bytes.subrange(start - lo, p0 + a) + bytes.subrange(p0 + a, p0 + b) =~= bytes.subrange(
                            start - lo,
                            p0 + b,
                        ));
                        assert(result@ =~= bytes.subrange(start - lo, p0 + b));
                    }
                    cur = chunk.start + b;
                }
            }
            proof {
                lemma_take_prefix(s, k + 1);
                assert(bytes_of(s.take(k + 1)).len() == bytes_of(s.take(k as int)).len() + chunk.data@.len());
            }
            k = k + 1;
        }
        proof {
            lemma_take_prefix(s, k as int);
            if k == n {
                assert(s.take(n as int) =~= s);
            }
            if start >= lo {
                let hi = lo + bytes.len();
                assert(cur == (if end <= hi { end as int } else { hi }));
            }
        }
        Ok(result)
    }
}

/// The error of a read at `start` that the output has not reached: the
/// quarter-megabyte block of `start` is missing, of one.
pub fn missing_block_error(start: u64) -> (e: StreamingError)
    ensures
        e matches StreamingError::MissingPieces { missing, total } && missing@ == seq![(start / 262144) as u32] && total == 1,
{
    let mut missing: Vec<u32> = Vec::new();
    missing.push((start / (256 * 1024)) as u32);
    proof {
        assert(missing@ =~= seq![(start / 262144) as u32]);
    }
    StreamingError::MissingPieces { missing, total: 1 }
}

/// Checks that the head of the file (`min_head_size` bytes, or the whole
/// file if smaller) is available before a session starts; otherwise the
/// head's first block is reported missing, of one.
pub fn check_head_available<A: FileAssembler>(
    assembler: &A,
    info_hash: InfoHash,
    min_head_size: u64,
    file_size: u64,
) -> (r: Result<(), StreamingError>)
    ensures
        r is Ok <==> assembler.range_available(
            info_hash,
            0,
            if min_head_size <= file_size { min_head_size } else { file_size },
        ),
        r is Err ==> (r matches Err(StreamingError::MissingPieces { missing, total }) && missing@ == seq![0u32]
            && total == 1),
{
    let head_end = if min_head_size <= file_size { min_head_size } else { file_size };
    if assembler.is_range_available(info_hash, 0..head_end) {
        Ok(())
    } else {
        Err(missing_block_error(0))
    }
}

/// The end of the input chunk fed from `position`: a chunk on, or the file's end.
pub fn feed_chunk_end(position: u64, chunk_size: usize, file_size: u64) -> (e: u64)
    requires
        position + chunk_size <= u64::MAX,
    ensures
        e == if position + chunk_size <= file_size { (position + chunk_size) as u64 } else { file_size },
{
    let e = position + chunk_size as u64;
    if e <= file_size { e } else { file_size }
}

/// Checks of a range's availability, a tenth of a second apart, before
/// waiting for it counts as failed.
pub const MAX_RANGE_WAIT_ATTEMPTS: u32 = 100;

/// The error when the pieces at `position` did not arrive in time: the
/// quarter-megabyte block of `position` is missing, of the file's blocks.
pub fn piece_wait_timeout_error(position: u64, file_size: u64) -> (e: StreamingError)
    ensures
        e matches StreamingError::MissingPieces { missing, total } && missing@ == seq![(position / 262144) as u32]
            && total == (file_size / 262144 + if file_size % 262144 == 0 { 0u64 } else { 1u64 }) as u32,
{
    let mut missing: Vec<u32> = Vec::new();
    missing.push((position / (256 * 1024)) as u32);
    let blocks: u64 = file_size / (256 * 1024) + if file_size % (256 * 1024) == 0 { 0 } else { 1 };
    proof {
        assert(missing@ =~= seq![(position / 262144) as u32]);
    }
    StreamingError::MissingPieces { missing, total: blocks as u32 }
}

/// Whether progressive remuxing serves a source format: MKV or AVI.
pub fn supports_format(format: ContainerFormat) -> (b: bool)
    ensures
        b == (format == ContainerFormat::Mkv || format == ContainerFormat::Avi),
{
    match format {
        ContainerFormat::Mkv | ContainerFormat::Avi => true,
        _ => false,
    }
}

} // verus!
