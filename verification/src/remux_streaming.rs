//! Decisions of remux streaming at any download level: when enough of the
//! file's head and tail is available to start FFmpeg, how input is fed as
//! pieces arrive, how the remuxed output is buffered within its memory
//! limit, and what a read of the output answers while remuxing goes on.
use vstd::prelude::*;

use crate::ffmpeg::RemuxingOptions;
use crate::file_assembler::FileAssembler;
use crate::strategy::{ContainerFormat, StreamingError};
use crate::text::{push_string, push_text, text_equals};
use crate::time::Duration;
use crate::torrent::InfoHash;

verus! {

/// Settings of remux streaming.
#[derive(Debug, Clone)]
pub struct RemuxStreamingConfig {
    /// Bytes of the file's head (and as many of its tail) needed before FFmpeg starts.
    pub min_head_size: u64,
    /// Bytes of remuxed output buffered at most per session.
    pub max_output_buffer_size: usize,
    /// How long to wait for the head and tail.
    pub piece_wait_timeout: Duration,
    /// Bytes fed to FFmpeg at a time.
    pub input_chunk_size: usize,
    /// Options of the remux.
    pub remuxing_options: RemuxingOptions,
    /// Sessions that may remux at once.
    pub max_concurrent_sessions: usize,
    /// Time allowed for FFmpeg.
    pub ffmpeg_timeout: Duration,
}

impl Default for RemuxStreamingConfig {
    fn default() -> (c: RemuxStreamingConfig)
        ensures
            c.min_head_size == 10 * 1024 * 1024,
            c.max_output_buffer_size == 50 * 1024 * 1024,
            c.piece_wait_timeout.total_nanos() == 30 * 1_000_000_000,
            c.input_chunk_size == 256 * 1024,
            c.remuxing_options.video_codec@ == "copy"@,
            c.remuxing_options.audio_codec@ == "copy"@,
            c.max_concurrent_sessions == 10,
            c.ffmpeg_timeout.total_nanos() == 300 * 1_000_000_000,
    {
        RemuxStreamingConfig {
            min_head_size: 10 * 1024 * 1024,
            max_output_buffer_size: 50 * 1024 * 1024,
            piece_wait_timeout: Duration::from_secs(30),
            input_chunk_size: 256 * 1024,
            remuxing_options: RemuxingOptions::default(),
            max_concurrent_sessions: 10,
            ffmpeg_timeout: Duration::from_secs(300),
        }
    }
}

/// Whether enough of a file is available to start remuxing.
#[derive(Debug, Clone, Copy, PartialEq, Eq, Structural)]
pub enum DataAvailability {
    /// Head and tail are available.
    Sufficient,
    /// Only `available` of the `needed` head and tail bytes are.
    Insufficient { available: u64, needed: u64 },
}

/// The head range `0..h` and tail range `t..file_size` a remux needs
/// before it starts: each `min_head_size` bytes, or the whole file if smaller.
pub open spec fn head_and_tail(min_head_size: u64, file_size: u64) -> ((u64, u64), (u64, u64)) {
    let n: u64 = if min_head_size <= file_size { min_head_size } else { file_size };
    ((0, n), ((file_size - n) as u64, file_size))
}

/// The head and tail ranges a remux needs (see `head_and_tail`).
pub fn head_and_tail_ranges(min_head_size: u64, file_size: u64) -> (r: ((u64, u64), (u64, u64)))
    ensures
        r == head_and_tail(min_head_size, file_size),
{
    let n: u64 = if min_head_size <= file_size { min_head_size } else { file_size };
    ((0, n), (file_size - n, file_size))
}

/// Bytes checked at a time when measuring how much of the head is available.
pub const AVAILABILITY_CHUNK: u64 = 1024 * 1024;

/// How far from `pos` the head is available, checked a megabyte at a time
/// up to `end`: the position of the first chunk that is not.
pub open spec fn head_reach<A: FileAssembler>(a: A, info_hash: InfoHash, pos: u64, end: u64) -> u64
    decreases end - pos,
{
    if pos >= end {
        pos
    } else {
        let ce: u64 = if pos + AVAILABILITY_CHUNK <= end { (pos + AVAILABILITY_CHUNK) as u64 } else { end };
        if a.range_available(info_hash, pos, ce) {
            head_reach(a, info_hash, ce, end)
        } else {
            pos
        }
    }
}

/// Whether enough of a file is available to start remuxing: its head and
/// tail ranges; else how many of those bytes are (the available prefix of
/// the head, plus the tail when it is available) of twice `head_size_needed`.
pub open spec fn availability_of<A: FileAssembler>(a: A, info_hash: InfoHash, head_size_needed: u64, file_size: u64) -> DataAvailability {
    let ((hs, he), (ts, te)) = head_and_tail(head_size_needed, file_size);
    let head = a.range_available(info_hash, hs, he);
    let tail = a.range_available(info_hash, ts, te);
    if head && tail {
        DataAvailability::Sufficient
    } else {
        DataAvailability::Insufficient {
            available: (head_reach(a, info_hash, 0, he) + if tail { te - ts } else { 0 }) as u64,
            needed: (head_size_needed * 2) as u64,
        }
    }
}

proof fn lemma_head_reach_bounds<A: FileAssembler>(a: A, info_hash: InfoHash, pos: u64, end: u64)
    requires
        pos <= end,
    ensures
        pos <= head_reach(a, info_hash, pos, end) <= end,
    decreases end - pos,
{
    if pos < end {
        let ce: u64 = if pos + AVAILABILITY_CHUNK <= end { (pos + AVAILABILITY_CHUNK) as u64 } else { end };
        if a.range_available(info_hash, pos, ce) {
            lemma_head_reach_bounds(a, info_hash, ce, end);
        }
    }
}

/// Whether enough of a file is available to start remuxing (see `availability_of`).
pub fn check_data_availability<A: FileAssembler>(assembler: &A, info_hash: InfoHash, head_size_needed: u64, file_size: u64) -> (r: DataAvailability)
    requires
        head_size_needed * 2 <= u64::MAX,
    ensures
        r == availability_of(*assembler, info_hash, head_size_needed, file_size),
{
    let ((hs, he), (ts, te)) = head_and_tail_ranges(head_size_needed, file_size);
    let head = assembler.is_range_available(info_hash, hs..he);
    let tail = assembler.is_range_available(info_hash, ts..te);
    if head && tail {
        return DataAvailability::Sufficient;
    }
    let mut pos: u64 = 0;
    loop
        invariant
            pos <= he,
            head_reach(*assembler, info_hash, pos, he) == head_reach(*assembler, info_hash, 0, he),
        ensures
            pos == head_reach(*assembler, info_hash, 0, he),
        decreases he - pos,
    {
        if pos >= he {
            break;
        }
        let ce: u64 = if he - pos >= AVAILABILITY_CHUNK { pos + AVAILABILITY_CHUNK } else { he };
        if assembler.is_range_available(info_hash, pos..ce) {
            pos = ce;
        } else {
            break;
        }
    }
    proof {
        lemma_head_reach_bounds(*assembler, info_hash, 0, he);
    }
    let available: u64 = if tail { pos + (te - ts) } else { pos };
    DataAvailability::Insufficient { available, needed: head_size_needed * 2 }
}

/// The remuxed output buffered for a session, as chunks at increasing
/// offsets of the output stream.
pub struct OutputBuffer {
    chunks: Vec<(u64, Vec<u8>)>,
    max_bytes: usize,
}

/// Output within this many bytes of the start is kept when the buffer is trimmed.
pub const HEADER_PRESERVE_SIZE: u64 = 10 * 1024 * 1024;

/// The chunks as (offset, bytes).
pub open spec fn chunk_views(c: Seq<(u64, Vec<u8>)>) -> Seq<(u64, Seq<u8>)> {
    c.map_values(|x: (u64, Vec<u8>)| (x.0, x.1@))
}

/// The bytes held by a list of chunks.
pub open spec fn held_bytes(c: Seq<(u64, Seq<u8>)>) -> int
    decreases c.len(),
{
    if c.len() == 0 { 0 } else { held_bytes(c.drop_last()) + c.last().1.len() }
}

/// The chunks left after trimming to `max` bytes: the last chunks are
/// dropped while the buffer holds more than `max` bytes, but none that
/// starts within the preserved header region.
pub open spec fn trimmed(c: Seq<(u64, Seq<u8>)>, max: int) -> Seq<(u64, Seq<u8>)>
    decreases c.len(),
{
    if held_bytes(c) > max && c.len() > 0 && c.last().0 >= HEADER_PRESERVE_SIZE {
        trimmed(c.drop_last(), max)
    } else {
        c
    }
}

/// Whether chunk offsets increase strictly.
pub open spec fn offsets_increase(c: Seq<(u64, Seq<u8>)>) -> bool {
    forall|i: int, j: int| 0 <= i < j < c.len() ==> #[trigger] c[i].0 < #[trigger] c[j].0
}

impl OutputBuffer {
    /// The buffered chunks.
    pub closed spec fn spec_chunks(&self) -> Seq<(u64, Seq<u8>)> {
        chunk_views(self.chunks@)
    }

    /// The byte limit.
    pub closed spec fn spec_max_bytes(&self) -> usize {
        self.max_bytes
    }

    /// The buffer's invariant: offsets increase.
    pub closed spec fn wf(&self) -> bool {
        offsets_increase(self.spec_chunks())
    }

    /// An empty buffer holding at most `max_bytes` beyond the header region.
    pub fn new(max_bytes: usize) -> (b: OutputBuffer)
        ensures
            b.wf(),
            b.spec_chunks().len() == 0,
            b.spec_max_bytes() == max_bytes,
    {
        OutputBuffer { chunks: Vec::new(), max_bytes }
    }

    /// Buffers the output bytes at `offset`, past every buffered chunk, then
    /// trims the buffer to its limit (see `trimmed`).
    pub fn insert(&mut self, offset: u64, data: Vec<u8>)
        requires
            old(self).wf(),
            old(self).spec_chunks().len() > 0 ==> old(self).spec_chunks().last().0 < offset,
            held_bytes(old(self).spec_chunks()) + data@.len() <= usize::MAX,
        ensures
            final(self).wf(),
            final(self).spec_max_bytes() == old(self).spec_max_bytes(),
            final(self).spec_chunks() == trimmed(old(self).spec_chunks().push((offset, data@)), old(self).spec_max_bytes() as int),
    {
        let ghost pushed = self.spec_chunks().push((offset, data@));
        let ghost before = self.chunks@;
        self.chunks.push((offset, data));
        proof {
            assert(chunk_views(self.chunks@) =~= pushed);
            assert(pushed.drop_last() =~= old(self).spec_chunks());
            lemma_held_nonneg(old(self).spec_chunks());
            assert forall|i: int, j: int| 0 <= i < j < pushed.len() implies #[trigger] pushed[i].0 < #[trigger] pushed[j].0 by {
                if j == pushed.len() - 1 && i < j {
                    assert(pushed[i] == old(self).spec_chunks()[i]);
                    if i < old(self).spec_chunks().len() - 1 {
                        assert(old(self).spec_chunks()[i].0 < old(self).spec_chunks().last().0);
                    }
                }
            }
        }
        let mut total: usize = self.total_bytes();
        loop
            invariant
                self.spec_max_bytes() == old(self).spec_max_bytes(),
                total == held_bytes(self.spec_chunks()),
                trimmed(self.spec_chunks(), self.max_bytes as int) == trimmed(pushed, self.max_bytes as int),
                offsets_increase(self.spec_chunks()),
                held_bytes(self.spec_chunks()) <= usize::MAX,
            ensures
                trimmed(self.spec_chunks(), self.max_bytes as int) == self.spec_chunks(),
                trimmed(self.spec_chunks(), self.max_bytes as int) == trimmed(pushed, self.max_bytes as int),
                offsets_increase(self.spec_chunks()),
                self.spec_max_bytes() == old(self).spec_max_bytes(),
            decreases self.chunks@.len(),
        {
            let n = self.chunks.len();
            if total <= self.max_bytes || n == 0 || self.chunks[n - 1].0 < HEADER_PRESERVE_SIZE {
                break;
            }
            let ghost c = self.spec_chunks();
            let last = self.chunks.pop().unwrap();
            proof {
                assert(chunk_views(self.chunks@) =~= c.drop_last());
                assert(c.last().1.len() == last.1@.len());
                lemma_held_nonneg(c.drop_last());
            }
            total = total - last.1.len();
        }
    }

    /// The bytes buffered.
    pub fn total_bytes(&self) -> (n: usize)
        requires
            held_bytes(self.spec_chunks()) <= usize::MAX,
        ensures
            n == held_bytes(self.spec_chunks()),
    {
        let mut n: usize = 0;
        let mut i: usize = 0;
        while i < self.chunks.len()
            invariant
                i <= self.chunks@.len(),
                n == held_bytes(chunk_views(self.chunks@.take(i as int))),
                held_bytes(self.spec_chunks()) <= usize::MAX,
            decreases self.chunks@.len() - i,
        {
            proof {
                assert(chunk_views(self.chunks@.take(i + 1)).drop_last() =~= chunk_views(self.chunks@.take(i as int)));
                lemma_held_prefix(self.spec_chunks(), i + 1);
                assert(chunk_views(self.chunks@.take(i + 1)) =~= self.spec_chunks().take(i + 1));
            }
            n = n + self.chunks[i].1.len();
            i = i + 1;
        }
        proof {
            assert(self.chunks@.take(i as int) =~= self.chunks@);
        }
        n
    }

    /// The number of buffered chunks.
    pub fn chunk_count(&self) -> (n: usize)
        ensures
            n == self.spec_chunks().len(),
    {
        self.chunks.len()
    }
}

/// Trimming keeps the header region: the buffer after trimming is a prefix
/// of the buffer before, and, when chunk offsets increase, it still holds
/// every chunk that starts within the preserved first 10 MB.
pub proof fn law_trim_keeps_header_chunks(c: Seq<(u64, Seq<u8>)>, max: int)
    requires
        offsets_increase(c),
    ensures
        trimmed(c, max).len() <= c.len(),
        trimmed(c, max) == c.take(trimmed(c, max).len() as int),
        forall|i: int| 0 <= i < c.len() && c[i].0 < HEADER_PRESERVE_SIZE ==> i < trimmed(c, max).len(),
    decreases c.len(),
{
    if held_bytes(c) > max && c.len() > 0 && c.last().0 >= HEADER_PRESERVE_SIZE {
        let d = c.drop_last();
        assert forall|i: int, j: int| 0 <= i < j < d.len() implies #[trigger] d[i].0 < #[trigger] d[j].0 by {
            assert(d[i] == c[i] && d[j] == c[j]);
        }
        law_trim_keeps_header_chunks(d, max);
        let t = trimmed(d, max);
        assert(trimmed(c, max) == t);
        assert(t =~= c.take(t.len() as int)) by {
            assert forall|k: int| 0 <= k < t.len() implies t[k] == c.take(t.len() as int)[k] by {
                assert(d.take(t.len() as int)[k] == d[k]);
            }
        }
        assert forall|i: int| 0 <= i < c.len() && c[i].0 < HEADER_PRESERVE_SIZE implies i < t.len() by {
            if i == c.len() - 1 {
                assert(false);
            }
            assert(d[i] == c[i]);
        }
    } else {
        assert(c.take(c.len() as int) =~= c);
    }
}

proof fn lemma_held_nonneg(c: Seq<(u64, Seq<u8>)>)
    ensures
        held_bytes(c) >= 0,
    decreases c.len(),
{
    if c.len() > 0 {
        lemma_held_nonneg(c.drop_last());
    }
}

proof fn lemma_held_prefix(c: Seq<(u64, Seq<u8>)>, k: int)
    requires
        0 <= k <= c.len(),
    ensures
        held_bytes(c.take(k)) <= held_bytes(c),
    decreases c.len() - k,
{
    if k < c.len() {
        lemma_held_prefix(c, k + 1);
        assert(c.take(k + 1).drop_last() =~= c.take(k));
    } else {
        assert(c.take(k) =~= c);
    }
}

/// Failed availability checks in a row after which feeding gives up.
pub const MAX_CONSECUTIVE_RETRIES: u32 = 600;

/// The input feeder of a remux session.
#[derive(Debug, Clone, Copy)]
pub struct InputFeed {
    /// Size of the file.
    pub file_size: u64,
    /// Bytes fed so far.
    pub position: u64,
    /// Availability checks failed in a row.
    pub retry_count: u32,
}

/// What the feeder does when the next chunk is not available yet.
#[derive(Debug, Clone, Copy, PartialEq, Eq, Structural)]
pub enum FeedWait {
    /// FFmpeg has stopped: stop feeding.
    Stop,
    /// The retries are used up: fail with a timeout.
    GiveUp,
    /// Wait a second and check again.
    Retry,
}

impl InputFeed {
    /// A feeder at the start of a file of `file_size` bytes.
    pub fn new(file_size: u64) -> (f: InputFeed)
        ensures
            f.file_size == file_size,
            f.position == 0,
            f.retry_count == 0,
    {
        InputFeed { file_size, position: 0, retry_count: 0 }
    }

    /// The next chunk to feed, `start..end`, a chunk of `chunk_size` or the
    /// rest of the file; `None` once the whole file was fed.
    pub fn next_chunk(&self, chunk_size: usize) -> (r: Option<(u64, u64)>)
        requires
            self.position <= self.file_size,
        ensures
            self.position >= self.file_size ==> r is None,
            self.position < self.file_size ==> r == Some((
                self.position,
                (self.position + if chunk_size <= self.file_size - self.position { chunk_size as int } else { self.file_size - self.position }) as u64,
            )),
    {
        if self.position >= self.file_size {
            return None;
        }
        let rest = self.file_size - self.position;
        let n: u64 = if (chunk_size as u64) <= rest { chunk_size as u64 } else { rest };
        Some((self.position, self.position + n))
    }

    /// Decides after the next chunk was found unavailable: stop when FFmpeg
    /// has stopped, else count the retry and give up once there were more
    /// than 600 in a row.
    pub fn on_unavailable(&mut self, ffmpeg_running: bool) -> (w: FeedWait)
        requires
            old(self).retry_count < u32::MAX,
        ensures
            final(self).file_size == old(self).file_size,
            final(self).position == old(self).position,
            !ffmpeg_running ==> w == FeedWait::Stop && final(self).retry_count == old(self).retry_count,
            ffmpeg_running ==> final(self).retry_count == old(self).retry_count + 1
                && w == if old(self).retry_count + 1 > MAX_CONSECUTIVE_RETRIES { FeedWait::GiveUp } else { FeedWait::Retry },
    {
        if !ffmpeg_running {
            return FeedWait::Stop;
        }
        self.retry_count = self.retry_count + 1;
        if self.retry_count > MAX_CONSECUTIVE_RETRIES {
            FeedWait::GiveUp
        } else {
            FeedWait::Retry
        }
    }

    /// Records that the chunk `start..end` became available: the retry count resets.
    pub fn on_available(&mut self)
        ensures
            final(self).retry_count == 0,
            final(self).position == old(self).position,
            final(self).file_size == old(self).file_size,
    {
        self.retry_count = 0;
    }

    /// Records a chunk of `n` bytes handed to FFmpeg.
    pub fn on_fed(&mut self, n: u64)
        requires
            old(self).position + n <= old(self).file_size,
        ensures
            final(self).position == old(self).position + n,
            final(self).retry_count == old(self).retry_count,
            final(self).file_size == old(self).file_size,
    {
        self.position = self.position + n;
    }
}

/// The views of a list of strings.
pub open spec fn session_arg_texts(v: Seq<String>) -> Seq<Seq<char>> {
    v.map_values(|t: String| t@)
}

/// The FFmpeg arguments of a remux session writing to `temp_file`: input
/// from standard input; copied video becomes baseline H.264 and copied
/// audio AAC at 128k (other codecs are used as given); MP4 with faststart.
pub open spec fn session_ffmpeg_args(o: RemuxingOptions, temp_file: Seq<char>) -> Seq<Seq<char>> {
    seq!["-y"@, "-i"@, "pipe:0"@, "-c:v"@]
        + (if o.video_codec@ == "copy"@ {
            seq!["libx264"@, "-preset"@, "ultrafast"@, "-profile:v"@, "baseline"@, "-level"@, "3.0"@, "-pix_fmt"@, "yuv420p"@]
        } else {
            seq![o.video_codec@]
        })
        + seq!["-c:a"@]
        + (if o.audio_codec@ == "copy"@ { seq!["aac"@, "-b:a"@, "128k"@] } else { seq![o.audio_codec@] })
        + seq!["-movflags"@, "+faststart"@, "-f"@, "mp4"@, temp_file]
}

/// The FFmpeg arguments of a remux session (see `session_ffmpeg_args`).
pub fn build_session_args(options: &RemuxingOptions, temp_file: &str) -> (args: Vec<String>)
    ensures
        session_arg_texts(args@) == session_ffmpeg_args(*options, temp_file@),
{
    let mut args: Vec<String> = Vec::new();
    push_text(&mut args, "-y");
    push_text(&mut args, "-i");
    push_text(&mut args, "pipe:0");
    push_text(&mut args, "-c:v");
    if text_equals(&options.video_codec, "copy") {
        push_text(&mut args, "libx264");
        push_text(&mut args, "-preset");
        push_text(&mut args, "ultrafast");
        push_text(&mut args, "-profile:v");
        push_text(&mut args, "baseline");
        push_text(&mut args, "-level");
        push_text(&mut args, "3.0");
        push_text(&mut args, "-pix_fmt");
        push_text(&mut args, "yuv420p");
    } else {
        push_string(&mut args, options.video_codec.clone());
    }
    push_text(&mut args, "-c:a");
    if text_equals(&options.audio_codec, "copy") {
        push_text(&mut args, "aac");
        push_text(&mut args, "-b:a");
        push_text(&mut args, "128k");
    } else {
        push_string(&mut args, options.audio_codec.clone());
    }
    push_text(&mut args, "-movflags");
    push_text(&mut args, "+faststart");
    push_text(&mut args, "-f");
    push_text(&mut args, "mp4");
    push_text(&mut args, temp_file);
    proof {
        assert(session_arg_texts(args@) =~= session_ffmpeg_args(*options, temp_file@));
    }
    args
}

/// The state of a remux session.
#[derive(Debug, Clone)]
pub enum RemuxingStatus {
    /// Waiting for this many bytes of the head and tail.
    WaitingForHead { bytes_needed: u64 },
    /// FFmpeg is running and has taken this many input bytes.
    Processing { input_consumed: u64 },
    /// Finished, with this much output.
    Completed { total_output: u64 },
    /// Failed, for this reason.
    Failed { reason: String },
}

/// What a remux session reports of itself.
#[derive(Debug, Clone)]
pub enum SessionStatus {
    /// Remuxing has completed.
    Ready,
    /// Waiting for `bytes_needed` bytes of head and tail, of which about
    /// `bytes_available` are there.
    WaitingForData { bytes_needed: u64, bytes_available: u64 },
    /// FFmpeg is running; `progress` is the input taken and the file size,
    /// `None` for an empty file.
    Remuxing { progress: Option<(u64, u64)> },
    /// Remuxing failed with this error.
    Error { error: String },
}

/// A session's status and the remuxed output it holds.
#[derive(Debug, Clone)]
pub struct SessionInfo {
    /// What the session is doing.
    pub status: SessionStatus,
    /// Bytes of remuxed output so far.
    pub output_size: u64,
}

/// What the status report reads of a remux session.
#[derive(Debug, Clone)]
pub struct SessionSnapshot {
    /// Size of the source file.
    pub file_size: u64,
    /// Bytes of remuxed output so far.
    pub output_size: u64,
    /// The session's state.
    pub status: RemuxingStatus,
}

/// The status a session reports. While it waits for data, `min_head_size`
/// bytes are needed and counted as available when head and tail both are,
/// half of them when only the head is, none otherwise.
pub open spec fn session_status_of<A: FileAssembler>(
    a: A,
    info_hash: InfoHash,
    status: RemuxingStatus,
    file_size: u64,
    min_head_size: u64,
) -> SessionStatus {
    match status {
        RemuxingStatus::WaitingForHead { .. } => {
            let ((hs, he), (ts, te)) = head_and_tail(min_head_size, file_size);
            let head = a.range_available(info_hash, hs, he);
            let tail = a.range_available(info_hash, ts, te);
            SessionStatus::WaitingForData {
                bytes_needed: min_head_size,
                bytes_available: if head && tail {
                    min_head_size
                } else if head {
                    min_head_size / 2
                } else {
                    0
                },
            }
        },
        RemuxingStatus::Processing { input_consumed } => SessionStatus::Remuxing {
            progress: if file_size > 0 { Some((input_consumed, file_size)) } else { None },
        },
        RemuxingStatus::Completed { .. } => SessionStatus::Ready,
        RemuxingStatus::Failed { reason } => SessionStatus::Error { error: reason },
    }
}

/// The report of a session, `None` when there is no session.
pub fn get_session_info<A: FileAssembler>(
    assembler: &A,
    info_hash: InfoHash,
    session: Option<&SessionSnapshot>,
    min_head_size: u64,
) -> (r: Option<SessionInfo>)
    ensures
        session is None ==> r is None,
        session matches Some(s) ==> r == Some(SessionInfo {
            status: session_status_of(*assembler, info_hash, s.status, s.file_size, min_head_size),
            output_size: s.output_size,
        }),
{
    let s = match session {
        Some(s) => s,
        None => return None,
    };
    let status = match &s.status {
        RemuxingStatus::WaitingForHead { .. } => {
            let ((hs, he), (ts, te)) = head_and_tail_ranges(min_head_size, s.file_size);
            let head = assembler.is_range_available(info_hash, hs..he);
            let tail = assembler.is_range_available(info_hash, ts..te);
            let available: u64 = if head && tail {
                min_head_size
            } else if head {
                min_head_size / 2
            } else {
                0
            };
            SessionStatus::WaitingForData { bytes_needed: min_head_size, bytes_available: available }
        },
        RemuxingStatus::Processing { input_consumed } => SessionStatus::Remuxing {
            progress: if s.file_size > 0 { Some((*input_consumed, s.file_size)) } else { None },
        },
        RemuxingStatus::Completed { .. } => SessionStatus::Ready,
        RemuxingStatus::Failed { reason } => SessionStatus::Error { error: reason.clone() },
    };
    Some(SessionInfo { status, output_size: s.output_size })
}

/// The answer to a read of the session output when the output file cannot
/// be opened: what the session is doing instead.
pub fn missing_output_error(status: &RemuxingStatus) -> (e: StreamingError)
    ensures
        e is FfmpegError,
{
    let reason = match status {
        RemuxingStatus::WaitingForHead { .. } => "Waiting for sufficient head and tail data",
        RemuxingStatus::Processing { .. } => "FFmpeg is processing, output not ready yet",
        RemuxingStatus::Failed { .. } => "FFmpeg process failed",
        RemuxingStatus::Completed { .. } => "Output file not found",
    };
    StreamingError::FfmpegError { reason: reason.to_string() }
}

/// How many bytes a read of output bytes `start..end` takes from an output
/// file of `file_size` bytes: the range clipped to the file. A start at or
/// past the file's end is an error: beyond the output once remuxing has
/// completed, output not ready yet otherwise.
pub fn output_read_length(status: &RemuxingStatus, file_size: u64, start: u64, end: u64) -> (r: Result<u64, StreamingError>)
    requires
        start <= end,
    ensures
        start >= file_size ==> r matches Err(StreamingError::FfmpegError { .. }),
        start < file_size ==> r == Ok::<u64, StreamingError>(if end - start <= file_size - start { (end - start) as u64 } else { (file_size - start) as u64 }),
{
    if start >= file_size {
        let reason = match status {
            RemuxingStatus::Completed { .. } => "Requested range beyond file size",
            _ => "FFmpeg is processing, output not ready yet",
        };
        return Err(StreamingError::FfmpegError { reason: reason.to_string() });
    }
    let requested = end - start;
    let available = file_size - start;
    Ok(if requested <= available { requested } else { available })
}

/// Whether a short read of the output is served: always once remuxing has
/// completed; while it goes on, only when some bytes were read.
pub fn accept_short_read(status: &RemuxingStatus, bytes_read: usize) -> (b: bool)
    ensures
        b == (status is Completed || bytes_read > 0),
{
    match status {
        RemuxingStatus::Completed { .. } => true,
        _ => bytes_read > 0,
    }
}

/// Output needed before a remux session may start serving: 10 MB.
pub const MIN_BUFFER_FOR_STREAMING: u64 = 10 * 1024 * 1024;

/// Whether remuxed output is ready to be served: at least 10 MB of it, at
/// least 32 header bytes read, and either a header that passes the MP4
/// streaming analysis or an `ftyp` box at its start.
pub fn header_ready(file_size: u64, header: &[u8], analysis_ready: bool) -> (b: bool)
    ensures
        b == (file_size >= MIN_BUFFER_FOR_STREAMING && header@.len() >= 32
            && (analysis_ready || crate::media_info::has_tag_at(header@, 4, crate::media_info::tag('f', 't', 'y', 'p')))),
{
    if file_size < MIN_BUFFER_FOR_STREAMING || header.len() < 32 {
        return false;
    }
    if analysis_ready {
        return true;
    }
    proof {
        assert(crate::media_info::tag('f', 't', 'y', 'p') == seq![0x66u8, 0x74u8, 0x79u8, 0x70u8]);
    }
    crate::media_info::bytes_at(header, 4, 0x66, 0x74, 0x79, 0x70)
}

/// Remuxed output needed before a session counts as ready to stream: 5 MB.
pub const MIN_OUTPUT_FOR_READINESS: u64 = 5 * 1024 * 1024;
/// Bytes a readiness test read must return: 32 KB.
pub const MIN_TEST_READ: usize = 32 * 1024;

/// Whether a session is ready to stream: it has completed, holds at least
/// 5 MB of output, and a test read returned at least 32 KB (`None` when it failed).
pub fn streaming_ready(completed: bool, output_size: u64, test_read: Option<usize>) -> (b: bool)
    ensures
        b == (completed && output_size >= MIN_OUTPUT_FOR_READINESS && (test_read matches Some(n) && n >= MIN_TEST_READ)),
{
    if !completed || output_size < MIN_OUTPUT_FOR_READINESS {
        return false;
    }
    match test_read {
        Some(n) => n >= MIN_TEST_READ,
        None => false,
    }
}

/// Whether remux streaming serves a source format: AVI, MKV or MP4, each
/// remuxed to MP4.
pub fn supports_format(format: ContainerFormat) -> (b: bool)
    ensures
        b == (format == ContainerFormat::Avi || format == ContainerFormat::Mkv || format == ContainerFormat::Mp4),
{
    match format {
        ContainerFormat::Avi | ContainerFormat::Mkv | ContainerFormat::Mp4 => true,
        _ => false,
    }
}

} // verus!
