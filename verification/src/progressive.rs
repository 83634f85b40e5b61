//! Decisions of progressive streaming into FFmpeg: the pump that first
//! feeds the file's header region, then the rest of the file as pieces
//! arrive, backing off while data is missing and giving up after a long
//! stall; and FFmpeg's command line.
use vstd::prelude::*;

pub mod coordinator;
pub mod diagnostics;

use crate::text::{push_string, push_text, text_equals};

verus! {

/// Bytes fed before the pump counts failures: the header region, 20 MB.
pub const MIN_HEADER_SIZE: u64 = 20 * 1024 * 1024;
/// Bytes read at a time.
pub const PUMP_CHUNK_SIZE: u64 = 1024 * 1024;
/// Consecutive failed reads after which the pump stops.
pub const MAX_CONSECUTIVE_FAILURES: u32 = 180;

/// The phase of the pump.
#[derive(Debug, Clone, Copy, PartialEq, Eq, Structural)]
pub enum PumpStage {
    /// Feeding the header region, waiting as long as the initial timeout allows.
    Initial,
    /// Feeding the rest of the file.
    Streaming,
}

/// What a read of the data source gave.
#[derive(Debug, Clone, Copy, PartialEq, Eq, Structural)]
pub enum ReadOutcome {
    /// This many bytes, written on to FFmpeg.
    Data(u64),
    /// No bytes yet.
    Empty,
    /// Pieces of the range are missing.
    InsufficientData,
    /// The storage timed out.
    StorageTimeout,
    /// Any other error.
    OtherError,
}

/// The next move of the pump.
#[derive(Debug, Clone, Copy, PartialEq, Eq, Structural)]
pub enum PumpMove {
    /// Read bytes `start..end`.
    Read { start: u64, end: u64 },
    /// The header region did not arrive within the initial timeout.
    TimedOut,
    /// The whole file was fed.
    Done,
}

/// The state of the pump of one file.
#[derive(Debug, Clone, Copy)]
pub struct PumpState {
    /// Size of the file.
    pub file_size: u64,
    /// Bytes fed so far.
    pub offset: u64,
    /// Failed reads in a row while streaming.
    pub consecutive_failures: u32,
    /// The phase.
    pub stage: PumpStage,
}

/// The end of the header region of a file.
pub open spec fn header_target(file_size: u64) -> u64 {
    if MIN_HEADER_SIZE <= file_size { MIN_HEADER_SIZE } else { file_size }
}

/// The end of the read at `offset`: a chunk on, or the file's end.
pub open spec fn chunk_end(offset: u64, file_size: u64) -> u64 {
    if offset + PUMP_CHUNK_SIZE <= file_size { (offset + PUMP_CHUNK_SIZE) as u64 } else { file_size }
}

/// How long to wait after a read that gave no data, in milliseconds:
/// while streaming, 500 after an empty read, 1000 for missing pieces, 2000
/// after a storage timeout, 100 otherwise; in the header phase always 100.
pub open spec fn backoff_millis(stage: PumpStage, outcome: ReadOutcome) -> u64 {
    match stage {
        PumpStage::Initial => 100,
        PumpStage::Streaming => match outcome {
            ReadOutcome::Empty => 500,
            ReadOutcome::InsufficientData => 1000,
            ReadOutcome::StorageTimeout => 2000,
            _ => 100,
        },
    }
}

/// The bytes a read gave: its length for data, none otherwise.
pub open spec fn read_len(outcome: ReadOutcome) -> u64 {
    match outcome {
        ReadOutcome::Data(n) => n,
        _ => 0,
    }
}

/// All bytes of `results`, one read after another.
pub open spec fn fed_bytes(results: Seq<Seq<u8>>) -> Seq<u8>
    decreases results.len(),
{
    if results.len() == 0 {
        Seq::empty()
    } else {
        fed_bytes(results.drop_last()) + results.last()
    }
}

/// The pump after taking in the non-empty reads `results` in order.
pub open spec fn fed_state(p: PumpState, results: Seq<Seq<u8>>) -> PumpState
    decreases results.len(),
{
    if results.len() == 0 {
        p
    } else {
        fed_state(p, results.drop_last()).after_data(results.last().len() as u64)
    }
}

impl PumpState {
    /// Bytes fed never pass the file's end.
    pub open spec fn wf(&self) -> bool {
        self.offset <= self.file_size
    }

    /// The pump after a read that gave `n` bytes: the offset moves on by
    /// `n` and, while streaming, the failure count is cleared.
    pub open spec fn after_data(self, n: u64) -> PumpState {
        PumpState {
            offset: (self.offset + n) as u64,
            consecutive_failures: if self.stage == PumpStage::Streaming { 0 } else { self.consecutive_failures },
            ..self
        }
    }

    /// A pump at the start of a file of `file_size` bytes.
    pub fn new(file_size: u64) -> (p: PumpState)
        ensures
            p.wf(),
            p.file_size == file_size,
            p.offset == 0,
            p.consecutive_failures == 0,
            p.stage == PumpStage::Initial,
    {
        PumpState { file_size, offset: 0, consecutive_failures: 0, stage: PumpStage::Initial }
    }

    /// The next move: in the header phase, once the header region is fed
    /// the pump turns to streaming; before that it times out when the
    /// initial wait is over, else reads the next chunk. While streaming it
    /// reads the next chunk until the whole file was fed.
    pub fn next_move(&mut self, initial_wait_exceeded: bool) -> (m: PumpMove)
        requires
            old(self).wf(),
        ensures
            final(self).wf(),
            final(self).file_size == old(self).file_size,
            final(self).offset == old(self).offset,
            final(self).consecutive_failures == old(self).consecutive_failures,
            old(self).stage == PumpStage::Initial && old(self).offset < header_target(old(self).file_size) ==> {
                &&& final(self).stage == PumpStage::Initial
                &&& m == if initial_wait_exceeded {
                    PumpMove::TimedOut
                } else {
                    PumpMove::Read { start: old(self).offset, end: chunk_end(old(self).offset, old(self).file_size) }
                }
            },
            old(self).stage == PumpStage::Streaming || old(self).offset >= header_target(old(self).file_size) ==> {
                &&& final(self).stage == PumpStage::Streaming
                &&& m == if old(self).offset < old(self).file_size {
                    PumpMove::Read { start: old(self).offset, end: chunk_end(old(self).offset, old(self).file_size) }
                } else {
                    PumpMove::Done
                }
            },
            m matches PumpMove::Read { start, end } ==> start < end <= final(self).file_size,
    {
        let target = if MIN_HEADER_SIZE <= self.file_size { MIN_HEADER_SIZE } else { self.file_size };
        if self.stage == PumpStage::Initial {
            if self.offset < target {
                if initial_wait_exceeded {
                    return PumpMove::TimedOut;
                }
                return PumpMove::Read { start: self.offset, end: self.next_chunk_end() };
            }
            self.stage = PumpStage::Streaming;
        }
        if self.offset < self.file_size {
            PumpMove::Read { start: self.offset, end: self.next_chunk_end() }
        } else {
            PumpMove::Done
        }
    }

    fn next_chunk_end(&self) -> (e: u64)
        requires
            self.offset <= self.file_size,
        ensures
            e == chunk_end(self.offset, self.file_size),
    {
        if self.file_size - self.offset >= PUMP_CHUNK_SIZE {
            self.offset + PUMP_CHUNK_SIZE
        } else {
            self.file_size
        }
    }

    /// Takes in what a read gave: data advances the offset (and, while
    /// streaming, clears the failure count); anything else counts as a
    /// failure while streaming. Returns how long to wait before the next
    /// move, in milliseconds (see `backoff_millis`; none after data).
    pub fn after_read(&mut self, outcome: ReadOutcome) -> (wait: u64)
        requires
            old(self).wf(),
            outcome matches ReadOutcome::Data(n) ==> old(self).offset + n <= old(self).file_size,
            old(self).stage == PumpStage::Streaming && read_len(outcome) == 0 ==> old(self).consecutive_failures < u32::MAX,
        ensures
            final(self).wf(),
            final(self).file_size == old(self).file_size,
            final(self).stage == old(self).stage,
            read_len(outcome) > 0 ==> {
                &&& wait == 0
                &&& *final(self) == old(self).after_data(read_len(outcome))
                &&& final(self).offset == old(self).offset + read_len(outcome)
                &&& final(self).consecutive_failures == if old(self).stage == PumpStage::Streaming { 0 } else { old(self).consecutive_failures }
            },
            read_len(outcome) == 0 ==> {
                &&& wait == backoff_millis(old(self).stage, if outcome is Data { ReadOutcome::Empty } else { outcome })
                &&& final(self).offset == old(self).offset
                &&& final(self).consecutive_failures == if old(self).stage == PumpStage::Streaming {
                    (old(self).consecutive_failures + 1) as u32
                } else {
                    old(self).consecutive_failures
                }
            },
    {
        let data_len: u64 = match outcome {
            ReadOutcome::Data(n) => n,
            _ => 0,
        };
        if data_len > 0 {
            self.offset = self.offset + data_len;
            if self.stage == PumpStage::Streaming {
                self.consecutive_failures = 0;
            }
            return 0;
        }
        if self.stage == PumpStage::Initial {
            return 100;
        }
        self.consecutive_failures = self.consecutive_failures + 1;
        match outcome {
            ReadOutcome::InsufficientData => 1000,
            ReadOutcome::StorageTimeout => 2000,
            ReadOutcome::OtherError => 100,
            _ => 500,
        }
    }

    /// Whether the pump stops early after a wait: while streaming, after
    /// 180 failed reads in a row or when no progress was made for the
    /// progress timeout.
    pub fn should_stop(&self, progress_timeout_exceeded: bool) -> (b: bool)
        ensures
            b == (self.stage == PumpStage::Streaming && (self.consecutive_failures >= MAX_CONSECUTIVE_FAILURES || progress_timeout_exceeded)),
    {
        self.stage == PumpStage::Streaming && (self.consecutive_failures >= MAX_CONSECUTIVE_FAILURES || progress_timeout_exceeded)
    }
}

/// The pump feeds the source's bytes in order: a pump started at offset
/// zero that took in the non-empty reads `results` (each taken in by
/// `after_read`, as `after_data`) stands at the end of their concatenation,
/// within the file when that concatenation fits it; so each read (whose
/// start `next_move` takes from the offset) began where the bytes fed
/// before it end, and the bytes fed are the reads one after another.
pub proof fn law_pump_feeds_in_order(p: PumpState, results: Seq<Seq<u8>>)
    requires
        p.wf(),
        p.offset == 0,
    ensures
        forall|i: int| 0 <= i <= results.len() && fed_bytes(results.take(i)).len() <= u64::MAX ==>
            (#[trigger] fed_state(p, results.take(i))).offset == fed_bytes(results.take(i)).len(),
        fed_bytes(results).len() <= p.file_size ==> {
            &&& fed_state(p, results).offset == fed_bytes(results).len()
            &&& fed_state(p, results).wf()
            &&& fed_state(p, results).file_size == p.file_size
        },
    decreases results.len(),
{
    assert forall|i: int| 0 <= i <= results.len() && fed_bytes(results.take(i)).len() <= u64::MAX implies
        (#[trigger] fed_state(p, results.take(i))).offset == fed_bytes(results.take(i)).len() by {
        lemma_fed_offset(p, results.take(i));
    }
    assert(results.take(results.len() as int) =~= results);
    lemma_fed_offset(p, results);
}

proof fn lemma_fed_offset(p: PumpState, results: Seq<Seq<u8>>)
    requires
        p.offset == 0,
    ensures
        fed_state(p, results).file_size == p.file_size,
        fed_state(p, results).stage == p.stage,
        fed_bytes(results).len() <= u64::MAX ==> fed_state(p, results).offset == fed_bytes(results).len(),
        fed_bytes(results).len() <= p.file_size ==> fed_state(p, results).wf(),
    decreases results.len(),
{
    if results.len() > 0 {
        let init = results.drop_last();
        lemma_fed_offset(p, init);
        assert(fed_bytes(results).len() == fed_bytes(init).len() + results.last().len());
    }
}

/// Whether `needle` occurs in `text`.
pub open spec fn contains_text(text: Seq<char>, needle: Seq<char>) -> bool {
    exists|i: int| 0 <= i && i + needle.len() <= text.len() && #[trigger] text.subrange(i, i + needle.len()) == needle
}

/// Whether a storage error's reason reports a timeout: it contains `timeout`.
pub fn is_timeout_reason(reason: &str) -> (b: bool)
    ensures
        b == contains_text(reason@, "timeout"@),
{
    proof {
        reveal_strlit("timeout");
    }
    let n = reason.unicode_len();
    if n < 7 {
        return false;
    }
    let mut i: usize = 0;
    while i <= n - 7
        invariant
            n == reason@.len(),
            n >= 7,
            i <= n - 6,
            "timeout"@ == seq!['t', 'i', 'm', 'e', 'o', 'u', 't'],
            forall|j: int| 0 <= j < i ==> #[trigger] reason@.subrange(j, j + 7) != "timeout"@,
        decreases n - i,
    {
        if reason.get_char(i) == 't' && reason.get_char(i + 1) == 'i' && reason.get_char(i + 2) == 'm'
            && reason.get_char(i + 3) == 'e' && reason.get_char(i + 4) == 'o' && reason.get_char(i + 5) == 'u'
            && reason.get_char(i + 6) == 't' {
            proof {
                assert(reason@.subrange(i as int, i + 7) =~= "timeout"@);
            }
            return true;
        }
        proof {
            let s = reason@.subrange(i as int, i + 7);
            if s == "timeout"@ {
                assert(s[0] == 't' && s[1] == 'i' && s[2] == 'm' && s[3] == 'e' && s[4] == 'o' && s[5] == 'u' && s[6] == 't');
            }
        }
        i = i + 1;
    }
    false
}

/// Runs FFmpeg on progressively fed input, writing to an output path.
pub struct FfmpegRunner {
    input_format: String,
    output_path: String,
}

/// The views of a list of strings.
pub open spec fn runner_arg_texts(v: Seq<String>) -> Seq<Seq<char>> {
    v.map_values(|t: String| t@)
}

/// The FFmpeg arguments of a progressive transcode: overwrite; tolerant
/// input options; the input format unless it is `auto`; input from
/// standard input; fast H.264 video and AAC audio in fragmented MP4 to the
/// output path.
pub open spec fn progressive_args(input_format: Seq<char>, output_path: Seq<char>) -> Seq<Seq<char>> {
    seq![
        "-y"@, "-analyzeduration"@, "10000000"@, "-probesize"@, "20971520"@, "-err_detect"@, "ignore_err"@,
        "-fflags"@, "+igndts+ignidx+genpts+discardcorrupt"@, "-avoid_negative_ts"@, "make_zero"@,
        "-thread_queue_size"@, "2048"@,
    ]
        + (if input_format != "auto"@ { seq!["-f"@, input_format] } else { Seq::empty() })
        + seq![
            "-i"@, "pipe:0"@, "-c:v"@, "libx264"@, "-preset"@, "ultrafast"@, "-crf"@, "23"@, "-profile:v"@, "high"@,
            "-level"@, "4.1"@, "-pix_fmt"@, "yuv420p"@, "-c:a"@, "aac"@, "-b:a"@, "192k"@, "-movflags"@,
            "frag_keyframe+empty_moov+default_base_moof"@, "-max_muxing_queue_size"@, "4096"@, "-f"@, "mp4"@,
            output_path,
        ]
}

impl FfmpegRunner {
    /// The input format given to FFmpeg.
    pub closed spec fn spec_input_format(&self) -> Seq<char> {
        self.input_format@
    }

    /// The output path.
    pub closed spec fn spec_output_path(&self) -> Seq<char> {
        self.output_path@
    }

    /// A runner for input of `input_format` (`auto` to let FFmpeg detect it)
    /// writing to `output_path`.
    pub fn new(input_format: String, output_path: String) -> (r: FfmpegRunner)
        ensures
            r.spec_input_format() == input_format@,
            r.spec_output_path() == output_path@,
    {
        FfmpegRunner { input_format, output_path }
    }

    /// The output path.
    pub fn output_path(&self) -> (p: &String)
        ensures
            p@ == self.spec_output_path(),
    {
        &self.output_path
    }

    /// The FFmpeg arguments of the transcode (see `progressive_args`).
    pub fn ffmpeg_args(&self) -> (args: Vec<String>)
        ensures
            runner_arg_texts(args@) == progressive_args(self.spec_input_format(), self.spec_output_path()),
    {
        let mut args: Vec<String> = Vec::new();
        push_text(&mut args, "-y");
        push_text(&mut args, "-analyzeduration");
        push_text(&mut args, "10000000");
        push_text(&mut args, "-probesize");
        push_text(&mut args, "20971520");
        push_text(&mut args, "-err_detect");
        push_text(&mut args, "ignore_err");
        push_text(&mut args, "-fflags");
        push_text(&mut args, "+igndts+ignidx+genpts+discardcorrupt");
        push_text(&mut args, "-avoid_negative_ts");
        push_text(&mut args, "make_zero");
        push_text(&mut args, "-thread_queue_size");
        push_text(&mut args, "2048");
        if !text_equals(&self.input_format, "auto") {
            push_text(&mut args, "-f");
            push_string(&mut args, self.input_format.clone());
        }
        push_text(&mut args, "-i");
        push_text(&mut args, "pipe:0");
        push_text(&mut args, "-c:v");
        push_text(&mut args, "libx264");
        push_text(&mut args, "-preset");
        push_text(&mut args, "ultrafast");
        push_text(&mut args, "-crf");
        push_text(&mut args, "23");
        push_text(&mut args, "-profile:v");
        push_text(&mut args, "high");
        push_text(&mut args, "-level");
        push_text(&mut args, "4.1");
        push_text(&mut args, "-pix_fmt");
        push_text(&mut args, "yuv420p");
        push_text(&mut args, "-c:a");
        push_text(&mut args, "aac");
        push_text(&mut args, "-b:a");
        push_text(&mut args, "192k");
        push_text(&mut args, "-movflags");
        push_text(&mut args, "frag_keyframe+empty_moov+default_base_moof");
        push_text(&mut args, "-max_muxing_queue_size");
        push_text(&mut args, "4096");
        push_text(&mut args, "-f");
        push_text(&mut args, "mp4");
        push_string(&mut args, self.output_path.clone());
        proof {
            assert(runner_arg_texts(args@) =~= progressive_args(self.spec_input_format(), self.spec_output_path()));
        }
        args
    }
}

/// Progress of progressive streaming.
#[derive(Debug, Clone)]
pub struct ProgressInfo {
    /// Bytes fed to FFmpeg so far.
    pub bytes_pumped: u64,
    /// Size of the file.
    pub file_size: u64,
    /// The output path.
    pub output_path: String,
}

/// Output bytes needed before the progressive output can be streamed.
pub const READY_OUTPUT_BYTES: u64 = 128 * 1024;

/// Whether progressive output of `output_len` bytes (`None` when it cannot
/// be measured) holds enough of the MP4 header to be streamed.
pub fn output_ready(output_len: Option<u64>) -> (b: bool)
    ensures
        b == (output_len matches Some(n) && n >= READY_OUTPUT_BYTES),
{
    match output_len {
        Some(n) => n >= READY_OUTPUT_BYTES,
        None => false,
    }
}

} // verus!
