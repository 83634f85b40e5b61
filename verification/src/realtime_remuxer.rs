//! Configuration and decisions of the real-time remuxer, which pipes media
//! through FFmpeg with copy codecs and hands out the fragmented MP4 it
//! writes as chunks.
use std::time::Instant;
use vstd::prelude::*;

pub use crate::chunk_server::RemuxedChunk;
use crate::text::{decimal, lowercase, push_string, push_text, text_equals, to_lowercase, u64_to_string};
use crate::time::Duration;

verus! {

/// Errors of the remuxing pipeline.
#[derive(Debug)]
pub enum RemuxError {
    /// FFmpeg could not be started.
    ProcessStart(std::io::Error),
    /// FFmpeg exited unsuccessfully, with its exit code when it had one.
    ProcessFailed(Option<i32>),
    /// Writing to FFmpeg's input failed.
    WriteError(std::io::Error),
    /// Reading FFmpeg's output failed.
    ReadError(std::io::Error),
    /// The pipeline was terminated.
    PipelineTerminated,
    /// The configuration is invalid.
    InvalidConfig(String),
    /// The remux buffer is full.
    BufferFull,
    /// FFmpeg crashed.
    ProcessCrashed,
}

/// Settings of a real-time remux.
#[derive(Debug, Clone)]
pub struct RemuxConfig {
    /// Input format given to FFmpeg, or `auto` to let it probe.
    pub input_format: String,
    /// Bytes read from FFmpeg's output at a time.
    pub chunk_size: usize,
    /// Output chunks buffered at most.
    pub buffer_capacity: usize,
    /// Time allowed for one read or write.
    pub operation_timeout: Duration,
    /// Whether to write fragmented MP4.
    pub use_fragmented_mp4: bool,
    /// FFmpeg's analyze duration, in microseconds.
    pub analyze_duration: u64,
    /// FFmpeg's probe size, in bytes.
    pub probe_size: u64,
    /// More FFmpeg arguments, placed before the output.
    pub extra_args: Vec<String>,
}

impl Default for RemuxConfig {
    fn default() -> (c: RemuxConfig)
        ensures
            c.input_format@ == "auto"@,
            c.chunk_size == 256 * 1024,
            c.buffer_capacity == 128,
            c.operation_timeout.total_nanos() == 30 * 1_000_000_000,
            c.use_fragmented_mp4,
            c.analyze_duration == 10_000_000,
            c.probe_size == 20_971_520,
            c.extra_args@.len() == 0,
    {
        RemuxConfig {
            input_format: "auto".to_string(),
            chunk_size: 256 * 1024,
            buffer_capacity: 128,
            operation_timeout: Duration::from_secs(30),
            use_fragmented_mp4: true,
            analyze_duration: 10_000_000,
            probe_size: 20_971_520,
            extra_args: Vec::new(),
        }
    }
}

/// The views of a list of strings.
pub open spec fn texts(v: Seq<String>) -> Seq<Seq<char>> {
    v.map_values(|t: String| t@)
}

/// The FFmpeg arguments of a remux: tolerant input options with the
/// configured analyze duration and probe size, the input format unless it
/// is `auto`, input from standard input, copy codecs for video and audio,
/// fragmented MP4 flags when asked for (longer fragments and copied
/// timestamps for AVI input), MP4 output with a large muxing queue, the
/// extra arguments, and output to standard output.
pub open spec fn ffmpeg_args(c: RemuxConfig) -> Seq<Seq<char>> {
    seq![
        "-y"@, "-analyzeduration"@, decimal(c.analyze_duration as nat), "-probesize"@, decimal(c.probe_size as nat),
        "-err_detect"@, "ignore_err"@, "-fflags"@, "+igndts+ignidx+genpts+discardcorrupt+nobuffer"@,
        "-avoid_negative_ts"@, "make_zero"@, "-thread_queue_size"@, "2048"@,
    ]
        + (if c.input_format@ != "auto"@ { seq!["-f"@, c.input_format@] } else { Seq::empty() })
        + seq!["-i"@, "pipe:0"@, "-c:v"@, "copy"@, "-c:a"@, "copy"@]
        + (if !c.use_fragmented_mp4 {
            Seq::empty()
        } else if lowercase(c.input_format@) == "avi"@ {
            seq!["-movflags"@, "frag_keyframe+empty_moov+default_base_moof+flush_packets"@, "-frag_duration"@, "5000000"@, "-copyts"@]
        } else {
            seq!["-movflags"@, "frag_keyframe+empty_moov+default_base_moof"@, "-frag_duration"@, "2000000"@]
        })
        + seq!["-f"@, "mp4"@, "-max_muxing_queue_size"@, "4096"@]
        + texts(c.extra_args@)
        + seq!["pipe:1"@]
}

impl RemuxConfig {
    /// Settings for AVI input: the `avi` input format and long analysis
    /// (100 seconds, 100 MB) so that its duration is found.
    pub fn for_avi() -> (c: RemuxConfig)
        ensures
            c.input_format@ == "avi"@,
            c.analyze_duration == 100_000_000,
            c.probe_size == 100_000_000,
            c.chunk_size == 256 * 1024,
            c.buffer_capacity == 128,
            c.operation_timeout.total_nanos() == 30 * 1_000_000_000,
            c.use_fragmented_mp4,
            c.extra_args@.len() == 0,
    {
        RemuxConfig {
            input_format: "avi".to_string(),
            analyze_duration: 100_000_000,
            probe_size: 100_000_000,
            ..Default::default()
        }
    }

    /// Settings for low latency: 128 KB chunks, 64 buffered chunks and a
    /// 15 second timeout.
    pub fn low_latency() -> (c: RemuxConfig)
        ensures
            c.input_format@ == "auto"@,
            c.chunk_size == 128 * 1024,
            c.buffer_capacity == 64,
            c.operation_timeout.total_nanos() == 15 * 1_000_000_000,
            c.use_fragmented_mp4,
            c.analyze_duration == 10_000_000,
            c.probe_size == 20_971_520,
            c.extra_args@.len() == 0,
    {
        RemuxConfig {
            chunk_size: 128 * 1024,
            buffer_capacity: 64,
            operation_timeout: Duration::from_secs(15),
            ..Default::default()
        }
    }

    /// The FFmpeg arguments of this remux (see `ffmpeg_args`).
    pub fn build_ffmpeg_args(&self) -> (args: Vec<String>)
        ensures
            texts(args@) == ffmpeg_args(*self),
    {
        let mut args: Vec<String> = Vec::new();
        push_text(&mut args, "-y");
        push_text(&mut args, "-analyzeduration");
        push_string(&mut args, u64_to_string(self.analyze_duration));
        push_text(&mut args, "-probesize");
        push_string(&mut args, u64_to_string(self.probe_size));
        push_text(&mut args, "-err_detect");
        push_text(&mut args, "ignore_err");
        push_text(&mut args, "-fflags");
        push_text(&mut args, "+igndts+ignidx+genpts+discardcorrupt+nobuffer");
        push_text(&mut args, "-avoid_negative_ts");
        push_text(&mut args, "make_zero");
        push_text(&mut args, "-thread_queue_size");
        push_text(&mut args, "2048");
        let ghost a1 = texts(args@);
        if !text_equals(&self.input_format, "auto") {
            push_text(&mut args, "-f");
            push_string(&mut args, self.input_format.clone());
        }
        let ghost a2 = texts(args@);
        push_text(&mut args, "-i");
        push_text(&mut args, "pipe:0");
        push_text(&mut args, "-c:v");
        push_text(&mut args, "copy");
        push_text(&mut args, "-c:a");
        push_text(&mut args, "copy");
        let ghost a3 = texts(args@);
        if self.use_fragmented_mp4 {
            let lowered = to_lowercase(self.input_format.as_str());
            if text_equals(&lowered, "avi") {
                push_text(&mut args, "-movflags");
                push_text(&mut args, "frag_keyframe+empty_moov+default_base_moof+flush_packets");
                push_text(&mut args, "-frag_duration");
                push_text(&mut args, "5000000");
                push_text(&mut args, "-copyts");
            } else {
                push_text(&mut args, "-movflags");
                push_text(&mut args, "frag_keyframe+empty_moov+default_base_moof");
                push_text(&mut args, "-frag_duration");
                push_text(&mut args, "2000000");
            }
        }
        let ghost a4 = texts(args@);
        push_text(&mut args, "-f");
        push_text(&mut args, "mp4");
        push_text(&mut args, "-max_muxing_queue_size");
        push_text(&mut args, "4096");
        let ghost a5 = texts(args@);
        let mut i: usize = 0;
        while i < self.extra_args.len()
            invariant
                i <= self.extra_args@.len(),
                texts(args@) == a5 + texts(self.extra_args@.take(i as int)),
            decreases self.extra_args@.len() - i,
        {
            push_string(&mut args, self.extra_args[i].clone());
            proof {
                assert(texts(self.extra_args@.take(i + 1)) =~= texts(self.extra_args@.take(i as int)).push(self.extra_args@[i as int]@));
                assert(texts(args@) =~= a5 + texts(self.extra_args@.take(i + 1)));
            }
            i = i + 1;
        }
        proof {
            assert(self.extra_args@.take(self.extra_args@.len() as int) =~= self.extra_args@);
        }
        let ghost a6 = texts(args@);
        push_text(&mut args, "pipe:1");
        proof {
            assert(texts(args@) =~= ffmpeg_args(*self));
        }
        args
    }
}

/// The state of a remux session.
#[derive(Debug, Clone, Copy, PartialEq, Eq, Structural)]
pub enum RemuxStatus {
    /// Starting up.
    Initializing,
    /// Remuxing.
    Running,
    /// Finished successfully.
    Completed,
    /// Finished with an error.
    Failed,
    /// Stopped on request.
    Terminated,
}

impl RemuxStatus {
    /// Whether a session in this state is still running: starting up or remuxing.
    pub fn is_running(&self) -> (b: bool)
        ensures
            b == (*self == RemuxStatus::Initializing || *self == RemuxStatus::Running),
    {
        matches!(self, RemuxStatus::Initializing | RemuxStatus::Running)
    }

    /// The state a session ends in: completed when the pipeline succeeded, failed otherwise.
    pub fn on_finish(succeeded: bool) -> (s: RemuxStatus)
        ensures
            s == (if succeeded { RemuxStatus::Completed } else { RemuxStatus::Failed }),
    {
        if succeeded {
            RemuxStatus::Completed
        } else {
            RemuxStatus::Failed
        }
    }
}

/// Output bytes within this many bytes of the start may carry the MP4 header.
pub const HEADER_REGION_BYTES: u64 = 32768;

/// Where the remuxed output stands: the offset of the next chunk and
/// whether the header chunk was handed out.
#[derive(Debug, Clone, Copy)]
pub struct OutputCursor {
    /// Offset of the next chunk in the output stream.
    pub offset: u64,
    /// Whether a header chunk was handed out.
    pub header_sent: bool,
}

impl OutputCursor {
    /// The cursor at the start of the output.
    pub fn new() -> (c: OutputCursor)
        ensures
            c.offset == 0,
            !c.header_sent,
    {
        OutputCursor { offset: 0, header_sent: false }
    }

    /// Turns the next bytes read from FFmpeg into a chunk at the cursor:
    /// the first chunk that starts within the header region is the header
    /// chunk; the cursor moves past the bytes.
    pub fn next_chunk(&mut self, data: Vec<u8>, timestamp: Instant) -> (chunk: RemuxedChunk)
        requires
            old(self).offset + data@.len() <= u64::MAX,
        ensures
            chunk.offset == old(self).offset,
            chunk.data@ == data@,
            chunk.is_header == (old(self).offset < HEADER_REGION_BYTES && !old(self).header_sent),
            chunk.timestamp == timestamp,
            final(self).offset == old(self).offset + data@.len(),
            final(self).header_sent == (old(self).header_sent || chunk.is_header),
    {
        let is_header = self.offset < HEADER_REGION_BYTES && !self.header_sent;
        if is_header {
            self.header_sent = true;
        }
        let offset = self.offset;
        self.offset = self.offset + data.len() as u64;
        RemuxedChunk { offset, data, is_header, timestamp }
    }
}

/// Real-time remuxer with a validated configuration.
pub struct RealtimeRemuxer {
    config: RemuxConfig,
}

impl RealtimeRemuxer {
    /// The configuration.
    pub closed spec fn spec_config(&self) -> RemuxConfig {
        self.config
    }

    /// A remuxer for a configuration whose chunk size and buffer capacity
    /// are nonzero; either being zero is an invalid configuration.
    pub fn new(config: RemuxConfig) -> (r: Result<RealtimeRemuxer, RemuxError>)
        ensures
            config.chunk_size == 0 ==> (r matches Err(RemuxError::InvalidConfig(m)) && m@ == "chunk_size must be greater than 0"@),
            config.chunk_size != 0 && config.buffer_capacity == 0 ==> (r matches Err(RemuxError::InvalidConfig(m)) && m@ == "buffer_capacity must be greater than 0"@),
            config.chunk_size != 0 && config.buffer_capacity != 0 ==> (r matches Ok(x) && x.spec_config() == config),
    {
        if config.chunk_size == 0 {
            return Err(RemuxError::InvalidConfig("chunk_size must be greater than 0".to_string()));
        }
        if config.buffer_capacity == 0 {
            return Err(RemuxError::InvalidConfig("buffer_capacity must be greater than 0".to_string()));
        }
        Ok(RealtimeRemuxer { config })
    }

    /// The configuration.
    pub fn config(&self) -> (c: &RemuxConfig)
        ensures
            *c == self.spec_config(),
    {
        &self.config
    }
}

} // verus!
