//! Types shared by the remux streaming pipeline.
use vstd::prelude::*;

use std::time::Instant;

use crate::clock::{elapsed_since, now};
use crate::remux::state::RemuxState;
use crate::time::Duration;
use crate::torrent::InfoHash;

verus! {

/// Container format of a video file.
#[derive(Debug, Clone, Copy, PartialEq, Eq, Hash, Structural)]
pub enum ContainerFormat {
    /// MPEG-4 Part 14 (.mp4).
    Mp4,
    /// Matroska (.mkv).
    Mkv,
    /// Audio Video Interleave (.avi).
    Avi,
    /// QuickTime (.mov).
    Mov,
    /// WebM (.webm).
    WebM,
    /// Not determined.
    Unknown,
}

#[verifier::external_type_specification]
#[verifier::external_body]
pub struct ExIoError(std::io::Error);

/// Errors of the streaming strategies.
#[derive(Debug)]
pub enum StrategyError {
    /// The container format cannot be streamed.
    UnsupportedFormat { format: String },
    /// The container format could not be detected from the headers.
    FormatDetectionFailed,
    /// The stream cannot be served yet.
    StreamingNotReady { reason: String },
    /// Remuxing failed.
    RemuxingFailed { reason: String },
    /// The requested byte range `start..end` is invalid.
    InvalidRange { start: u64, end: u64 },
    /// FFmpeg reported an error.
    FfmpegError { reason: String },
    /// The range starts beyond the output available so far.
    RangeNotSatisfiable { requested_start: u64, file_size: u64 },
    /// An I/O operation failed.
    IoError(std::io::Error),
    /// Piece data could not be read or stored.
    PieceStorageError { reason: String },
    /// Pieces of the requested range are missing.
    MissingPieces { missing_count: usize },
    /// An I/O operation failed during a named operation.
    IoErrorWithOperation { operation: String, source: std::io::Error },
    /// No session exists for the torrent.
    TorrentNotFound,
    /// The source format cannot be streamed.
    UnsupportedSource,
    /// The torrent could not be added.
    TorrentAddFailed { reason: String },
    /// The streaming server did not start.
    ServerStartFailed { reason: String },
}

/// Limits and locations of the remuxing sessions.
#[derive(Debug, Clone)]
pub struct RemuxConfig {
    /// Remuxing sessions that may run at once.
    pub max_concurrent_sessions: usize,
    /// Directory of the remuxed files.
    pub cache_dir: String,
    /// Bytes needed from the start of the file before remuxing.
    pub min_head_size: u64,
    /// Bytes needed from the end of the file before remuxing.
    pub min_tail_size: u64,
    /// Time allowed for a remux.
    pub remux_timeout: Duration,
    /// The FFmpeg binary.
    pub ffmpeg_path: String,
    /// Finished sessions are cleaned up after this long.
    pub cleanup_after: Duration,
}

impl Default for RemuxConfig {
    fn default() -> (c: RemuxConfig)
        ensures
            c.max_concurrent_sessions == 3,
            c.cache_dir@ == "/tmp/riptide_remux"@,
            c.min_head_size == 3 * 1024 * 1024,
            c.min_tail_size == 2 * 1024 * 1024,
            c.remux_timeout.total_nanos() == 30 * 60 * 1_000_000_000,
            c.ffmpeg_path@ == "ffmpeg"@,
            c.cleanup_after.total_nanos() == 60 * 60 * 1_000_000_000,
    {
        RemuxConfig {
            max_concurrent_sessions: 3,
            cache_dir: "/tmp/riptide_remux".to_string(),
            min_head_size: 3 * 1024 * 1024,
            min_tail_size: 2 * 1024 * 1024,
            remux_timeout: Duration::from_secs(30 * 60),
            ffmpeg_path: "ffmpeg".to_string(),
            cleanup_after: Duration::from_secs(60 * 60),
        }
    }
}

/// A streaming session of a torrent.
#[derive(Debug, Clone, Copy, PartialEq, Eq, Hash)]
pub struct StreamHandle {
    /// The torrent streamed.
    pub info_hash: InfoHash,
    /// The session.
    pub session_id: u64,
    /// The container of the output stream.
    pub format: ContainerFormat,
}

/// Stream bytes with their metadata.
#[derive(Debug, Clone)]
pub struct StreamData {
    /// The bytes.
    pub data: Vec<u8>,
    /// MIME type for the Content-Type header.
    pub content_type: String,
    /// Size of the whole stream, when known.
    pub total_size: Option<u64>,
    /// First byte offset of the data.
    pub range_start: u64,
    /// Last byte offset of the data.
    pub range_end: u64,
}

/// Readiness of a stream.
#[derive(Debug, Clone, Copy, PartialEq, Eq, Structural)]
pub enum StreamReadiness {
    /// Ready to serve.
    Ready,
    /// Being processed.
    Processing,
    /// Waiting for more data.
    WaitingForData,
    /// Failed, may be retried.
    CanRetry,
    /// Failed for good.
    Failed,
}

/// A remuxing session: its torrent, state, output file and activity times.
#[derive(Debug)]
pub struct RemuxSession {
    /// The torrent being remuxed.
    pub info_hash: InfoHash,
    /// Where the session stands.
    pub state: RemuxState,
    /// The remuxed output file, once remuxing started.
    pub output_path: Option<String>,
    /// When the session was created.
    pub created_at: Instant,
    /// When the session was last used.
    pub last_activity: Instant,
    /// The session's identifier.
    pub session_id: u64,
}

impl RemuxSession {
    /// A new session waiting for the head and tail of the file.
    pub fn new(info_hash: InfoHash, session_id: u64) -> (s: RemuxSession)
        ensures
            s.info_hash == info_hash,
            s.session_id == session_id,
            s.state is WaitingForHeadAndTail,
            s.output_path is None,
            s.last_activity == s.created_at,
    {
        let t = now();
        RemuxSession {
            info_hash,
            state: RemuxState::WaitingForHeadAndTail,
            output_path: None,
            created_at: t,
            last_activity: t,
            session_id,
        }
    }

    /// Records activity now. Nothing is claimed of the new time but that
    /// it is the clock's reading; everything else stays.
    pub fn touch(&mut self)
        ensures
            final(self).info_hash == old(self).info_hash,
            final(self).state == old(self).state,
            final(self).output_path == old(self).output_path,
            final(self).created_at == old(self).created_at,
            final(self).session_id == old(self).session_id,
    {
        self.last_activity = now();
    }

    /// Whether the session has been idle for longer than `timeout`, by
    /// the clock's reading at the call.
    pub fn is_stale(&self, timeout: Duration) -> (b: bool)
        requires
            timeout.wf(),
    {
        let idle = elapsed_since(&self.last_activity);
        idle.gt(&timeout)
    }
}

} // verus!
